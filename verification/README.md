# bencher

The decision-making core of the Bencher services, written in Verus.

- `src/auth.rs`: the bearer token of an `Authorization` header (through
  `http::HeaderValue::to_str`), the authentication error messages, and the
  organizations and projects an authenticated user may act on, with the laws
  that hold of them.
- `src/thresholds.rs`: the sample size and window start of a threshold's
  statistic (the window is measured back from the system clock, read through
  `std::time::SystemTime` and `chrono::DateTime`).
- `src/adapter_error.rs`: adapter errors and their messages.
- `src/perf.rs`, `src/cli_admin.rs`: the plain data types of performance
  queries and of the client's `admin` subcommand.
- `app/`: the same types with their `clap`, `serde` and `thiserror` derives,
  and the glue that reads request headers and asks the permission policy.
- `tests/`: tests of the library on concrete values.
