//! Verified core of the Bencher services: decisions and computations of the
//! API server, the command line client and the shared data types, with the
//! outside crates they lean on reached through small trusted items.

pub mod adapter_error;
pub mod auth;
pub mod cli_admin;
pub mod perf;
pub mod thresholds;
