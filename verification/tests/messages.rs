use bencher::adapter_error::AdapterError;
use bencher::cli_admin::{CliAdmin, CliAdminRestart, CliBackend, CliConfig, CliConfigView};
use bencher::perf::JsonPerfKind;

#[test]
fn adapter_error_benchmark_units() {
    let e = AdapterError::BenchmarkUnits("ns/iter?".to_string());
    assert_eq!(e.message(), "Failed to parse benchmark units: ns/iter?");
}

#[test]
fn adapter_error_convert() {
    let e = AdapterError::Convert(String::new());
    assert_eq!(e.message(), "Failed to convert results: ");
}

#[test]
fn perf_kind_copies() {
    let k = JsonPerfKind::Memory;
    let c = k;
    assert_eq!(k, c);
    assert_ne!(JsonPerfKind::Latency, JsonPerfKind::Throughput);
}

#[test]
fn admin_arguments_hold_their_fields() {
    let restart = CliAdmin::Restart(CliAdminRestart {
        delay: Some(3),
        backend: CliBackend { host: Some("http://localhost:61016".to_string()), token: None },
    });
    assert!(matches!(restart, CliAdmin::Restart(CliAdminRestart { delay: Some(3), .. })));
    let view = CliAdmin::Config(CliConfig::View(CliConfigView {
        backend: CliBackend { host: None, token: Some("t".to_string()) },
    }));
    assert!(matches!(view, CliAdmin::Config(CliConfig::View(_))));
}
