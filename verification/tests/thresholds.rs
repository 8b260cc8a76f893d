use bencher::thresholds::{unwrap_sample_size, unwrap_window, window_start};

#[test]
fn sample_size_stored() {
    assert_eq!(unwrap_sample_size(Some(30)), 30);
    assert_eq!(unwrap_sample_size(Some(-1)), -1);
}

#[test]
fn sample_size_unlimited() {
    assert_eq!(unwrap_sample_size(None), i64::MAX);
}

#[test]
fn window_start_values() {
    assert_eq!(window_start(1_000, None), Some(0));
    assert_eq!(window_start(1_000, Some(300)), Some(700));
    assert_eq!(window_start(1_000, Some(-5)), Some(1_005));
    assert_eq!(window_start(i64::MIN, Some(1)), None);
    assert_eq!(window_start(i64::MAX, Some(-1)), None);
}

#[test]
fn unwrap_window_without_window() {
    assert_eq!(unwrap_window(None), Some(0));
}

#[test]
fn unwrap_window_reads_the_clock() {
    let before = chrono::Utc::now().timestamp_nanos_opt().unwrap();
    let start = unwrap_window(Some(1_000_000_000)).unwrap();
    let after = chrono::Utc::now().timestamp_nanos_opt().unwrap();
    assert!(before - 1_000_000_000 <= start);
    assert!(start <= after - 1_000_000_000);
}

#[test]
fn unwrap_window_overflow() {
    assert_eq!(unwrap_window(Some(i64::MIN)), None);
}
