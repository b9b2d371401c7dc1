use nginx_metrics::guard::{PanicGuard, EXIT_STATUS};

#[test]
fn guard_exits_only_on_panic() {
    let guard = PanicGuard::new();
    assert_eq!(guard.exit_status(true), Some(1));
    assert_eq!(guard.exit_status(false), None);
    assert_eq!(EXIT_STATUS, 1);
}
