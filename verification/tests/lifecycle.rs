use kod_core::lifecycle::{Lifecycle, LifecycleError};

#[test]
fn the_engine_starts_once_and_shuts_down_once() {
    let mut l = Lifecycle::new();
    assert!(!l.is_running());
    assert_eq!(l.require_running(), Err(LifecycleError::NotRunning));
    assert_eq!(l.start(), Ok(()));
    assert!(l.is_running());
    assert_eq!(l.require_running(), Ok(()));
    assert_eq!(l.start(), Err(LifecycleError::AlreadyRunning));
    assert!(l.shutdown());
    assert!(!l.is_running());
    assert!(!l.shutdown());
    assert!(!l.is_running());
}

#[test]
fn lifecycle_errors_read_as_the_engine_reports_them() {
    assert_eq!(LifecycleError::AlreadyRunning.message(), "Engine already running");
    assert_eq!(LifecycleError::NotRunning.message(), "Engine not running");
}
