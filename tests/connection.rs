use aerospike::connection::{next_open_action, ConnectionState, OpenAction, OpenPhase};

#[test]
fn idle_after_timeout_without_io() {
    let mut c = ConnectionState::new(None, Some(100), 1000);
    assert!(!c.is_idle(1000));
    assert!(!c.is_idle(1099));
    assert!(c.is_idle(1100));
    c.record_write(2000);
    assert!(!c.is_idle(2000));
    assert!(c.is_idle(2100));
    c.record_read(10, 3000);
    assert!(!c.is_idle(3000));
    assert!(!c.is_idle(3099));
    assert!(c.is_idle(3100));
}

#[test]
fn never_idle_without_idle_timeout() {
    let c = ConnectionState::new(Some(5), None, 0);
    assert!(!c.is_idle(u64::MAX));
    assert_eq!(c.timeout(), Some(5));
}

#[test]
fn deadline_saturates() {
    let c = ConnectionState::new(None, Some(10), u64::MAX - 5);
    assert!(!c.is_idle(u64::MAX - 1));
    assert!(c.is_idle(u64::MAX));
}

#[test]
fn bytes_read_and_bookmark() {
    let mut c = ConnectionState::new(None, Some(100), 0);
    c.record_read(8, 1);
    c.record_read(30, 2);
    assert_eq!(c.bytes_read(), 38);
    c.bookmark();
    assert_eq!(c.bytes_read(), 0);
    assert!(!c.is_idle(50));
    c.record_read(4, 60);
    assert_eq!(c.bytes_read(), 4);
}

#[test]
fn opening_steps() {
    assert_eq!(next_open_action(OpenPhase::Connect, true, true, true), OpenAction::Run(OpenPhase::Tls));
    assert_eq!(next_open_action(OpenPhase::Connect, true, false, true), OpenAction::Run(OpenPhase::Authenticate));
    assert_eq!(next_open_action(OpenPhase::Connect, true, false, false), OpenAction::Ready);
    assert_eq!(next_open_action(OpenPhase::Tls, true, true, false), OpenAction::Ready);
    assert_eq!(next_open_action(OpenPhase::Authenticate, true, true, true), OpenAction::Ready);
    assert_eq!(next_open_action(OpenPhase::Connect, false, true, true), OpenAction::Fail(OpenPhase::Connect));
    assert_eq!(next_open_action(OpenPhase::Tls, false, true, true), OpenAction::Fail(OpenPhase::Tls));
    assert_eq!(
        next_open_action(OpenPhase::Authenticate, false, true, true),
        OpenAction::CloseAndFail(OpenPhase::Authenticate)
    );
}
