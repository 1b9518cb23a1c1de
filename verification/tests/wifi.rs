use relay_control::wifi::{wifi_next, WifiAction, WifiEvent};

#[test]
fn connection_loop_steps() {
    assert_eq!(wifi_next(WifiEvent::Up), WifiAction::Connect);
    assert_eq!(wifi_next(WifiEvent::ConnectResult(true)), WifiAction::WaitNetifUp);
    assert_eq!(wifi_next(WifiEvent::ConnectResult(false)), WifiAction::WaitUp);
    assert_eq!(wifi_next(WifiEvent::NetifUp), WifiAction::WaitUp);
}

#[test]
fn failed_connection_is_retried() {
    let mut action = WifiAction::WaitUp;
    let mut attempts = 0;
    for outcome in [false, false, true] {
        assert_eq!(action, WifiAction::WaitUp);
        action = wifi_next(WifiEvent::Up);
        assert_eq!(action, WifiAction::Connect);
        attempts += 1;
        action = wifi_next(WifiEvent::ConnectResult(outcome));
    }
    assert_eq!(attempts, 3);
    assert_eq!(action, WifiAction::WaitNetifUp);
    assert_eq!(wifi_next(WifiEvent::NetifUp), WifiAction::WaitUp);
}
