use relay_control::session::{mqtt_next, MqttAction, MqttEvent, MqttStep};

#[test]
fn mqtt_loop_steps() {
    assert_eq!(mqtt_next(MqttEvent::Subscribed(false)), MqttStep { wait_secs: 1, action: MqttAction::Subscribe });
    assert_eq!(
        mqtt_next(MqttEvent::Subscribed(true)),
        MqttStep { wait_secs: 1, action: MqttAction::StartReadings }
    );
    assert_eq!(
        mqtt_next(MqttEvent::Published(true)),
        MqttStep { wait_secs: 2, action: MqttAction::PublishReading }
    );
    assert_eq!(mqtt_next(MqttEvent::Published(false)), MqttStep { wait_secs: 0, action: MqttAction::Stop });
}

#[test]
fn subscription_is_retried_until_it_succeeds() {
    let mut action = MqttAction::Subscribe;
    let mut waited = 0;
    for ok in [false, false, false, true] {
        assert_eq!(action, MqttAction::Subscribe);
        let step = mqtt_next(MqttEvent::Subscribed(ok));
        waited += step.wait_secs;
        action = step.action;
    }
    assert_eq!(action, MqttAction::StartReadings);
    assert_eq!(waited, 4);
}
