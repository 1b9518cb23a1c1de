//! The decisions of the MQTT loop: subscribe to the topic until that succeeds,
//! then publish a sensor reading every two seconds until publishing fails.

use vstd::prelude::*;

verus! {

/// What the MQTT loop learns from the client.
#[derive(Debug, Clone, Copy, PartialEq, Eq)]
pub enum MqttEvent {
    /// A subscription to the topic was asked for, successfully or not.
    Subscribed(bool),
    /// A reading was queued for publishing, successfully or not.
    Published(bool),
}

/// What the MQTT loop does next.
#[derive(Debug, Clone, Copy, PartialEq, Eq)]
pub enum MqttAction {
    /// Subscribe to the topic.
    Subscribe,
    /// Set up the sensor and publish its first reading.
    StartReadings,
    /// Publish the next reading.
    PublishReading,
    /// End the loop with the client's error.
    Stop,
}

/// An action, and the seconds to wait before it.
#[derive(Debug, Clone, Copy, PartialEq, Eq)]
pub struct MqttStep {
    pub wait_secs: u64,
    pub action: MqttAction,
}

/// The step of the MQTT loop: a failed subscription is retried after a second;
/// a successful one starts the readings after a second; each queued reading is
/// followed by the next after two seconds; a failure to queue ends the loop.
pub open spec fn mqtt_step(event: MqttEvent) -> MqttStep {
    match event {
        MqttEvent::Subscribed(false) => MqttStep { wait_secs: 1, action: MqttAction::Subscribe },
        MqttEvent::Subscribed(true) => MqttStep { wait_secs: 1, action: MqttAction::StartReadings },
        MqttEvent::Published(true) => MqttStep { wait_secs: 2, action: MqttAction::PublishReading },
        MqttEvent::Published(false) => MqttStep { wait_secs: 0, action: MqttAction::Stop },
    }
}

/// What the MQTT loop does after `event`.
pub fn mqtt_next(event: MqttEvent) -> (s: MqttStep)
    ensures
        s == mqtt_step(event),
{
    match event {
        MqttEvent::Subscribed(ok) => {
            if ok {
                MqttStep { wait_secs: 1, action: MqttAction::StartReadings }
            } else {
                MqttStep { wait_secs: 1, action: MqttAction::Subscribe }
            }
        },
        MqttEvent::Published(ok) => {
            if ok {
                MqttStep { wait_secs: 2, action: MqttAction::PublishReading }
            } else {
                MqttStep { wait_secs: 0, action: MqttAction::Stop }
            }
        },
    }
}

} // verus!
