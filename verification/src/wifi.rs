//! The decisions of the loop that keeps the Wi-Fi connection up.

use vstd::prelude::*;

verus! {

/// What the connection loop learns from the Wi-Fi driver.
#[derive(Debug, Clone, Copy, PartialEq, Eq)]
pub enum WifiEvent {
    /// The driver is up.
    Up,
    /// An attempt to connect finished, successfully or not.
    ConnectResult(bool),
    /// The network interface is up.
    NetifUp,
}

/// What the connection loop asks of the Wi-Fi driver next.
#[derive(Debug, Clone, Copy, PartialEq, Eq)]
pub enum WifiAction {
    /// Wait until the driver is up.
    WaitUp,
    /// Try to connect.
    Connect,
    /// Wait until the network interface is up.
    WaitNetifUp,
}

/// The step of the connection loop: once the driver is up, connect; after a
/// connection, wait for the network interface; after a failed attempt, or once
/// the interface is up, wait for the driver again.
pub open spec fn wifi_step(event: WifiEvent) -> WifiAction {
    match event {
        WifiEvent::Up => WifiAction::Connect,
        WifiEvent::ConnectResult(true) => WifiAction::WaitNetifUp,
        WifiEvent::ConnectResult(false) => WifiAction::WaitUp,
        WifiEvent::NetifUp => WifiAction::WaitUp,
    }
}

/// What the connection loop does after `event`.
pub fn wifi_next(event: WifiEvent) -> (a: WifiAction)
    ensures
        a == wifi_step(event),
{
    match event {
        WifiEvent::Up => WifiAction::Connect,
        WifiEvent::ConnectResult(connected) => {
            if connected {
                WifiAction::WaitNetifUp
            } else {
                WifiAction::WaitUp
            }
        },
        WifiEvent::NetifUp => WifiAction::WaitUp,
    }
}

} // verus!
