//! Scheduling logic for a controller that switches four relays and a status
//! LED by month, weekday and time of day, plus the parsing of the MQTT
//! messages that reconfigure it.

pub mod clock;
pub mod message;
pub mod relay;
pub mod schedule;
pub mod session;
pub mod wifi;
