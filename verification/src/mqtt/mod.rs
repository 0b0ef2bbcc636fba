//! MQTT: the message protocol between the speaker and its broker.

pub mod mqtt;
pub mod msg_protocol;
