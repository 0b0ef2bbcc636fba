//! Verified core of the ESpeaker firmware: the data handling, protocol
//! and state logic of the speaker, free of any hardware access.

pub mod audio;
pub mod board;
pub mod boot;
pub mod bounded;
pub mod button;
pub mod config;
pub mod led;
pub mod mqtt;
pub mod nvs;
pub mod rtc;
pub mod text;
pub mod time;
pub mod wifi;
