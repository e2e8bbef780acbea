//! The SIP side of a simulated device.
pub mod config;
pub mod invite;
pub mod keepalive;
pub mod register;
pub mod session;
pub mod state;
pub mod utils;
