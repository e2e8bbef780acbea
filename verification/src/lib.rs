//! A verified core for simulating GB28181 devices against an upstream SIP
//! server: message parsing and building, digest authentication, session and
//! statistics bookkeeping, and the decisions of the device's protocol loop.
pub mod codec;
pub mod error;
pub mod fleet;
pub mod num;
pub mod sip;
pub mod stats;
pub mod text;
pub mod zlm_client;
