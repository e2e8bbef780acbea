//! The configuration of one simulated device.
use vstd::prelude::*;

verus! {

/// Who the device is and where it talks. Addresses are held in the text form
/// in which they appear in messages.
pub struct SipConfig {
    /// The local IP address the device is bound to.
    pub local_ip: String,
    /// The local UDP port the device is bound to.
    pub local_port: u16,
    /// The upstream server's socket address, `ip:port`.
    pub sip_server: String,
    /// The upstream server's IP address.
    pub sip_server_ip: String,
    /// The device's 20-digit identifier.
    pub device_id: String,
    /// The identifier of the device's one channel.
    pub channel_id: String,
    /// The SIP domain.
    pub realm: String,
    /// The password for digest authentication.
    pub password: String,
    /// `UDP` or `TCP`.
    pub transport: String,
    /// The upstream server's identifier, when configured.
    pub server_id: Option<String>,
}

} // verus!
