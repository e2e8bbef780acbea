//! Errors of message handling.
use vstd::prelude::*;
use crate::num::{dec, push_dec};

verus! {

/// Why a message could not be parsed or produced.
#[derive(Debug, Clone, PartialEq, Eq)]
pub enum SipError {
    /// The message has no first line.
    EmptyMessage,
    /// A header that a reply echoes is absent; the header's name.
    MissingHeader(String),
    /// The session description has no `c=` line.
    NoConnectionLine,
    /// The `c=` line names no address.
    NoAddress,
    /// The session description has no `m=` line.
    NoMediaLine,
    /// The `m=` line has fewer than four fields; the line.
    InvalidMediaLine(String),
    /// The `m=` port field is not an `i32`.
    InvalidMediaPort,
    /// The `m=` port is outside `0..=65535`; the port.
    MediaPortOutOfRange(i32),
    /// An authenticated REGISTER was asked for before any challenge arrived.
    NoChallenge,
    /// The stored challenge has no `nonce` parameter.
    NoNonce,
    /// REGISTER over TCP is not offered.
    TcpUnsupported,
}

/// The decimal numeral of an `i32`, with a leading `-` when negative.
pub open spec fn dec_i32(v: i32) -> Seq<char> {
    if v < 0 {
        "-"@ + dec((-(v as int)) as nat)
    } else {
        dec(v as nat)
    }
}

/// An error as a value of specifications: texts stand as character sequences.
pub enum Fault {
    EmptyMessage,
    MissingHeader(Seq<char>),
    NoConnectionLine,
    NoAddress,
    NoMediaLine,
    InvalidMediaLine(Seq<char>),
    InvalidMediaPort,
    MediaPortOutOfRange(i32),
    NoChallenge,
    NoNonce,
    TcpUnsupported,
}

impl View for SipError {
    type V = Fault;

    open spec fn view(&self) -> Fault {
        match self {
            SipError::EmptyMessage => Fault::EmptyMessage,
            SipError::MissingHeader(name) => Fault::MissingHeader(name@),
            SipError::NoConnectionLine => Fault::NoConnectionLine,
            SipError::NoAddress => Fault::NoAddress,
            SipError::NoMediaLine => Fault::NoMediaLine,
            SipError::InvalidMediaLine(line) => Fault::InvalidMediaLine(line@),
            SipError::InvalidMediaPort => Fault::InvalidMediaPort,
            SipError::MediaPortOutOfRange(p) => Fault::MediaPortOutOfRange(*p),
            SipError::NoChallenge => Fault::NoChallenge,
            SipError::NoNonce => Fault::NoNonce,
            SipError::TcpUnsupported => Fault::TcpUnsupported,
        }
    }
}

/// The text of an error.
pub open spec fn error_text(e: Fault) -> Seq<char> {
    match e {
        Fault::EmptyMessage => "empty message"@,
        Fault::MissingHeader(name) => name + " missing"@,
        Fault::NoConnectionLine => "no c="@,
        Fault::NoAddress => "no ip"@,
        Fault::NoMediaLine => "no m="@,
        Fault::InvalidMediaLine(line) => "invalid m= line: "@ + line,
        Fault::InvalidMediaPort => "invalid media port"@,
        Fault::MediaPortOutOfRange(p) => "invalid media port value: "@ + dec_i32(p),
        Fault::NoChallenge => "no WWW-Authenticate info available, cannot authenticate"@,
        Fault::NoNonce => "no nonce in WWW-Authenticate"@,
        Fault::TcpUnsupported => "TCP transport not supported in GBHub-Stress"@,
    }
}

impl SipError {
    /// The text of this error.
    pub fn message(&self) -> (r: String)
        ensures
            r@ == error_text(self@),
    {
        match self {
            SipError::EmptyMessage => String::from_str("empty message"),
            SipError::MissingHeader(name) => {
                let mut s = name.clone();
                s.append(" missing");
                s
            },
            SipError::NoConnectionLine => String::from_str("no c="),
            SipError::NoAddress => String::from_str("no ip"),
            SipError::NoMediaLine => String::from_str("no m="),
            SipError::InvalidMediaLine(line) => {
                let mut s = String::from_str("invalid m= line: ");
                s.append(line.as_str());
                s
            },
            SipError::InvalidMediaPort => String::from_str("invalid media port"),
            SipError::MediaPortOutOfRange(p) => {
                let mut s = String::from_str("invalid media port value: ");
                let v: i32 = *p;
                if v < 0 {
                    s.append("-");
                    let m: u64 = (0 - (v as i64)) as u64;
                    push_dec(&mut s, m);
                } else {
                    push_dec(&mut s, v as u64);
                }
                s
            },
            SipError::NoChallenge => String::from_str(
                "no WWW-Authenticate info available, cannot authenticate",
            ),
            SipError::NoNonce => String::from_str("no nonce in WWW-Authenticate"),
            SipError::TcpUnsupported => String::from_str("TCP transport not supported in GBHub-Stress"),
        }
    }
}

} // verus!
