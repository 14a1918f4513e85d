//! Errors of the native gateway client.

use crate::text::{i64_text, int_text};
use vstd::prelude::*;
use vstd::string::*;

verus! {

/// What can go wrong between this process and the gateway.
#[derive(Debug, Clone)]
pub enum NativeError {
    /// The socket failed; the text is the system's description.
    Io(String),
    /// An established connection was lost.
    Lost(String),
    /// No connection is up.
    NotConnected,
    /// The peer broke the protocol.
    Protocol(String),
    /// The server's version, and the least one supported.
    ServerVersionTooLow(i32, i32),
    /// No reply within the handshake's time limit.
    HandshakeTimeout,
    /// A message that cannot be decoded.
    Malformed(String),
}

impl NativeError {
    /// The one-line description of the error.
    pub open spec fn describe(self) -> Seq<char> {
        match self {
            NativeError::Io(s) => "io: "@ + s@,
            NativeError::Lost(s) => "connection lost: "@ + s@,
            NativeError::NotConnected => "not connected"@,
            NativeError::Protocol(s) => "protocol violation: "@ + s@,
            NativeError::ServerVersionTooLow(v, min) => "server version "@ + int_text(v as int)
                + " below minimum supported "@ + int_text(min as int),
            NativeError::HandshakeTimeout => "handshake timed out"@,
            NativeError::Malformed(s) => "malformed message: "@ + s@,
        }
    }

    /// The one-line description of the error.
    pub fn message(&self) -> (r: String)
        ensures
            r@ == self.describe(),
    {
        match self {
            NativeError::Io(s) => prefixed("io: ", s.as_str()),
            NativeError::Lost(s) => prefixed("connection lost: ", s.as_str()),
            NativeError::NotConnected => "not connected".to_owned(),
            NativeError::Protocol(s) => prefixed("protocol violation: ", s.as_str()),
            NativeError::ServerVersionTooLow(v, min) => {
                let mut out = "server version ".to_owned();
                out.append(i64_text(*v as i64).as_str());
                out.append(" below minimum supported ");
                out.append(i64_text(*min as i64).as_str());
                out
            },
            NativeError::HandshakeTimeout => "handshake timed out".to_owned(),
            NativeError::Malformed(s) => prefixed("malformed message: ", s.as_str()),
        }
    }
}

/// One text in front of another.
pub fn prefixed(head: &str, tail: &str) -> (r: String)
    ensures
        r@ == head@ + tail@,
{
    let mut out = head.to_owned();
    out.append(tail);
    out
}

} // verus!
