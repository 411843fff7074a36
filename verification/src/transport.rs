//! Markers for the HTTP versions that a WebSocket can be opened over.

use vstd::prelude::*;

verus! {

/// HTTP/1.1 (RFC 6455).
#[derive(Debug, Clone, Copy, PartialEq, Eq, Hash, Structural)]
pub struct Http1;

/// HTTP/2 (RFC 8441).
#[derive(Debug, Clone, Copy, PartialEq, Eq, Hash, Structural)]
pub struct Http2;

/// HTTP/3 (RFC 9220).
#[derive(Debug, Clone, Copy, PartialEq, Eq, Hash, Structural)]
pub struct Http3;

/// Closes the set of transports.
pub trait Sealed {

}

impl Sealed for Http1 {

}

impl Sealed for Http2 {

}

impl Sealed for Http3 {

}

/// A transport marker.
pub trait Transport: Sealed + Copy + Send + Sync + 'static {
    /// The name of the protocol.
    spec fn protocol_name() -> Seq<char>;

    /// The name of the protocol.
    fn name(&self) -> (r: &'static str)
        ensures
            r@ == Self::protocol_name(),
    ;
}

impl Transport for Http1 {
    open spec fn protocol_name() -> Seq<char> {
        "HTTP/1.1"@
    }

    fn name(&self) -> (r: &'static str) {
        "HTTP/1.1"
    }
}

impl Transport for Http2 {
    open spec fn protocol_name() -> Seq<char> {
        "HTTP/2"@
    }

    fn name(&self) -> (r: &'static str) {
        "HTTP/2"
    }
}

impl Transport for Http3 {
    open spec fn protocol_name() -> Seq<char> {
        "HTTP/3"@
    }

    fn name(&self) -> (r: &'static str) {
        "HTTP/3"
    }
}

/// Each transport is named after its version of HTTP.
pub proof fn law_transports_are_told_apart()
    ensures
        Http1::protocol_name() == "HTTP/1.1"@,
        Http2::protocol_name() == "HTTP/2"@,
        Http3::protocol_name() == "HTTP/3"@,
{
}

} // verus!
