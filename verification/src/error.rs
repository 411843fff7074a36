//! Errors and close reasons.

use crate::text;
use vstd::prelude::*;
use vstd::std_specs::convert::FromSpecImpl;
use vstd::string::*;

verus! {

/// The operating system's error, carried through unchanged.
#[verifier::external_type_specification]
#[verifier::external_body]
pub struct ExIoError(std::io::Error);

/// The kinds of I/O error that the library tells apart.
#[derive(Debug, Clone, Copy, PartialEq, Eq, Structural)]
pub enum IoKind {
    /// The operation would block.
    WouldBlock,
    /// The peer reset the connection.
    ConnectionReset,
    /// The peer closed the receiving side.
    BrokenPipe,
    /// The stream ended early.
    UnexpectedEof,
    /// Anything else.
    Other,
}

/// The kind that `std::io::Error::kind` reports for an error.
pub uninterp spec fn io_kind(e: std::io::Error) -> IoKind;

/// Reads the kind of an I/O error with `std::io::Error::kind`.
///
/// The kind of a given error never changes, so it has a name, `io_kind`.
#[verifier::external_body]
pub(crate) fn kind_of(e: &std::io::Error) -> (r: IoKind)
    ensures
        r == io_kind(*e),
{
    match e.kind() {
        std::io::ErrorKind::WouldBlock => IoKind::WouldBlock,
        std::io::ErrorKind::ConnectionReset => IoKind::ConnectionReset,
        std::io::ErrorKind::BrokenPipe => IoKind::BrokenPipe,
        std::io::ErrorKind::UnexpectedEof => IoKind::UnexpectedEof,
        _ => IoKind::Other,
    }
}

/// The text of the payload that an I/O error carries, where it carries one. It is
/// what `std::io::Error::get_ref` lends.
pub uninterp spec fn payload_text(e: std::io::Error) -> Option<Seq<char>>;

/// Builds an I/O error with `std::io::Error::new`: its kind is the one asked for,
/// and its payload is the given text.
#[verifier::external_body]
pub(crate) fn new_io_error(kind: IoKind, message: &str) -> (r: std::io::Error)
    ensures
        io_kind(r) == kind,
        payload_text(r) == Some(message@),
{
    let kind = match kind {
        IoKind::WouldBlock => std::io::ErrorKind::WouldBlock,
        IoKind::ConnectionReset => std::io::ErrorKind::ConnectionReset,
        IoKind::BrokenPipe => std::io::ErrorKind::BrokenPipe,
        IoKind::UnexpectedEof => std::io::ErrorKind::UnexpectedEof,
        IoKind::Other => std::io::ErrorKind::Other,
    };
    std::io::Error::new(kind, message.to_string())
}

/// The text of an I/O error, as its `Display` writes it.
///
/// The text may come from the operating system, so nothing is said of it.
#[verifier::external_body]
pub(crate) fn io_error_text(e: &std::io::Error) -> (r: String) {
    e.to_string()
}

/// Whether `t` is a text that the `Display` of an I/O error wrote.
pub closed spec fn is_io_text(e: std::io::Error, t: Seq<char>) -> bool {
    exists|s: String| #[trigger] call_ensures(io_error_text, (&e,), s) && s@ == t
}

/// Writes an I/O error with `write`.
fn text_from<F: Fn(&std::io::Error) -> String>(write: F, e: &std::io::Error) -> (r: String)
    requires
        call_requires(write, (e,)),
    ensures
        call_ensures(write, (e,), r),
{
    write(e)
}

/// WebSocket errors.
#[derive(Debug)]
pub enum Error {
    /// I/O error from the underlying socket.
    Io(std::io::Error),
    /// Invalid WebSocket frame.
    InvalidFrame(&'static str),
    /// Invalid UTF-8 in a text message.
    InvalidUtf8,
    /// Protocol violation.
    Protocol(&'static str),
    /// Connection closed normally.
    ConnectionClosed,
    /// Message too large.
    MessageTooLarge,
    /// Frame too large.
    FrameTooLarge,
    /// Invalid HTTP request.
    InvalidHttp(&'static str),
    /// Handshake failed.
    HandshakeFailed(&'static str),
    /// Buffer full (backpressure).
    BufferFull,
    /// Would block (non-blocking I/O).
    WouldBlock,
    /// Connection reset by the peer.
    ConnectionReset,
    /// Invalid state.
    InvalidState(&'static str),
    /// Close frame received.
    Closed(Option<CloseReason>),
    /// Invalid close code.
    InvalidCloseCode(u16),
    /// Capacity exceeded.
    Capacity(&'static str),
    /// Compression or decompression error.
    Compression(String),
    /// No Pong arrived in time.
    HeartbeatTimeout,
    /// Nothing arrived for the idle timeout.
    IdleTimeout,
    /// The server does not support Extended CONNECT.
    ExtendedConnectNotSupported,
}

/// Close frame reason.
#[derive(Debug, Clone)]
pub struct CloseReason {
    /// Close status code.
    pub code: u16,
    /// Reason text, possibly empty.
    pub reason: String,
}

impl CloseReason {
    /// Normal closure.
    pub const NORMAL: u16 = 1000;

    /// Going away (e.g. server shutdown).
    pub const GOING_AWAY: u16 = 1001;

    /// Protocol error.
    pub const PROTOCOL_ERROR: u16 = 1002;

    /// Unsupported data.
    pub const UNSUPPORTED: u16 = 1003;

    /// No status received.
    pub const NO_STATUS: u16 = 1005;

    /// Abnormal closure.
    pub const ABNORMAL: u16 = 1006;

    /// Invalid frame payload.
    pub const INVALID_PAYLOAD: u16 = 1007;

    /// Policy violation.
    pub const POLICY: u16 = 1008;

    /// Message too big.
    pub const TOO_BIG: u16 = 1009;

    /// Mandatory extension.
    pub const EXTENSION: u16 = 1010;

    /// Internal server error.
    pub const INTERNAL: u16 = 1011;

    /// Creates a close reason.
    pub fn new(code: u16, reason: &str) -> (r: Self)
        ensures
            r.code == code,
            r.reason@ == reason@,
    {
        CloseReason { code, reason: reason.to_owned() }
    }

    /// Whether an endpoint may send `code` (RFC 6455).
    pub fn is_valid_code(code: u16) -> (r: bool)
        ensures
            r == valid_close_code(code),
    {
        (1000 <= code && code <= 1003) || (1007 <= code && code <= 1011) || (3000 <= code && code
            <= 4999)
    }
}

/// The close codes that may appear on the wire.
pub open spec fn valid_close_code(code: u16) -> bool {
    ||| 1000 <= code <= 1003
    ||| 1007 <= code <= 1011
    ||| 3000 <= code <= 4999
}

/// The library's error for an I/O error of a given kind.
pub open spec fn error_of_kind(kind: IoKind, e: std::io::Error) -> Error {
    match kind {
        IoKind::WouldBlock => Error::WouldBlock,
        IoKind::ConnectionReset => Error::ConnectionReset,
        IoKind::BrokenPipe => Error::ConnectionClosed,
        IoKind::UnexpectedEof => Error::ConnectionClosed,
        IoKind::Other => Error::Io(e),
    }
}

/// The kind of the I/O error that stands for a library error.
pub open spec fn kind_of_error(e: Error) -> IoKind {
    match e {
        Error::Io(inner) => io_kind(inner),
        Error::WouldBlock => IoKind::WouldBlock,
        Error::ConnectionReset => IoKind::ConnectionReset,
        Error::ConnectionClosed => IoKind::BrokenPipe,
        _ => IoKind::Other,
    }
}

impl Error {
    /// Classifies an I/O error whose kind is already known.
    pub fn from_io_kind(kind: IoKind, e: std::io::Error) -> (r: Error)
        ensures
            r == error_of_kind(kind, e),
    {
        match kind {
            IoKind::WouldBlock => Error::WouldBlock,
            IoKind::ConnectionReset => Error::ConnectionReset,
            IoKind::BrokenPipe => Error::ConnectionClosed,
            IoKind::UnexpectedEof => Error::ConnectionClosed,
            IoKind::Other => Error::Io(e),
        }
    }

    /// Turns the error into an I/O error.
    pub fn into_io_error(self) -> (r: std::io::Error)
        ensures
            io_kind(r) == kind_of_error(self),
            match self {
                Error::Io(inner) => r == inner,
                Error::WouldBlock => payload_text(r) == Some("would block"@),
                Error::ConnectionReset => payload_text(r) == Some("connection reset"@),
                Error::ConnectionClosed => payload_text(r) == Some("connection closed"@),
                _ => payload_text(r) == Some(error_text(self)),
            },
    {
        match self {
            Error::Io(inner) => inner,
            Error::WouldBlock => new_io_error(IoKind::WouldBlock, "would block"),
            Error::ConnectionReset => new_io_error(IoKind::ConnectionReset, "connection reset"),
            Error::ConnectionClosed => new_io_error(IoKind::BrokenPipe, "connection closed"),
            other => {
                let message = other.message();
                new_io_error(IoKind::Other, message.as_str())
            },
        }
    }

    /// The error as text.
    pub fn message(&self) -> (r: String)
        ensures
            match *self {
                Error::Io(e) => exists|t: Seq<char>| #[trigger]
                    is_io_text(e, t) && r@ == "I/O error: "@ + t,
                _ => r@ == error_text(*self),
            },
    {
        match self {
            Error::Io(e) => {
                let text = text_from(io_error_text, e);
                assert(is_io_text(*e, text@));
                joined("I/O error: ", text.as_str())
            },
            Error::InvalidFrame(msg) => joined("Invalid frame: ", msg),
            Error::InvalidUtf8 => "Invalid UTF-8 in text message".to_owned(),
            Error::Protocol(msg) => joined("Protocol error: ", msg),
            Error::ConnectionClosed => "Connection closed".to_owned(),
            Error::MessageTooLarge => "Message too large".to_owned(),
            Error::FrameTooLarge => "Frame too large".to_owned(),
            Error::InvalidHttp(msg) => joined("Invalid HTTP: ", msg),
            Error::HandshakeFailed(msg) => joined("Handshake failed: ", msg),
            Error::BufferFull => "Buffer full".to_owned(),
            Error::WouldBlock => "Would block".to_owned(),
            Error::ConnectionReset => "Connection reset by peer".to_owned(),
            Error::InvalidState(msg) => joined("Invalid state: ", msg),
            Error::Closed(reason) => match reason {
                Some(c) => {
                    let mut s = joined(
                        "Connection closed: ",
                        text::u64_to_decimal(c.code as u64).as_str(),
                    );
                    s.append(" (");
                    s.append(c.reason.as_str());
                    s.append(")");
                    s
                },
                None => "Connection closed".to_owned(),
            },
            Error::InvalidCloseCode(code) => joined(
                "Invalid close code: ",
                text::u64_to_decimal(*code as u64).as_str(),
            ),
            Error::Capacity(msg) => joined("Capacity exceeded: ", msg),
            Error::Compression(msg) => joined("Compression error: ", msg.as_str()),
            Error::HeartbeatTimeout => "Heartbeat timeout".to_owned(),
            Error::IdleTimeout => "Idle timeout".to_owned(),
            Error::ExtendedConnectNotSupported => "Extended CONNECT not supported".to_owned(),
        }
    }
}

/// The text of every error but an I/O error.
pub open spec fn error_text(e: Error) -> Seq<char> {
    match e {
        Error::Io(_) => seq![],
        Error::InvalidFrame(msg) => "Invalid frame: "@ + msg@,
        Error::InvalidUtf8 => "Invalid UTF-8 in text message"@,
        Error::Protocol(msg) => "Protocol error: "@ + msg@,
        Error::ConnectionClosed => "Connection closed"@,
        Error::MessageTooLarge => "Message too large"@,
        Error::FrameTooLarge => "Frame too large"@,
        Error::InvalidHttp(msg) => "Invalid HTTP: "@ + msg@,
        Error::HandshakeFailed(msg) => "Handshake failed: "@ + msg@,
        Error::BufferFull => "Buffer full"@,
        Error::WouldBlock => "Would block"@,
        Error::ConnectionReset => "Connection reset by peer"@,
        Error::InvalidState(msg) => "Invalid state: "@ + msg@,
        Error::Closed(reason) => match reason {
            Some(c) => "Connection closed: "@ + text::decimal(c.code as nat) + " ("@ + c.reason@
                + ")"@,
            None => "Connection closed"@,
        },
        Error::InvalidCloseCode(code) => "Invalid close code: "@ + text::decimal(code as nat),
        Error::Capacity(msg) => "Capacity exceeded: "@ + msg@,
        Error::Compression(msg) => "Compression error: "@ + msg@,
        Error::HeartbeatTimeout => "Heartbeat timeout"@,
        Error::IdleTimeout => "Idle timeout"@,
        Error::ExtendedConnectNotSupported => "Extended CONNECT not supported"@,
    }
}

/// `a` followed by `b`.
fn joined(a: &str, b: &str) -> (r: String)
    ensures
        r@ == a@ + b@,
{
    let mut s = a.to_owned();
    s.append(b);
    s
}

impl From<std::io::Error> for Error {
    fn from(e: std::io::Error) -> (r: Self) {
        Error::from_io_kind(kind_of(&e), e)
    }
}

impl FromSpecImpl<std::io::Error> for Error {
    open spec fn obeys_from_spec() -> bool {
        true
    }

    open spec fn from_spec(e: std::io::Error) -> Self {
        error_of_kind(io_kind(e), e)
    }
}

/// Classifying an I/O error and turning the result back keeps its kind, except
/// that an early end of the stream comes back as a broken pipe.
pub proof fn law_io_round_trip(e: std::io::Error)
    ensures
        kind_of_error(error_of_kind(io_kind(e), e)) == (if io_kind(e) == IoKind::UnexpectedEof {
            IoKind::BrokenPipe
        } else {
            io_kind(e)
        }),
{
}

/// The close codes that may be sent are those from 1000 to 4999 but for the ones that
/// are reserved or must not be sent: 1004 to 1006, and 1012 to 2999.
pub proof fn law_close_codes(code: u16)
    ensures
        valid_close_code(code) <==> 1000 <= code < 5000 && !(1004 <= code < 1007) && !(1012 <= code
            < 3000),
{
}

/// Whether a text ends with another.
pub open spec fn ends_with(s: Seq<char>, end: Seq<char>) -> bool {
    end.len() <= s.len() && s.skip(s.len() - end.len()) == end
}

/// The text of an error ends with the detail that it carries, behind what kind of
/// error it is.
pub proof fn law_error_text_tells_the_detail(detail: &'static str, text: String)
    ensures
        ends_with(error_text(Error::InvalidFrame(detail)), detail@),
        ends_with(error_text(Error::Protocol(detail)), detail@),
        ends_with(error_text(Error::InvalidHttp(detail)), detail@),
        ends_with(error_text(Error::HandshakeFailed(detail)), detail@),
        ends_with(error_text(Error::InvalidState(detail)), detail@),
        ends_with(error_text(Error::Capacity(detail)), detail@),
        ends_with(error_text(Error::Compression(text)), text@),
        error_text(Error::InvalidFrame(detail)) == "Invalid frame: "@ + detail@,
        error_text(Error::Protocol(detail)) == "Protocol error: "@ + detail@,
        error_text(Error::InvalidHttp(detail)) == "Invalid HTTP: "@ + detail@,
        error_text(Error::HandshakeFailed(detail)) == "Handshake failed: "@ + detail@,
        error_text(Error::InvalidState(detail)) == "Invalid state: "@ + detail@,
        error_text(Error::Capacity(detail)) == "Capacity exceeded: "@ + detail@,
        error_text(Error::Compression(text)) == "Compression error: "@ + text@,
{
    lemma_ends_with("Invalid frame: "@, detail@);
    lemma_ends_with("Protocol error: "@, detail@);
    lemma_ends_with("Invalid HTTP: "@, detail@);
    lemma_ends_with("Handshake failed: "@, detail@);
    lemma_ends_with("Invalid state: "@, detail@);
    lemma_ends_with("Capacity exceeded: "@, detail@);
    lemma_ends_with("Compression error: "@, text@);
}

/// A text ends with what was put behind it.
proof fn lemma_ends_with(a: Seq<char>, b: Seq<char>)
    ensures
        ends_with(a + b, b),
{
    assert((a + b).skip(a.len() as int) =~= b);
}

/// An I/O error that the library knows becomes its own error, and that becomes one of
/// the same kind again, but for an early end, which is a closed connection.
pub proof fn law_io_kinds(e: std::io::Error)
    ensures
        error_of_kind(IoKind::WouldBlock, e) == Error::WouldBlock,
        error_of_kind(IoKind::ConnectionReset, e) == Error::ConnectionReset,
        error_of_kind(IoKind::BrokenPipe, e) == Error::ConnectionClosed,
        error_of_kind(IoKind::UnexpectedEof, e) == Error::ConnectionClosed,
        error_of_kind(IoKind::Other, e) == Error::Io(e),
        kind_of_error(Error::Io(e)) == io_kind(e),
        kind_of_error(Error::WouldBlock) == IoKind::WouldBlock,
        kind_of_error(Error::ConnectionReset) == IoKind::ConnectionReset,
        kind_of_error(Error::ConnectionClosed) == IoKind::BrokenPipe,
        kind_of_error(Error::MessageTooLarge) == IoKind::Other,
{
}

/// The errors without a detail have texts of their own.
pub proof fn law_error_texts(code: u16, reason: CloseReason)
    ensures
        error_text(Error::InvalidUtf8) == "Invalid UTF-8 in text message"@,
        error_text(Error::ConnectionClosed) == "Connection closed"@,
        error_text(Error::MessageTooLarge) == "Message too large"@,
        error_text(Error::FrameTooLarge) == "Frame too large"@,
        error_text(Error::BufferFull) == "Buffer full"@,
        error_text(Error::WouldBlock) == "Would block"@,
        error_text(Error::ConnectionReset) == "Connection reset by peer"@,
        error_text(Error::HeartbeatTimeout) == "Heartbeat timeout"@,
        error_text(Error::IdleTimeout) == "Idle timeout"@,
        error_text(Error::ExtendedConnectNotSupported) == "Extended CONNECT not supported"@,
        error_text(Error::Closed(None)) == error_text(Error::ConnectionClosed),
        error_text(Error::InvalidCloseCode(code)) == "Invalid close code: "@ + text::decimal(
            code as nat,
        ),
        error_text(Error::Closed(Some(reason))) == "Connection closed: "@ + text::decimal(
            reason.code as nat,
        ) + " ("@ + reason.reason@ + ")"@,
{
}

/// The close codes that are named are those of RFC 6455; all but the two that stand for
/// the lack of a code may be sent.
pub proof fn law_named_close_codes()
    ensures
        CloseReason::NORMAL == 1000,
        CloseReason::GOING_AWAY == 1001,
        CloseReason::PROTOCOL_ERROR == 1002,
        CloseReason::UNSUPPORTED == 1003,
        CloseReason::NO_STATUS == 1005,
        CloseReason::ABNORMAL == 1006,
        CloseReason::INVALID_PAYLOAD == 1007,
        CloseReason::POLICY == 1008,
        CloseReason::TOO_BIG == 1009,
        CloseReason::EXTENSION == 1010,
        CloseReason::INTERNAL == 1011,
        !valid_close_code(CloseReason::NO_STATUS),
        !valid_close_code(CloseReason::ABNORMAL),
        valid_close_code(CloseReason::NORMAL),
        valid_close_code(CloseReason::INTERNAL),
{
}

} // verus!
