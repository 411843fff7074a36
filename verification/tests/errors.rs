use std::io;

use sockudo_ws::error::{CloseReason, Error, IoKind};
use sockudo_ws::transport::{Http1, Http2, Http3, Transport};
use sockudo_ws::{Compression, Config};

#[test]
fn test_transport_markers_are_send_sync() {
    fn assert_send_sync<T: Send + Sync>() {}
    assert_send_sync::<Http1>();
    assert_send_sync::<Http2>();
    assert_send_sync::<Http3>();
}

#[test]
fn test_display() {
    assert_eq!(Http1.name(), "HTTP/1.1");
    assert_eq!(Http2.name(), "HTTP/2");
    assert_eq!(Http3.name(), "HTTP/3");
}

#[test]
fn io_errors_are_classified() {
    let of = |kind| Error::from(io::Error::new(kind, "x"));
    assert!(matches!(of(io::ErrorKind::WouldBlock), Error::WouldBlock));
    assert!(matches!(of(io::ErrorKind::ConnectionReset), Error::ConnectionReset));
    assert!(matches!(of(io::ErrorKind::BrokenPipe), Error::ConnectionClosed));
    assert!(matches!(of(io::ErrorKind::UnexpectedEof), Error::ConnectionClosed));
    assert!(matches!(of(io::ErrorKind::NotFound), Error::Io(_)));
    assert!(matches!(
        Error::from_io_kind(IoKind::BrokenPipe, io::Error::new(io::ErrorKind::Other, "x")),
        Error::ConnectionClosed
    ));
}

#[test]
fn errors_become_io_errors() {
    assert_eq!(Error::WouldBlock.into_io_error().kind(), io::ErrorKind::WouldBlock);
    assert_eq!(Error::ConnectionReset.into_io_error().kind(), io::ErrorKind::ConnectionReset);
    assert_eq!(Error::ConnectionClosed.into_io_error().kind(), io::ErrorKind::BrokenPipe);
    let other = Error::InvalidUtf8.into_io_error();
    assert_eq!(other.kind(), io::ErrorKind::Other);
    assert_eq!(other.to_string(), "Invalid UTF-8 in text message");
    let io = Error::Io(io::Error::new(io::ErrorKind::NotFound, "gone")).into_io_error();
    assert_eq!(io.kind(), io::ErrorKind::NotFound);
}

#[test]
fn io_errors_survive_a_round_trip() {
    for kind in [io::ErrorKind::WouldBlock, io::ErrorKind::ConnectionReset, io::ErrorKind::BrokenPipe] {
        let back = Error::from(io::Error::new(kind, "x")).into_io_error();
        assert_eq!(back.kind(), kind);
    }
}

#[test]
fn errors_have_a_text() {
    let texts = [
        (Error::Io(io::Error::new(io::ErrorKind::Other, "disk")), "I/O error: disk"),
        (Error::InvalidFrame("opcode"), "Invalid frame: opcode"),
        (Error::InvalidUtf8, "Invalid UTF-8 in text message"),
        (Error::Protocol("bad"), "Protocol error: bad"),
        (Error::ConnectionClosed, "Connection closed"),
        (Error::MessageTooLarge, "Message too large"),
        (Error::FrameTooLarge, "Frame too large"),
        (Error::InvalidHttp("line"), "Invalid HTTP: line"),
        (Error::HandshakeFailed("key"), "Handshake failed: key"),
        (Error::BufferFull, "Buffer full"),
        (Error::WouldBlock, "Would block"),
        (Error::ConnectionReset, "Connection reset by peer"),
        (Error::InvalidState("now"), "Invalid state: now"),
        (Error::Closed(Some(CloseReason::new(1001, "bye"))), "Connection closed: 1001 (bye)"),
        (Error::Closed(None), "Connection closed"),
        (Error::InvalidCloseCode(999), "Invalid close code: 999"),
        (Error::Capacity("queue"), "Capacity exceeded: queue"),
        (Error::Compression("zlib".to_string()), "Compression error: zlib"),
        (Error::HeartbeatTimeout, "Heartbeat timeout"),
        (Error::IdleTimeout, "Idle timeout"),
        (Error::ExtendedConnectNotSupported, "Extended CONNECT not supported"),
    ];
    for (error, text) in texts {
        assert_eq!(error.message(), text);
    }
}

#[test]
fn close_codes() {
    for code in [1000, 1001, 1002, 1003, 1007, 1008, 1009, 1010, 1011, 3000, 4999] {
        assert!(CloseReason::is_valid_code(code), "{}", code);
    }
    for code in [0, 999, 1004, 1005, 1006, 1015, 2999, 5000] {
        assert!(!CloseReason::is_valid_code(code), "{}", code);
    }
}

#[test]
fn configurations() {
    let config = Config::builder().max_message_size(5).max_frame_size(6).write_buffer_size(7).build();
    assert_eq!(config.max_message_size, 5);
    assert_eq!(config.max_frame_size, 6);
    assert_eq!(config.write_buffer_size, 7);
    assert_eq!(Config::default().max_message_size, 64 * 1024 * 1024);
    assert!(!Compression::default().is_enabled());
    assert!(Compression::Shared4KB.is_enabled());

    let config = Config::builder().max_payload_length(8).idle_timeout(9).auto_ping(false).build();
    assert_eq!((config.max_message_size, config.max_frame_size), (8, 8));
    assert_eq!((config.idle_timeout, config.auto_ping), (9, false));

    let uws = Config::uws_defaults();
    assert_eq!((uws.max_message_size, uws.max_frame_size), (16 * 1024, 16 * 1024));
    assert_eq!((uws.compression, uws.idle_timeout), (Compression::Shared, 10));
}
