//! WebSocket building blocks with machine-checked behaviour.
//!
//! The library holds what a WebSocket implementation decides and computes: the
//! opening handshake over HTTP/1.1, HTTP/2 and HTTP/3, permessage-deflate,
//! masking, UTF-8 validation, write batching, buffers, queues,
//! publish/subscribe, and the state machines of a connection. Reading and
//! writing sockets is left to the program around it.

pub mod axum_integration;
pub mod buffers;
pub mod clock;
pub mod codec;
pub mod compio;
pub mod compio_laws;
pub mod connect_laws;
pub mod cork;
pub mod dash;
pub mod deflate;
pub mod deflate_laws;
pub mod error;
pub mod extended_connect;
pub mod handshake;
pub mod handshake_laws;
pub mod headers;
pub mod headers_laws;
pub mod http2;
pub mod http3;
pub mod http_text;
pub mod io_uring;
pub mod mask;
pub mod opening;
pub mod pool;
pub mod protocol;
pub mod pubsub;
pub mod queue;
pub mod receive;
pub mod request_laws;
pub mod simd;
pub mod split;
pub mod split_laws;
pub mod stream;
pub mod stream_laws;
pub mod text;
pub mod text_laws;
pub mod transport;
pub mod utf8;
pub mod zlib;

pub use crate::deflate::{DeflateConfig, DeflateContext};
pub use crate::error::Error;
pub use crate::protocol::{Message, Role};
pub use crate::split::SplitReader;
pub use crate::stream::WebSocketStream;
use vstd::prelude::*;

verus! {

/// Cache line size of current CPUs.
pub const CACHE_LINE_SIZE: usize = 64;

/// Default cork buffer size (16 KiB).
pub const CORK_BUFFER_SIZE: usize = 16 * 1024;

/// Default receive buffer size (64 KiB).
pub const RECV_BUFFER_SIZE: usize = 64 * 1024;

/// Maximum frame header size: 2 bytes, 8 of length, 4 of mask.
pub const MAX_FRAME_HEADER_SIZE: usize = 14;

/// Payloads up to this size have a 2-byte header.
pub const SMALL_MESSAGE_THRESHOLD: usize = 125;

/// Payloads up to this size have a 4-byte header.
pub const MEDIUM_MESSAGE_THRESHOLD: usize = 65535;

/// The GUID that RFC 6455 appends to a handshake key.
pub const WS_GUID: &'static str = "258EAFA5-E914-47DA-95CA-C5AB0DC85B11";

/// Compression mode of a connection.
#[derive(Debug, Clone, Copy, PartialEq, Eq, Structural)]
pub enum Compression {
    /// No compression.
    Disabled,
    /// A compressor per connection.
    Dedicated,
    /// A compressor shared across connections.
    Shared,
    /// A shared compressor with a 4 KiB window.
    Shared4KB,
    /// A shared compressor with an 8 KiB window.
    Shared8KB,
    /// A shared compressor with a 16 KiB window.
    Shared16KB,
}

impl Default for Compression {
    fn default() -> (r: Self)
        ensures
            r == Compression::Disabled,
    {
        Compression::Disabled
    }
}

impl Compression {
    /// Whether compression is enabled.
    pub fn is_enabled(&self) -> (r: bool)
        ensures
            r == (*self != Compression::Disabled),
    {
        match self {
            Compression::Disabled => false,
            _ => true,
        }
    }
}

/// Configuration of a connection.
#[derive(Debug, Clone, Copy, PartialEq, Eq, Structural)]
pub struct Config {
    /// Maximum message size (default: 64 MiB).
    pub max_message_size: usize,
    /// Maximum frame size (default: 16 MiB).
    pub max_frame_size: usize,
    /// Write buffer size for corking (default: 16 KiB).
    pub write_buffer_size: usize,
    /// Compression mode (default: disabled).
    pub compression: Compression,
    /// Idle timeout in seconds (default: 120, 0 = disabled).
    pub idle_timeout: u32,
    /// Maximum backpressure in bytes (default: 1 MiB). A connection with more
    /// pending for its socket is closed.
    pub max_backpressure: usize,
    /// Whether pings are sent automatically (default: true).
    pub auto_ping: bool,
    /// Ping interval in seconds (default: 30).
    pub ping_interval: u32,
    /// The permessage-deflate settings that a server answers offers with
    /// (default: none).
    pub deflate: Option<DeflateConfig>,
}

/// The default configuration.
pub open spec fn default_config() -> Config {
    Config {
        max_message_size: 67108864,
        max_frame_size: 16777216,
        write_buffer_size: CORK_BUFFER_SIZE,
        compression: Compression::Disabled,
        idle_timeout: 120,
        max_backpressure: 1048576,
        auto_ping: true,
        ping_interval: 30,
        deflate: None,
    }
}

impl Default for Config {
    fn default() -> (r: Self)
        ensures
            r == default_config(),
    {
        Config {
            max_message_size: 64 * 1024 * 1024,
            max_frame_size: 16 * 1024 * 1024,
            write_buffer_size: CORK_BUFFER_SIZE,
            compression: Compression::Disabled,
            idle_timeout: 120,
            max_backpressure: 1024 * 1024,
            auto_ping: true,
            ping_interval: 30,
            deflate: None,
        }
    }
}

impl Config {
    /// Starts a builder with the default configuration.
    pub fn builder() -> (r: ConfigBuilder)
        ensures
            r@ == default_config(),
    {
        ConfigBuilder::new()
    }

    /// The defaults of uWebSockets.
    pub fn uws_defaults() -> (r: Self)
        ensures
            r == (Config {
                max_message_size: 16384,
                max_frame_size: 16384,
                compression: Compression::Shared,
                idle_timeout: 10,
                ..default_config()
            }),
    {
        Config {
            max_message_size: 16 * 1024,
            max_frame_size: 16 * 1024,
            write_buffer_size: CORK_BUFFER_SIZE,
            compression: Compression::Shared,
            idle_timeout: 10,
            max_backpressure: 1024 * 1024,
            auto_ping: true,
            ping_interval: 30,
            deflate: None,
        }
    }
}

/// A change of a configuration.
pub enum Setting {
    /// The compression mode.
    Compression(Compression),
    /// The maximum size of messages and of frames.
    MaxPayload(usize),
    /// The maximum message size.
    MaxMessage(usize),
    /// The maximum frame size.
    MaxFrame(usize),
    /// The idle timeout in seconds.
    IdleTimeout(u32),
    /// The maximum backpressure.
    MaxBackpressure(usize),
    /// The write buffer size.
    WriteBuffer(usize),
    /// Whether pings are sent automatically.
    AutoPing(bool),
    /// The ping interval in seconds.
    PingInterval(u32),
}

/// A configuration with a change.
pub open spec fn with_setting(c: Config, setting: Setting) -> Config {
    match setting {
        Setting::Compression(compression) => Config { compression, ..c },
        Setting::MaxPayload(size) => Config { max_message_size: size, max_frame_size: size, ..c },
        Setting::MaxMessage(size) => Config { max_message_size: size, ..c },
        Setting::MaxFrame(size) => Config { max_frame_size: size, ..c },
        Setting::IdleTimeout(seconds) => Config { idle_timeout: seconds, ..c },
        Setting::MaxBackpressure(bytes) => Config { max_backpressure: bytes, ..c },
        Setting::WriteBuffer(size) => Config { write_buffer_size: size, ..c },
        Setting::AutoPing(enabled) => Config { auto_ping: enabled, ..c },
        Setting::PingInterval(seconds) => Config { ping_interval: seconds, ..c },
    }
}

/// Builder for a configuration.
#[derive(Debug, Clone, Copy)]
pub struct ConfigBuilder {
    config: Config,
}

impl View for ConfigBuilder {
    type V = Config;

    closed spec fn view(&self) -> Config {
        self.config
    }
}

impl Default for ConfigBuilder {
    fn default() -> (r: Self)
        ensures
            r@ == default_config(),
    {
        ConfigBuilder::new()
    }
}

impl ConfigBuilder {
    /// Starts with the default configuration.
    pub fn new() -> (r: Self)
        ensures
            r@ == default_config(),
    {
        ConfigBuilder { config: Config::default() }
    }

    /// Sets the compression mode.
    pub fn compression(self, compression: Compression) -> (r: Self)
        ensures
            r@ == (Config { compression, ..self@ }),
            r@ == with_setting(self@, Setting::Compression(compression)),
    {
        ConfigBuilder { config: Config { compression, ..self.config } }
    }

    /// Sets the maximum size of messages and of frames.
    pub fn max_payload_length(self, size: usize) -> (r: Self)
        ensures
            r@ == (Config { max_message_size: size, max_frame_size: size, ..self@ }),
            r@ == with_setting(self@, Setting::MaxPayload(size)),
    {
        ConfigBuilder { config: Config { max_message_size: size, max_frame_size: size, ..self.config } }
    }

    /// Sets the maximum message size.
    pub fn max_message_size(self, size: usize) -> (r: Self)
        ensures
            r@ == (Config { max_message_size: size, ..self@ }),
            r@ == with_setting(self@, Setting::MaxMessage(size)),
    {
        ConfigBuilder { config: Config { max_message_size: size, ..self.config } }
    }

    /// Sets the maximum frame size.
    pub fn max_frame_size(self, size: usize) -> (r: Self)
        ensures
            r@ == (Config { max_frame_size: size, ..self@ }),
            r@ == with_setting(self@, Setting::MaxFrame(size)),
    {
        ConfigBuilder { config: Config { max_frame_size: size, ..self.config } }
    }

    /// Sets the idle timeout in seconds; 0 disables it.
    pub fn idle_timeout(self, seconds: u32) -> (r: Self)
        ensures
            r@ == (Config { idle_timeout: seconds, ..self@ }),
            r@ == with_setting(self@, Setting::IdleTimeout(seconds)),
    {
        ConfigBuilder { config: Config { idle_timeout: seconds, ..self.config } }
    }

    /// Sets the maximum backpressure.
    pub fn max_backpressure(self, bytes: usize) -> (r: Self)
        ensures
            r@ == (Config { max_backpressure: bytes, ..self@ }),
            r@ == with_setting(self@, Setting::MaxBackpressure(bytes)),
    {
        ConfigBuilder { config: Config { max_backpressure: bytes, ..self.config } }
    }

    /// Sets the write buffer size.
    pub fn write_buffer_size(self, size: usize) -> (r: Self)
        ensures
            r@ == (Config { write_buffer_size: size, ..self@ }),
            r@ == with_setting(self@, Setting::WriteBuffer(size)),
    {
        ConfigBuilder { config: Config { write_buffer_size: size, ..self.config } }
    }

    /// Turns automatic pings on or off.
    pub fn auto_ping(self, enabled: bool) -> (r: Self)
        ensures
            r@ == (Config { auto_ping: enabled, ..self@ }),
            r@ == with_setting(self@, Setting::AutoPing(enabled)),
    {
        ConfigBuilder { config: Config { auto_ping: enabled, ..self.config } }
    }

    /// Sets the ping interval in seconds.
    pub fn ping_interval(self, seconds: u32) -> (r: Self)
        ensures
            r@ == (Config { ping_interval: seconds, ..self@ }),
            r@ == with_setting(self@, Setting::PingInterval(seconds)),
    {
        ConfigBuilder { config: Config { ping_interval: seconds, ..self.config } }
    }

    /// The configuration built so far.
    pub fn build(self) -> (r: Config)
        ensures
            r == self@,
    {
        self.config
    }
}

/// The defaults are those that the configuration documents.
pub proof fn law_default_configuration()
    ensures
        default_config().max_message_size == 64 * 1024 * 1024,
        default_config().max_frame_size == 16 * 1024 * 1024,
        default_config().write_buffer_size == 16 * 1024,
        default_config().compression == Compression::Disabled,
        default_config().idle_timeout == 120,
        default_config().max_backpressure == 1024 * 1024,
        default_config().auto_ping,
        default_config().ping_interval == 30,
        default_config().deflate is None,
{
}

/// Each field of a configuration is changed by the settings that name it, and by no
/// other.
pub proof fn law_settings_change_what_they_name(c: Config, setting: Setting)
    ensures
        with_setting(c, setting).max_message_size == (match setting {
            Setting::MaxMessage(size) | Setting::MaxPayload(size) => size,
            _ => c.max_message_size,
        }),
        with_setting(c, setting).max_frame_size == (match setting {
            Setting::MaxFrame(size) | Setting::MaxPayload(size) => size,
            _ => c.max_frame_size,
        }),
        with_setting(c, setting).write_buffer_size == (match setting {
            Setting::WriteBuffer(size) => size,
            _ => c.write_buffer_size,
        }),
        with_setting(c, setting).compression == (match setting {
            Setting::Compression(compression) => compression,
            _ => c.compression,
        }),
        with_setting(c, setting).idle_timeout == (match setting {
            Setting::IdleTimeout(seconds) => seconds,
            _ => c.idle_timeout,
        }),
        with_setting(c, setting).max_backpressure == (match setting {
            Setting::MaxBackpressure(bytes) => bytes,
            _ => c.max_backpressure,
        }),
        with_setting(c, setting).auto_ping == (match setting {
            Setting::AutoPing(enabled) => enabled,
            _ => c.auto_ping,
        }),
        with_setting(c, setting).ping_interval == (match setting {
            Setting::PingInterval(seconds) => seconds,
            _ => c.ping_interval,
        }),
        with_setting(c, setting).deflate == c.deflate,
        with_setting(with_setting(c, setting), setting) == with_setting(c, setting),
{
}

/// The sizes that connections are set up with.
pub proof fn law_sizes()
    ensures
        CORK_BUFFER_SIZE == 16384,
        RECV_BUFFER_SIZE == 65536,
        MAX_FRAME_HEADER_SIZE == 2 + 8 + 4,
        SMALL_MESSAGE_THRESHOLD == 125,
        MEDIUM_MESSAGE_THRESHOLD == 65535,
        crate::cork::ZERO_COPY_MIN == 8192,
        crate::io_uring::URING_BUFFER_SIZE == 65536,
        crate::split::SPLIT_CONTROL_CAPACITY == 32,
        crate::split::SPLIT_APPLICATION_CAPACITY == 32,
        crate::http2::SETTINGS_ENABLE_CONNECT_PROTOCOL == 8,
        crate::http3::SETTINGS_ENABLE_CONNECT_PROTOCOL == 8,
{
}

} // verus!
