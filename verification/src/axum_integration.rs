//! The upgrade decision of an HTTP server framework.
//!
//! The framework hands over the method and the header values it found; what
//! comes back is either the reason to refuse or the fields of the `101`
//! response.

use crate::deflate;
use crate::deflate::{offer_of, params_error, response_header, DeflateConfig};
use crate::handshake;
use crate::http_text::{opt_string_view, opt_view};
use crate::text;
use crate::{default_config, Config};
use vstd::prelude::*;
use vstd::string::*;

verus! {

/// Why a request is not upgraded.
#[derive(Debug, Clone, Copy, PartialEq, Eq, Structural)]
pub enum WebSocketUpgradeRejection {
    MethodNotGet,
    MissingUpgradeHeader,
    InvalidUpgradeHeader,
    MissingConnectionHeader,
    InvalidConnectionHeader,
    MissingSecWebSocketKey,
    MissingSecWebSocketVersion,
    UnsupportedVersion,
    MissingUpgrade,
}

impl WebSocketUpgradeRejection {
    /// The status code of the response: 405 for a wrong method, 400 otherwise.
    pub fn status(&self) -> (r: u16)
        ensures
            r == (if *self == WebSocketUpgradeRejection::MethodNotGet {
                405u16
            } else {
                400u16
            }),
            r == rejection_status(*self),
    {
        match self {
            WebSocketUpgradeRejection::MethodNotGet => 405,
            _ => 400,
        }
    }

    /// The body of the response.
    pub fn message(&self) -> (r: &'static str)
        ensures
            r@ == rejection_text(*self),
    {
        match self {
            WebSocketUpgradeRejection::MethodNotGet => "Method must be GET",
            WebSocketUpgradeRejection::MissingUpgradeHeader => "Missing Upgrade header",
            WebSocketUpgradeRejection::InvalidUpgradeHeader => "Invalid Upgrade header",
            WebSocketUpgradeRejection::MissingConnectionHeader => "Missing Connection header",
            WebSocketUpgradeRejection::InvalidConnectionHeader => "Invalid Connection header",
            WebSocketUpgradeRejection::MissingSecWebSocketKey => "Missing Sec-WebSocket-Key",
            WebSocketUpgradeRejection::MissingSecWebSocketVersion => {
                "Missing Sec-WebSocket-Version"
            },
            WebSocketUpgradeRejection::UnsupportedVersion => "Unsupported WebSocket version",
            WebSocketUpgradeRejection::MissingUpgrade => "Missing upgrade in request extensions",
        }
    }
}

/// The text of a rejection.
pub open spec fn rejection_text(r: WebSocketUpgradeRejection) -> Seq<char> {
    match r {
        WebSocketUpgradeRejection::MethodNotGet => "Method must be GET"@,
        WebSocketUpgradeRejection::MissingUpgradeHeader => "Missing Upgrade header"@,
        WebSocketUpgradeRejection::InvalidUpgradeHeader => "Invalid Upgrade header"@,
        WebSocketUpgradeRejection::MissingConnectionHeader => "Missing Connection header"@,
        WebSocketUpgradeRejection::InvalidConnectionHeader => "Invalid Connection header"@,
        WebSocketUpgradeRejection::MissingSecWebSocketKey => "Missing Sec-WebSocket-Key"@,
        WebSocketUpgradeRejection::MissingSecWebSocketVersion => "Missing Sec-WebSocket-Version"@,
        WebSocketUpgradeRejection::UnsupportedVersion => "Unsupported WebSocket version"@,
        WebSocketUpgradeRejection::MissingUpgrade => "Missing upgrade in request extensions"@,
    }
}

/// The status of a rejection.
pub open spec fn rejection_status(r: WebSocketUpgradeRejection) -> u16 {
    if r == WebSocketUpgradeRejection::MethodNotGet {
        405
    } else {
        400
    }
}

/// What a framework found in a request. A header that is missing, or whose value
/// is not visible ASCII, is `None`.
#[derive(Debug, Clone, Copy)]
pub struct RequestParts<'a> {
    /// The method.
    pub method: &'a str,
    /// The Upgrade header.
    pub upgrade: Option<&'a str>,
    /// The Connection header.
    pub connection: Option<&'a str>,
    /// The Sec-WebSocket-Key header.
    pub key: Option<&'a str>,
    /// The Sec-WebSocket-Version header.
    pub version: Option<&'a str>,
    /// The Sec-WebSocket-Protocol header.
    pub protocol: Option<&'a str>,
    /// The Sec-WebSocket-Extensions header.
    pub extensions: Option<&'a str>,
    /// Whether the framework can hand over the connection.
    pub can_upgrade: bool,
}

/// Whether `pat` occurs in `s`, up to the case of ASCII letters.
pub open spec fn contains_ignore_case(s: Seq<char>, pat: Seq<char>) -> bool {
    exists|i: int|
        0 <= i <= s.len() - pat.len() && text::eq_ignore_ascii_case(
            #[trigger] s.subrange(i, i + pat.len()),
            pat,
        )
}

/// Whether `pat` occurs in `s`, up to the case of ASCII letters.
fn str_contains_ignore_case(s: &str, pat: &str) -> (r: bool)
    ensures
        r == contains_ignore_case(s@, pat@),
{
    let n: usize = s.unicode_len();
    let m: usize = pat.unicode_len();
    if m > n {
        return false;
    }
    let mut i: usize = 0;
    while i <= n - m
        invariant
            n == s@.len(),
            m == pat@.len(),
            m <= n,
            i <= n - m + 1,
            forall|j: int|
                0 <= j < i ==> !text::eq_ignore_ascii_case(
                    #[trigger] s@.subrange(j, j + pat@.len()),
                    pat@,
                ),
        decreases n - m + 1 - i,
    {
        if text::str_eq_ignore_ascii_case(s.substring_char(i, i + m), pat) {
            assert(text::eq_ignore_ascii_case(s@.subrange(i as int, i + pat@.len()), pat@));
            return true;
        }
        i = i + 1;
    }
    false
}

/// The first entry of a comma-separated list.
pub open spec fn first_entry(value: Option<Seq<char>>) -> Option<Seq<char>> {
    match value {
        Some(v) => Some(text::trim(text::split(v, ',')[0])),
        None => None,
    }
}

/// The reason to refuse the request, if there is one: the checks are made in
/// this order.
pub open spec fn rejection_of(parts: RequestParts) -> Option<WebSocketUpgradeRejection> {
    if parts.method@ != "GET"@ {
        Some(WebSocketUpgradeRejection::MethodNotGet)
    } else if parts.upgrade is None {
        Some(WebSocketUpgradeRejection::MissingUpgradeHeader)
    } else if !contains_ignore_case(parts.upgrade->0@, "websocket"@) {
        Some(WebSocketUpgradeRejection::InvalidUpgradeHeader)
    } else if parts.connection is None {
        Some(WebSocketUpgradeRejection::MissingConnectionHeader)
    } else if !contains_ignore_case(parts.connection->0@, "upgrade"@) {
        Some(WebSocketUpgradeRejection::InvalidConnectionHeader)
    } else if parts.key is None {
        Some(WebSocketUpgradeRejection::MissingSecWebSocketKey)
    } else if parts.version is None {
        Some(WebSocketUpgradeRejection::MissingSecWebSocketVersion)
    } else if parts.version->0@ != "13"@ {
        Some(WebSocketUpgradeRejection::UnsupportedVersion)
    } else if !parts.can_upgrade {
        Some(WebSocketUpgradeRejection::MissingUpgrade)
    } else {
        None
    }
}

/// A request that will be upgraded.
#[derive(Debug)]
pub struct WebSocketUpgrade {
    key: String,
    protocol: Option<String>,
    extensions: Option<String>,
    config: Config,
}

/// A request that will be upgraded, as mathematical values.
pub struct UpgradeView {
    pub key: Seq<char>,
    pub protocol: Option<Seq<char>>,
    pub extensions: Option<Seq<char>>,
    pub config: Config,
}

impl View for WebSocketUpgrade {
    type V = UpgradeView;

    closed spec fn view(&self) -> UpgradeView {
        UpgradeView {
            key: self.key@,
            protocol: opt_string_view(self.protocol),
            extensions: opt_string_view(self.extensions),
            config: self.config,
        }
    }
}

/// The extension response to an offer: the server's own settings, where the
/// server has some and the offer is valid.
pub open spec fn negotiated_extensions(
    server: Option<DeflateConfig>,
    offer: Option<Seq<char>>,
) -> Option<Seq<char>> {
    match (server, offer) {
        (Some(config), Some(value)) => match offer_of(value) {
            Some(params) => if params_error(params) is None {
                Some(response_header(config))
            } else {
                None
            },
            None => None,
        },
        _ => None,
    }
}

/// Negotiates permessage-deflate.
pub fn negotiate_extensions(server: Option<DeflateConfig>, offer: Option<&str>) -> (r: Option<
    String,
>)
    ensures
        opt_string_view(r) == negotiated_extensions(server, opt_view(offer)),
{
    let config = match server {
        Some(c) => c,
        None => {
            return None;
        },
    };
    let value = match offer {
        Some(v) => v,
        None => {
            return None;
        },
    };
    match deflate::parse_deflate_offer(value) {
        Some(params) => match DeflateConfig::from_params(params.as_slice()) {
            Ok(_) => Some(config.to_response_header()),
            Err(_) => None,
        },
        None => None,
    }
}

/// The fields of the response that performs the upgrade.
#[derive(Debug)]
pub struct WebSocketUpgradeResponse {
    /// The Sec-WebSocket-Accept value.
    pub accept_key: String,
    /// The Sec-WebSocket-Protocol value.
    pub protocol: Option<String>,
    /// The Sec-WebSocket-Extensions value.
    pub extensions: Option<String>,
    /// The configuration of the connection.
    pub config: Config,
}

/// Whether an upgrade is for a request: with its key, the first subprotocol that it
/// offers, and its extensions.
pub open spec fn is_upgrade_for(parts: RequestParts, u: UpgradeView) -> bool {
    &&& opt_view(parts.key) == Some(u.key)
    &&& u.protocol == first_entry(opt_view(parts.protocol))
    &&& u.extensions == opt_view(parts.extensions)
    &&& u.config == default_config()
}

/// Whether a response answers an upgrade.
pub open spec fn answers_upgrade(u: UpgradeView, r: WebSocketUpgradeResponse) -> bool {
    &&& r.accept_key@ == handshake::accept_key_of(u.key)
    &&& opt_string_view(r.protocol) == u.protocol
    &&& opt_string_view(r.extensions) == negotiated_extensions(u.config.deflate, u.extensions)
    &&& r.config == u.config
}

impl WebSocketUpgrade {
    /// Checks a request.
    pub fn from_request_parts(parts: &RequestParts<'_>) -> (r: Result<
        Self,
        WebSocketUpgradeRejection,
    >)
        ensures
            match (r, rejection_of(*parts)) {
                (Ok(u), None) => u@ == (UpgradeView {
                    key: parts.key->0@,
                    protocol: first_entry(opt_view(parts.protocol)),
                    extensions: opt_view(parts.extensions),
                    config: default_config(),
                }),
                (Err(x), Some(e)) => x == e,
                _ => false,
            },
            r matches Ok(u) ==> is_upgrade_for(*parts, u@),
    {
        if !text::str_eq(parts.method, "GET") {
            return Err(WebSocketUpgradeRejection::MethodNotGet);
        }
        let upgrade = match parts.upgrade {
            Some(v) => v,
            None => {
                return Err(WebSocketUpgradeRejection::MissingUpgradeHeader);
            },
        };
        if !str_contains_ignore_case(upgrade, "websocket") {
            return Err(WebSocketUpgradeRejection::InvalidUpgradeHeader);
        }
        let connection = match parts.connection {
            Some(v) => v,
            None => {
                return Err(WebSocketUpgradeRejection::MissingConnectionHeader);
            },
        };
        if !str_contains_ignore_case(connection, "upgrade") {
            return Err(WebSocketUpgradeRejection::InvalidConnectionHeader);
        }
        let key = match parts.key {
            Some(v) => v.to_owned(),
            None => {
                return Err(WebSocketUpgradeRejection::MissingSecWebSocketKey);
            },
        };
        let version = match parts.version {
            Some(v) => v,
            None => {
                return Err(WebSocketUpgradeRejection::MissingSecWebSocketVersion);
            },
        };
        if !text::str_eq(version, "13") {
            return Err(WebSocketUpgradeRejection::UnsupportedVersion);
        }
        let protocol = match parts.protocol {
            Some(v) => {
                let pieces = text::str_split(v, ',');
                assert(text::views(pieces@)[0] == pieces@[0]@);
                Some(text::str_trim(pieces[0]).to_owned())
            },
            None => None,
        };
        let extensions = match parts.extensions {
            Some(v) => Some(v.to_owned()),
            None => None,
        };
        if !parts.can_upgrade {
            return Err(WebSocketUpgradeRejection::MissingUpgrade);
        }
        Ok(WebSocketUpgrade { key, protocol, extensions, config: Config::default() })
    }

    /// Replaces the configuration.
    pub fn config(self, config: Config) -> (r: Self)
        ensures
            r@ == (UpgradeView { config, ..self@ }),
    {
        WebSocketUpgrade { config, ..self }
    }

    /// Sets the maximum message size.
    pub fn max_message_size(self, size: usize) -> (r: Self)
        ensures
            r@ == (UpgradeView {
                config: Config { max_message_size: size, ..self@.config },
                ..self@
            }),
            r@ == (UpgradeView {
                config: crate::with_setting(self@.config, crate::Setting::MaxMessage(size)),
                ..self@
            }),
    {
        let config = Config { max_message_size: size, ..self.config };
        WebSocketUpgrade { config, ..self }
    }

    /// Sets the maximum frame size.
    pub fn max_frame_size(self, size: usize) -> (r: Self)
        ensures
            r@ == (UpgradeView {
                config: Config { max_frame_size: size, ..self@.config },
                ..self@
            }),
            r@ == (UpgradeView {
                config: crate::with_setting(self@.config, crate::Setting::MaxFrame(size)),
                ..self@
            }),
    {
        let config = Config { max_frame_size: size, ..self.config };
        WebSocketUpgrade { config, ..self }
    }

    /// Sets the write buffer size.
    pub fn write_buffer_size(self, size: usize) -> (r: Self)
        ensures
            r@ == (UpgradeView {
                config: Config { write_buffer_size: size, ..self@.config },
                ..self@
            }),
            r@ == (UpgradeView {
                config: crate::with_setting(self@.config, crate::Setting::WriteBuffer(size)),
                ..self@
            }),
    {
        let config = Config { write_buffer_size: size, ..self.config };
        WebSocketUpgrade { config, ..self }
    }

    /// Accepts the upgrade: the fields of the response to send.
    pub fn on_upgrade(self) -> (r: WebSocketUpgradeResponse)
        ensures
            r.accept_key@ == handshake::accept_key_of(self@.key),
            opt_string_view(r.protocol) == self@.protocol,
            opt_string_view(r.extensions) == negotiated_extensions(
                self@.config.deflate,
                self@.extensions,
            ),
            r.config == self@.config,
            answers_upgrade(self@, r),
    {
        let accept_key = handshake::generate_accept_key(self.key.as_str());
        let offer = match self.extensions.as_ref() {
            Some(e) => Some(e.as_str()),
            None => None,
        };
        let extensions = negotiate_extensions(self.config.deflate, offer);
        WebSocketUpgradeResponse {
            accept_key,
            protocol: self.protocol,
            extensions,
            config: self.config,
        }
    }
}

/// A server without permessage-deflate settings, or a client that offers no
/// extension, gets none.
pub proof fn law_no_offer_no_extension(server: Option<DeflateConfig>, offer: Option<Seq<char>>)
    ensures
        server is None || offer is None ==> negotiated_extensions(server, offer) is None,
{
}

} // verus!
