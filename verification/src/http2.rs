//! WebSocket over HTTP/2 (RFC 8441): what a request asks for, and how it is
//! answered.

use crate::error::Error;
use crate::extended_connect;
use crate::extended_connect::{
    accepted_fields, field_if, fields_view, first_of, is_sendable, optional_elements,
    optional_list_has, push_field, refused_fields, ConnectParts, Field,
};
use crate::http_text::{
    opt_string_view, opt_view, response_fields, response_status, status_code, status_number,
};
use crate::text;
use crate::{default_config, Config};
use http::{Response, StatusCode};
use vstd::prelude::*;
use vstd::string::*;

verus! {

/// The setting by which a server announces Extended CONNECT.
pub const SETTINGS_ENABLE_CONNECT_PROTOCOL: u16 = 0x08;

/// A request for a WebSocket over HTTP/2.
#[derive(Debug, Clone)]
pub struct H2HandshakeRequest {
    /// The `:path` pseudo-header.
    pub path: String,
    /// The `:authority` pseudo-header.
    pub authority: String,
    /// The `:scheme` pseudo-header.
    pub scheme: String,
    /// The requested subprotocols.
    pub protocol: Option<String>,
    /// The requested extensions.
    pub extensions: Option<String>,
    /// The origin.
    pub origin: Option<String>,
    /// The WebSocket version.
    pub version: Option<String>,
}

/// A request for a WebSocket over HTTP/2, as mathematical values.
pub struct H2RequestView {
    pub path: Seq<char>,
    pub authority: Seq<char>,
    pub scheme: Seq<char>,
    pub protocol: Option<Seq<char>>,
    pub extensions: Option<Seq<char>>,
    pub origin: Option<Seq<char>>,
    pub version: Option<Seq<char>>,
}

impl View for H2HandshakeRequest {
    type V = H2RequestView;

    open spec fn view(&self) -> H2RequestView {
        H2RequestView {
            path: self.path@,
            authority: self.authority@,
            scheme: self.scheme@,
            protocol: opt_string_view(self.protocol),
            extensions: opt_string_view(self.extensions),
            origin: opt_string_view(self.origin),
            version: opt_string_view(self.version),
        }
    }
}

/// Whether a request is an Extended CONNECT for a WebSocket: its `:protocol` says
/// so, and it has a `:path`, a `:scheme`, and an `:authority` or else a Host.
pub open spec fn is_h2_websocket(parts: ConnectParts) -> bool {
    &&& parts.method@ == "CONNECT"@
    &&& opt_view(parts.protocol) == Some("websocket"@)
    &&& parts.path_and_query is Some
    &&& parts.scheme is Some
    &&& parts.authority is Some || parts.host is Some
}

/// The WebSocket request that a request makes.
pub open spec fn h2_request_of(parts: ConnectParts) -> Option<H2RequestView> {
    if !is_h2_websocket(parts) {
        None
    } else {
        Some(
            H2RequestView {
                path: parts.path_and_query->0@,
                authority: first_of(opt_view(parts.authority), opt_view(parts.host), ""@),
                scheme: parts.scheme->0@,
                protocol: opt_view(parts.subprotocols),
                extensions: opt_view(parts.extensions),
                origin: opt_view(parts.origin),
                version: opt_view(parts.version),
            },
        )
    }
}

impl H2HandshakeRequest {
    /// Reads a request; only an Extended CONNECT for "websocket" with all its
    /// pseudo-headers asks for a WebSocket.
    pub fn from_request(parts: &ConnectParts<'_>) -> (r: Option<Self>)
        ensures
            match (r, h2_request_of(*parts)) {
                (Some(q), Some(v)) => q@ == v,
                (None, None) => true,
                _ => false,
            },
    {
        if !text::str_eq(parts.method, "CONNECT") {
            return None;
        }
        let for_websocket = match parts.protocol {
            Some(p) => text::str_eq(p, "websocket"),
            None => false,
        };
        if !for_websocket {
            return None;
        }
        let path = match parts.path_and_query {
            Some(p) => p,
            None => {
                return None;
            },
        };
        let scheme = match parts.scheme {
            Some(s) => s,
            None => {
                return None;
            },
        };
        if parts.authority.is_none() && parts.host.is_none() {
            return None;
        }
        Some(
            H2HandshakeRequest {
                path: path.to_owned(),
                authority: extended_connect::owned_first_of(parts.authority, parts.host, ""),
                scheme: scheme.to_owned(),
                protocol: extended_connect::owned(parts.subprotocols),
                extensions: extended_connect::owned(parts.extensions),
                origin: extended_connect::owned(parts.origin),
                version: extended_connect::owned(parts.version),
            },
        )
    }

    /// Whether a subprotocol was requested; case does not matter.
    pub fn has_protocol(&self, proto: &str) -> (r: bool)
        ensures
            r == optional_list_has(self@.protocol, proto@),
    {
        extended_connect::list_has(&self.protocol, proto)
    }

    /// The requested subprotocols.
    pub fn protocols(&self) -> (r: Vec<&str>)
        ensures
            text::views(r@) == optional_elements(self@.protocol),
    {
        extended_connect::list_items(&self.protocol)
    }

    /// The requested extensions.
    pub fn extensions_list(&self) -> (r: Vec<&str>)
        ensures
            text::views(r@) == optional_elements(self@.extensions),
    {
        extended_connect::list_items(&self.extensions)
    }
}

/// The answer to a request for a WebSocket over HTTP/2.
#[derive(Debug)]
pub struct H2HandshakeResponse {
    /// HTTP status code.
    pub status: StatusCode,
    /// Selected subprotocol, if any.
    pub protocol: Option<String>,
    /// Accepted extensions, if any.
    pub extensions: Option<String>,
}

impl Clone for H2HandshakeResponse {
    fn clone(&self) -> (r: Self)
        ensures
            r.status == self.status,
            opt_string_view(r.protocol) == opt_string_view(self.protocol),
            opt_string_view(r.extensions) == opt_string_view(self.extensions),
    {
        H2HandshakeResponse {
            status: self.status,
            protocol: extended_connect::owned(crate::handshake::opt_as_str(&self.protocol)),
            extensions: extended_connect::owned(crate::handshake::opt_as_str(&self.extensions)),
        }
    }
}

impl H2HandshakeResponse {
    /// Accepts.
    pub fn ok() -> (r: Self)
        ensures
            status_number(r.status) == 200,
            r.protocol is None,
            r.extensions is None,
            h2_verdict(status_number(r.status)) is Ok,
    {
        H2HandshakeResponse { status: status_code(200), protocol: None, extensions: None }
    }

    /// Accepts with a subprotocol.
    pub fn ok_with_protocol(protocol: &str) -> (r: Self)
        ensures
            status_number(r.status) == 200,
            opt_string_view(r.protocol) == Some(protocol@),
            r.extensions is None,
            h2_verdict(status_number(r.status)) is Ok,
    {
        H2HandshakeResponse {
            status: status_code(200),
            protocol: Some(protocol.to_owned()),
            extensions: None,
        }
    }

    /// Refuses.
    pub fn error(status: StatusCode) -> (r: Self)
        ensures
            r.status == status,
            r.protocol is None,
            r.extensions is None,
    {
        H2HandshakeResponse { status, protocol: None, extensions: None }
    }
}

/// Builds the response that accepts a request.
pub fn build_h2_response(protocol: Option<&str>, extensions: Option<&str>) -> (r: Response<()>)
    requires
        is_sendable(opt_view(protocol)),
        is_sendable(opt_view(extensions)),
    ensures
        response_status(r) == 200,
        response_fields(r) == accepted_fields(opt_view(protocol), opt_view(extensions)),
{
    extended_connect::build_extended_connect_response(protocol, extensions)
}

/// Builds a response that refuses a request.
pub fn build_h2_error_response(status: StatusCode, reason: Option<&str>) -> (r: Response<()>)
    requires
        is_sendable(opt_view(reason)),
    ensures
        response_status(r) == status_number(status),
        response_fields(r) == refused_fields(opt_view(reason)),
{
    extended_connect::build_extended_connect_error(status, reason)
}

/// The status and the fields with which a server answers.
pub open spec fn h2_answer(request: Option<H2RequestView>, accepted: bool) -> (
    u16,
    Map<Seq<char>, Seq<char>>,
) {
    match request {
        None => (400, refused_fields(Some("Expected Extended CONNECT for WebSocket"@))),
        Some(q) => if accepted {
            (200, accepted_fields(q.protocol, None))
        } else {
            (403, refused_fields(Some("WebSocket connection rejected by filter"@)))
        },
    }
}

/// Answers a request: a request that is none is refused with 400, one that the
/// server's filter rejects with 403, and any other is accepted with the
/// subprotocols it asks for.
pub fn answer_h2_request(request: Option<&H2HandshakeRequest>, accepted: bool) -> (r: Response<()>)
    requires
        request matches Some(q) ==> is_sendable(q@.protocol),
    ensures
        (response_status(r), response_fields(r)) == h2_answer(
            match request {
                Some(q) => Some(q@),
                None => None,
            },
            accepted,
        ),
{
    proof {
        reveal_strlit("Expected Extended CONNECT for WebSocket");
        reveal_strlit("WebSocket connection rejected by filter");
    }
    match request {
        None => build_h2_error_response(
            status_code(400),
            Some("Expected Extended CONNECT for WebSocket"),
        ),
        Some(q) => {
            if !accepted {
                return build_h2_error_response(
                    status_code(403),
                    Some("WebSocket connection rejected by filter"),
                );
            }
            let protocol = match q.protocol.as_ref() {
                Some(p) => Some(p.as_str()),
                None => None,
            };
            build_h2_response(protocol, None)
        },
    }
}

/// The header fields of a client's request, in order.
pub open spec fn h2_connect_fields(protocol: Option<Seq<char>>, extra: Seq<Field>) -> Seq<Field> {
    seq![(":protocol"@, "websocket"@)] + field_if("sec-websocket-protocol"@, protocol) + seq![
        ("sec-websocket-version"@, "13"@),
    ] + extra
}

/// Lists the header fields of a client's request.
pub fn h2_request_fields(protocol: Option<&str>, extra_headers: Option<&[(String, String)]>) -> (r:
    Vec<(String, String)>)
    ensures
        fields_view(r@) == h2_connect_fields(
            opt_view(protocol),
            match extra_headers {
                Some(e) => fields_view(e@),
                None => seq![],
            },
        ),
{
    let mut fields: Vec<(String, String)> = Vec::new();
    assert(fields_view(fields@) =~= seq![]);
    push_field(&mut fields, ":protocol", "websocket");
    if let Some(p) = protocol {
        push_field(&mut fields, "sec-websocket-protocol", p);
    }
    push_field(&mut fields, "sec-websocket-version", "13");
    let ghost base = fields_view(fields@);
    assert(base =~= seq![(":protocol"@, "websocket"@)] + field_if(
        "sec-websocket-protocol"@,
        opt_view(protocol),
    ) + seq![("sec-websocket-version"@, "13"@)]);
    match extra_headers {
        Some(extra) => {
            let mut i: usize = 0;
            assert(base + fields_view(extra@).take(0) =~= base);
            while i < extra.len()
                invariant
                    i <= extra.len(),
                    fields_view(extra@).len() == extra.len(),
                    fields_view(fields@) == base + fields_view(extra@).take(i as int),
                decreases extra.len() - i,
            {
                let ghost before = fields_view(extra@).take(i as int);
                push_field(&mut fields, extra[i].0.as_str(), extra[i].1.as_str());
                assert(fields_view(extra@).take(i + 1) =~= before.push(
                    fields_view(extra@)[i as int],
                ));
                assert(fields_view(fields@) =~= base + fields_view(extra@).take(i + 1));
                i = i + 1;
            }
            assert(fields_view(extra@).take(i as int) =~= fields_view(extra@));
        },
        None => {
            assert(base + seq![] =~= base);
        },
    }
    fields
}

/// What a client makes of the status of an answer.
pub open spec fn h2_verdict(status: u16) -> Result<(), Error> {
    if status == 200 {
        Ok(())
    } else {
        Err(Error::HandshakeFailed("server rejected WebSocket upgrade"))
    }
}

/// The verdict of a client on the status of a response.
pub fn check_h2_status(status: u16) -> (r: Result<(), Error>)
    ensures
        r == (if status == 200 {
            Ok(())
        } else {
            Err(Error::HandshakeFailed("server rejected WebSocket upgrade"))
        }),
        r == h2_verdict(status),
{
    if status == 200 {
        Ok(())
    } else {
        Err(Error::HandshakeFailed("server rejected WebSocket upgrade"))
    }
}

/// A server answers with the status that lets a client go on exactly where it
/// accepts a request.
pub proof fn law_client_goes_on_where_accepted(request: Option<H2RequestView>, accepted: bool)
    ensures
        h2_answer(request, accepted).0 == 200 <==> request is Some && accepted,
{
}

/// The settings of an HTTP/2 WebSocket client.
#[derive(Debug, Clone, Copy)]
pub struct H2WebSocketClient {
    config: Config,
}

impl View for H2WebSocketClient {
    type V = Config;

    closed spec fn view(&self) -> Config {
        self.config
    }
}

impl Default for H2WebSocketClient {
    fn default() -> (r: Self)
        ensures
            r@ == default_config(),
    {
        H2WebSocketClient::new(Config::default())
    }
}

impl H2WebSocketClient {
    /// Creates a client with the given configuration.
    pub fn new(config: Config) -> (r: Self)
        ensures
            r@ == config,
    {
        H2WebSocketClient { config }
    }

    /// Creates a client with the default configuration.
    pub fn default_config() -> (r: Self)
        ensures
            r@ == default_config(),
    {
        H2WebSocketClient::new(Config::default())
    }

    /// The configuration.
    pub fn config(&self) -> (r: &Config)
        ensures
            *r == self@,
    {
        &self.config
    }
}

/// The settings of an HTTP/2 WebSocket server.
#[derive(Debug, Clone, Copy)]
pub struct H2WebSocketServer {
    config: Config,
}

impl View for H2WebSocketServer {
    type V = Config;

    closed spec fn view(&self) -> Config {
        self.config
    }
}

impl Default for H2WebSocketServer {
    fn default() -> (r: Self)
        ensures
            r@ == default_config(),
    {
        H2WebSocketServer::new(Config::default())
    }
}

impl H2WebSocketServer {
    /// Creates a server with the given configuration.
    pub fn new(config: Config) -> (r: Self)
        ensures
            r@ == config,
    {
        H2WebSocketServer { config }
    }

    /// Creates a server with the default configuration.
    pub fn default_config() -> (r: Self)
        ensures
            r@ == default_config(),
    {
        H2WebSocketServer::new(Config::default())
    }

    /// The configuration.
    pub fn config(&self) -> (r: &Config)
        ensures
            *r == self@,
    {
        &self.config
    }
}

} // verus!
