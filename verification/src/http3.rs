//! WebSocket over HTTP/3 (RFC 9220): what a request asks for, and how it is
//! answered.

use crate::error::Error;
use crate::extended_connect;
use crate::extended_connect::{
    accepted_fields, field_if, fields_view, first_of, is_sendable, optional_elements,
    optional_list_has, push_field, refused_fields, ConnectParts, Field,
};
use crate::http_text;
use crate::http_text::{
    is_header_text, opt_string_view, opt_view, response_fields, response_status, status_code,
    status_number, UriView,
};
use crate::text;
use crate::{default_config, Config};
use http::{Response, StatusCode};
use vstd::prelude::*;
use vstd::string::*;

verus! {

/// The setting by which a server announces Extended CONNECT.
pub const SETTINGS_ENABLE_CONNECT_PROTOCOL: u64 = 0x08;

/// The `:protocol` pseudo-header, as it is handed along with a request.
#[derive(Debug, Clone)]
pub struct Protocol(pub String);

/// A request for a WebSocket over HTTP/3.
#[derive(Debug, Clone)]
pub struct H3HandshakeRequest {
    /// The `:path` pseudo-header.
    pub path: String,
    /// The `:authority` pseudo-header.
    pub authority: String,
    /// The `:scheme` pseudo-header: always `https`, since QUIC implies TLS.
    pub scheme: String,
    /// The `:protocol` pseudo-header.
    pub protocol: Option<String>,
    /// The requested extensions.
    pub extensions: Option<String>,
    /// The origin.
    pub origin: Option<String>,
    /// The WebSocket version.
    pub version: Option<String>,
    /// The requested subprotocols.
    pub subprotocols: Option<String>,
}

/// A request for a WebSocket over HTTP/3, as mathematical values.
pub struct H3RequestView {
    pub path: Seq<char>,
    pub authority: Seq<char>,
    pub scheme: Seq<char>,
    pub protocol: Option<Seq<char>>,
    pub extensions: Option<Seq<char>>,
    pub origin: Option<Seq<char>>,
    pub version: Option<Seq<char>>,
    pub subprotocols: Option<Seq<char>>,
}

impl View for H3HandshakeRequest {
    type V = H3RequestView;

    open spec fn view(&self) -> H3RequestView {
        H3RequestView {
            path: self.path@,
            authority: self.authority@,
            scheme: self.scheme@,
            protocol: opt_string_view(self.protocol),
            extensions: opt_string_view(self.extensions),
            origin: opt_string_view(self.origin),
            version: opt_string_view(self.version),
            subprotocols: opt_string_view(self.subprotocols),
        }
    }
}

/// The WebSocket request that a CONNECT request makes.
pub open spec fn h3_request_of(parts: ConnectParts) -> Option<H3RequestView> {
    if parts.method@ != "CONNECT"@ {
        None
    } else {
        Some(
            H3RequestView {
                path: first_of(opt_view(parts.path_and_query), None, "/"@),
                authority: first_of(opt_view(parts.authority), opt_view(parts.host), ""@),
                scheme: "https"@,
                protocol: opt_view(parts.protocol),
                extensions: opt_view(parts.extensions),
                origin: opt_view(parts.origin),
                version: opt_view(parts.version),
                subprotocols: opt_view(parts.subprotocols),
            },
        )
    }
}

/// The request that a client makes of a URI with the given parts.
pub open spec fn client_request_of(uri: Option<UriView>, subprotocol: Option<Seq<char>>) -> Option<
    H3RequestView,
> {
    match uri {
        Some(u) => match u.authority {
            Some(authority) => Some(
                H3RequestView {
                    path: first_of(u.path_and_query, None, "/"@),
                    authority,
                    scheme: "https"@,
                    protocol: Some("websocket"@),
                    extensions: None,
                    origin: None,
                    version: Some("13"@),
                    subprotocols: subprotocol,
                },
            ),
            None => None,
        },
        None => None,
    }
}

/// Whether a request asks for a WebSocket.
pub open spec fn asks_for_websocket(request: H3RequestView) -> bool {
    request.protocol matches Some(p) && text::eq_ignore_ascii_case(p, "websocket"@)
}

/// The status with which a request is refused, if it is.
pub open spec fn refusal(request: H3RequestView) -> Option<u16> {
    if !asks_for_websocket(request) {
        Some(501)
    } else if request.version matches Some(v) && v != "13"@ {
        Some(400)
    } else {
        None
    }
}

/// What the `:protocol` of a stream stands for: a client may mark its stream as
/// WebTransport, which is a WebSocket to the server.
pub open spec fn protocol_meant(name: Seq<char>) -> Seq<char> {
    if name == "webtransport"@ {
        "websocket"@
    } else {
        name
    }
}

/// Reads the `:protocol` of a stream.
pub fn stream_protocol(name: &str) -> (r: String)
    ensures
        r@ == protocol_meant(name@),
{
    if text::str_eq(name, "webtransport") {
        "websocket".to_owned()
    } else {
        name.to_owned()
    }
}

impl H3HandshakeRequest {
    /// Reads a request; only the CONNECT method can ask for a WebSocket.
    pub fn from_request(parts: &ConnectParts<'_>) -> (r: Option<Self>)
        ensures
            match (r, h3_request_of(*parts)) {
                (Some(q), Some(v)) => q@ == v,
                (None, None) => true,
                _ => false,
            },
    {
        if !text::str_eq(parts.method, "CONNECT") {
            return None;
        }
        Some(
            H3HandshakeRequest {
                path: extended_connect::owned_first_of(parts.path_and_query, None, "/"),
                authority: extended_connect::owned_first_of(parts.authority, parts.host, ""),
                scheme: "https".to_owned(),
                protocol: extended_connect::owned(parts.protocol),
                extensions: extended_connect::owned(parts.extensions),
                origin: extended_connect::owned(parts.origin),
                version: extended_connect::owned(parts.version),
                subprotocols: extended_connect::owned(parts.subprotocols),
            },
        )
    }

    /// Makes the request of a client.
    pub fn new(uri: &str, subprotocol: Option<&str>) -> (r: Option<Self>)
        ensures
            match (r, client_request_of(http_text::uri_of(uri@), opt_view(subprotocol))) {
                (Some(q), Some(v)) => q@ == v,
                (None, None) => true,
                _ => false,
            },
    {
        match http_text::parse_uri(uri) {
            Some(parts) => H3HandshakeRequest::for_parts(&parts, subprotocol),
            None => None,
        }
    }

    /// Makes the request of a client from the parts of a URI.
    pub fn for_parts(parts: &http_text::UriParts, subprotocol: Option<&str>) -> (r: Option<Self>)
        ensures
            match (r, client_request_of(Some(parts@), opt_view(subprotocol))) {
                (Some(q), Some(v)) => q@ == v,
                (None, None) => true,
                _ => false,
            },
    {
        let authority = match parts.authority.as_ref() {
            Some(a) => a.clone(),
            None => {
                return None;
            },
        };
        let path = match parts.path_and_query.as_ref() {
            Some(p) => p.clone(),
            None => "/".to_owned(),
        };
        Some(
            H3HandshakeRequest {
                path,
                authority,
                scheme: "https".to_owned(),
                protocol: Some("websocket".to_owned()),
                extensions: None,
                origin: None,
                version: Some("13".to_owned()),
                subprotocols: extended_connect::owned(subprotocol),
            },
        )
    }

    /// Whether the request asks for a WebSocket.
    pub fn is_websocket(&self) -> (r: bool)
        ensures
            r == asks_for_websocket(self@),
    {
        match self.protocol.as_ref() {
            Some(p) => text::str_eq_ignore_ascii_case(p.as_str(), "websocket"),
            None => false,
        }
    }

    /// Whether a subprotocol was requested; case does not matter.
    pub fn has_subprotocol(&self, proto: &str) -> (r: bool)
        ensures
            r == optional_list_has(self@.subprotocols, proto@),
    {
        extended_connect::list_has(&self.subprotocols, proto)
    }

    /// The requested subprotocols.
    pub fn subprotocol_list(&self) -> (r: Vec<&str>)
        ensures
            text::views(r@) == optional_elements(self@.subprotocols),
    {
        extended_connect::list_items(&self.subprotocols)
    }

    /// The URL of the WebSocket.
    pub fn url(&self) -> (r: String)
        ensures
            r@ == "wss://"@ + self@.authority + self@.path,
            r@ == url_of(self@),
    {
        let mut s = "wss://".to_owned();
        s.append(self.authority.as_str());
        s.append(self.path.as_str());
        s
    }

    /// Checks the request; a refused one comes with the status to answer.
    pub fn validate(&self) -> (r: Result<(), StatusCode>)
        ensures
            match (r, refusal(self@)) {
                (Ok(_), None) => true,
                (Err(s), Some(n)) => status_number(s) == n,
                _ => false,
            },
    {
        if !self.is_websocket() {
            return Err(status_code(501));
        }
        match self.version.as_ref() {
            Some(v) => {
                if !text::str_eq(v.as_str(), "13") {
                    return Err(status_code(400));
                }
            },
            None => {},
        }
        Ok(())
    }

    /// Takes the protocol that came with the stream where the request itself
    /// names none.
    pub fn with_stream_protocol(self, protocol: Option<String>) -> (r: Self)
        ensures
            r@ == (H3RequestView {
                protocol: if self@.protocol is Some {
                    self@.protocol
                } else {
                    opt_string_view(protocol)
                },
                ..self@
            }),
            r@ == with_protocol_of_stream(self@, opt_string_view(protocol)),
    {
        if self.protocol.is_none() {
            H3HandshakeRequest { protocol, ..self }
        } else {
            self
        }
    }
}

/// Builds the response that accepts a request.
pub fn build_h3_response(subprotocol: Option<&str>, extensions: Option<&str>) -> (r: Response<()>)
    requires
        is_sendable(opt_view(subprotocol)),
        is_sendable(opt_view(extensions)),
    ensures
        response_status(r) == 200,
        response_fields(r) == accepted_fields(opt_view(subprotocol), opt_view(extensions)),
{
    extended_connect::build_extended_connect_response(subprotocol, extensions)
}

/// Builds a response that refuses a request.
pub fn build_h3_error_response(status: StatusCode, reason: Option<&str>) -> (r: Response<()>)
    requires
        is_sendable(opt_view(reason)),
    ensures
        response_status(r) == status_number(status),
        response_fields(r) == refused_fields(opt_view(reason)),
{
    extended_connect::build_extended_connect_error(status, reason)
}

/// Builds the response to an unsupported `:protocol`.
pub fn build_not_implemented_response(protocol: &str) -> (r: Response<()>)
    requires
        is_header_text(protocol@),
    ensures
        response_status(r) == 501,
        response_fields(r) == refused_fields(Some("Unsupported :protocol value: "@ + protocol@)),
{
    let mut reason = "Unsupported :protocol value: ".to_owned();
    reason.append(protocol);
    proof {
        reveal_strlit("Unsupported :protocol value: ");
        assert forall|i: int| 0 <= i < reason@.len() implies #[trigger] reason@[i] == '\t' || (
        reason@[i] >= ' ' && reason@[i] != '\x7f') by {
            if i >= "Unsupported :protocol value: "@.len() {
                assert(reason@[i] == protocol@[i - "Unsupported :protocol value: "@.len()]);
            }
        }
    }
    build_h3_error_response(status_code(501), Some(reason.as_str()))
}

/// The status and the fields with which a server answers a request.
pub open spec fn h3_answer(request: Option<H3RequestView>) -> (u16, Map<Seq<char>, Seq<char>>) {
    match request {
        None => (405, refused_fields(Some("Expected CONNECT"@))),
        Some(q) => match refusal(q) {
            Some(status) => (
                status,
                refused_fields(
                    Some(
                        if status == 501 {
                            "Unsupported :protocol value"@
                        } else {
                            "Invalid WebSocket request"@
                        },
                    ),
                ),
            ),
            None => (200, accepted_fields(None, None)),
        },
    }
}

/// Answers a request: other methods than CONNECT with 405, other protocols than
/// WebSocket with 501, another version with 400, and any other request with 200.
pub fn answer_h3_request(request: Option<&H3HandshakeRequest>) -> (r: Response<()>)
    ensures
        (response_status(r), response_fields(r)) == h3_answer(
            match request {
                Some(q) => Some(q@),
                None => None,
            },
        ),
{
    proof {
        reveal_strlit("Expected CONNECT");
        reveal_strlit("Unsupported :protocol value");
        reveal_strlit("Invalid WebSocket request");
    }
    match request {
        None => build_h3_error_response(status_code(405), Some("Expected CONNECT")),
        Some(q) => match q.validate() {
            Ok(()) => build_h3_response(None, None),
            Err(status) => {
                let reason = if status.as_u16() == 501 {
                    "Unsupported :protocol value"
                } else {
                    "Invalid WebSocket request"
                };
                build_h3_error_response(status, Some(reason))
            },
        },
    }
}

/// The status and the fields with which a server with a filter answers a
/// request.
pub open spec fn h3_filtered_answer(request: Option<H3RequestView>, accepted: bool) -> (
    u16,
    Map<Seq<char>, Seq<char>>,
) {
    match request {
        None => (405, refused_fields(Some("Expected CONNECT"@))),
        Some(q) => if !accepted {
            (403, refused_fields(Some("Rejected by filter"@)))
        } else {
            match refusal(q) {
                Some(status) => (status, refused_fields(None)),
                None => (200, accepted_fields(None, None)),
            }
        },
    }
}

/// Answers a request behind a filter, which is asked before the request is
/// checked.
pub fn answer_filtered_h3_request(request: Option<&H3HandshakeRequest>, accepted: bool) -> (r:
    Response<()>)
    ensures
        (response_status(r), response_fields(r)) == h3_filtered_answer(
            match request {
                Some(q) => Some(q@),
                None => None,
            },
            accepted,
        ),
{
    proof {
        reveal_strlit("Expected CONNECT");
        reveal_strlit("Rejected by filter");
    }
    match request {
        None => build_h3_error_response(status_code(405), Some("Expected CONNECT")),
        Some(q) => {
            if !accepted {
                return build_h3_error_response(status_code(403), Some("Rejected by filter"));
            }
            match q.validate() {
                Ok(()) => build_h3_response(None, None),
                Err(status) => build_h3_error_response(status, None),
            }
        },
    }
}

/// The target of a client's request.
pub fn h3_connect_uri(server_name: &str, port: u16, path: &str) -> (r: String)
    ensures
        r@ == "https://"@ + server_name@ + ":"@ + text::decimal(port as nat) + path@,
        r@ == connect_uri(server_name@, port, path@),
{
    let mut s = "https://".to_owned();
    s.append(server_name);
    s.append(":");
    s.append(text::u64_to_decimal(port as u64).as_str());
    s.append(path);
    s
}

/// The header fields of a client's request, in order.
pub open spec fn h3_connect_fields(
    subprotocol: Option<Seq<char>>,
    origin: Option<Seq<char>>,
) -> Seq<Field> {
    seq![("sec-websocket-version"@, "13"@)] + field_if("sec-websocket-protocol"@, subprotocol)
        + field_if("origin"@, origin)
}

/// Lists the header fields of a client's request.
pub fn h3_request_fields(subprotocol: Option<&str>, origin: Option<&str>) -> (r: Vec<
    (String, String),
>)
    ensures
        fields_view(r@) == h3_connect_fields(opt_view(subprotocol), opt_view(origin)),
{
    let mut fields: Vec<(String, String)> = Vec::new();
    assert(fields_view(fields@) =~= seq![]);
    push_field(&mut fields, "sec-websocket-version", "13");
    if let Some(p) = subprotocol {
        push_field(&mut fields, "sec-websocket-protocol", p);
    }
    if let Some(o) = origin {
        push_field(&mut fields, "origin", o);
    }
    assert(fields_view(fields@) =~= h3_connect_fields(opt_view(subprotocol), opt_view(origin)));
    fields
}

/// What a client makes of the status of an answer.
pub open spec fn h3_verdict(status: u16) -> Result<(), Error> {
    match status {
        200 => Ok(()),
        501 => Err(Error::ExtendedConnectNotSupported),
        403 => Err(Error::HandshakeFailed("server returned 403: connection forbidden")),
        _ => Err(Error::HandshakeFailed("server rejected WebSocket upgrade")),
    }
}

/// The address of a WebSocket request.
pub open spec fn url_of(request: H3RequestView) -> Seq<char> {
    "wss://"@ + request.authority + request.path
}

/// The address that a client connects to.
pub open spec fn connect_uri(server_name: Seq<char>, port: u16, path: Seq<char>) -> Seq<char> {
    "https://"@ + server_name + ":"@ + text::decimal(port as nat) + path
}

/// A request with the `:protocol` of its stream, where it has none of its own.
pub open spec fn with_protocol_of_stream(
    request: H3RequestView,
    protocol: Option<Seq<char>>,
) -> H3RequestView {
    H3RequestView {
        protocol: if request.protocol is Some {
            request.protocol
        } else {
            protocol
        },
        ..request
    }
}

/// The verdict of a client on the status of a response.
pub fn check_h3_status(status: u16) -> (r: Result<(), Error>)
    ensures
        r == (if status == 200 {
            Ok(())
        } else if status == 501 {
            Err(Error::ExtendedConnectNotSupported)
        } else if status == 403 {
            Err(Error::HandshakeFailed("server returned 403: connection forbidden"))
        } else {
            Err(Error::HandshakeFailed("server rejected WebSocket upgrade"))
        }),
        r == h3_verdict(status),
{
    if status == 200 {
        Ok(())
    } else if status == 501 {
        Err(Error::ExtendedConnectNotSupported)
    } else if status == 403 {
        Err(Error::HandshakeFailed("server returned 403: connection forbidden"))
    } else {
        Err(Error::HandshakeFailed("server rejected WebSocket upgrade"))
    }
}

/// The request that a client makes is one that a server accepts.
pub proof fn law_client_request_is_accepted(uri: Option<UriView>, subprotocol: Option<Seq<char>>)
    ensures
        client_request_of(uri, subprotocol) matches Some(q) ==> h3_answer(Some(q)).0 == 200,
{
    if let Some(q) = client_request_of(uri, subprotocol) {
        assert(text::eq_ignore_ascii_case("websocket"@, "websocket"@));
    }
}

/// A server answers with the status that lets a client go on exactly where it
/// finds nothing wrong with a request and its filter, if any, accepts it.
pub proof fn law_client_goes_on_where_accepted(request: Option<H3RequestView>, accepted: bool)
    ensures
        h3_answer(request).0 == 200 <==> (request matches Some(q) && refusal(q) is None),
        h3_filtered_answer(request, accepted).0 == 200 <==> (request matches Some(q) && accepted
            && refusal(q) is None),
{
}

/// A request for another protocol than WebSocket is answered with 501, whatever
/// else it says.
pub proof fn law_other_protocols_are_not_implemented(request: H3RequestView)
    requires
        !asks_for_websocket(request),
    ensures
        h3_answer(Some(request)).0 == 501,
        h3_filtered_answer(Some(request), true).0 == 501,
{
}

/// The settings of an HTTP/3 WebSocket client.
#[derive(Debug, Clone, Copy)]
pub struct H3WebSocketClient {
    config: Config,
}

impl View for H3WebSocketClient {
    type V = Config;

    closed spec fn view(&self) -> Config {
        self.config
    }
}

impl Default for H3WebSocketClient {
    fn default() -> (r: Self)
        ensures
            r@ == default_config(),
    {
        H3WebSocketClient::new(Config::default())
    }
}

impl H3WebSocketClient {
    /// Creates a client with the given configuration.
    pub fn new(config: Config) -> (r: Self)
        ensures
            r@ == config,
    {
        H3WebSocketClient { config }
    }

    /// Creates a client with the default configuration.
    pub fn default_config() -> (r: Self)
        ensures
            r@ == default_config(),
    {
        H3WebSocketClient::new(Config::default())
    }

    /// The configuration.
    pub fn config(&self) -> (r: &Config)
        ensures
            *r == self@,
    {
        &self.config
    }
}

} // verus!
