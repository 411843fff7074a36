//! The Extended CONNECT handshake that HTTP/2 (RFC 8441) and HTTP/3 (RFC 9220)
//! share.

use crate::error::Error;
use crate::headers;
use crate::http_text;
use crate::http_text::{
    add_field, is_header_text, new_response, no_fields, opt_view, response_fields,
    response_status, status_code, status_number, UriView,
};
use crate::text;
use http::{Response, StatusCode};
use vstd::prelude::*;
use vstd::string::*;

verus! {

/// What a transport found in a request. A header that is missing, or whose value
/// is not visible ASCII, is `None`.
#[derive(Debug, Clone, Copy)]
pub struct ConnectParts<'a> {
    /// The method.
    pub method: &'a str,
    /// The path and the query, where the request has them.
    pub path_and_query: Option<&'a str>,
    /// The authority of the target.
    pub authority: Option<&'a str>,
    /// The scheme of the target.
    pub scheme: Option<&'a str>,
    /// The Host header.
    pub host: Option<&'a str>,
    /// The `:protocol` pseudo-header.
    pub protocol: Option<&'a str>,
    /// The Sec-WebSocket-Protocol header.
    pub subprotocols: Option<&'a str>,
    /// The Sec-WebSocket-Extensions header.
    pub extensions: Option<&'a str>,
    /// The Origin header.
    pub origin: Option<&'a str>,
    /// The Sec-WebSocket-Version header.
    pub version: Option<&'a str>,
}

/// The first of two optional texts, or else a default.
pub open spec fn first_of(
    a: Option<Seq<char>>,
    b: Option<Seq<char>>,
    default: Seq<char>,
) -> Seq<char> {
    match (a, b) {
        (Some(x), _) => x,
        (None, Some(y)) => y,
        (None, None) => default,
    }
}

/// The first of two optional texts, or else a default.
pub fn owned_first_of(a: Option<&str>, b: Option<&str>, default: &str) -> (r: String)
    ensures
        r@ == first_of(opt_view(a), opt_view(b), default@),
{
    match a {
        Some(x) => x.to_owned(),
        None => match b {
            Some(y) => y.to_owned(),
            None => default.to_owned(),
        },
    }
}

/// Owns an optional text.
pub fn owned(s: Option<&str>) -> (r: Option<String>)
    ensures
        http_text::opt_string_view(r) == opt_view(s),
{
    match s {
        Some(x) => Some(x.to_owned()),
        None => None,
    }
}

/// Whether an optional comma-separated list contains an item, up to case.
pub open spec fn optional_list_has(list: Option<Seq<char>>, item: Seq<char>) -> bool {
    list matches Some(l) && headers::contains_token(l, item)
}

/// Whether an optional comma-separated list contains an item, up to case.
pub fn list_has(list: &Option<String>, item: &str) -> (r: bool)
    ensures
        r == optional_list_has(http_text::opt_string_view(*list), item@),
{
    match list {
        Some(l) => headers::contains_header_token(l.as_str(), item),
        None => false,
    }
}

/// The elements of an optional comma-separated list; none where there is none.
pub open spec fn optional_elements(list: Option<Seq<char>>) -> Seq<Seq<char>> {
    match list {
        Some(l) => headers::elements(l, ','),
        None => seq![],
    }
}

/// The elements of an optional comma-separated list.
pub fn list_items<'a>(list: &'a Option<String>) -> (r: Vec<&'a str>)
    ensures
        text::views(r@) == optional_elements(http_text::opt_string_view(*list)),
{
    match list {
        Some(l) => headers::list_elements(l.as_str(), ','),
        None => {
            let r: Vec<&'a str> = Vec::new();
            assert(text::views(r@) =~= seq![]);
            r
        },
    }
}

/// The fields of a response with an optional subprotocol and extensions.
pub open spec fn accepted_fields(
    protocol: Option<Seq<char>>,
    extensions: Option<Seq<char>>,
) -> Map<Seq<char>, Seq<char>> {
    let none = no_fields();
    let one = match protocol {
        Some(p) => none.insert("sec-websocket-protocol"@, p),
        None => none,
    };
    match extensions {
        Some(e) => one.insert("sec-websocket-extensions"@, e),
        None => one,
    }
}

/// Whether an optional text may be sent as a header value.
pub open spec fn is_sendable(value: Option<Seq<char>>) -> bool {
    value matches Some(v) ==> is_header_text(v)
}

/// Builds the response that accepts a request: status 200, and the selected
/// subprotocol and extensions.
pub fn build_extended_connect_response(protocol: Option<&str>, extensions: Option<&str>) -> (r:
    Response<()>)
    requires
        is_sendable(opt_view(protocol)),
        is_sendable(opt_view(extensions)),
    ensures
        response_status(r) == 200,
        response_fields(r) == accepted_fields(opt_view(protocol), opt_view(extensions)),
{
    let mut r = new_response(status_code(200));
    proof {
        reveal_strlit("sec-websocket-protocol");
        reveal_strlit("sec-websocket-extensions");
        assert("sec-websocket-protocol"@.len() == 22);
        assert("sec-websocket-extensions"@.len() == 24);
    }
    if let Some(p) = protocol {
        add_field(&mut r, "sec-websocket-protocol", p);
    }
    if let Some(e) = extensions {
        add_field(&mut r, "sec-websocket-extensions", e);
    }
    r
}

/// The fields of a response that refuses.
pub open spec fn refused_fields(reason: Option<Seq<char>>) -> Map<Seq<char>, Seq<char>> {
    let none = no_fields();
    match reason {
        Some(x) => none.insert("x-error-reason"@, x),
        None => none,
    }
}

/// Builds a response that refuses a request.
pub fn build_extended_connect_error(status: StatusCode, reason: Option<&str>) -> (r: Response<()>)
    requires
        is_sendable(opt_view(reason)),
    ensures
        response_status(r) == status_number(status),
        response_fields(r) == refused_fields(opt_view(reason)),
{
    let mut r = new_response(status);
    proof {
        reveal_strlit("x-error-reason");
    }
    if let Some(x) = reason {
        add_field(&mut r, "x-error-reason", x);
    }
    r
}

/// The target of a request to a WebSocket URI, or why there is none.
///
/// The scheme is `https` and the path `/` where the URI has none.
pub open spec fn connect_target(uri: Option<UriView>) -> Result<Seq<char>, Error> {
    match uri {
        None => Err(Error::HandshakeFailed("invalid URI")),
        Some(u) => match u.authority {
            None => Err(Error::HandshakeFailed("URI missing authority")),
            Some(a) => Ok(
                first_of(u.scheme, None, "https"@) + "://"@ + a + first_of(
                    u.path_and_query,
                    None,
                    "/"@,
                ),
            ),
        },
    }
}

/// Makes the target of a request from a WebSocket URI.
pub fn target_for_uri(uri: &str) -> (r: Result<String, Error>)
    ensures
        match (r, connect_target(http_text::uri_of(uri@))) {
            (Ok(s), Ok(t)) => s@ == t,
            (Err(x), Err(e)) => x == e,
            _ => false,
        },
{
    let parts = match http_text::parse_uri(uri) {
        Some(p) => p,
        None => {
            return Err(Error::HandshakeFailed("invalid URI"));
        },
    };
    target_of_parts(&parts)
}

/// Makes the target of a request from the parts of a WebSocket URI.
pub fn target_of_parts(parts: &http_text::UriParts) -> (r: Result<String, Error>)
    ensures
        match (r, connect_target(Some(parts@))) {
            (Ok(s), Ok(t)) => s@ == t,
            (Err(x), Err(e)) => x == e,
            _ => false,
        },
{
    let authority = match parts.authority.as_ref() {
        Some(a) => a.as_str(),
        None => {
            return Err(Error::HandshakeFailed("URI missing authority"));
        },
    };
    let mut target = match parts.scheme.as_ref() {
        Some(s) => s.clone(),
        None => "https".to_owned(),
    };
    target.append("://");
    target.append(authority);
    match parts.path_and_query.as_ref() {
        Some(p) => target.append(p.as_str()),
        None => target.append("/"),
    }
    Ok(target)
}

/// A header field as text.
pub type Field = (Seq<char>, Seq<char>);

/// The fields as mathematical values.
pub open spec fn fields_view(fields: Seq<(String, String)>) -> Seq<Field> {
    fields.map_values(|f: (String, String)| (f.0@, f.1@))
}

/// One optional field.
pub open spec fn field_if(name: Seq<char>, value: Option<Seq<char>>) -> Seq<Field> {
    match value {
        Some(v) => seq![(name, v)],
        None => seq![],
    }
}

/// Adds a field to a list of fields.
pub fn push_field(fields: &mut Vec<(String, String)>, name: &str, value: &str)
    ensures
        fields_view(final(fields)@) == fields_view(old(fields)@).push((name@, value@)),
{
    fields.push((name.to_owned(), value.to_owned()));
    assert(fields_view(fields@) =~= fields_view(old(fields)@).push((name@, value@)));
}

} // verus!
