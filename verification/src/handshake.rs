//! The HTTP/1.1 upgrade handshake.
//!
//! Reading and writing sockets is left to the caller: the functions here parse
//! what has arrived, decide, and build the bytes to send.

use crate::buffers;
use crate::codec;
use crate::error::Error;
use crate::handshake_laws;
use crate::headers;
use crate::http_text;
use crate::http_text::{
    HeadParse, HeaderLine, RequestHead, RequestHeadView, ResponseHead, ResponseHeadView,
};
use crate::mask;
use crate::text;
use crate::WS_GUID;
use bytes::{Bytes, BytesMut};
use std::borrow::Cow;
use vstd::prelude::*;
use vstd::string::*;
use vstd::utf8::*;

verus! {

/// Maximum size of a handshake head.
pub const MAX_HEADER_SIZE: usize = 8192;

/// Maximum number of header lines in a handshake head.
pub const MAX_HEADER_LINES: usize = 32;

/// A header line: name and value.
pub type Line = (Seq<char>, Seq<u8>);

/// Whether a line bears the given name; case does not matter.
pub open spec fn is_named(line: Line, name: Seq<char>) -> bool {
    text::eq_ignore_ascii_case(line.0, name)
}

/// The value of a line as text, without the white space around it.
pub open spec fn line_text(line: Line) -> Seq<char> {
    text::trim(decode_utf8(line.1))
}

/// The values of the lines named `name`, in order.
pub open spec fn values(lines: Seq<Line>, name: Seq<char>) -> Seq<Seq<char>>
    decreases lines.len(),
{
    if lines.len() == 0 {
        seq![]
    } else if is_named(lines.last(), name) {
        values(lines.drop_last(), name).push(line_text(lines.last()))
    } else {
        values(lines.drop_last(), name)
    }
}

/// The value of the line named `name`, where there is one.
pub open spec fn single(lines: Seq<Line>, name: Seq<char>) -> Option<Seq<char>> {
    let v = values(lines, name);
    if v.len() == 0 {
        None
    } else {
        Some(v[0])
    }
}

/// The given values as one comma-separated list.
pub open spec fn joined(v: Seq<Seq<char>>) -> Seq<char>
    decreases v.len(),
{
    if v.len() == 0 {
        seq![]
    } else if v.len() == 1 {
        v[0]
    } else {
        joined(v.drop_last()) + ", "@ + v.last()
    }
}

/// The values of the lines named `name`, as one list, where there are any.
pub open spec fn combined(lines: Seq<Line>, name: Seq<char>) -> Option<Seq<char>> {
    let v = values(lines, name);
    if v.len() == 0 {
        None
    } else {
        Some(joined(v))
    }
}

/// Whether a line named `name` lists `token`.
pub open spec fn names_token(lines: Seq<Line>, name: Seq<char>, token: Seq<char>) -> bool {
    exists|i: int|
        0 <= i < values(lines, name).len() && headers::contains_token(
            #[trigger] values(lines, name)[i],
            token,
        )
}

/// The error that `line` causes in a request, behind the lines `before`.
pub open spec fn request_line_error(before: Seq<Line>, line: Line) -> Option<Error> {
    if !valid_utf8(line.1) {
        Some(Error::InvalidHttp("invalid header value"))
    } else if is_named(line, "sec-websocket-key"@) && values(before, "sec-websocket-key"@).len()
        > 0 {
        Some(Error::HandshakeFailed("duplicate Sec-WebSocket-Key"))
    } else if is_named(line, "sec-websocket-version"@) && values(
        before,
        "sec-websocket-version"@,
    ).len() > 0 {
        Some(Error::HandshakeFailed("duplicate Sec-WebSocket-Version"))
    } else if is_named(line, "host"@) && values(before, "host"@).len() > 0 {
        Some(Error::HandshakeFailed("duplicate Host"))
    } else if is_named(line, "origin"@) && values(before, "origin"@).len() > 0 {
        Some(Error::HandshakeFailed("duplicate Origin"))
    } else if is_named(line, "content-length"@) && !headers::is_zero_length(line_text(line)) {
        Some(Error::InvalidHttp("WebSocket handshake must not contain a body"))
    } else if is_named(line, "transfer-encoding"@) {
        Some(Error::InvalidHttp("WebSocket handshake must not use Transfer-Encoding"))
    } else {
        None
    }
}

/// The first error that the lines of a request cause.
pub open spec fn request_lines_error(lines: Seq<Line>) -> Option<Error>
    decreases lines.len(),
{
    if lines.len() == 0 {
        None
    } else {
        match request_lines_error(lines.drop_last()) {
            Some(e) => Some(e),
            None => request_line_error(lines.drop_last(), lines.last()),
        }
    }
}

/// The resource and the host that a request target names.
///
/// In origin form the host is that of the Host header. In absolute form both
/// come from the target, which must be an `http` or `https` URI without user
/// information.
pub open spec fn server_target(value: Seq<char>, header_host: Seq<char>) -> Option<
    (Seq<char>, Seq<char>),
> {
    if headers::is_origin_form(value) {
        Some((value, header_host))
    } else {
        match http_text::uri_of(value) {
            Some(uri) => match (uri.scheme, uri.authority) {
                (Some(scheme), Some(authority)) => {
                    let k = text::find_text(value, "://"@, 0);
                    let rest = value.skip(k + 3);
                    let resource = rest.skip(authority.len() as int);
                    if !text::eq_ignore_ascii_case(scheme, "http"@) && !text::eq_ignore_ascii_case(
                        scheme,
                        "https"@,
                    ) {
                        None
                    } else if authority.contains('@') {
                        None
                    } else if k < 0 || !authority.is_prefix_of(rest) {
                        None
                    } else if resource.len() == 0 {
                        Some(("/"@, authority))
                    } else if resource[0] == '?' {
                        Some(("/"@ + resource, authority))
                    } else if uri.path_and_query == Some(resource) {
                        Some((resource, authority))
                    } else {
                        None
                    }
                },
                _ => None,
            },
            None => None,
        }
    }
}

/// A handshake request, as mathematical values.
pub struct RequestView {
    pub path: Seq<char>,
    pub host: Option<Seq<char>>,
    pub key: Seq<char>,
    pub version: Seq<char>,
    pub protocol: Option<Seq<char>>,
    pub extensions: Option<Seq<char>>,
    pub origin: Option<Seq<char>>,
}

/// The handshake request that a message head makes, or why it makes none.
pub open spec fn request_of(head: RequestHeadView) -> Result<RequestView, Error> {
    let lines = head.headers;
    let key = single(lines, "sec-websocket-key"@);
    let version = single(lines, "sec-websocket-version"@);
    let host = single(lines, "host"@);
    let protocol = combined(lines, "sec-websocket-protocol"@);
    let extensions = combined(lines, "sec-websocket-extensions"@);
    if head.method != Some("GET"@) {
        Err(Error::InvalidHttp("method must be GET"))
    } else if head.version != Some(1u8) {
        Err(Error::InvalidHttp("HTTP version must be 1.1"))
    } else if request_lines_error(lines) is Some {
        Err(request_lines_error(lines)->0)
    } else if !names_token(lines, "upgrade"@, "websocket"@) {
        Err(Error::HandshakeFailed("missing Upgrade: websocket"))
    } else if !names_token(lines, "connection"@, "upgrade"@) {
        Err(Error::HandshakeFailed("missing Connection: Upgrade"))
    } else if key is None {
        Err(Error::HandshakeFailed("missing Sec-WebSocket-Key"))
    } else if version is None {
        Err(Error::HandshakeFailed("missing Sec-WebSocket-Version"))
    } else if host is None {
        Err(Error::HandshakeFailed("missing Host"))
    } else if version != Some("13"@) {
        Err(Error::HandshakeFailed("unsupported WebSocket version"))
    } else if !headers::is_websocket_key(key->0) {
        Err(Error::HandshakeFailed("invalid Sec-WebSocket-Key"))
    } else if !headers::is_host(host->0) {
        Err(Error::InvalidHttp("invalid Host"))
    } else if protocol is Some && !headers::is_protocol_list(protocol->0) {
        Err(Error::HandshakeFailed("invalid Sec-WebSocket-Protocol"))
    } else if extensions is Some && !headers::is_extension_list(extensions->0) {
        Err(Error::HandshakeFailed("invalid Sec-WebSocket-Extensions"))
    } else if head.path is None {
        Err(Error::InvalidHttp("missing request target"))
    } else {
        match server_target(head.path->0, host->0) {
            Some((path, effective_host)) => Ok(
                RequestView {
                    path,
                    host: Some(effective_host),
                    key: key->0,
                    version: version->0,
                    protocol,
                    extensions,
                    origin: single(lines, "origin"@),
                },
            ),
            None => Err(Error::InvalidHttp("invalid request target")),
        }
    }
}

/// WebSocket handshake request (server side).
#[derive(Debug)]
pub struct HandshakeRequest<'a> {
    /// The request path.
    pub path: Cow<'a, str>,
    /// The effective request authority, from the absolute target or the Host header.
    pub host: Option<&'a str>,
    /// The Sec-WebSocket-Key header.
    pub key: &'a str,
    /// The Sec-WebSocket-Version header.
    pub version: &'a str,
    /// The Sec-WebSocket-Protocol header, where there is one.
    pub protocol: Option<Cow<'a, str>>,
    /// The Sec-WebSocket-Extensions header, where there is one.
    pub extensions: Option<Cow<'a, str>>,
    /// The Origin header, where there is one.
    pub origin: Option<&'a str>,
}

/// The view of an optional text that may be borrowed.
pub open spec fn opt_cow_view(s: Option<Cow<'_, str>>) -> Option<Seq<char>> {
    match s {
        Some(x) => Some(x@),
        None => None,
    }
}

impl<'a> View for HandshakeRequest<'a> {
    type V = RequestView;

    open spec fn view(&self) -> RequestView {
        RequestView {
            path: self.path@,
            host: http_text::opt_view(self.host),
            key: self.key@,
            version: self.version@,
            protocol: opt_cow_view(self.protocol),
            extensions: opt_cow_view(self.extensions),
            origin: http_text::opt_view(self.origin),
        }
    }
}

/// What the header lines of a request have given so far.
struct RequestFields<'a> {
    key: Option<&'a str>,
    version: Option<&'a str>,
    host: Option<&'a str>,
    protocol: Option<Cow<'a, str>>,
    extensions: Option<Cow<'a, str>>,
    origin: Option<&'a str>,
    upgrade: bool,
    connection_upgrade: bool,
}

/// `f` holds what the lines give.
spec fn collected(f: RequestFields, lines: Seq<Line>) -> bool {
    &&& http_text::opt_view(f.key) == single(lines, "sec-websocket-key"@)
    &&& http_text::opt_view(f.version) == single(lines, "sec-websocket-version"@)
    &&& http_text::opt_view(f.host) == single(lines, "host"@)
    &&& http_text::opt_view(f.origin) == single(lines, "origin"@)
    &&& opt_cow_view(f.protocol) == combined(lines, "sec-websocket-protocol"@)
    &&& opt_cow_view(f.extensions) == combined(lines, "sec-websocket-extensions"@)
    &&& f.upgrade == names_token(lines, "upgrade"@, "websocket"@)
    &&& f.connection_upgrade == names_token(lines, "connection"@, "upgrade"@)
}

/// The owned text of `c`.
fn cow_into_string<'a>(c: Cow<'a, str>) -> (r: String)
    ensures
        r@ == c@,
{
    match c {
        Cow::Borrowed(s) => s.to_owned(),
        Cow::Owned(s) => s,
    }
}

/// The text of `c`.
pub(crate) fn cow_as_str<'b>(c: &'b Cow<'_, str>) -> (r: &'b str)
    ensures
        r@ == c@,
{
    match c {
        Cow::Borrowed(s) => s,
        Cow::Owned(s) => s.as_str(),
    }
}

/// Adds a value to a header that may be given in several lines.
fn append_header_value<'a>(current: Option<Cow<'a, str>>, value: &'a str) -> (r: Option<
    Cow<'a, str>,
>)
    ensures
        opt_cow_view(r) == Some(
            match opt_cow_view(current) {
                Some(c) => c + ", "@ + value@,
                None => value@,
            },
        ),
{
    match current {
        Some(c) => {
            let mut s = cow_into_string(c);
            s.append(", ");
            s.append(value);
            Some(Cow::Owned(s))
        },
        None => Some(Cow::Borrowed(value)),
    }
}

/// One more line named `name` adds its value; any other adds nothing.
proof fn lemma_values_push(lines: Seq<Line>, line: Line, name: Seq<char>)
    ensures
        values(lines.push(line), name) == (if is_named(line, name) {
            values(lines, name).push(line_text(line))
        } else {
            values(lines, name)
        }),
{
    assert(lines.push(line).drop_last() =~= lines);
}

/// A line named otherwise changes neither the value nor the tokens.
proof fn lemma_other_name(lines: Seq<Line>, line: Line, name: Seq<char>, token: Seq<char>)
    requires
        !is_named(line, name),
    ensures
        single(lines.push(line), name) == single(lines, name),
        combined(lines.push(line), name) == combined(lines, name),
        names_token(lines.push(line), name, token) == names_token(lines, name, token),
{
    lemma_values_push(lines, line, name);
}

/// How one more line named `name` changes the list and the tokens.
proof fn lemma_same_name(lines: Seq<Line>, line: Line, name: Seq<char>, token: Seq<char>)
    requires
        is_named(line, name),
    ensures
        single(lines, name) is None ==> single(lines.push(line), name) == Some(line_text(line)),
        combined(lines.push(line), name) == Some(
            match combined(lines, name) {
                Some(c) => c + ", "@ + line_text(line),
                None => line_text(line),
            },
        ),
        names_token(lines.push(line), name, token) == (names_token(lines, name, token)
            || headers::contains_token(line_text(line), token)),
{
    lemma_values_push(lines, line, name);
    let before = values(lines, name);
    let after = values(lines.push(line), name);
    assert(after == before.push(line_text(line)));
    assert(after.drop_last() =~= before);
    if names_token(lines, name, token) {
        let i = choose|i: int|
            0 <= i < before.len() && headers::contains_token(#[trigger] before[i], token);
        assert(after[i] == before[i]);
        assert(names_token(lines.push(line), name, token));
    }
    if headers::contains_token(line_text(line), token) {
        assert(after[before.len() as int] == line_text(line));
        assert(names_token(lines.push(line), name, token));
    }
    if names_token(lines.push(line), name, token) {
        let i = choose|i: int|
            0 <= i < after.len() && headers::contains_token(#[trigger] after[i], token);
        if i < before.len() {
            assert(after[i] == before[i]);
        }
    }
}

/// The header names that matter are told apart by length and first letter.
proof fn lemma_names_differ(n: Seq<char>)
    ensures
        text::eq_ignore_ascii_case(n, "sec-websocket-key"@) ==> n.len() == 17 && text::ascii_lower(
            n[0],
        ) == 's',
        text::eq_ignore_ascii_case(n, "sec-websocket-version"@) ==> n.len() == 21,
        text::eq_ignore_ascii_case(n, "sec-websocket-protocol"@) ==> n.len() == 22,
        text::eq_ignore_ascii_case(n, "sec-websocket-extensions"@) ==> n.len() == 24,
        text::eq_ignore_ascii_case(n, "sec-websocket-accept"@) ==> n.len() == 20,
        text::eq_ignore_ascii_case(n, "host"@) ==> n.len() == 4,
        text::eq_ignore_ascii_case(n, "origin"@) ==> n.len() == 6,
        text::eq_ignore_ascii_case(n, "upgrade"@) ==> n.len() == 7,
        text::eq_ignore_ascii_case(n, "connection"@) ==> n.len() == 10,
        text::eq_ignore_ascii_case(n, "content-length"@) ==> n.len() == 14,
        text::eq_ignore_ascii_case(n, "transfer-encoding"@) ==> n.len() == 17 && text::ascii_lower(
            n[0],
        ) == 't',
{
    reveal_strlit("sec-websocket-key");
    reveal_strlit("sec-websocket-version");
    reveal_strlit("sec-websocket-protocol");
    reveal_strlit("sec-websocket-extensions");
    reveal_strlit("sec-websocket-accept");
    reveal_strlit("host");
    reveal_strlit("origin");
    reveal_strlit("upgrade");
    reveal_strlit("connection");
    reveal_strlit("content-length");
    reveal_strlit("transfer-encoding");
}

/// Reads the value of a header line as text.
fn read_line_text<'a>(line: &HeaderLine<'a>) -> (r: Option<&'a str>)
    ensures
        match r {
            Some(s) => valid_utf8(line.value@) && s@ == line_text(http_text::line_view(*line)),
            None => !valid_utf8(line.value@),
        },
{
    match text::str_from_utf8(line.value) {
        Some(s) => {
            proof {
                encode_utf8_decode_utf8(s@);
            }
            Some(text::str_trim(s))
        },
        None => None,
    }
}

/// Takes one more header line of a request into account.
fn scan_request_line<'a>(
    f: &mut RequestFields<'a>,
    line: &HeaderLine<'a>,
    before: Ghost<Seq<Line>>,
) -> (r: Result<(), Error>)
    requires
        collected(*old(f), before@),
    ensures
        match request_line_error(before@, http_text::line_view(*line)) {
            Some(e) => r == Err::<(), Error>(e),
            None => r is Ok && collected(*final(f), before@.push(http_text::line_view(*line))),
        },
{
    let ghost l = http_text::line_view(*line);
    proof {
        lemma_names_differ(l.0);
        lemma_values_push(before@, l, "sec-websocket-key"@);
        if !is_named(l, "sec-websocket-key"@) {
            lemma_other_name(before@, l, "sec-websocket-key"@, seq![]);
        } else {
            lemma_same_name(before@, l, "sec-websocket-key"@, seq![]);
        }
        if !is_named(l, "sec-websocket-version"@) {
            lemma_other_name(before@, l, "sec-websocket-version"@, seq![]);
        } else {
            lemma_same_name(before@, l, "sec-websocket-version"@, seq![]);
        }
        if !is_named(l, "host"@) {
            lemma_other_name(before@, l, "host"@, seq![]);
        } else {
            lemma_same_name(before@, l, "host"@, seq![]);
        }
        if !is_named(l, "origin"@) {
            lemma_other_name(before@, l, "origin"@, seq![]);
        } else {
            lemma_same_name(before@, l, "origin"@, seq![]);
        }
        if !is_named(l, "sec-websocket-protocol"@) {
            lemma_other_name(before@, l, "sec-websocket-protocol"@, seq![]);
        } else {
            lemma_same_name(before@, l, "sec-websocket-protocol"@, seq![]);
        }
        if !is_named(l, "sec-websocket-extensions"@) {
            lemma_other_name(before@, l, "sec-websocket-extensions"@, seq![]);
        } else {
            lemma_same_name(before@, l, "sec-websocket-extensions"@, seq![]);
        }
        if !is_named(l, "upgrade"@) {
            lemma_other_name(before@, l, "upgrade"@, "websocket"@);
        } else {
            lemma_same_name(before@, l, "upgrade"@, "websocket"@);
        }
        if !is_named(l, "connection"@) {
            lemma_other_name(before@, l, "connection"@, "upgrade"@);
        } else {
            lemma_same_name(before@, l, "connection"@, "upgrade"@);
        }
    }
    let name = line.name;
    let value = match read_line_text(line) {
        Some(s) => s,
        None => {
            return Err(Error::InvalidHttp("invalid header value"));
        },
    };
    if text::str_eq_ignore_ascii_case(name, "sec-websocket-key") {
        if f.key.is_some() {
            return Err(Error::HandshakeFailed("duplicate Sec-WebSocket-Key"));
        }
        f.key = Some(value);
    } else if text::str_eq_ignore_ascii_case(name, "sec-websocket-version") {
        if f.version.is_some() {
            return Err(Error::HandshakeFailed("duplicate Sec-WebSocket-Version"));
        }
        f.version = Some(value);
    } else if text::str_eq_ignore_ascii_case(name, "sec-websocket-protocol") {
        let current = f.protocol.take();
        f.protocol = append_header_value(current, value);
    } else if text::str_eq_ignore_ascii_case(name, "sec-websocket-extensions") {
        let current = f.extensions.take();
        f.extensions = append_header_value(current, value);
    } else if text::str_eq_ignore_ascii_case(name, "host") {
        if f.host.is_some() {
            return Err(Error::HandshakeFailed("duplicate Host"));
        }
        f.host = Some(value);
    } else if text::str_eq_ignore_ascii_case(name, "origin") {
        if f.origin.is_some() {
            return Err(Error::HandshakeFailed("duplicate Origin"));
        }
        f.origin = Some(value);
    } else if text::str_eq_ignore_ascii_case(name, "upgrade") {
        if headers::contains_header_token(value, "websocket") {
            f.upgrade = true;
        }
    } else if text::str_eq_ignore_ascii_case(name, "connection") {
        if headers::contains_header_token(value, "upgrade") {
            f.connection_upgrade = true;
        }
    } else if text::str_eq_ignore_ascii_case(name, "content-length") {
        if !headers::is_zero_content_length(value) {
            return Err(Error::InvalidHttp("WebSocket handshake must not contain a body"));
        }
    } else if text::str_eq_ignore_ascii_case(name, "transfer-encoding") {
        return Err(Error::InvalidHttp("WebSocket handshake must not use Transfer-Encoding"));
    }
    Ok(())
}

/// An error in a prefix of the lines is the error of the lines.
proof fn lemma_request_error_prefix(lines: Seq<Line>, k: int)
    requires
        0 <= k <= lines.len(),
        request_lines_error(lines.take(k)) is Some,
    ensures
        request_lines_error(lines) == request_lines_error(lines.take(k)),
    decreases lines.len() - k,
{
    if k < lines.len() {
        assert(lines.drop_last().take(k) =~= lines.take(k));
        lemma_request_error_prefix(lines.drop_last(), k);
    } else {
        assert(lines.take(k) =~= lines);
    }
}

/// The resource and host of a request target, given the host of the Host header.
pub fn parse_server_request_target<'a>(value: &'a str, header_host: &'a str) -> (r: Option<
    (Cow<'a, str>, &'a str),
>)
    ensures
        match (r, server_target(value@, header_host@)) {
            (Some((path, host)), Some((p, h))) => path@ == p && host@ == h && p.len() > 0 && p[0]
                == '/',
            (None, None) => true,
            _ => false,
        },
{
    if headers::is_valid_request_target(value) {
        return Some((Cow::Borrowed(value), header_host));
    }
    let uri = match http_text::parse_uri(value) {
        Some(u) => u,
        None => {
            return None;
        },
    };
    let scheme = match uri.scheme.as_ref() {
        Some(s) => s.as_str(),
        None => {
            return None;
        },
    };
    let authority = match uri.authority.as_ref() {
        Some(a) => a.as_str(),
        None => {
            return None;
        },
    };
    if !text::str_eq_ignore_ascii_case(scheme, "http") && !text::str_eq_ignore_ascii_case(
        scheme,
        "https",
    ) {
        return None;
    }
    if text::str_contains_char(authority, '@') {
        return None;
    }
    let scheme_end: usize = match text::str_find(value, "://") {
        Some(k) => k,
        None => {
            return None;
        },
    };
    proof {
        reveal_strlit("://");
        reveal_strlit("/");
        reveal_strlit("?");
    }
    let rest = text::str_skip(value, scheme_end + 3);
    if !text::str_starts_with(rest, authority) {
        return None;
    }
    let authority_len: usize = authority.unicode_len();
    let effective = rest.substring_char(0, authority_len);
    let resource = text::str_skip(rest, authority_len);
    if resource.is_empty() {
        return Some((Cow::Borrowed("/"), effective));
    }
    let first = resource.get_char(0);
    if first == '?' {
        let mut path = "/".to_owned();
        path.append(resource);
        return Some((Cow::Owned(path), effective));
    }
    match uri.path_and_query.as_ref() {
        Some(p) => {
            if text::str_eq(p.as_str(), resource) {
                Some((Cow::Borrowed(resource), effective))
            } else {
                None
            }
        },
        None => None,
    }
}

/// The outcome of checking a request, as mathematical values.
pub open spec fn request_outcome(r: Result<HandshakeRequest<'_>, Error>) -> Result<
    RequestView,
    Error,
> {
    match r {
        Ok(q) => Ok(q@),
        Err(e) => Err(e),
    }
}

/// What holds of every request that is accepted: the path is absolute, the version
/// is 13, the key and the lists are well formed, and the host is there and holds
/// no user information.
pub open spec fn is_sound_request(request: RequestView) -> bool {
    &&& request.path.len() > 0 && request.path[0] == '/'
    &&& request.version == "13"@
    &&& headers::is_websocket_key(request.key)
    &&& request.host matches Some(host) && !host.contains('@')
    &&& request.protocol matches Some(list) ==> headers::is_protocol_list(list)
    &&& request.extensions matches Some(list) ==> headers::is_extension_list(list)
}

/// Checks the head of an upgrade request.
pub fn check_request<'a>(head: RequestHead<'a>) -> (r: Result<HandshakeRequest<'a>, Error>)
    ensures
        request_outcome(r) == request_of(head@),
        r matches Ok(request) ==> is_sound_request(request@),
{
    let method_ok = match head.method {
        Some(m) => text::str_eq(m, "GET"),
        None => false,
    };
    if !method_ok {
        return Err(Error::InvalidHttp("method must be GET"));
    }
    let version_ok = match head.version {
        Some(v) => v == 1,
        None => false,
    };
    if !version_ok {
        return Err(Error::InvalidHttp("HTTP version must be 1.1"));
    }
    let ghost lines = head@.headers;
    let mut f = RequestFields {
        key: None,
        version: None,
        host: None,
        protocol: None,
        extensions: None,
        origin: None,
        upgrade: false,
        connection_upgrade: false,
    };
    let mut i: usize = 0;
    assert(lines.take(0) =~= seq![]);
    while i < head.headers.len()
        invariant
            lines == http_text::lines_view(head.headers@),
            lines == head@.headers,
            head@.method == Some("GET"@),
            head@.version == Some(1u8),
            i <= head.headers.len(),
            request_lines_error(lines.take(i as int)) is None,
            collected(f, lines.take(i as int)),
        decreases head.headers.len() - i,
    {
        let ghost prefix = lines.take(i as int);
        assert(lines.take(i + 1) =~= prefix.push(lines[i as int]));
        assert(lines.take(i + 1).drop_last() =~= prefix);
        assert(lines[i as int] == http_text::line_view(head.headers@[i as int]));
        let line = head.headers[i];
        match scan_request_line(&mut f, &line, Ghost(prefix)) {
            Ok(()) => {},
            Err(e) => {
                proof {
                    lemma_request_error_prefix(lines, i + 1);
                }
                return Err(e);
            },
        }
        i = i + 1;
    }
    assert(lines.take(i as int) =~= lines);
    if !f.upgrade {
        return Err(Error::HandshakeFailed("missing Upgrade: websocket"));
    }
    if !f.connection_upgrade {
        return Err(Error::HandshakeFailed("missing Connection: Upgrade"));
    }
    let key = match f.key {
        Some(k) => k,
        None => {
            return Err(Error::HandshakeFailed("missing Sec-WebSocket-Key"));
        },
    };
    let version = match f.version {
        Some(v) => v,
        None => {
            return Err(Error::HandshakeFailed("missing Sec-WebSocket-Version"));
        },
    };
    let host = match f.host {
        Some(h) => h,
        None => {
            return Err(Error::HandshakeFailed("missing Host"));
        },
    };
    if !text::str_eq(version, "13") {
        return Err(Error::HandshakeFailed("unsupported WebSocket version"));
    }
    if !headers::is_valid_websocket_key(key) {
        return Err(Error::HandshakeFailed("invalid Sec-WebSocket-Key"));
    }
    if !headers::is_valid_host(host) {
        return Err(Error::InvalidHttp("invalid Host"));
    }
    let protocol_ok = match f.protocol.as_ref() {
        Some(p) => headers::is_valid_protocol_list(cow_as_str(p)),
        None => true,
    };
    if !protocol_ok {
        return Err(Error::HandshakeFailed("invalid Sec-WebSocket-Protocol"));
    }
    let extensions_ok = match f.extensions.as_ref() {
        Some(e) => headers::is_valid_extension_list(cow_as_str(e)),
        None => true,
    };
    if !extensions_ok {
        return Err(Error::HandshakeFailed("invalid Sec-WebSocket-Extensions"));
    }
    let target = match head.path {
        Some(p) => p,
        None => {
            return Err(Error::InvalidHttp("missing request target"));
        },
    };
    match parse_server_request_target(target, host) {
        Some((path, effective_host)) => Ok(
            HandshakeRequest {
                path,
                host: Some(effective_host),
                key,
                version,
                protocol: f.protocol,
                extensions: f.extensions,
                origin: f.origin,
            },
        ),
        None => Err(Error::InvalidHttp("invalid request target")),
    }
}

/// The part of `buf` that may hold a handshake head.
pub open spec fn head_window(buf: Seq<u8>) -> Seq<u8> {
    if buf.len() > MAX_HEADER_SIZE {
        buf.take(MAX_HEADER_SIZE as int)
    } else {
        buf
    }
}

/// The part of `buf` that may hold a handshake head.
fn window<'a>(buf: &'a [u8]) -> (r: &'a [u8])
    ensures
        r@ == head_window(buf@),
        r.len() <= buf.len(),
{
    if buf.len() > MAX_HEADER_SIZE {
        let (head, _rest) = buf.split_at(MAX_HEADER_SIZE);
        assert(head@ =~= buf@.take(MAX_HEADER_SIZE as int));
        head
    } else {
        buf
    }
}

/// What the bytes received so far are as a request: an error, incomplete, or a
/// request and the number of bytes it takes up.
pub open spec fn parsed_request(buf: Seq<u8>) -> Result<Option<(RequestView, usize)>, Error> {
    match http_text::request_head(head_window(buf), MAX_HEADER_LINES as nat) {
        HeadParse::Complete(head, n) => match request_of(head) {
            Ok(request) => Ok(Some((request, n))),
            Err(e) => Err(e),
        },
        HeadParse::Partial => if buf.len() >= MAX_HEADER_SIZE {
            Err(Error::InvalidHttp("request too large"))
        } else {
            Ok(None)
        },
        HeadParse::Failed => Err(Error::InvalidHttp("failed to parse HTTP request")),
    }
}

/// What a parsed request says.
pub open spec fn request_parse(r: Result<Option<(HandshakeRequest<'_>, usize)>, Error>) -> Result<
    Option<(RequestView, usize)>,
    Error,
> {
    match r {
        Ok(Some((request, n))) => Ok(Some((request@, n))),
        Ok(None) => Ok(None),
        Err(e) => Err(e),
    }
}

/// Whether `buf` starts with a request that is built from valid parts, without
/// white space around its values, with at most one Origin, and within the limits.
pub open spec fn is_built_request(
    buf: Seq<u8>,
    host: Seq<char>,
    path: Seq<char>,
    key: Seq<char>,
    protocol: Option<Seq<char>>,
    extensions: Option<Seq<char>>,
    extra: Seq<(String, String)>,
    rest: Seq<u8>,
) -> bool {
    let head = encode_utf8(request_text(host, path, key, protocol, extensions, extra));
    &&& buf == head + rest
    &&& head.len() <= MAX_HEADER_SIZE
    &&& extra.len() + 7 <= MAX_HEADER_LINES
    &&& request_parts_error(host, path, key, protocol, extensions, extra) is None
    &&& handshake_laws::extra_origins(extra).len() <= 1
    &&& forall|i: int| 0 <= i < extra.len() ==> headers::is_plain_value((#[trigger] extra[i]).1@)
    &&& http_text::is_plain_target(path)
    &&& headers::is_plain_value(host)
    &&& headers::is_plain_value(key)
    &&& protocol matches Some(p) ==> headers::is_plain_value(p)
    &&& extensions matches Some(e) ==> headers::is_plain_value(e)
}

/// The request that is built from some parts.
pub open spec fn built_request(
    host: Seq<char>,
    path: Seq<char>,
    key: Seq<char>,
    protocol: Option<Seq<char>>,
    extensions: Option<Seq<char>>,
    extra: Seq<(String, String)>,
) -> RequestView {
    RequestView {
        path,
        host: Some(host),
        key,
        version: "13"@,
        protocol,
        extensions,
        origin: if handshake_laws::extra_origins(extra).len() == 0 {
            None
        } else {
            Some(handshake_laws::extra_origins(extra)[0])
        },
    }
}

/// Whether what follows the first `n` bytes of `buf` makes no difference to what
/// they are as a request: nothing, more, or something else may follow.
pub open spec fn request_stays(buf: Seq<u8>, n: int) -> bool {
    forall|other: Seq<u8>|
        n <= other.len() && other.take(n) == buf.take(n) ==> #[trigger] parsed_request(other)
            == parsed_request(buf)
}

/// Parses an upgrade request.
///
/// Gives the request and the number of bytes it takes up, or `None` while it is
/// incomplete. Bytes behind the head belong to the upgraded stream. What a client
/// builds is read as it was built.
pub fn parse_request(buf: &[u8]) -> (r: Result<Option<(HandshakeRequest<'_>, usize)>, Error>)
    ensures
        request_parse(r) == parsed_request(buf@),
        r matches Ok(Some((request, n))) ==> {
            &&& 0 < n <= head_window(buf@).len()
            &&& n <= buf.len()
            &&& is_sound_request(request@)
            &&& request_stays(buf@, n as int)
        },
        forall|
            host: Seq<char>,
            path: Seq<char>,
            key: Seq<char>,
            protocol: Option<Seq<char>>,
            extensions: Option<Seq<char>>,
            extra: Seq<(String, String)>,
            rest: Seq<u8>,
        | #[trigger]
            is_built_request(buf@, host, path, key, protocol, extensions, extra, rest) ==> parsed_request(
                buf@,
            ) == Ok::<Option<(RequestView, usize)>, Error>(
                Some(
                    (
                        built_request(host, path, key, protocol, extensions, extra),
                        (buf.len() - rest.len()) as usize,
                    ),
                ),
            ),
{
    let parse = http_text::parse_request_head(window(buf), MAX_HEADER_LINES);
    proof {
        assert forall|
            host: Seq<char>,
            path: Seq<char>,
            key: Seq<char>,
            protocol: Option<Seq<char>>,
            extensions: Option<Seq<char>>,
            extra: Seq<(String, String)>,
            rest: Seq<u8>,
        | #[trigger]
            is_built_request(buf@, host, path, key, protocol, extensions, extra, rest) implies
            parsed_request(buf@) == Ok::<Option<(RequestView, usize)>, Error>(
            Some(
                (
                    built_request(host, path, key, protocol, extensions, extra),
                    (buf.len() - rest.len()) as usize,
                ),
            ),
        ) by {
            handshake_laws::lemma_built_request_head(
                buf@,
                host,
                path,
                key,
                protocol,
                extensions,
                extra,
                rest,
            );
            handshake_laws::law_built_request_with_headers_is_accepted(
                host,
                path,
                key,
                protocol,
                extensions,
                extra,
            );
        }
    }
    proof {
        if let HeadParse::Complete(_, len) = parse {
            assert forall|other: Seq<u8>|
                len <= other.len() && other.take(len as int) == buf@.take(len as int) implies
                #[trigger] parsed_request(other) == parsed_request(buf@) by {
                let (a, b) = (head_window(other), head_window(buf@));
                assert(a.take(len as int) =~= other.take(len as int));
                assert(b.take(len as int) =~= buf@.take(len as int));
                assert(http_text::request_head(a, MAX_HEADER_LINES as nat) == http_text::request_head(
                    b,
                    MAX_HEADER_LINES as nat,
                ));
            }
        }
    }
    match parse {
        HeadParse::Complete(head, len) => match check_request(head) {
            Ok(req) => Ok(Some((req, len))),
            Err(e) => Err(e),
        },
        HeadParse::Partial => {
            if buf.len() >= MAX_HEADER_SIZE {
                Err(Error::InvalidHttp("request too large"))
            } else {
                Ok(None)
            }
        },
        HeadParse::Failed => Err(Error::InvalidHttp("failed to parse HTTP request")),
    }
}

/// The accept key that answers a handshake key: the Base64 text of the SHA-1
/// digest of the key followed by the WebSocket GUID.
pub open spec fn accept_key_of(key: Seq<char>) -> Seq<char> {
    codec::base64_text(codec::sha1_digest(encode_utf8(key + WS_GUID@)))
}

/// Generates the Sec-WebSocket-Accept value for a key.
pub fn generate_accept_key(key: &str) -> (r: String)
    ensures
        r@ == accept_key_of(key@),
        r@.len() == 28,
        headers::is_plain_value(r@),
{
    let mut input = key.to_owned();
    input.append(WS_GUID);
    let hash = codec::sha1(input.as_str().as_bytes());
    let accept = codec::base64_encode(hash.as_slice());
    proof {
        lemma_base64_is_plain(accept@);
    }
    accept
}

/// Base64 text is a field value without white space.
proof fn lemma_base64_is_plain(s: Seq<char>)
    requires
        codec::is_base64_text(s),
    ensures
        headers::is_plain_value(s),
{
    if s.len() > 0 {
        assert(codec::is_base64_char(s[0]));
        assert(codec::is_base64_char(s[s.len() - 1]));
    }
    text::lemma_trim_plain(s);
    assert forall|i: int| 0 <= i < s.len() implies headers::is_value_char(#[trigger] s[i]) by {
        assert(codec::is_base64_char(s[i]));
    }
}

/// Checks the accept key that a server sent back for a key.
pub fn validate_accept_key(sent_key: &str, received_accept: &str) -> (r: bool)
    ensures
        r == (received_accept@ == accept_key_of(sent_key@)),
{
    let expected = generate_accept_key(sent_key);
    text::str_eq(expected.as_str(), received_accept)
}

/// The handshake key made from 16 bytes.
pub fn key_from_bytes(bytes: &[u8; 16]) -> (r: String)
    ensures
        r@ == codec::base64_text(bytes@),
        headers::is_websocket_key(r@),
        headers::is_plain_value(r@),
{
    let key = codec::base64_encode(bytes.as_slice());
    proof {
        lemma_base64_is_plain(key@);
    }
    key
}

/// Generates a random handshake key.
pub fn generate_key() -> (r: String)
    ensures
        headers::is_websocket_key(r@),
        headers::is_plain_value(r@),
        exists|bytes: [u8; 16]|
            mask::are_key_draws(#[trigger] bytes@) && r@ == codec::base64_text(bytes@),
{
    let bytes = mask::generate_key_bytes();
    key_from_bytes(&bytes)
}

/// The optional header line of a built message.
pub open spec fn optional_line(name: Seq<char>, value: Option<Seq<char>>) -> Seq<char> {
    match value {
        Some(v) => name + v + "\r\n"@,
        None => seq![],
    }
}

/// The text of an upgrade response.
pub open spec fn response_text(
    accept_key: Seq<char>,
    protocol: Option<Seq<char>>,
    extensions: Option<Seq<char>>,
) -> Seq<char> {
    "HTTP/1.1 101 Switching Protocols\r\nUpgrade: websocket\r\nConnection: Upgrade\r\nSec-WebSocket-Accept: "@
        + accept_key + "\r\n"@ + optional_line("Sec-WebSocket-Protocol: "@, protocol)
        + optional_line("Sec-WebSocket-Extensions: "@, extensions) + "\r\n"@
}

/// Appends a header line where there is a value for it.
fn append_optional_line(out: &mut String, name: &str, value: Option<&str>)
    ensures
        final(out)@ == old(out)@ + optional_line(name@, http_text::opt_view(value)),
{
    match value {
        Some(v) => {
            out.append(name);
            out.append(v);
            out.append("\r\n");
            assert(out@ =~= old(out)@ + (name@ + v@ + "\r\n"@));
        },
        None => {
            assert(out@ =~= old(out)@ + seq![]);
        },
    }
}

/// The bytes of a text.
fn text_bytes(s: &str) -> (r: Bytes)
    ensures
        buffers::contents(r) == encode_utf8(s@),
{
    buffers::bytes_from_vec(s.as_bytes_vec())
}

/// Builds an upgrade response from parts that are known to be valid.
pub fn build_response_inner(
    accept_key: &str,
    protocol: Option<&str>,
    extensions: Option<&str>,
) -> (r: Bytes)
    ensures
        buffers::contents(r) == encode_utf8(
            response_text(
                accept_key@,
                http_text::opt_view(protocol),
                http_text::opt_view(extensions),
            ),
        ),
{
    let mut out =
        "HTTP/1.1 101 Switching Protocols\r\nUpgrade: websocket\r\nConnection: Upgrade\r\nSec-WebSocket-Accept: ".to_owned();
    out.append(accept_key);
    out.append("\r\n");
    append_optional_line(&mut out, "Sec-WebSocket-Protocol: ", protocol);
    append_optional_line(&mut out, "Sec-WebSocket-Extensions: ", extensions);
    out.append("\r\n");
    text_bytes(out.as_str())
}

/// An extension list without empty elements, as it may be sent.
pub open spec fn is_sendable_extension_list(value: Seq<char>) -> bool {
    headers::is_extension_list(value) && headers::no_empty_element(value)
}

/// A subprotocol list without empty elements, as it may be sent.
pub open spec fn is_sendable_protocol_list(value: Seq<char>) -> bool {
    headers::is_protocol_list(value) && headers::no_empty_element(value)
}

/// What is wrong with the parts of a response, if anything.
pub open spec fn response_parts_error(
    accept_key: Seq<char>,
    protocol: Option<Seq<char>>,
    extensions: Option<Seq<char>>,
) -> Option<Error> {
    if !headers::is_value_text(accept_key) {
        Some(Error::InvalidHttp("invalid Sec-WebSocket-Accept"))
    } else if protocol is Some && !headers::is_token(protocol->0) {
        Some(Error::InvalidHttp("invalid Sec-WebSocket-Protocol"))
    } else if extensions is Some && !is_sendable_extension_list(extensions->0) {
        Some(Error::InvalidHttp("invalid Sec-WebSocket-Extensions"))
    } else {
        None
    }
}

/// Builds an upgrade response.
pub fn build_response(accept_key: &str, protocol: Option<&str>, extensions: Option<&str>) -> (r:
    Result<Bytes, Error>)
    ensures
        match (
            r,
            response_parts_error(
                accept_key@,
                http_text::opt_view(protocol),
                http_text::opt_view(extensions),
            ),
        ) {
            (Ok(bytes), None) => buffers::contents(bytes) == encode_utf8(
                response_text(
                    accept_key@,
                    http_text::opt_view(protocol),
                    http_text::opt_view(extensions),
                ),
            ),
            (Err(x), Some(e)) => x == e,
            _ => false,
        },
{
    if !headers::is_valid_header_text(accept_key) {
        return Err(Error::InvalidHttp("invalid Sec-WebSocket-Accept"));
    }
    let protocol_ok = match protocol {
        Some(p) => headers::is_header_name_token(p),
        None => true,
    };
    if !protocol_ok {
        return Err(Error::InvalidHttp("invalid Sec-WebSocket-Protocol"));
    }
    let extensions_ok = match extensions {
        Some(e) => headers::is_valid_extension_list(e) && headers::has_no_empty_element(e),
        None => true,
    };
    if !extensions_ok {
        return Err(Error::InvalidHttp("invalid Sec-WebSocket-Extensions"));
    }
    Ok(build_response_inner(accept_key, protocol, extensions))
}

/// The lines of additional headers.
pub open spec fn extra_text(extra: Seq<(String, String)>) -> Seq<char>
    decreases extra.len(),
{
    if extra.len() == 0 {
        seq![]
    } else {
        extra_text(extra.drop_last()) + extra.last().0@ + ": "@ + extra.last().1@ + "\r\n"@
    }
}

/// The additional headers, none where none are given.
pub open spec fn extra_lines(extra: Option<&[(String, String)]>) -> Seq<(String, String)> {
    match extra {
        Some(e) => e@,
        None => seq![],
    }
}

/// The text of an upgrade request.
pub open spec fn request_text(
    host: Seq<char>,
    path: Seq<char>,
    key: Seq<char>,
    protocol: Option<Seq<char>>,
    extensions: Option<Seq<char>>,
    extra: Seq<(String, String)>,
) -> Seq<char> {
    "GET "@ + path + " HTTP/1.1\r\nHost: "@ + host
        + "\r\nUpgrade: websocket\r\nConnection: Upgrade\r\nSec-WebSocket-Key: "@ + key
        + "\r\nSec-WebSocket-Version: 13\r\n"@ + optional_line(
        "Sec-WebSocket-Protocol: "@,
        protocol,
    ) + optional_line("Sec-WebSocket-Extensions: "@, extensions) + extra_text(extra) + "\r\n"@
}

/// Appends additional header lines.
fn append_extra_lines(out: &mut String, extra: &[(String, String)])
    ensures
        final(out)@ == old(out)@ + extra_text(extra@),
{
    let ghost start = out@;
    let mut i: usize = 0;
    assert(extra@.take(0) =~= seq![]);
    assert(out@ =~= start + extra_text(extra@.take(0)));
    while i < extra.len()
        invariant
            i <= extra.len(),
            out@ == start + extra_text(extra@.take(i as int)),
        decreases extra.len() - i,
    {
        let ghost before = extra_text(extra@.take(i as int));
        out.append(extra[i].0.as_str());
        out.append(": ");
        out.append(extra[i].1.as_str());
        out.append("\r\n");
        proof {
            assert(extra@.take(i + 1).drop_last() =~= extra@.take(i as int));
            assert(out@ =~= start + (before + extra@[i as int].0@ + ": "@ + extra@[i as int].1@
                + "\r\n"@));
        }
        i = i + 1;
    }
    assert(extra@.take(i as int) =~= extra@);
}

/// Builds an upgrade request from parts that are known to be valid.
fn build_request_inner(
    host: &str,
    path: &str,
    key: &str,
    protocol: Option<&str>,
    extensions: Option<&str>,
    extra_headers: Option<&[(String, String)]>,
) -> (r: Bytes)
    ensures
        buffers::contents(r) == encode_utf8(
            request_text(
                host@,
                path@,
                key@,
                http_text::opt_view(protocol),
                http_text::opt_view(extensions),
                extra_lines(extra_headers),
            ),
        ),
{
    let mut out = "GET ".to_owned();
    out.append(path);
    out.append(" HTTP/1.1\r\nHost: ");
    out.append(host);
    out.append("\r\nUpgrade: websocket\r\nConnection: Upgrade\r\nSec-WebSocket-Key: ");
    out.append(key);
    out.append("\r\nSec-WebSocket-Version: 13\r\n");
    append_optional_line(&mut out, "Sec-WebSocket-Protocol: ", protocol);
    append_optional_line(&mut out, "Sec-WebSocket-Extensions: ", extensions);
    match extra_headers {
        Some(extra) => append_extra_lines(&mut out, extra),
        None => {
            assert(out@ =~= out@ + extra_text(seq![]));
        },
    }
    out.append("\r\n");
    text_bytes(out.as_str())
}

/// What is wrong with the parts of a request other than its key, if anything.
pub open spec fn metadata_error(
    host: Seq<char>,
    path: Seq<char>,
    protocol: Option<Seq<char>>,
    extensions: Option<Seq<char>>,
) -> Option<Error> {
    if !headers::is_host(host) {
        Some(Error::InvalidHttp("invalid Host"))
    } else if !headers::is_origin_form(path) {
        Some(Error::InvalidHttp("invalid request target"))
    } else if protocol is Some && !is_sendable_protocol_list(protocol->0) {
        Some(Error::InvalidHttp("invalid Sec-WebSocket-Protocol"))
    } else if extensions is Some && !is_sendable_extension_list(extensions->0) {
        Some(Error::InvalidHttp("invalid Sec-WebSocket-Extensions"))
    } else {
        None
    }
}

/// The result that an optional error stands for.
pub open spec fn verdict(e: Option<Error>) -> Result<(), Error> {
    match e {
        Some(x) => Err(x),
        None => Ok(()),
    }
}

/// Checks the parts of a request other than its key.
fn validate_handshake_metadata(
    host: &str,
    path: &str,
    protocol: Option<&str>,
    extensions: Option<&str>,
) -> (r: Result<(), Error>)
    ensures
        r == verdict(
            metadata_error(
                host@,
                path@,
                http_text::opt_view(protocol),
                http_text::opt_view(extensions),
            ),
        ),
{
    if !headers::is_valid_host(host) {
        return Err(Error::InvalidHttp("invalid Host"));
    }
    if !headers::is_valid_request_target(path) {
        return Err(Error::InvalidHttp("invalid request target"));
    }
    let protocol_ok = match protocol {
        Some(p) => headers::is_valid_protocol_list(p) && headers::has_no_empty_element(p),
        None => true,
    };
    if !protocol_ok {
        return Err(Error::InvalidHttp("invalid Sec-WebSocket-Protocol"));
    }
    let extensions_ok = match extensions {
        Some(e) => headers::is_valid_extension_list(e) && headers::has_no_empty_element(e),
        None => true,
    };
    if !extensions_ok {
        return Err(Error::InvalidHttp("invalid Sec-WebSocket-Extensions"));
    }
    Ok(())
}

/// The headers that the handshake itself manages.
pub open spec fn is_reserved(name: Seq<char>) -> bool {
    ||| text::eq_ignore_ascii_case(name, "host"@)
    ||| text::eq_ignore_ascii_case(name, "upgrade"@)
    ||| text::eq_ignore_ascii_case(name, "connection"@)
    ||| text::eq_ignore_ascii_case(name, "sec-websocket-key"@)
    ||| text::eq_ignore_ascii_case(name, "sec-websocket-version"@)
    ||| text::eq_ignore_ascii_case(name, "sec-websocket-protocol"@)
    ||| text::eq_ignore_ascii_case(name, "sec-websocket-extensions"@)
    ||| text::eq_ignore_ascii_case(name, "content-length"@)
    ||| text::eq_ignore_ascii_case(name, "transfer-encoding"@)
    ||| text::eq_ignore_ascii_case(name, "expect"@)
}

/// Whether `name` is a header that the handshake itself manages.
fn is_reserved_header(name: &str) -> (r: bool)
    ensures
        r == is_reserved(name@),
{
    text::str_eq_ignore_ascii_case(name, "host") || text::str_eq_ignore_ascii_case(name, "upgrade")
        || text::str_eq_ignore_ascii_case(name, "connection") || text::str_eq_ignore_ascii_case(
        name,
        "sec-websocket-key",
    ) || text::str_eq_ignore_ascii_case(name, "sec-websocket-version")
        || text::str_eq_ignore_ascii_case(name, "sec-websocket-protocol")
        || text::str_eq_ignore_ascii_case(name, "sec-websocket-extensions")
        || text::str_eq_ignore_ascii_case(name, "content-length")
        || text::str_eq_ignore_ascii_case(name, "transfer-encoding")
        || text::str_eq_ignore_ascii_case(name, "expect")
}

/// What is wrong with one additional header, if anything.
pub open spec fn extra_header_error(header: (String, String)) -> Option<Error> {
    if !headers::is_token(header.0@) {
        Some(Error::InvalidHttp("invalid header name"))
    } else if is_reserved(header.0@) {
        Some(Error::InvalidHttp("reserved handshake header"))
    } else if !headers::all_value_chars(header.1@) {
        Some(Error::InvalidHttp("invalid header value"))
    } else {
        None
    }
}

/// What is wrong with the first faulty additional header from `from` on.
pub open spec fn extra_headers_error(extra: Seq<(String, String)>, from: int) -> Option<Error>
    decreases extra.len() - from,
{
    if from < 0 || from >= extra.len() {
        None
    } else {
        match extra_header_error(extra[from]) {
            Some(e) => Some(e),
            None => extra_headers_error(extra, from + 1),
        }
    }
}

/// Checks the additional headers of a request.
fn validate_extra_headers(extra: &[(String, String)]) -> (r: Result<(), Error>)
    ensures
        r == verdict(extra_headers_error(extra@, 0)),
{
    let mut i: usize = 0;
    while i < extra.len()
        invariant
            i <= extra.len(),
            extra_headers_error(extra@, 0) == extra_headers_error(extra@, i as int),
        decreases extra.len() - i,
    {
        if !headers::is_header_name_token(extra[i].0.as_str()) {
            return Err(Error::InvalidHttp("invalid header name"));
        }
        if is_reserved_header(extra[i].0.as_str()) {
            return Err(Error::InvalidHttp("reserved handshake header"));
        }
        if !headers::is_header_value(extra[i].1.as_str()) {
            return Err(Error::InvalidHttp("invalid header value"));
        }
        i = i + 1;
    }
    Ok(())
}

/// What is wrong with the parts of a request, if anything.
pub open spec fn request_parts_error(
    host: Seq<char>,
    path: Seq<char>,
    key: Seq<char>,
    protocol: Option<Seq<char>>,
    extensions: Option<Seq<char>>,
    extra: Seq<(String, String)>,
) -> Option<Error> {
    match metadata_error(host, path, protocol, extensions) {
        Some(e) => Some(e),
        None => if !headers::is_websocket_key(key) {
            Some(Error::InvalidHttp("invalid Sec-WebSocket-Key"))
        } else {
            extra_headers_error(extra, 0)
        },
    }
}

/// Checks the parts of a request.
fn validate_request_fields(
    host: &str,
    path: &str,
    key: &str,
    protocol: Option<&str>,
    extensions: Option<&str>,
) -> (r: Result<(), Error>)
    ensures
        r == verdict(
            request_parts_error(
                host@,
                path@,
                key@,
                http_text::opt_view(protocol),
                http_text::opt_view(extensions),
                seq![],
            ),
        ),
{
    match validate_handshake_metadata(host, path, protocol, extensions) {
        Ok(()) => {},
        Err(e) => {
            return Err(e);
        },
    }
    if !headers::is_valid_websocket_key(key) {
        return Err(Error::InvalidHttp("invalid Sec-WebSocket-Key"));
    }
    Ok(())
}

/// Checks what a client is about to ask for, before anything is sent.
pub fn validate_client_handshake_inputs(
    host: &str,
    path: &str,
    protocol: Option<&str>,
    extra_headers: Option<&[(String, String)]>,
) -> (r: Result<(), Error>)
    ensures
        r == verdict(
            match metadata_error(host@, path@, http_text::opt_view(protocol), None) {
                Some(e) => Some(e),
                None => extra_headers_error(extra_lines(extra_headers), 0),
            },
        ),
{
    match validate_handshake_metadata(host, path, protocol, None) {
        Ok(()) => {},
        Err(e) => {
            return Err(e);
        },
    }
    match extra_headers {
        Some(extra) => validate_extra_headers(extra),
        None => Ok(()),
    }
}

/// Builds an upgrade request with additional headers, in the order given.
pub fn build_request_with_headers(
    host: &str,
    path: &str,
    key: &str,
    protocol: Option<&str>,
    extensions: Option<&str>,
    extra_headers: Option<&[(String, String)]>,
) -> (r: Result<Bytes, Error>)
    ensures
        match (
            r,
            request_parts_error(
                host@,
                path@,
                key@,
                http_text::opt_view(protocol),
                http_text::opt_view(extensions),
                extra_lines(extra_headers),
            ),
        ) {
            (Ok(bytes), None) => buffers::contents(bytes) == encode_utf8(
                request_text(
                    host@,
                    path@,
                    key@,
                    http_text::opt_view(protocol),
                    http_text::opt_view(extensions),
                    extra_lines(extra_headers),
                ),
            ),
            (Err(x), Some(e)) => x == e,
            _ => false,
        },
{
    match validate_request_fields(host, path, key, protocol, extensions) {
        Ok(()) => {},
        Err(e) => {
            return Err(e);
        },
    }
    match extra_headers {
        Some(extra) => match validate_extra_headers(extra) {
            Ok(()) => {},
            Err(e) => {
                return Err(e);
            },
        },
        None => {},
    }
    Ok(build_request_inner(host, path, key, protocol, extensions, extra_headers))
}

/// Builds an upgrade request.
pub fn build_request(
    host: &str,
    path: &str,
    key: &str,
    protocol: Option<&str>,
    extensions: Option<&str>,
) -> (r: Result<Bytes, Error>)
    ensures
        match (
            r,
            request_parts_error(
                host@,
                path@,
                key@,
                http_text::opt_view(protocol),
                http_text::opt_view(extensions),
                seq![],
            ),
        ) {
            (Ok(bytes), None) => buffers::contents(bytes) == encode_utf8(
                request_text(
                    host@,
                    path@,
                    key@,
                    http_text::opt_view(protocol),
                    http_text::opt_view(extensions),
                    seq![],
                ),
            ),
            (Err(x), Some(e)) => x == e,
            _ => false,
        },
{
    build_request_with_headers(host, path, key, protocol, extensions, None)
}

/// A handshake response, as mathematical values.
pub struct ResponseView {
    pub status: u16,
    pub accept: Option<Seq<char>>,
    pub protocol: Option<Seq<char>>,
    pub extensions: Option<Seq<char>>,
}

/// WebSocket handshake response (client side).
#[derive(Debug)]
pub struct HandshakeResponse<'a> {
    /// HTTP status code.
    pub status: u16,
    /// The Sec-WebSocket-Accept header.
    pub accept: Option<&'a str>,
    /// The Sec-WebSocket-Protocol header.
    pub protocol: Option<&'a str>,
    /// The Sec-WebSocket-Extensions header.
    pub extensions: Option<&'a str>,
}

impl<'a> View for HandshakeResponse<'a> {
    type V = ResponseView;

    open spec fn view(&self) -> ResponseView {
        ResponseView {
            status: self.status,
            accept: http_text::opt_view(self.accept),
            protocol: http_text::opt_view(self.protocol),
            extensions: http_text::opt_view(self.extensions),
        }
    }
}

/// The error that `line` causes in a response, behind the lines `before`.
pub open spec fn response_line_error(before: Seq<Line>, line: Line) -> Option<Error> {
    if !valid_utf8(line.1) {
        Some(Error::InvalidHttp("invalid header value"))
    } else if is_named(line, "sec-websocket-accept"@) && values(
        before,
        "sec-websocket-accept"@,
    ).len() > 0 {
        Some(Error::HandshakeFailed("duplicate Sec-WebSocket-Accept"))
    } else if is_named(line, "sec-websocket-protocol"@) && values(
        before,
        "sec-websocket-protocol"@,
    ).len() > 0 {
        Some(Error::HandshakeFailed("duplicate Sec-WebSocket-Protocol"))
    } else if is_named(line, "sec-websocket-extensions"@) && values(
        before,
        "sec-websocket-extensions"@,
    ).len() > 0 {
        Some(Error::HandshakeFailed("duplicate Sec-WebSocket-Extensions"))
    } else {
        None
    }
}

/// The first error that the lines of a response cause.
pub open spec fn response_lines_error(lines: Seq<Line>) -> Option<Error>
    decreases lines.len(),
{
    if lines.len() == 0 {
        None
    } else {
        match response_lines_error(lines.drop_last()) {
            Some(e) => Some(e),
            None => response_line_error(lines.drop_last(), lines.last()),
        }
    }
}

/// The handshake response that a message head makes, or why it makes none.
pub open spec fn response_of(head: ResponseHeadView) -> Result<ResponseView, Error> {
    let lines = head.headers;
    let protocol = single(lines, "sec-websocket-protocol"@);
    let extensions = single(lines, "sec-websocket-extensions"@);
    if head.version != Some(1u8) {
        Err(Error::InvalidHttp("HTTP version must be 1.1"))
    } else if head.code != Some(101u16) {
        Err(Error::HandshakeFailed("expected 101 Switching Protocols"))
    } else if response_lines_error(lines) is Some {
        Err(response_lines_error(lines)->0)
    } else if !names_token(lines, "upgrade"@, "websocket"@) {
        Err(Error::HandshakeFailed("missing Upgrade: websocket"))
    } else if !names_token(lines, "connection"@, "upgrade"@) {
        Err(Error::HandshakeFailed("missing Connection: Upgrade"))
    } else if protocol is Some && !headers::is_token(protocol->0) {
        Err(Error::HandshakeFailed("invalid Sec-WebSocket-Protocol"))
    } else if extensions is Some && !headers::is_extension_list(extensions->0) {
        Err(Error::HandshakeFailed("invalid Sec-WebSocket-Extensions"))
    } else {
        Ok(
            ResponseView {
                status: 101,
                accept: single(lines, "sec-websocket-accept"@),
                protocol,
                extensions,
            },
        )
    }
}

/// What the header lines of a response have given so far.
struct ResponseFields<'a> {
    accept: Option<&'a str>,
    protocol: Option<&'a str>,
    extensions: Option<&'a str>,
    upgrade: bool,
    connection_upgrade: bool,
}

/// `f` holds what the lines give.
spec fn gathered(f: ResponseFields, lines: Seq<Line>) -> bool {
    &&& http_text::opt_view(f.accept) == single(lines, "sec-websocket-accept"@)
    &&& http_text::opt_view(f.protocol) == single(lines, "sec-websocket-protocol"@)
    &&& http_text::opt_view(f.extensions) == single(lines, "sec-websocket-extensions"@)
    &&& f.upgrade == names_token(lines, "upgrade"@, "websocket"@)
    &&& f.connection_upgrade == names_token(lines, "connection"@, "upgrade"@)
}

/// Takes one more header line of a response into account.
fn scan_response_line<'a>(
    f: &mut ResponseFields<'a>,
    line: &HeaderLine<'a>,
    before: Ghost<Seq<Line>>,
) -> (r: Result<(), Error>)
    requires
        gathered(*old(f), before@),
    ensures
        match response_line_error(before@, http_text::line_view(*line)) {
            Some(e) => r == Err::<(), Error>(e),
            None => r is Ok && gathered(*final(f), before@.push(http_text::line_view(*line))),
        },
{
    let ghost l = http_text::line_view(*line);
    proof {
        lemma_names_differ(l.0);
        if !is_named(l, "sec-websocket-accept"@) {
            lemma_other_name(before@, l, "sec-websocket-accept"@, seq![]);
        } else {
            lemma_same_name(before@, l, "sec-websocket-accept"@, seq![]);
        }
        if !is_named(l, "sec-websocket-protocol"@) {
            lemma_other_name(before@, l, "sec-websocket-protocol"@, seq![]);
        } else {
            lemma_same_name(before@, l, "sec-websocket-protocol"@, seq![]);
        }
        if !is_named(l, "sec-websocket-extensions"@) {
            lemma_other_name(before@, l, "sec-websocket-extensions"@, seq![]);
        } else {
            lemma_same_name(before@, l, "sec-websocket-extensions"@, seq![]);
        }
        if !is_named(l, "upgrade"@) {
            lemma_other_name(before@, l, "upgrade"@, "websocket"@);
        } else {
            lemma_same_name(before@, l, "upgrade"@, "websocket"@);
        }
        if !is_named(l, "connection"@) {
            lemma_other_name(before@, l, "connection"@, "upgrade"@);
        } else {
            lemma_same_name(before@, l, "connection"@, "upgrade"@);
        }
    }
    let name = line.name;
    let value = match read_line_text(line) {
        Some(s) => s,
        None => {
            return Err(Error::InvalidHttp("invalid header value"));
        },
    };
    if text::str_eq_ignore_ascii_case(name, "sec-websocket-accept") {
        if f.accept.is_some() {
            return Err(Error::HandshakeFailed("duplicate Sec-WebSocket-Accept"));
        }
        f.accept = Some(value);
    } else if text::str_eq_ignore_ascii_case(name, "sec-websocket-protocol") {
        if f.protocol.is_some() {
            return Err(Error::HandshakeFailed("duplicate Sec-WebSocket-Protocol"));
        }
        f.protocol = Some(value);
    } else if text::str_eq_ignore_ascii_case(name, "sec-websocket-extensions") {
        if f.extensions.is_some() {
            return Err(Error::HandshakeFailed("duplicate Sec-WebSocket-Extensions"));
        }
        f.extensions = Some(value);
    } else if text::str_eq_ignore_ascii_case(name, "upgrade") {
        if headers::contains_header_token(value, "websocket") {
            f.upgrade = true;
        }
    } else if text::str_eq_ignore_ascii_case(name, "connection") {
        if headers::contains_header_token(value, "upgrade") {
            f.connection_upgrade = true;
        }
    }
    Ok(())
}

/// An error in a prefix of the lines is the error of the lines.
proof fn lemma_response_error_prefix(lines: Seq<Line>, k: int)
    requires
        0 <= k <= lines.len(),
        response_lines_error(lines.take(k)) is Some,
    ensures
        response_lines_error(lines) == response_lines_error(lines.take(k)),
    decreases lines.len() - k,
{
    if k < lines.len() {
        assert(lines.drop_last().take(k) =~= lines.take(k));
        lemma_response_error_prefix(lines.drop_last(), k);
    } else {
        assert(lines.take(k) =~= lines);
    }
}

/// The outcome of checking a response, as mathematical values.
pub open spec fn response_outcome(r: Result<HandshakeResponse<'_>, Error>) -> Result<
    ResponseView,
    Error,
> {
    match r {
        Ok(q) => Ok(q@),
        Err(e) => Err(e),
    }
}

/// Checks the head of an upgrade response.
pub fn check_response<'a>(head: ResponseHead<'a>) -> (r: Result<HandshakeResponse<'a>, Error>)
    ensures
        response_outcome(r) == response_of(head@),
{
    let version_ok = match head.version {
        Some(v) => v == 1,
        None => false,
    };
    if !version_ok {
        return Err(Error::InvalidHttp("HTTP version must be 1.1"));
    }
    let status: u16 = match head.code {
        Some(c) => c,
        None => 0,
    };
    if status != 101 {
        return Err(Error::HandshakeFailed("expected 101 Switching Protocols"));
    }
    let ghost lines = head@.headers;
    let mut f = ResponseFields {
        accept: None,
        protocol: None,
        extensions: None,
        upgrade: false,
        connection_upgrade: false,
    };
    let mut i: usize = 0;
    assert(lines.take(0) =~= seq![]);
    while i < head.headers.len()
        invariant
            lines == http_text::lines_view(head.headers@),
            lines == head@.headers,
            head@.version == Some(1u8),
            head@.code == Some(101u16),
            i <= head.headers.len(),
            response_lines_error(lines.take(i as int)) is None,
            gathered(f, lines.take(i as int)),
        decreases head.headers.len() - i,
    {
        let ghost prefix = lines.take(i as int);
        assert(lines.take(i + 1) =~= prefix.push(lines[i as int]));
        assert(lines.take(i + 1).drop_last() =~= prefix);
        assert(lines[i as int] == http_text::line_view(head.headers@[i as int]));
        let line = head.headers[i];
        match scan_response_line(&mut f, &line, Ghost(prefix)) {
            Ok(()) => {},
            Err(e) => {
                proof {
                    lemma_response_error_prefix(lines, i + 1);
                }
                return Err(e);
            },
        }
        i = i + 1;
    }
    assert(lines.take(i as int) =~= lines);
    if !f.upgrade {
        return Err(Error::HandshakeFailed("missing Upgrade: websocket"));
    }
    if !f.connection_upgrade {
        return Err(Error::HandshakeFailed("missing Connection: Upgrade"));
    }
    let protocol_ok = match f.protocol {
        Some(p) => headers::is_header_name_token(p),
        None => true,
    };
    if !protocol_ok {
        return Err(Error::HandshakeFailed("invalid Sec-WebSocket-Protocol"));
    }
    let extensions_ok = match f.extensions {
        Some(e) => headers::is_valid_extension_list(e),
        None => true,
    };
    if !extensions_ok {
        return Err(Error::HandshakeFailed("invalid Sec-WebSocket-Extensions"));
    }
    Ok(
        HandshakeResponse {
            status,
            accept: f.accept,
            protocol: f.protocol,
            extensions: f.extensions,
        },
    )
}

/// What the bytes received so far are as a response: an error, incomplete, or a
/// response and the number of bytes it takes up.
pub open spec fn parsed_response(buf: Seq<u8>) -> Result<Option<(ResponseView, usize)>, Error> {
    match http_text::response_head(head_window(buf), MAX_HEADER_LINES as nat) {
        HeadParse::Complete(head, n) => match response_of(head) {
            Ok(response) => Ok(Some((response, n))),
            Err(e) => Err(e),
        },
        HeadParse::Partial => if buf.len() >= MAX_HEADER_SIZE {
            Err(Error::InvalidHttp("response too large"))
        } else {
            Ok(None)
        },
        HeadParse::Failed => Err(Error::InvalidHttp("failed to parse HTTP response")),
    }
}

/// What a parsed response says.
pub open spec fn response_parse(r: Result<Option<(HandshakeResponse<'_>, usize)>, Error>) -> Result<
    Option<(ResponseView, usize)>,
    Error,
> {
    match r {
        Ok(Some((response, n))) => Ok(Some((response@, n))),
        Ok(None) => Ok(None),
        Err(e) => Err(e),
    }
}

/// Whether `buf` starts with a response that is built from valid parts, without
/// white space around its values and within the limit.
pub open spec fn is_built_response(
    buf: Seq<u8>,
    accept_key: Seq<char>,
    protocol: Option<Seq<char>>,
    extensions: Option<Seq<char>>,
    rest: Seq<u8>,
) -> bool {
    let head = encode_utf8(response_text(accept_key, protocol, extensions));
    &&& buf == head + rest
    &&& head.len() <= MAX_HEADER_SIZE
    &&& headers::is_plain_value(accept_key)
    &&& protocol matches Some(p) ==> headers::is_token(p) && headers::is_plain_value(p)
    &&& extensions matches Some(e) ==> headers::is_extension_list(e) && headers::is_plain_value(e)
}

/// The response that is built from some parts.
pub open spec fn built_response(
    accept_key: Seq<char>,
    protocol: Option<Seq<char>>,
    extensions: Option<Seq<char>>,
) -> ResponseView {
    ResponseView { status: 101, accept: Some(accept_key), protocol, extensions }
}

/// Whether what follows the first `n` bytes of `buf` makes no difference to what
/// they are as a response: nothing, more, or something else may follow.
pub open spec fn response_stays(buf: Seq<u8>, n: int) -> bool {
    forall|other: Seq<u8>|
        n <= other.len() && other.take(n) == buf.take(n) ==> #[trigger] parsed_response(other)
            == parsed_response(buf)
}

/// Parses an upgrade response.
///
/// Gives the response and the number of bytes it takes up, or `None` while it is
/// incomplete. Bytes behind the head belong to the upgraded stream. What a server
/// builds is read as it was built.
pub fn parse_response(buf: &[u8]) -> (r: Result<Option<(HandshakeResponse<'_>, usize)>, Error>)
    ensures
        response_parse(r) == parsed_response(buf@),
        r matches Ok(Some((_, n))) ==> {
            &&& 0 < n <= head_window(buf@).len()
            &&& n <= buf.len()
            &&& response_stays(buf@, n as int)
        },
        forall|
            accept_key: Seq<char>,
            protocol: Option<Seq<char>>,
            extensions: Option<Seq<char>>,
            rest: Seq<u8>,
        | #[trigger]
            is_built_response(buf@, accept_key, protocol, extensions, rest) ==> parsed_response(
                buf@,
            ) == Ok::<Option<(ResponseView, usize)>, Error>(
                Some(
                    (
                        built_response(accept_key, protocol, extensions),
                        (buf.len() - rest.len()) as usize,
                    ),
                ),
            ),
{
    let parse = http_text::parse_response_head(window(buf), MAX_HEADER_LINES);
    proof {
        assert forall|
            accept_key: Seq<char>,
            protocol: Option<Seq<char>>,
            extensions: Option<Seq<char>>,
            rest: Seq<u8>,
        | #[trigger]
            is_built_response(buf@, accept_key, protocol, extensions, rest) implies
            parsed_response(buf@) == Ok::<Option<(ResponseView, usize)>, Error>(
            Some(
                (
                    built_response(accept_key, protocol, extensions),
                    (buf.len() - rest.len()) as usize,
                ),
            ),
        ) by {
            handshake_laws::lemma_built_response_head(
                buf@,
                accept_key,
                protocol,
                extensions,
                rest,
            );
            handshake_laws::law_built_response_is_accepted(accept_key, protocol, extensions);
        }
    }
    proof {
        if let HeadParse::Complete(_, len) = parse {
            assert forall|other: Seq<u8>|
                len <= other.len() && other.take(len as int) == buf@.take(len as int) implies
                #[trigger] parsed_response(other) == parsed_response(buf@) by {
                let (a, b) = (head_window(other), head_window(buf@));
                assert(a.take(len as int) =~= other.take(len as int));
                assert(b.take(len as int) =~= buf@.take(len as int));
                assert(http_text::response_head(a, MAX_HEADER_LINES as nat) == http_text::response_head(
                    b,
                    MAX_HEADER_LINES as nat,
                ));
            }
        }
    }
    match parse {
        HeadParse::Complete(head, len) => match check_response(head) {
            Ok(res) => Ok(Some((res, len))),
            Err(e) => Err(e),
        },
        HeadParse::Partial => {
            if buf.len() >= MAX_HEADER_SIZE {
                Err(Error::InvalidHttp("response too large"))
            } else {
                Ok(None)
            }
        },
        HeadParse::Failed => Err(Error::InvalidHttp("failed to parse HTTP response")),
    }
}

/// Protocol and extensions selected by a server.
#[derive(Debug, Clone, Default, PartialEq, Eq)]
pub struct HandshakeSelection {
    /// The single selected subprotocol, if any.
    pub protocol: Option<String>,
    /// The negotiated extension response, if any.
    pub extensions: Option<String>,
}

/// Result of a successful handshake.
#[derive(Debug)]
pub struct HandshakeResult {
    /// The request path.
    pub path: String,
    /// Negotiated subprotocol.
    pub protocol: Option<String>,
    /// Negotiated extensions.
    pub extensions: Option<String>,
    /// Bytes read beyond the end of the handshake.
    pub leftover: Option<Bytes>,
}

/// Borrows an optional string.
pub(crate) fn opt_as_str<'a>(s: &'a Option<String>) -> (r: Option<&'a str>)
    ensures
        http_text::opt_view(r) == http_text::opt_string_view(*s),
{
    match s {
        Some(x) => Some(x.as_str()),
        None => None,
    }
}

/// Borrows an optional text.
pub(crate) fn opt_cow_as_str<'a>(s: &'a Option<Cow<'_, str>>) -> (r: Option<&'a str>)
    ensures
        http_text::opt_view(r) == opt_cow_view(*s),
{
    match s {
        Some(x) => Some(cow_as_str(x)),
        None => None,
    }
}

/// Owns an optional text.
pub(crate) fn opt_to_string(s: Option<&str>) -> (r: Option<String>)
    ensures
        http_text::opt_string_view(r) == http_text::opt_view(s),
{
    match s {
        Some(x) => Some(x.to_owned()),
        None => None,
    }
}

/// The verdict on what a server selected for a request.
pub open spec fn server_selection_result(
    request: RequestView,
    protocol: Option<Seq<char>>,
    extensions: Option<Seq<char>>,
) -> Result<(), Error> {
    match headers::selected_protocol_result(request.protocol, protocol) {
        Err(e) => Err(e),
        Ok(_) => headers::selected_extensions_result(request.extensions, extensions),
    }
}

/// Checks that what a server selected was offered.
pub fn validate_server_selection(
    request: &HandshakeRequest<'_>,
    selection: &HandshakeSelection,
) -> (r: Result<(), Error>)
    ensures
        r == server_selection_result(
            request@,
            http_text::opt_string_view(selection.protocol),
            http_text::opt_string_view(selection.extensions),
        ),
{
    match headers::validate_selected_protocol(
        opt_cow_as_str(&request.protocol),
        opt_as_str(&selection.protocol),
    ) {
        Ok(()) => {},
        Err(e) => {
            return Err(e);
        },
    }
    headers::validate_selected_extensions(
        opt_cow_as_str(&request.extensions),
        opt_as_str(&selection.extensions),
    )
}

/// How many more bytes may be read while a head is incomplete, so that at most
/// one byte beyond the limit is buffered.
///
/// `too_large` is the error for a head that has outgrown the limit.
pub fn read_allowance(buffered: usize, too_large: &'static str) -> (r: Result<usize, Error>)
    ensures
        r == (if buffered > MAX_HEADER_SIZE {
            Err(Error::InvalidHttp(too_large))
        } else {
            Ok((MAX_HEADER_SIZE + 1 - buffered) as usize)
        }),
        r == crate::opening::allowed(buffered as nat, too_large),
{
    if buffered > MAX_HEADER_SIZE {
        Err(Error::InvalidHttp(too_large))
    } else {
        Ok(MAX_HEADER_SIZE + 1 - buffered)
    }
}

/// The bytes behind a head of `consumed` bytes.
pub fn take_leftover(buf: &mut BytesMut, consumed: usize) -> (r: Option<Bytes>)
    ensures
        match r {
            Some(rest) => consumed < buffers::buffered(*old(buf)).len() && buffers::contents(rest)
                == buffers::buffered(*old(buf)).skip(consumed as int) && buffers::buffered(
                *final(buf),
            ) == buffers::buffered(*old(buf)).take(consumed as int),
            None => consumed >= buffers::buffered(*old(buf)).len() && *final(buf) == *old(buf),
        },
        crate::opening::is_leftover(r, buffers::buffered(*old(buf)), consumed as int),
{
    if consumed < buf.len() {
        let rest = buf.split_off(consumed);
        Some(rest.freeze())
    } else {
        None
    }
}

/// Answers a request with what the server selected.
///
/// The selection must have been offered; the response then carries the accept
/// key for the request's key.
pub fn server_reply(request: &HandshakeRequest<'_>, selection: &HandshakeSelection) -> (r: Result<
    Bytes,
    Error,
>)
    ensures
        match (
            r,
            server_selection_result(
                request@,
                http_text::opt_string_view(selection.protocol),
                http_text::opt_string_view(selection.extensions),
            ),
        ) {
            (Ok(bytes), Ok(_)) => headers::is_plain_value(accept_key_of(request@.key))
                && buffers::contents(bytes) == encode_utf8(
                response_text(
                    accept_key_of(request@.key),
                    http_text::opt_string_view(selection.protocol),
                    http_text::opt_string_view(selection.extensions),
                ),
            ),
            (Err(x), Err(e)) => x == e,
            _ => false,
        },
{
    match validate_server_selection(request, selection) {
        Ok(()) => {},
        Err(e) => {
            return Err(e);
        },
    }
    let accept_key = generate_accept_key(request.key);
    Ok(
        build_response_inner(
            accept_key.as_str(),
            opt_as_str(&selection.protocol),
            opt_as_str(&selection.extensions),
        ),
    )
}

/// What a completed server handshake reports.
pub fn server_result(
    request: &HandshakeRequest<'_>,
    selection: HandshakeSelection,
    leftover: Option<Bytes>,
) -> (r: HandshakeResult)
    ensures
        r.path@ == request@.path,
        r.protocol == selection.protocol,
        r.extensions == selection.extensions,
        r.leftover == leftover,
        crate::opening::is_server_result(
            r,
            request@,
            http_text::opt_string_view(selection.protocol),
            http_text::opt_string_view(selection.extensions),
        ),
{
    HandshakeResult {
        path: cow_as_str(&request.path).to_owned(),
        protocol: selection.protocol,
        extensions: selection.extensions,
        leftover,
    }
}

/// The verdict of a client that sent `key` and offered `offered` on a response.
pub open spec fn reply_result(
    key: Seq<char>,
    offered: Option<Seq<char>>,
    response: ResponseView,
) -> Result<(), Error> {
    if response.accept is None {
        Err(Error::HandshakeFailed("missing Sec-WebSocket-Accept"))
    } else if response.accept->0 != accept_key_of(key) {
        Err(Error::HandshakeFailed("invalid Sec-WebSocket-Accept"))
    } else {
        match headers::selected_protocol_result(offered, response.protocol) {
            Err(e) => Err(e),
            Ok(_) => if response.extensions is Some {
                Err(Error::HandshakeFailed("server returned an unoffered extension"))
            } else {
                Ok(())
            },
        }
    }
}

/// Checks a server's response against what the client sent and offered.
pub fn check_server_reply(key: &str, offered: Option<&str>, response: &HandshakeResponse<'_>) -> (r:
    Result<(), Error>)
    ensures
        r == reply_result(key@, http_text::opt_view(offered), response@),
{
    let accept = match response.accept {
        Some(a) => a,
        None => {
            return Err(Error::HandshakeFailed("missing Sec-WebSocket-Accept"));
        },
    };
    if !validate_accept_key(key, accept) {
        return Err(Error::HandshakeFailed("invalid Sec-WebSocket-Accept"));
    }
    match headers::validate_selected_protocol(offered, response.protocol) {
        Ok(()) => {},
        Err(e) => {
            return Err(e);
        },
    }
    if response.extensions.is_some() {
        return Err(Error::HandshakeFailed("server returned an unoffered extension"));
    }
    Ok(())
}

/// What a completed client handshake reports.
pub fn client_result(
    path: &str,
    response: &HandshakeResponse<'_>,
    leftover: Option<Bytes>,
) -> (r: HandshakeResult)
    ensures
        r.path@ == path@,
        http_text::opt_string_view(r.protocol) == response@.protocol,
        http_text::opt_string_view(r.extensions) == response@.extensions,
        r.leftover == leftover,
        crate::opening::is_client_result(r, path@, response@),
{
    HandshakeResult {
        path: path.to_owned(),
        protocol: opt_to_string(response.protocol),
        extensions: opt_to_string(response.extensions),
        leftover,
    }
}

} // verus!
