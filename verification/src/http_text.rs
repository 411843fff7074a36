//! HTTP/1.1 message heads and URIs, as the `httparse` and `http` crates read
//! them.

use crate::headers;
use vstd::prelude::*;
use vstd::string::*;
use vstd::utf8::encode_utf8;

verus! {

/// One header line of a message head.
#[derive(Debug, Clone, Copy)]
pub struct HeaderLine<'a> {
    /// The field name.
    pub name: &'a str,
    /// The field value, as it stood on the wire.
    pub value: &'a [u8],
}

/// A header line as a pair of name and value.
pub open spec fn line_view(h: HeaderLine) -> (Seq<char>, Seq<u8>) {
    (h.name@, h.value@)
}

/// The header lines of a head.
pub open spec fn lines_view(h: Seq<HeaderLine>) -> Seq<(Seq<char>, Seq<u8>)> {
    h.map_values(|x: HeaderLine| line_view(x))
}

/// The view of an optional string slice.
pub open spec fn opt_view(s: Option<&str>) -> Option<Seq<char>> {
    match s {
        Some(x) => Some(x@),
        None => None,
    }
}

/// The view of an optional string.
pub open spec fn opt_string_view(s: Option<String>) -> Option<Seq<char>> {
    match s {
        Some(x) => Some(x@),
        None => None,
    }
}

/// What reading a message head came to.
#[derive(Debug)]
pub enum HeadParse<T> {
    /// The head is complete; its length in bytes comes with it.
    Complete(T, usize),
    /// More bytes are needed.
    Partial,
    /// The bytes are not a message head.
    Failed,
}

/// The head of a request.
#[derive(Debug)]
pub struct RequestHead<'a> {
    /// The method.
    pub method: Option<&'a str>,
    /// The request target.
    pub path: Option<&'a str>,
    /// The minor version of HTTP/1.
    pub version: Option<u8>,
    /// The header lines, in order.
    pub headers: Vec<HeaderLine<'a>>,
}

/// The head of a request, as mathematical values.
pub struct RequestHeadView {
    pub method: Option<Seq<char>>,
    pub path: Option<Seq<char>>,
    pub version: Option<u8>,
    pub headers: Seq<(Seq<char>, Seq<u8>)>,
}

impl<'a> View for RequestHead<'a> {
    type V = RequestHeadView;

    open spec fn view(&self) -> RequestHeadView {
        RequestHeadView {
            method: opt_view(self.method),
            path: opt_view(self.path),
            version: self.version,
            headers: lines_view(self.headers@),
        }
    }
}

/// The head of a response.
#[derive(Debug)]
pub struct ResponseHead<'a> {
    /// The status code.
    pub code: Option<u16>,
    /// The minor version of HTTP/1.
    pub version: Option<u8>,
    /// The header lines, in order.
    pub headers: Vec<HeaderLine<'a>>,
}

/// The head of a response, as mathematical values.
pub struct ResponseHeadView {
    pub code: Option<u16>,
    pub version: Option<u8>,
    pub headers: Seq<(Seq<char>, Seq<u8>)>,
}

impl<'a> View for ResponseHead<'a> {
    type V = ResponseHeadView;

    open spec fn view(&self) -> ResponseHeadView {
        ResponseHeadView {
            code: self.code,
            version: self.version,
            headers: lines_view(self.headers@),
        }
    }
}

/// A header field as text: name and value.
pub type Field = (Seq<char>, Seq<char>);

/// The header lines that carry the fields.
pub open spec fn lines_of(fields: Seq<Field>) -> Seq<(Seq<char>, Seq<u8>)> {
    fields.map_values(|f: Field| (f.0, encode_utf8(f.1)))
}

/// The fields as they are written.
pub open spec fn fields_text(fields: Seq<Field>) -> Seq<char>
    decreases fields.len(),
{
    if fields.len() == 0 {
        seq![]
    } else {
        fields_text(fields.drop_last()) + fields.last().0 + ": "@ + fields.last().1 + "\r\n"@
    }
}

/// The white space that may stand around a field value.
pub open spec fn is_blank(c: char) -> bool {
    c == ' ' || c == '\t'
}

/// A field whose name is a token, and whose value holds nothing but field value
/// characters and no blank at its ends.
pub open spec fn is_plain_field(f: Field) -> bool {
    &&& headers::is_token(f.0)
    &&& headers::all_value_chars(f.1)
    &&& f.1.len() > 0 ==> !is_blank(f.1[0]) && !is_blank(f.1.last())
}

/// Whether all fields are plain.
pub open spec fn are_plain_fields(fields: Seq<Field>) -> bool {
    forall|i: int| 0 <= i < fields.len() ==> is_plain_field(#[trigger] fields[i])
}

/// A request target without blanks and control characters.
pub open spec fn is_plain_target(t: Seq<char>) -> bool {
    &&& t.len() > 0
    &&& forall|i: int| 0 <= i < t.len() ==> #[trigger] t[i] > ' ' && t[i] != '\x7f'
}

/// Whether `buf` starts with the head of a GET request that has these parts.
pub open spec fn is_request_head(
    buf: Seq<u8>,
    path: Seq<char>,
    fields: Seq<Field>,
    rest: Seq<u8>,
) -> bool {
    &&& buf == encode_utf8(
        "GET "@ + path + " HTTP/1.1\r\n"@ + fields_text(fields) + "\r\n"@,
    ) + rest
    &&& is_plain_target(path)
    &&& are_plain_fields(fields)
}

/// Whether `buf` starts with the head of an upgrade response that has these
/// fields.
pub open spec fn is_upgrade_head(buf: Seq<u8>, fields: Seq<Field>, rest: Seq<u8>) -> bool {
    &&& buf == encode_utf8(
        "HTTP/1.1 101 Switching Protocols\r\n"@ + fields_text(fields) + "\r\n"@,
    ) + rest
    &&& are_plain_fields(fields)
}

/// What `httparse` reads from the front of `buf` as a request, with room for
/// `slots` header lines.
pub uninterp spec fn request_head(buf: Seq<u8>, slots: nat) -> HeadParse<RequestHeadView>;

/// What `httparse` reads from the front of `buf` as a response, with room for
/// `slots` header lines.
pub uninterp spec fn response_head(buf: Seq<u8>, slots: nat) -> HeadParse<ResponseHeadView>;

/// Whether any bytes that begin with the first `n` of `buf` are read as `buf` is
/// as a request.
pub open spec fn request_head_stays(buf: Seq<u8>, slots: nat, n: int) -> bool {
    forall|other: Seq<u8>|
        n <= other.len() && other.take(n) == buf.take(n) ==> #[trigger] request_head(other, slots)
            == request_head(buf, slots)
}

/// Whether any bytes that begin with the first `n` of `buf` are read as `buf` is
/// as a response.
pub open spec fn response_head_stays(buf: Seq<u8>, slots: nat, n: int) -> bool {
    forall|other: Seq<u8>|
        n <= other.len() && other.take(n) == buf.take(n) ==> #[trigger] response_head(other, slots)
            == response_head(buf, slots)
}

/// Whether `r` gives back the request that `buf` starts with, where it is plain
/// and has no more than `slots` fields.
pub open spec fn request_reads_back(
    buf: Seq<u8>,
    slots: nat,
    r: HeadParse<RequestHead<'_>>,
) -> bool {
    forall|path: Seq<char>, fields: Seq<Field>, rest: Seq<u8>| #[trigger]
        is_request_head(buf, path, fields, rest) && fields.len() <= slots ==> (r matches
            HeadParse::Complete(h, n) && n + rest.len() == buf.len() && h@ == (RequestHeadView {
            method: Some("GET"@),
            path: Some(path),
            version: Some(1u8),
            headers: lines_of(fields),
        }))
}

/// Whether `r` gives back the upgrade response that `buf` starts with, where it
/// is plain and has no more than `slots` fields.
pub open spec fn upgrade_reads_back(
    buf: Seq<u8>,
    slots: nat,
    r: HeadParse<ResponseHead<'_>>,
) -> bool {
    forall|fields: Seq<Field>, rest: Seq<u8>| #[trigger]
        is_upgrade_head(buf, fields, rest) && fields.len() <= slots ==> (r matches
            HeadParse::Complete(h, n) && n + rest.len() == buf.len() && h@ == (ResponseHeadView {
            code: Some(101u16),
            version: Some(1u8),
            headers: lines_of(fields),
        }))
}

/// Reads a request head with `httparse::Request::parse`.
///
/// The outcome is named by `request_head`; a complete head is not empty, never
/// longer than what was given, and does not depend on what follows it. A GET request that is written with plain fields, no more than
/// there is room for, reads back as it was written.
#[verifier::external_body]
pub(crate) fn parse_request_head<'a>(buf: &'a [u8], slots: usize) -> (r: HeadParse<RequestHead<'a>>)
    ensures
        match (r, request_head(buf@, slots as nat)) {
            (HeadParse::Complete(h, n), HeadParse::Complete(v, m)) => h@ == v && n == m && 0 < n
                <= buf.len(),
            (HeadParse::Partial, HeadParse::Partial) => true,
            (HeadParse::Failed, HeadParse::Failed) => true,
            _ => false,
        },
        r matches HeadParse::Complete(_, n) ==> request_head_stays(buf@, slots as nat, n as int),
        request_reads_back(buf@, slots as nat, r),
{
    let mut lines = vec![httparse::EMPTY_HEADER; slots];
    let mut req = httparse::Request::new(&mut lines);
    match req.parse(buf) {
        Ok(httparse::Status::Complete(n)) => {
            let headers = req.headers.iter().map(|h| HeaderLine { name: h.name, value: h.value });
            let (method, path, version) = (req.method, req.path, req.version);
            HeadParse::Complete(RequestHead { method, path, version, headers: headers.collect() }, n)
        }
        Ok(httparse::Status::Partial) => HeadParse::Partial,
        Err(_) => HeadParse::Failed,
    }
}

/// Reads a response head with `httparse::Response::parse`.
///
/// The outcome is named by `response_head`; a complete head is not empty, never
/// longer than what was given, and does not depend on what follows it. An upgrade response that is written with plain fields, no more
/// than there is room for, reads back as it was written.
#[verifier::external_body]
pub(crate) fn parse_response_head<'a>(buf: &'a [u8], slots: usize) -> (r: HeadParse<ResponseHead<'a>>)
    ensures
        match (r, response_head(buf@, slots as nat)) {
            (HeadParse::Complete(h, n), HeadParse::Complete(v, m)) => h@ == v && n == m && 0 < n
                <= buf.len(),
            (HeadParse::Partial, HeadParse::Partial) => true,
            (HeadParse::Failed, HeadParse::Failed) => true,
            _ => false,
        },
        r matches HeadParse::Complete(_, n) ==> response_head_stays(buf@, slots as nat, n as int),
        upgrade_reads_back(buf@, slots as nat, r),
{
    let mut lines = vec![httparse::EMPTY_HEADER; slots];
    let mut res = httparse::Response::new(&mut lines);
    match res.parse(buf) {
        Ok(httparse::Status::Complete(n)) => {
            let headers = res.headers.iter().map(|h| HeaderLine { name: h.name, value: h.value });
            let (code, version) = (res.code, res.version);
            HeadParse::Complete(ResponseHead { code, version, headers: headers.collect() }, n)
        }
        Ok(httparse::Status::Partial) => HeadParse::Partial,
        Err(_) => HeadParse::Failed,
    }
}

/// The parts of a URI.
#[derive(Debug, Clone)]
pub struct UriParts {
    /// The scheme, where the URI has one.
    pub scheme: Option<String>,
    /// The authority, where the URI has one.
    pub authority: Option<String>,
    /// The path and the query.
    pub path_and_query: Option<String>,
}

/// The parts of a URI, as mathematical values.
pub struct UriView {
    pub scheme: Option<Seq<char>>,
    pub authority: Option<Seq<char>>,
    pub path_and_query: Option<Seq<char>>,
}

impl View for UriParts {
    type V = UriView;

    open spec fn view(&self) -> UriView {
        UriView {
            scheme: opt_string_view(self.scheme),
            authority: opt_string_view(self.authority),
            path_and_query: opt_string_view(self.path_and_query),
        }
    }
}

/// The parts that the `http` crate finds in a text, where it is a URI.
pub uninterp spec fn uri_of(text: Seq<char>) -> Option<UriView>;

/// Whether the path and query behind an authority begin as they must.
pub open spec fn is_rooted(uri: UriView) -> bool {
    uri.scheme is Some && uri.authority is Some ==> (uri.path_and_query matches Some(p) ==> p.len()
        > 0 && (p[0] == '/' || p[0] == '?'))
}

/// Reads a URI with `http::Uri`'s `FromStr`, and takes out its scheme,
/// authority, and path with query.
///
/// The authority of an absolute URI ends before the first slash, question mark or
/// number sign; what follows a number sign is left out, and a slash stands for a
/// path and query that would be empty.
#[verifier::external_body]
pub(crate) fn parse_uri(text: &str) -> (r: Option<UriParts>)
    ensures
        match (r, uri_of(text@)) {
            (Some(parts), Some(v)) => parts@ == v && is_rooted(parts@),
            (None, None) => true,
            _ => false,
        },
{
    let uri = text.parse::<http::Uri>().ok()?;
    Some(
        UriParts {
            scheme: uri.scheme_str().map(String::from),
            authority: uri.authority().map(|a| a.as_str().to_string()),
            path_and_query: uri.path_and_query().map(|p| p.as_str().to_string()),
        },
    )
}

/// Whether the `http` crate takes a text for an authority.
pub uninterp spec fn is_authority(text: Seq<char>) -> bool;

/// Tries a text with `http::uri::Authority`'s `FromStr`.
#[verifier::external_body]
pub(crate) fn authority_parses(text: &str) -> (r: bool)
    ensures
        r == is_authority(text@),
{
    text.parse::<http::uri::Authority>().is_ok()
}

/// The status code type of the `http` crate.
#[verifier::external_type_specification]
#[verifier::external_body]
pub struct ExStatusCode(http::StatusCode);

/// The response type of the `http` crate.
#[verifier::external_type_specification]
#[verifier::external_body]
#[verifier::reject_recursive_types(T)]
pub struct ExResponse<T>(http::Response<T>);

/// The number of a status code.
pub uninterp spec fn status_number(s: http::StatusCode) -> u16;

/// The status of a response.
pub uninterp spec fn response_status(r: http::Response<()>) -> u16;

/// The header fields of a response: the value under each name.
pub uninterp spec fn response_fields(r: http::Response<()>) -> Map<Seq<char>, Seq<char>>;

/// Makes a status code with `StatusCode::from_u16`, which fails outside 100 to
/// 999.
#[verifier::external_body]
pub(crate) fn status_code(n: u16) -> (r: http::StatusCode)
    requires
        100 <= n <= 999,
    ensures
        status_number(r) == n,
{
    http::StatusCode::from_u16(n).unwrap()
}

/// `StatusCode::as_u16` gives the number back.
pub assume_specification[ http::StatusCode::as_u16 ](s: &http::StatusCode) -> (r: u16)
    ensures
        r == status_number(*s),
;

/// No header fields.
pub open spec fn no_fields() -> Map<Seq<char>, Seq<char>> {
    Map::empty()
}

/// Makes a response without header fields and body.
///
/// `Response::new` gives an empty header map, and `status_mut` sets the status.
#[verifier::external_body]
pub(crate) fn new_response(status: http::StatusCode) -> (r: http::Response<()>)
    ensures
        response_status(r) == status_number(status),
        response_fields(r) == no_fields(),
{
    let mut response = http::Response::new(());
    *response.status_mut() = status;
    response
}

/// The names that the `http` crate takes for header names in lower case.
pub open spec fn is_lower_name(name: Seq<char>) -> bool {
    &&& 0 < name.len() <= 65535
    &&& forall|i: int|
        0 <= i < name.len() ==> ('a' <= #[trigger] name[i] && name[i] <= 'z') || name[i] == '-'
}

/// The texts that the `http` crate takes for header values.
pub open spec fn is_header_text(value: Seq<char>) -> bool {
    forall|i: int|
        0 <= i < value.len() ==> #[trigger] value[i] == '\t' || (value[i] >= ' ' && value[i]
            != '\x7f')
}

/// Adds a header field with `HeaderMap::append`.
///
/// `HeaderName::from_static` panics for other than lower-case tokens, and
/// `HeaderValue::from_str` fails for control characters. The field must not be
/// there yet.
#[verifier::external_body]
pub(crate) fn add_field(r: &mut http::Response<()>, name: &'static str, value: &str)
    requires
        is_lower_name(name@),
        is_header_text(value@),
        !response_fields(*old(r)).dom().contains(name@),
        response_fields(*old(r)).dom().len() < 1000,
    ensures
        response_status(*final(r)) == response_status(*old(r)),
        response_fields(*final(r)) == response_fields(*old(r)).insert(name@, value@),
{
    let name = http::HeaderName::from_static(name);
    r.headers_mut().append(name, http::HeaderValue::from_str(value).unwrap());
}

} // verus!
