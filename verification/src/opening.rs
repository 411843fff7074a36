//! The opening handshake, as the bytes of the other side arrive.
//!
//! Each side asks how much it may read, reads that much at most, and hands in
//! what it got, until the handshake is complete or has failed.

use crate::buffers;
use crate::buffers::{buffered, contents};
use crate::error::Error;
use crate::handshake;
use crate::handshake::{
    accept_key_of, built_request, extra_lines, is_built_request, is_built_response, parsed_request,
    parsed_response, reply_result, request_parts_error, request_text, response_text,
    server_selection_result, HandshakeRequest, HandshakeResult, HandshakeSelection, RequestView,
    ResponseView, MAX_HEADER_SIZE,
};
use crate::headers;
use crate::http_text::{opt_string_view, opt_view};
use crate::text;
use bytes::{Bytes, BytesMut};
use vstd::prelude::*;
use vstd::string::*;
use vstd::utf8::encode_utf8;

verus! {

/// Whether `leftover` is what follows the first `n` bytes.
pub open spec fn is_leftover(leftover: Option<Bytes>, buf: Seq<u8>, n: int) -> bool {
    match leftover {
        Some(rest) => n < buf.len() && contents(rest) == buf.skip(n),
        None => n >= buf.len(),
    }
}

/// What a client reports of a path and a response, besides what follows it.
pub open spec fn is_client_result(
    done: HandshakeResult,
    path: Seq<char>,
    response: ResponseView,
) -> bool {
    &&& done.path@ == path
    &&& opt_string_view(done.protocol) == response.protocol
    &&& opt_string_view(done.extensions) == response.extensions
}

/// How many more bytes may be read, or the error for a head that has outgrown the
/// limit.
pub open spec fn allowed(received: nat, too_large: &'static str) -> Result<usize, Error> {
    if received > MAX_HEADER_SIZE {
        Err(Error::InvalidHttp(too_large))
    } else {
        Ok((MAX_HEADER_SIZE + 1 - received) as usize)
    }
}

/// Whether `buf` starts with the answer of a server that used the client's key,
/// selected a subprotocol that it offered, or none, and some extensions, or none.
pub open spec fn is_answer(
    buf: Seq<u8>,
    key: Seq<char>,
    offered: Option<Seq<char>>,
    selected: Option<Seq<char>>,
    extensions: Option<Seq<char>>,
    rest: Seq<u8>,
) -> bool {
    &&& is_built_response(buf, accept_key_of(key), selected, extensions, rest)
    &&& selected matches Some(s) ==> (offered matches Some(o) && headers::lists(o, s))
}

/// Whether a client that had `received` some bytes and read `data` reports `r`, and has
/// `after` then.
pub open spec fn is_client_read(
    key: Seq<char>,
    path: Seq<char>,
    offered: Option<Seq<char>>,
    received: Seq<u8>,
    data: Seq<u8>,
    r: Result<Option<HandshakeResult>, Error>,
    after: Seq<u8>,
) -> bool {
    let buf = received + data;
    if data.len() == 0 {
        r == Err::<Option<HandshakeResult>, Error>(Error::ConnectionClosed)
    } else {
        match (parsed_response(buf), r) {
            (Err(e), Err(x)) => x == e,
            (Ok(None), Ok(None)) => after == buf,
            (Ok(Some((response, n))), Ok(Some(done))) => {
                &&& reply_result(key, offered, response) is Ok
                &&& is_client_result(done, path, response)
                &&& is_leftover(done.leftover, buf, n as int)
            },
            (Ok(Some((response, _))), Err(x)) => reply_result(key, offered, response) == Err::<
                (),
                Error,
            >(x),
            _ => false,
        }
    }
}

/// Whether a server that had `received` some bytes and read `data` reports `r`, and has
/// `after` then.
pub open spec fn is_server_read(
    received: Seq<u8>,
    data: Seq<u8>,
    r: Result<bool, Error>,
    after: Seq<u8>,
) -> bool {
    if data.len() == 0 {
        r == Err::<bool, Error>(Error::ConnectionClosed)
    } else {
        &&& after == received + data
        &&& match parsed_request(after) {
            Err(e) => r == Err::<bool, Error>(e),
            Ok(None) => r == Ok::<bool, Error>(false),
            Ok(Some(_)) => r == Ok::<bool, Error>(true),
        }
    }
}

/// What a server reports of a request and of what it selected, besides what follows it.
pub open spec fn is_server_result(
    done: HandshakeResult,
    request: RequestView,
    protocol: Option<Seq<char>>,
    extensions: Option<Seq<char>>,
) -> bool {
    &&& done.path@ == request.path
    &&& opt_string_view(done.protocol) == protocol
    &&& opt_string_view(done.extensions) == extensions
}

/// The client's side of a handshake that has sent its request.
pub struct ClientHandshake {
    key: String,
    path: String,
    offered: Option<String>,
    buf: BytesMut,
}

impl ClientHandshake {
    /// What has been received.
    pub closed spec fn received(&self) -> Seq<u8> {
        buffered(self.buf)
    }

    /// The key that was sent.
    pub closed spec fn sent_key(&self) -> Seq<char> {
        self.key@
    }

    /// The path that was asked for.
    pub closed spec fn asked_path(&self) -> Seq<char> {
        self.path@
    }

    /// The subprotocols that were offered.
    pub closed spec fn offered_protocols(&self) -> Option<Seq<char>> {
        opt_string_view(self.offered)
    }

    /// Starts a handshake; the request is to be sent.
    pub fn start(
        host: &str,
        path: &str,
        key: String,
        protocol: Option<&str>,
        extra_headers: Option<&[(String, String)]>,
    ) -> (r: Result<(Self, Bytes), Error>)
        ensures
            match (
                r,
                request_parts_error(
                    host@,
                    path@,
                    key@,
                    opt_view(protocol),
                    None,
                    extra_lines(extra_headers),
                ),
            ) {
                (Ok((client, request)), None) => {
                    &&& contents(request) == encode_utf8(
                        request_text(
                            host@,
                            path@,
                            key@,
                            opt_view(protocol),
                            None,
                            extra_lines(extra_headers),
                        ),
                    )
                    &&& client.received() == Seq::<u8>::empty()
                    &&& client.sent_key() == key@
                    &&& client.asked_path() == path@
                    &&& client.offered_protocols() == opt_view(protocol)
                },
                (Err(x), Some(e)) => x == e,
                _ => false,
            },
    {
        match handshake::build_request_with_headers(
            host,
            path,
            key.as_str(),
            protocol,
            None,
            extra_headers,
        ) {
            Ok(request) => {
                let client = ClientHandshake {
                    key,
                    path: path.to_owned(),
                    offered: handshake::opt_to_string(protocol),
                    buf: BytesMut::with_capacity(4096),
                };
                Ok((client, request))
            },
            Err(e) => Err(e),
        }
    }

    /// How many more bytes may be read.
    pub fn allowance(&self) -> (r: Result<usize, Error>)
        ensures
            r == allowed(self.received().len(), "response too large"),
    {
        handshake::read_allowance(self.buf.len(), "response too large")
    }

    /// Hands in what was read; nothing means that the server closed the
    /// connection. Gives the result once the server's response is complete. The
    /// answer of a server that goes by the request completes the handshake, unless
    /// it adds an extension: none was offered.
    pub fn on_read(&mut self, data: &[u8]) -> (r: Result<Option<HandshakeResult>, Error>)
        requires
            old(self).received().len() + data@.len() <= isize::MAX,
        ensures
            final(self).sent_key() == old(self).sent_key(),
            final(self).asked_path() == old(self).asked_path(),
            final(self).offered_protocols() == old(self).offered_protocols(),
            ({
                let buf = old(self).received() + data@;
                if data@.len() == 0 {
                    r == Err::<Option<HandshakeResult>, Error>(Error::ConnectionClosed)
                } else {
                    match parsed_response(buf) {
                        Err(e) => r == Err::<Option<HandshakeResult>, Error>(e),
                        Ok(None) => {
                            &&& r == Ok::<Option<HandshakeResult>, Error>(None)
                            &&& final(self).received() == buf
                        },
                        Ok(Some((response, n))) => match reply_result(
                            old(self).sent_key(),
                            old(self).offered_protocols(),
                            response,
                        ) {
                            Err(e) => r == Err::<Option<HandshakeResult>, Error>(e),
                            Ok(_) => {
                                &&& r matches Ok(Some(done)) && is_client_result(
                                    done,
                                    old(self).asked_path(),
                                    response,
                                ) && is_leftover(done.leftover, buf, n as int)
                            },
                        },
                    }
                }
            }),
            data@.len() > 0 ==> forall|
                selected: Option<Seq<char>>,
                extensions: Option<Seq<char>>,
                rest: Seq<u8>,
            | #[trigger]
                is_answer(
                    old(self).received() + data@,
                    old(self).sent_key(),
                    old(self).offered_protocols(),
                    selected,
                    extensions,
                    rest,
                ) ==> if extensions is None {
                    r matches Ok(Some(done)) && done.path@ == old(self).asked_path()
                        && opt_string_view(done.protocol) == selected && done.extensions is None
                        && is_leftover(done.leftover, rest, 0)
                } else {
                    r == Err::<Option<HandshakeResult>, Error>(
                        Error::HandshakeFailed("server returned an unoffered extension"),
                    )
                },
            is_client_read(
                old(self).sent_key(),
                old(self).asked_path(),
                old(self).offered_protocols(),
                old(self).received(),
                data@,
                r,
                final(self).received(),
            ),
    {
        if data.len() == 0 {
            return Err(Error::ConnectionClosed);
        }
        self.buf.extend_from_slice(data);
        let ghost buf = self.received();
        let (done, consumed) = match handshake::parse_response(
            buffers::buffer_as_slice(&self.buf),
        ) {
            Err(e) => {
                return Err(e);
            },
            Ok(None) => {
                return Ok(None);
            },
            Ok(Some((response, consumed))) => {
                match handshake::check_server_reply(
                    self.key.as_str(),
                    handshake::opt_as_str(&self.offered),
                    &response,
                ) {
                    Ok(()) => {},
                    Err(e) => {
                        return Err(e);
                    },
                }
                (handshake::client_result(self.path.as_str(), &response, None), consumed)
            },
        };
        let leftover = handshake::take_leftover(&mut self.buf, consumed);
        proof {
            assert forall|
                selected: Option<Seq<char>>,
                extensions: Option<Seq<char>>,
                rest: Seq<u8>,
            | #[trigger]
                is_answer(
                    buf,
                    old(self).sent_key(),
                    old(self).offered_protocols(),
                    selected,
                    extensions,
                    rest,
                ) implies extensions is None && is_leftover(leftover, rest, 0) && opt_string_view(
                done.protocol,
            ) == selected && done.extensions is None by {
                assert(buf.skip(consumed as int) =~= rest);
                assert(rest.skip(0) =~= rest);
            }
        }
        Ok(
            Some(
                HandshakeResult {
                    path: done.path,
                    protocol: done.protocol,
                    extensions: done.extensions,
                    leftover,
                },
            ),
        )
    }
}

/// The server's side of a handshake.
pub struct ServerHandshake {
    buf: BytesMut,
}

impl ServerHandshake {
    /// What has been received.
    pub closed spec fn received(&self) -> Seq<u8> {
        buffered(self.buf)
    }

    /// Starts a handshake.
    pub fn new() -> (r: Self)
        ensures
            r.received() == Seq::<u8>::empty(),
    {
        ServerHandshake { buf: BytesMut::with_capacity(4096) }
    }

    /// How many more bytes may be read.
    pub fn allowance(&self) -> (r: Result<usize, Error>)
        ensures
            r == allowed(self.received().len(), "request too large"),
    {
        handshake::read_allowance(self.buf.len(), "request too large")
    }

    /// Hands in what was read; nothing means that the client closed the
    /// connection. Tells whether the request is complete. What a client builds is
    /// read as it was built.
    pub fn on_read(&mut self, data: &[u8]) -> (r: Result<bool, Error>)
        requires
            old(self).received().len() + data@.len() <= isize::MAX,
        ensures
            ({
                let buf = old(self).received() + data@;
                if data@.len() == 0 {
                    r == Err::<bool, Error>(Error::ConnectionClosed)
                } else {
                    &&& final(self).received() == buf
                    &&& match parsed_request(buf) {
                        Err(e) => r == Err::<bool, Error>(e),
                        Ok(request) => r == Ok::<bool, Error>(request is Some),
                    }
                }
            }),
            data@.len() > 0 ==> forall|
                host: Seq<char>,
                path: Seq<char>,
                key: Seq<char>,
                protocol: Option<Seq<char>>,
                extensions: Option<Seq<char>>,
                extra: Seq<(String, String)>,
                rest: Seq<u8>,
            | #[trigger]
                is_built_request(
                    final(self).received(),
                    host,
                    path,
                    key,
                    protocol,
                    extensions,
                    extra,
                    rest,
                ) ==> parsed_request(final(self).received()) == Ok::<
                    Option<(RequestView, usize)>,
                    Error,
                >(
                    Some(
                        (
                            built_request(host, path, key, protocol, extensions, extra),
                            (final(self).received().len() - rest.len()) as usize,
                        ),
                    ),
                ),
            is_server_read(old(self).received(), data@, r, final(self).received()),
    {
        if data.len() == 0 {
            return Err(Error::ConnectionClosed);
        }
        self.buf.extend_from_slice(data);
        match handshake::parse_request(buffers::buffer_as_slice(&self.buf)) {
            Err(e) => Err(e),
            Ok(None) => Ok(false),
            Ok(Some(_)) => Ok(true),
        }
    }

    /// The request, once it is complete.
    pub fn request(&self) -> (r: Option<HandshakeRequest<'_>>)
        ensures
            match (parsed_request(self.received()), r) {
                (Ok(Some((request, _))), Some(q)) => q@ == request,
                (Ok(Some(_)), None) => false,
                (_, Some(_)) => false,
                _ => true,
            },
    {
        match handshake::parse_request(buffers::buffer_as_slice(&self.buf)) {
            Ok(Some((request, _))) => Some(request),
            _ => None,
        }
    }

    /// Accepts the request with what the server selected for it. Gives the
    /// response, which is to be sent, and the result; `None` where there is no
    /// complete request.
    pub fn accept(self, selection: HandshakeSelection) -> (r: Option<
        Result<(Bytes, HandshakeResult), Error>,
    >)
        ensures
            match (parsed_request(self.received()), r) {
                (Ok(Some((request, n))), Some(outcome)) => {
                    let protocol = opt_string_view(selection.protocol);
                    let extensions = opt_string_view(selection.extensions);
                    match (outcome, server_selection_result(request, protocol, extensions)) {
                        (Ok((reply, done)), Ok(_)) => {
                            &&& headers::is_plain_value(accept_key_of(request.key))
                            &&& contents(reply) == encode_utf8(
                                response_text(accept_key_of(request.key), protocol, extensions),
                            )
                            &&& done.path@ == request.path
                            &&& done.protocol == selection.protocol
                            &&& done.extensions == selection.extensions
                            &&& is_leftover(done.leftover, self.received(), n as int)
                        },
                        (Err(x), Err(e)) => x == e,
                        _ => false,
                    }
                },
                (Ok(Some(_)), None) => false,
                (_, Some(_)) => false,
                _ => true,
            },
            r matches Some(Ok((_, done))) ==> (parsed_request(self.received()) matches Ok(
                Some((request, _)),
            ) && is_server_result(
                done,
                request,
                opt_string_view(selection.protocol),
                opt_string_view(selection.extensions),
            )),
    {
        let mut buf = self.buf;
        let (reply, done, consumed) = match handshake::parse_request(
            buffers::buffer_as_slice(&buf),
        ) {
            Ok(Some((request, consumed))) => match handshake::server_reply(&request, &selection) {
                Ok(reply) => (reply, handshake::server_result(&request, selection, None), consumed),
                Err(e) => {
                    return Some(Err(e));
                },
            },
            _ => {
                return None;
            },
        };
        let leftover = handshake::take_leftover(&mut buf, consumed);
        let done = HandshakeResult {
            path: done.path,
            protocol: done.protocol,
            extensions: done.extensions,
            leftover,
        };
        Some(Ok((reply, done)))
    }
}

/// A head is never read further than one byte beyond the limit: what may be read
/// keeps the bytes received within that.
pub proof fn law_reading_is_bounded(received: nat, too_large: &'static str, n: nat)
    requires
        allowed(received, too_large) matches Ok(room) && n <= room,
    ensures
        received + n <= MAX_HEADER_SIZE + 1,
{
}

/// What a server answers to a request, with a token or nothing as the subprotocol
/// and extensions without blanks around them or none, is an answer to the client
/// that sent it. Without extensions it completes the handshake; with any it is
/// refused by a client that has offered none.
pub proof fn law_server_answers_its_client(
    request: RequestView,
    selected: Option<Seq<char>>,
    extensions: Option<Seq<char>>,
    reply: Seq<u8>,
    rest: Seq<u8>,
)
    requires
        server_selection_result(request, selected, extensions) is Ok,
        reply == encode_utf8(response_text(accept_key_of(request.key), selected, extensions)),
        headers::is_plain_value(accept_key_of(request.key)),
        reply.len() <= MAX_HEADER_SIZE,
        selected matches Some(s) ==> headers::is_token(s),
        extensions matches Some(e) ==> headers::is_plain_value(e),
    ensures
        is_answer(reply + rest, request.key, request.protocol, selected, extensions, rest),
{
    if selected is Some {
        let s = selected->0;
        assert(headers::is_name_char(s[0]));
        assert(headers::is_name_char(s[s.len() - 1]));
        text::lemma_trim_plain(s);
        assert forall|i: int| 0 <= i < s.len() implies headers::is_value_char(#[trigger] s[i]) by {
            assert(headers::is_name_char(s[i]));
        }
    }
}

/// A head and what follows it are all that was received; nothing is left over where
/// nothing follows.
pub proof fn law_leftover_follows_the_head(leftover: Option<Bytes>, buf: Seq<u8>, n: int)
    requires
        0 <= n <= buf.len(),
        is_leftover(leftover, buf, n),
    ensures
        match leftover {
            Some(rest) => contents(rest).len() > 0 && buf.take(n) + contents(rest) == buf,
            None => n == buf.len(),
        },
{
    if let Some(rest) = leftover {
        assert(buf.take(n) + contents(rest) =~= buf);
    }
}

/// A head may grow to its limit and one byte beyond, at which it is refused, and not
/// before.
pub proof fn law_allowance_is_exact(received: nat, too_large: &'static str)
    ensures
        allowed(received, too_large) is Ok <==> received <= MAX_HEADER_SIZE,
        allowed(received, too_large) matches Ok(room) ==> received + room == MAX_HEADER_SIZE + 1,
        allowed(received, too_large) is Err ==> allowed(received, too_large) == Err::<usize, Error>(
            Error::InvalidHttp(too_large),
        ),
        MAX_HEADER_SIZE == 8192,
{
}

/// However the bytes of a response arrive, a client reports the same: a read that left
/// it waiting, and the read after that, are like one read of both.
pub proof fn law_pieces_of_a_response_add_up(
    key: Seq<char>,
    path: Seq<char>,
    offered: Option<Seq<char>>,
    received: Seq<u8>,
    first: Seq<u8>,
    between: Seq<u8>,
    second: Seq<u8>,
    r: Result<Option<HandshakeResult>, Error>,
    after: Seq<u8>,
)
    requires
        first.len() > 0,
        second.len() > 0,
        is_client_read(key, path, offered, received, first, Ok(None), between),
        is_client_read(key, path, offered, between, second, r, after),
    ensures
        is_client_read(key, path, offered, received, first + second, r, after),
        between == received + first,
        r matches Ok(None) ==> after == received + first + second,
{
    assert(received + (first + second) =~= (received + first) + second);
}

/// However the bytes of a request arrive, a server reports the same.
pub proof fn law_pieces_of_a_request_add_up(
    received: Seq<u8>,
    first: Seq<u8>,
    between: Seq<u8>,
    second: Seq<u8>,
    r: Result<bool, Error>,
    after: Seq<u8>,
)
    requires
        first.len() > 0,
        second.len() > 0,
        is_server_read(received, first, Ok(false), between),
        is_server_read(between, second, r, after),
    ensures
        is_server_read(received, first + second, r, after),
        after == received + first + second,
{
    assert(received + (first + second) =~= (received + first) + second);
}

/// A handshake fails where the other side ends the connection before it is complete,
/// and waits for more exactly where the head is not complete.
pub proof fn law_reads_end_with_the_head(
    key: Seq<char>,
    path: Seq<char>,
    offered: Option<Seq<char>>,
    received: Seq<u8>,
    data: Seq<u8>,
    client: Result<Option<HandshakeResult>, Error>,
    client_after: Seq<u8>,
    server: Result<bool, Error>,
    server_after: Seq<u8>,
)
    requires
        is_client_read(key, path, offered, received, data, client, client_after),
        is_server_read(received, data, server, server_after),
    ensures
        data.len() == 0 ==> client == Err::<Option<HandshakeResult>, Error>(Error::ConnectionClosed)
            && server == Err::<bool, Error>(Error::ConnectionClosed),
        data.len() > 0 ==> {
            &&& client == Ok::<Option<HandshakeResult>, Error>(None) <==> parsed_response(
                received + data,
            ) == Ok::<Option<(ResponseView, usize)>, Error>(None)
            &&& server == Ok::<bool, Error>(false) <==> parsed_request(received + data) == Ok::<
                Option<(RequestView, usize)>,
                Error,
            >(None)
            &&& server == Ok::<bool, Error>(true) <==> (parsed_request(received + data) matches Ok(
                Some(_),
            ))
        },
        client matches Ok(Some(done)) ==> done.path@ == path,
{
}

/// Both sides of a handshake report the same path, subprotocol and extensions, where
/// the client asked for the path that the server read, and read what the server
/// selected.
pub proof fn law_both_sides_report_the_same(
    request: RequestView,
    response: ResponseView,
    server: HandshakeResult,
    client: HandshakeResult,
)
    requires
        is_server_result(server, request, response.protocol, response.extensions),
        is_client_result(client, request.path, response),
    ensures
        server.path@ == client.path@,
        opt_string_view(server.protocol) == opt_string_view(client.protocol),
        opt_string_view(server.extensions) == opt_string_view(client.extensions),
        client.path@ == request.path,
        opt_string_view(client.protocol) == response.protocol,
{
}

} // verus!
