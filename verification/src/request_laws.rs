//! Which upgrade requests and responses are accepted, line by line, and what is read
//! from them.

use crate::codec;
use crate::error::Error;
use crate::handshake::{
    accept_key_of, built_request, built_response, combined, extra_header_error, extra_headers_error,
    head_window, is_reserved, joined, names_token, parsed_request, parsed_response, reply_result,
    request_line_error, request_lines_error, request_of, request_parts_error, response_lines_error,
    response_of, response_parts_error, server_selection_result, server_target, single, values,
    HandshakeRequest, HandshakeResponse, Line, RequestView, ResponseView, MAX_HEADER_LINES,
};
use crate::handshake_laws::extra_origins;
use crate::headers;
use crate::http_text;
use crate::http_text::{HeadParse, RequestHeadView, ResponseHeadView};
use crate::text;
use crate::text_laws::{law_first_occurrence_is_found, written_with};
use vstd::prelude::*;
use vstd::utf8::*;

verus! {

/// Whether line `i` bears a name, in whatever case.
pub open spec fn bears(lines: Seq<Line>, i: int, name: Seq<char>) -> bool {
    0 <= i < lines.len() && text::eq_ignore_ascii_case(lines[i].0, name)
}

/// What line `i` says: its value as text, without white space around it.
pub open spec fn says(lines: Seq<Line>, i: int) -> Seq<char> {
    text::trim(decode_utf8(lines[i].1))
}

/// Whether no line bears a name.
pub open spec fn is_absent(lines: Seq<Line>, name: Seq<char>) -> bool {
    forall|i: int| !bears(lines, i, name)
}

/// Whether at most one line bears a name.
pub open spec fn is_unique(lines: Seq<Line>, name: Seq<char>) -> bool {
    forall|i: int, j: int| bears(lines, i, name) && bears(lines, j, name) ==> i == j
}

/// Whether some line of a name lists a token.
pub open spec fn some_line_lists(lines: Seq<Line>, name: Seq<char>, token: Seq<char>) -> bool {
    exists|i: int| #[trigger] bears(lines, i, name) && headers::contains_token(says(lines, i), token)
}

/// What the lines of a name say, in order.
pub open spec fn all_say(lines: Seq<Line>, name: Seq<char>) -> Seq<Seq<char>> {
    lines.filter(|l: Line| text::eq_ignore_ascii_case(l.0, name)).map_values(
        |l: Line| text::trim(decode_utf8(l.1)),
    )
}

/// The lines of a name are gathered in order, and no other.
proof fn lemma_values(lines: Seq<Line>, name: Seq<char>)
    ensures
        values(lines, name) == all_say(lines, name),
        values(lines, name).len() == 0 <==> is_absent(lines, name),
        values(lines, name).len() > 0 ==> exists|i: int| #[trigger]
            bears(lines, i, name) && values(lines, name)[0] == says(lines, i) && forall|j: int|
                #[trigger] bears(lines, j, name) ==> i <= j,
        forall|k: int|
            0 <= k < values(lines, name).len() ==> exists|i: int| #[trigger]
                bears(lines, i, name) && #[trigger] values(lines, name)[k] == says(lines, i),
        forall|i: int| #[trigger]
            bears(lines, i, name) ==> values(lines, name).contains(says(lines, i)),
        values(lines, name).len() <= 1 <==> is_unique(lines, name),
    decreases lines.len(),
{
    let pred = |l: Line| text::eq_ignore_ascii_case(l.0, name);
    let read = |l: Line| text::trim(decode_utf8(l.1));
    let v = values(lines, name);
    if lines.len() == 0 {
        assert(lines.filter(pred) =~= Seq::<Line>::empty());
        assert(all_say(lines, name) =~= v);
    } else {
        let init = lines.drop_last();
        let n = init.len() as int;
        let w = values(init, name);
        lemma_values(init, name);
        reveal(Seq::filter);
        assert forall|i: int| i != n implies bears(lines, i, name) == bears(init, i, name) by {}
        if bears(lines, n, name) {
            assert(lines.filter(pred) == init.filter(pred).push(lines.last()));
            assert(all_say(lines, name) =~= all_say(init, name).push(read(lines.last())));
            assert(v == w.push(says(lines, n)));
            assert(v[w.len() as int] == says(lines, n));
            if w.len() == 0 {
                assert(forall|j: int| #[trigger] bears(lines, j, name) ==> n <= j);
                assert(v[0] == says(lines, n));
            } else {
                let i = choose|i: int| #[trigger]
                    bears(init, i, name) && w[0] == says(init, i) && forall|j: int| #[trigger]
                        bears(init, j, name) ==> i <= j;
                assert(bears(lines, i, name));
                assert(says(lines, i) == says(init, i));
                assert(v[0] == w[0]);
                assert(i != n);
                assert(!is_unique(lines, name)) by {
                    assert(bears(lines, i, name) && bears(lines, n, name));
                }
            }
            assert forall|k: int| 0 <= k < v.len() implies exists|i: int| #[trigger]
                bears(lines, i, name) && #[trigger] v[k] == says(lines, i) by {
                if k < w.len() {
                    let i = choose|i: int| #[trigger] bears(init, i, name) && w[k] == says(init, i);
                    assert(bears(lines, i, name));
                    assert(v[k] == says(lines, i));
                } else {
                    assert(bears(lines, n, name));
                }
            }
            assert forall|i: int| #[trigger] bears(lines, i, name) implies v.contains(
                says(lines, i),
            ) by {
                if i < n {
                    assert(bears(init, i, name));
                    let k = choose|k: int| 0 <= k < w.len() && w[k] == says(init, i);
                    assert(v[k] == says(lines, i));
                }
            }
        } else {
            assert(lines.filter(pred) == init.filter(pred));
            assert(v == w);
            assert forall|i: int| bears(lines, i, name) implies says(lines, i) == says(init, i) by {}
            if v.len() > 0 {
                let i = choose|i: int| #[trigger]
                    bears(init, i, name) && w[0] == says(init, i) && forall|j: int| #[trigger]
                        bears(init, j, name) ==> i <= j;
                assert(bears(lines, i, name));
            }
            assert forall|k: int| 0 <= k < v.len() implies exists|i: int| #[trigger]
                bears(lines, i, name) && #[trigger] v[k] == says(lines, i) by {
                let i = choose|i: int| #[trigger] bears(init, i, name) && w[k] == says(init, i);
                assert(bears(lines, i, name));
            }
            assert forall|i: int| #[trigger] bears(lines, i, name) implies v.contains(
                says(lines, i),
            ) by {
                assert(bears(init, i, name));
            }
            if is_unique(init, name) {
                assert forall|i: int, j: int|
                    bears(lines, i, name) && bears(lines, j, name) implies i == j by {
                    assert(bears(init, i, name) && bears(init, j, name));
                }
            }
            if is_unique(lines, name) {
                assert forall|i: int, j: int|
                    bears(init, i, name) && bears(init, j, name) implies i == j by {
                    assert(bears(lines, i, name) && bears(lines, j, name));
                }
            }
        }
    }
}

/// Values put together are written with a comma and a space between them.
proof fn lemma_joined(v: Seq<Seq<char>>)
    ensures
        joined(v) == written_with(v, seq![',', ' ']),
    decreases v.len(),
{
    reveal_strlit(", ");
    assert(", "@ =~= seq![',', ' ']);
    if v.len() > 1 {
        lemma_joined(v.drop_last());
        lemma_written_last(v, seq![',', ' ']);
    }
}

/// The last of written texts.
proof fn lemma_written_last(v: Seq<Seq<char>>, sep: Seq<char>)
    requires
        v.len() > 1,
    ensures
        written_with(v, sep) == written_with(v.drop_last(), sep) + sep + v.last(),
    decreases v.len(),
{
    let rest = v.skip(1);
    let init = v.drop_last();
    if v.len() == 2 {
        assert(rest.len() == 1);
        assert(written_with(rest, sep) == v[1]);
        assert(written_with(init, sep) == v[0]);
    } else {
        lemma_written_last(rest, sep);
        assert(rest.drop_last() =~= init.skip(1));
        assert(rest.last() == v.last());
        assert(v[0] + sep + (written_with(init.skip(1), sep) + sep + v.last()) =~= v[0] + sep
            + written_with(init.skip(1), sep) + sep + v.last());
    }
}

/// When some value lists a token.
proof fn lemma_names_token(lines: Seq<Line>, name: Seq<char>, token: Seq<char>)
    ensures
        names_token(lines, name, token) <==> some_line_lists(lines, name, token),
{
    lemma_values(lines, name);
    let v = values(lines, name);
    if names_token(lines, name, token) {
        let k = choose|k: int| 0 <= k < v.len() && headers::contains_token(#[trigger] v[k], token);
        let i = choose|i: int| #[trigger] bears(lines, i, name) && v[k] == says(lines, i);
        assert(bears(lines, i, name));
    }
    if some_line_lists(lines, name, token) {
        let i = choose|i: int| #[trigger]
            bears(lines, i, name) && headers::contains_token(says(lines, i), token);
        assert(v.contains(says(lines, i)));
        let k = choose|k: int| 0 <= k < v.len() && v[k] == says(lines, i);
        assert(headers::contains_token(v[k], token));
    }
}

/// Whether every value is UTF-8.
pub open spec fn are_texts(lines: Seq<Line>) -> bool {
    forall|i: int| 0 <= i < lines.len() ==> valid_utf8((#[trigger] lines[i]).1)
}

/// Whether no line announces a body.
pub open spec fn announce_no_body(lines: Seq<Line>) -> bool {
    &&& is_absent(lines, "transfer-encoding"@)
    &&& forall|i: int| #[trigger]
        bears(lines, i, "content-length"@) ==> headers::is_zero_length(says(lines, i))
}

/// One more line keeps a name unique where it bears another, or is the first.
proof fn lemma_unique_push(lines: Seq<Line>, name: Seq<char>)
    requires
        lines.len() > 0,
    ensures
        is_unique(lines, name) <==> is_unique(lines.drop_last(), name) && !(bears(
            lines,
            lines.len() - 1,
            name,
        ) && values(lines.drop_last(), name).len() > 0),
{
    lemma_values(lines, name);
    lemma_values(lines.drop_last(), name);
}

/// When the lines of a request hold no fault of their own.
proof fn lemma_request_lines(lines: Seq<Line>)
    ensures
        request_lines_error(lines) is None <==> {
            &&& are_texts(lines)
            &&& is_unique(lines, "sec-websocket-key"@)
            &&& is_unique(lines, "sec-websocket-version"@)
            &&& is_unique(lines, "host"@)
            &&& is_unique(lines, "origin"@)
            &&& announce_no_body(lines)
        },
    decreases lines.len(),
{
    if lines.len() > 0 {
        let init = lines.drop_last();
        let n = init.len() as int;
        lemma_request_lines(init);
        lemma_unique_push(lines, "sec-websocket-key"@);
        lemma_unique_push(lines, "sec-websocket-version"@);
        lemma_unique_push(lines, "host"@);
        lemma_unique_push(lines, "origin"@);
        assert(are_texts(lines) <==> are_texts(init) && valid_utf8(lines[n].1)) by {
            if are_texts(lines) {
                assert forall|i: int| 0 <= i < init.len() implies valid_utf8(
                    (#[trigger] init[i]).1,
                ) by {
                    assert(init[i] == lines[i]);
                }
            }
            if are_texts(init) && valid_utf8(lines[n].1) {
                assert forall|i: int| 0 <= i < lines.len() implies valid_utf8(
                    (#[trigger] lines[i]).1,
                ) by {
                    if i < n {
                        assert(init[i] == lines[i]);
                    }
                }
            }
        }
        lemma_body_push(lines);
        assert(says(lines, n) == text::trim(decode_utf8(lines[n].1)));
    }
}

/// One more line announces no body where it does not.
proof fn lemma_body_push(lines: Seq<Line>)
    requires
        lines.len() > 0,
    ensures
        announce_no_body(lines) <==> announce_no_body(lines.drop_last()) && !bears(
            lines,
            lines.len() - 1,
            "transfer-encoding"@,
        ) && (bears(lines, lines.len() - 1, "content-length"@) ==> headers::is_zero_length(
            says(lines, lines.len() - 1),
        )),
{
    let init = lines.drop_last();
    let n = init.len() as int;
    if announce_no_body(lines) {
        assert forall|i: int| !bears(init, i, "transfer-encoding"@) by {
            assert(!bears(lines, i, "transfer-encoding"@));
        }
        assert forall|i: int| #[trigger] bears(init, i, "content-length"@) implies headers::is_zero_length(
            says(init, i),
        ) by {
            assert(bears(lines, i, "content-length"@));
        }
    }
    if announce_no_body(init) && !bears(lines, n, "transfer-encoding"@) && (bears(
        lines,
        n,
        "content-length"@,
    ) ==> headers::is_zero_length(says(lines, n))) {
        assert forall|i: int| !bears(lines, i, "transfer-encoding"@) by {
            if i != n {
                assert(!bears(init, i, "transfer-encoding"@));
            }
        }
        assert forall|i: int| #[trigger] bears(lines, i, "content-length"@) implies headers::is_zero_length(
            says(lines, i),
        ) by {
            if i != n {
                assert(bears(init, i, "content-length"@));
            }
        }
    }
}

/// What the lines of a name say as one list, where there are any.
pub open spec fn said_together(lines: Seq<Line>, name: Seq<char>) -> Option<Seq<char>> {
    if is_absent(lines, name) {
        None
    } else {
        Some(written_with(all_say(lines, name), seq![',', ' ']))
    }
}

/// Whether the line of a name is there, once, and says something that holds.
pub open spec fn once_saying(
    lines: Seq<Line>,
    name: Seq<char>,
    i: int,
    holds: spec_fn(Seq<char>) -> bool,
) -> bool {
    bears(lines, i, name) && is_unique(lines, name) && holds(says(lines, i))
}

/// Whether a head is an upgrade request with its key, version and host in the given
/// lines.
pub open spec fn is_upgrade_request(
    head: RequestHeadView,
    key: int,
    version: int,
    host: int,
) -> bool {
    let lines = head.headers;
    &&& head.method == Some("GET"@)
    &&& head.version == Some(1u8)
    &&& are_texts(lines)
    &&& once_saying(lines, "sec-websocket-key"@, key, |s: Seq<char>| headers::is_websocket_key(s))
    &&& once_saying(lines, "sec-websocket-version"@, version, |s: Seq<char>| s == "13"@)
    &&& once_saying(lines, "host"@, host, |s: Seq<char>| headers::is_host(s))
    &&& is_unique(lines, "origin"@)
    &&& announce_no_body(lines)
    &&& some_line_lists(lines, "upgrade"@, "websocket"@)
    &&& some_line_lists(lines, "connection"@, "upgrade"@)
    &&& said_together(lines, "sec-websocket-protocol"@) matches Some(p) ==> headers::is_protocol_list(p)
    &&& said_together(lines, "sec-websocket-extensions"@) matches Some(e)
        ==> headers::is_extension_list(e)
    &&& head.path matches Some(target) && server_target(target, says(lines, host)) is Some
}

/// The one line of a name.
proof fn lemma_single(lines: Seq<Line>, name: Seq<char>)
    ensures
        single(lines, name) is None <==> is_absent(lines, name),
        single(lines, name) matches Some(v) ==> exists|i: int| #[trigger]
            bears(lines, i, name) && v == says(lines, i),
        is_unique(lines, name) ==> forall|i: int| #[trigger]
            bears(lines, i, name) ==> single(lines, name) == Some(says(lines, i)),
{
    lemma_values(lines, name);
    if is_unique(lines, name) {
        assert forall|i: int| #[trigger] bears(lines, i, name) implies single(lines, name) == Some(
            says(lines, i),
        ) by {
            let k = choose|k: int| #[trigger]
                bears(lines, k, name) && values(lines, name)[0] == says(lines, k);
            assert(k == i);
        }
    }
}

/// The lines of a name as one list.
proof fn lemma_combined(lines: Seq<Line>, name: Seq<char>)
    ensures
        combined(lines, name) == said_together(lines, name),
{
    lemma_values(lines, name);
    lemma_joined(values(lines, name));
}

/// A request is accepted exactly where it is an upgrade request: GET, HTTP/1.1, one
/// key of 16 bytes, version 13, one host, lines that ask for the upgrade, no body,
/// and lists that are well formed.
pub proof fn law_upgrade_requests_are_accepted(head: RequestHeadView)
    ensures
        request_of(head) is Ok <==> exists|key: int, version: int, host: int| #[trigger]
            is_upgrade_request(head, key, version, host),
{
    let lines = head.headers;
    lemma_request_lines(lines);
    lemma_single(lines, "sec-websocket-key"@);
    lemma_single(lines, "sec-websocket-version"@);
    lemma_single(lines, "host"@);
    lemma_combined(lines, "sec-websocket-protocol"@);
    lemma_combined(lines, "sec-websocket-extensions"@);
    lemma_names_token(lines, "upgrade"@, "websocket"@);
    lemma_names_token(lines, "connection"@, "upgrade"@);
    if request_of(head) is Ok {
        let key = choose|i: int| #[trigger]
            bears(lines, i, "sec-websocket-key"@) && single(lines, "sec-websocket-key"@) == Some(
                says(lines, i),
            );
        let version = choose|i: int| #[trigger]
            bears(lines, i, "sec-websocket-version"@) && single(lines, "sec-websocket-version"@)
                == Some(says(lines, i));
        let host = choose|i: int| #[trigger]
            bears(lines, i, "host"@) && single(lines, "host"@) == Some(says(lines, i));
        assert(is_upgrade_request(head, key, version, host));
    }
    if exists|key: int, version: int, host: int| #[trigger]
        is_upgrade_request(head, key, version, host) {
        let (key, version, host) = choose|key: int, version: int, host: int| #[trigger]
            is_upgrade_request(head, key, version, host);
        assert(bears(lines, key, "sec-websocket-key"@));
        assert(bears(lines, version, "sec-websocket-version"@));
        assert(bears(lines, host, "host"@));
    }
}

/// What is read from an accepted request is what the lines of each name say: the
/// key, the version and the origin from their own lines, the subprotocols and the
/// extensions from theirs, and the path and host from the target and the Host line.
pub proof fn law_request_fields_come_from_their_lines(head: RequestHeadView, i: int)
    requires
        request_of(head) is Ok,
    ensures
        ({
            let q = request_of(head)->Ok_0;
            let lines = head.headers;
            &&& bears(lines, i, "sec-websocket-key"@) ==> q.key == says(lines, i)
            &&& bears(lines, i, "sec-websocket-version"@) ==> q.version == says(lines, i)
            &&& bears(lines, i, "origin"@) ==> q.origin == Some(says(lines, i))
            &&& is_absent(lines, "origin"@) ==> q.origin is None
            &&& q.protocol == said_together(lines, "sec-websocket-protocol"@)
            &&& q.extensions == said_together(lines, "sec-websocket-extensions"@)
            &&& bears(lines, i, "host"@) ==> server_target(head.path->0, says(lines, i)) == Some(
                (q.path, q.host->0),
            ) && q.host is Some
        }),
{
    let lines = head.headers;
    lemma_request_lines(lines);
    lemma_single(lines, "sec-websocket-key"@);
    lemma_single(lines, "sec-websocket-version"@);
    lemma_single(lines, "host"@);
    lemma_single(lines, "origin"@);
    lemma_combined(lines, "sec-websocket-protocol"@);
    lemma_combined(lines, "sec-websocket-extensions"@);
}

/// When the lines of a response hold no fault of their own.
proof fn lemma_response_lines(lines: Seq<Line>)
    ensures
        response_lines_error(lines) is None <==> {
            &&& are_texts(lines)
            &&& is_unique(lines, "sec-websocket-accept"@)
            &&& is_unique(lines, "sec-websocket-protocol"@)
            &&& is_unique(lines, "sec-websocket-extensions"@)
        },
    decreases lines.len(),
{
    if lines.len() > 0 {
        let init = lines.drop_last();
        let n = init.len() as int;
        lemma_response_lines(init);
        lemma_unique_push(lines, "sec-websocket-accept"@);
        lemma_unique_push(lines, "sec-websocket-protocol"@);
        lemma_unique_push(lines, "sec-websocket-extensions"@);
        assert(are_texts(lines) <==> are_texts(init) && valid_utf8(lines[n].1)) by {
            if are_texts(lines) {
                assert forall|i: int| 0 <= i < init.len() implies valid_utf8(
                    (#[trigger] init[i]).1,
                ) by {
                    assert(init[i] == lines[i]);
                }
            }
            if are_texts(init) && valid_utf8(lines[n].1) {
                assert forall|i: int| 0 <= i < lines.len() implies valid_utf8(
                    (#[trigger] lines[i]).1,
                ) by {
                    if i < n {
                        assert(init[i] == lines[i]);
                    }
                }
            }
        }
    }
}

/// Whether a head is an upgrade response.
pub open spec fn is_upgrade_response(head: ResponseHeadView) -> bool {
    let lines = head.headers;
    &&& head.version == Some(1u8)
    &&& head.code == Some(101u16)
    &&& are_texts(lines)
    &&& is_unique(lines, "sec-websocket-accept"@)
    &&& is_unique(lines, "sec-websocket-protocol"@)
    &&& is_unique(lines, "sec-websocket-extensions"@)
    &&& some_line_lists(lines, "upgrade"@, "websocket"@)
    &&& some_line_lists(lines, "connection"@, "upgrade"@)
    &&& forall|i: int| #[trigger]
        bears(lines, i, "sec-websocket-protocol"@) ==> headers::is_token(says(lines, i))
    &&& forall|i: int| #[trigger]
        bears(lines, i, "sec-websocket-extensions"@) ==> headers::is_extension_list(says(lines, i))
}

/// A response is accepted exactly where it is an upgrade response.
pub proof fn law_upgrade_responses_are_accepted(head: ResponseHeadView)
    ensures
        response_of(head) is Ok <==> is_upgrade_response(head),
{
    let lines = head.headers;
    lemma_response_lines(lines);
    lemma_single(lines, "sec-websocket-protocol"@);
    lemma_single(lines, "sec-websocket-extensions"@);
    lemma_names_token(lines, "upgrade"@, "websocket"@);
    lemma_names_token(lines, "connection"@, "upgrade"@);
    if is_upgrade_response(head) {
        if single(lines, "sec-websocket-protocol"@) is Some {
            let i = choose|i: int| #[trigger]
                bears(lines, i, "sec-websocket-protocol"@) && single(
                    lines,
                    "sec-websocket-protocol"@,
                ) == Some(says(lines, i));
            assert(bears(lines, i, "sec-websocket-protocol"@));
        }
        if single(lines, "sec-websocket-extensions"@) is Some {
            let i = choose|i: int| #[trigger]
                bears(lines, i, "sec-websocket-extensions"@) && single(
                    lines,
                    "sec-websocket-extensions"@,
                ) == Some(says(lines, i));
            assert(bears(lines, i, "sec-websocket-extensions"@));
        }
    }
}

/// What is read from an accepted response is what the line of each name says, and
/// nothing where there is none.
pub proof fn law_response_fields_come_from_their_lines(head: ResponseHeadView, i: int)
    requires
        response_of(head) is Ok,
    ensures
        ({
            let q = response_of(head)->Ok_0;
            let lines = head.headers;
            &&& q.status == 101
            &&& bears(lines, i, "sec-websocket-accept"@) ==> q.accept == Some(says(lines, i))
            &&& is_absent(lines, "sec-websocket-accept"@) ==> q.accept is None
            &&& bears(lines, i, "sec-websocket-protocol"@) ==> q.protocol == Some(says(lines, i))
            &&& is_absent(lines, "sec-websocket-protocol"@) ==> q.protocol is None
            &&& bears(lines, i, "sec-websocket-extensions"@) ==> q.extensions == Some(
                says(lines, i),
            )
            &&& is_absent(lines, "sec-websocket-extensions"@) ==> q.extensions is None
        }),
{
    let lines = head.headers;
    lemma_response_lines(lines);
    lemma_single(lines, "sec-websocket-accept"@);
    lemma_single(lines, "sec-websocket-protocol"@);
    lemma_single(lines, "sec-websocket-extensions"@);
}

/// A client accepts a response exactly where its accept key is the one for the key
/// that was sent, its subprotocol, if it has one, was offered, and it adds no
/// extension.
pub proof fn law_right_replies_are_accepted(
    key: Seq<char>,
    offered: Option<Seq<char>>,
    response: ResponseView,
)
    ensures
        reply_result(key, offered, response) is Ok <==> {
            &&& response.accept == Some(accept_key_of(key))
            &&& response.protocol matches Some(p) ==> (offered matches Some(o) && headers::elements(
                o,
                ',',
            ).contains(p))
            &&& response.extensions is None
        },
{
}

/// The accept key for a key is the Base64 text of the SHA-1 digest of the key
/// followed by the identifier of the WebSocket protocol.
pub proof fn law_accept_key(key: Seq<char>)
    ensures
        accept_key_of(key) == codec::base64_text(
            codec::sha1_digest(encode_utf8(key + "258EAFA5-E914-47DA-95CA-C5AB0DC85B11"@)),
        ),
{
}

/// Where the request target of a request goes: a target that begins with a slash is
/// the path, and the host is that of the Host line; any other target is made up of
/// a scheme, the host, and the path, which lacks the slash at most where it is
/// empty or begins with its query.
pub proof fn law_target_is_made_up_of_host_and_path(target: Seq<char>, header_host: Seq<char>)
    ensures
        server_target(target, header_host) matches Some((path, host)) ==> {
            ||| path == target && host == header_host && target.len() > 0 && target[0] == '/'
            ||| !host.contains('@') && exists|scheme: Seq<char>, rest: Seq<char>|
                #![trigger scheme + "://"@ + host + rest]
                {
                    &&& target == scheme + "://"@ + host + rest
                    &&& path == rest || path == "/"@ + rest && (rest.len() == 0 || rest[0] == '?')
                }
        },
{
    if let Some((path, host)) = server_target(target, header_host) {
        if !headers::is_origin_form(target) {
            reveal_strlit("://");
            reveal_strlit("/");
            let k = text::find_text(target, "://"@, 0);
            law_first_occurrence_is_found(target, "://"@, 0);
            let scheme = target.take(k);
            let after = target.skip(k + 3);
            let rest = after.skip(host.len() as int);
            assert(target.subrange(k, k + 3) == "://"@);
            assert(after.subrange(0, host.len() as int) =~= host);
            assert(after =~= host + rest);
            assert(target =~= scheme + "://"@ + host + rest) by {
                assert(target =~= target.take(k) + target.subrange(k, k + 3) + target.skip(k + 3));
            }
            if rest.len() == 0 {
                assert("/"@ + rest =~= "/"@);
            }
        }
    }
}

/// A target that names an http or https URL is taken apart where the parser of URIs
/// finds the same parts.
pub proof fn law_absolute_targets_are_taken(
    scheme: Seq<char>,
    host: Seq<char>,
    path: Seq<char>,
    header_host: Seq<char>,
)
    requires
        text::eq_ignore_ascii_case(scheme, "http"@) || text::eq_ignore_ascii_case(scheme, "https"@),
        !host.contains('@'),
        path.len() > 0,
        path[0] == '/',
        http_text::uri_of(scheme + "://"@ + host + path) == Some(
            (http_text::UriView {
                scheme: Some(scheme),
                authority: Some(host),
                path_and_query: Some(path),
            }),
        ),
    ensures
        server_target(scheme + "://"@ + host + path, header_host) == Some((path, host)),
{
    reveal_strlit("://");
    reveal_strlit("http");
    reveal_strlit("https");
    let target = scheme + "://"@ + host + path;
    let n = scheme.len() as int;
    law_first_occurrence_is_found(target, "://"@, 0);
    assert(target.subrange(n, n + 3) =~= "://"@);
    let k = text::find_text(target, "://"@, 0);
    assert(k == n) by {
        if k < n {
            let m = target.subrange(k, k + 3);
            assert(m[0] == ':');
            assert(target[k] == scheme[k]);
            crate::text_laws::law_only_case_is_ignored(scheme, "http"@);
            crate::text_laws::law_only_case_is_ignored(scheme, "https"@);
        }
    }
    let after = target.skip(k + 3);
    assert(after =~= host + path);
    assert(after.subrange(0, host.len() as int) =~= host);
    assert(after.skip(host.len() as int) =~= path);
}

/// The names of headers that the handshake itself writes or that would change what
/// follows it, in whatever case.
pub open spec fn managed_names() -> Seq<Seq<char>> {
    seq![
        "Host"@,
        "Upgrade"@,
        "Connection"@,
        "Sec-WebSocket-Key"@,
        "Sec-WebSocket-Version"@,
        "Sec-WebSocket-Protocol"@,
        "Sec-WebSocket-Extensions"@,
        "Content-Length"@,
        "Transfer-Encoding"@,
        "Expect"@,
    ]
}

/// Equality up to case passes from one text to another.
proof fn lemma_case_passes_on(a: Seq<char>, b: Seq<char>, c: Seq<char>)
    requires
        text::eq_ignore_ascii_case(b, c),
    ensures
        text::eq_ignore_ascii_case(a, b) <==> text::eq_ignore_ascii_case(a, c),
{
    if text::eq_ignore_ascii_case(a, b) {
        assert forall|i: int| 0 <= i < a.len() implies text::ascii_lower(#[trigger] a[i])
            == text::ascii_lower(c[i]) by {
            assert(text::ascii_lower(b[i]) == text::ascii_lower(c[i]));
        }
    }
    if text::eq_ignore_ascii_case(a, c) {
        assert forall|i: int| 0 <= i < a.len() implies text::ascii_lower(#[trigger] a[i])
            == text::ascii_lower(b[i]) by {
            assert(text::ascii_lower(b[i]) == text::ascii_lower(c[i]));
        }
    }
}

/// A header is reserved exactly where the handshake manages it.
pub proof fn law_reserved_headers(name: Seq<char>)
    ensures
        is_reserved(name) <==> exists|k: int|
            0 <= k < managed_names().len() && text::eq_ignore_ascii_case(
                name,
                #[trigger] managed_names()[k],
            ),
{
    let m = managed_names();
    reveal_strlit("Host");
    reveal_strlit("host");
    reveal_strlit("Upgrade");
    reveal_strlit("upgrade");
    reveal_strlit("Connection");
    reveal_strlit("connection");
    reveal_strlit("Sec-WebSocket-Key");
    reveal_strlit("sec-websocket-key");
    reveal_strlit("Sec-WebSocket-Version");
    reveal_strlit("sec-websocket-version");
    reveal_strlit("Sec-WebSocket-Protocol");
    reveal_strlit("sec-websocket-protocol");
    reveal_strlit("Sec-WebSocket-Extensions");
    reveal_strlit("sec-websocket-extensions");
    reveal_strlit("Content-Length");
    reveal_strlit("content-length");
    reveal_strlit("Transfer-Encoding");
    reveal_strlit("transfer-encoding");
    reveal_strlit("Expect");
    reveal_strlit("expect");
    lemma_case_passes_on(name, m[0], "host"@);
    lemma_case_passes_on(name, m[1], "upgrade"@);
    lemma_case_passes_on(name, m[2], "connection"@);
    lemma_case_passes_on(name, m[3], "sec-websocket-key"@);
    lemma_case_passes_on(name, m[4], "sec-websocket-version"@);
    lemma_case_passes_on(name, m[5], "sec-websocket-protocol"@);
    lemma_case_passes_on(name, m[6], "sec-websocket-extensions"@);
    lemma_case_passes_on(name, m[7], "content-length"@);
    lemma_case_passes_on(name, m[8], "transfer-encoding"@);
    lemma_case_passes_on(name, m[9], "expect"@);
    if exists|k: int|
        0 <= k < m.len() && text::eq_ignore_ascii_case(name, #[trigger] m[k]) {
        let k = choose|k: int| 0 <= k < m.len() && text::eq_ignore_ascii_case(name, #[trigger] m[k]);
        assert(text::eq_ignore_ascii_case(name, m[k]));
    }
}

/// Additional headers pass exactly where each has a token as its name that the
/// handshake does not manage, and a value without control characters.
pub proof fn law_extra_headers_pass(extra: Seq<(String, String)>, from: int)
    requires
        0 <= from <= extra.len(),
    ensures
        extra_headers_error(extra, from) is None <==> forall|i: int|
            from <= i < extra.len() ==> headers::is_token((#[trigger] extra[i]).0@) && !is_reserved(
                extra[i].0@,
            ) && headers::all_value_chars(extra[i].1@),
    decreases extra.len() - from,
{
    if from < extra.len() {
        law_extra_headers_pass(extra, from + 1);
        assert(extra_header_error(extra[from]) is None <==> headers::is_token(extra[from].0@)
            && !is_reserved(extra[from].0@) && headers::all_value_chars(extra[from].1@));
    }
}

/// A request is built exactly where each of its parts may be sent.
pub proof fn law_buildable_requests(
    host: Seq<char>,
    path: Seq<char>,
    key: Seq<char>,
    protocol: Option<Seq<char>>,
    extensions: Option<Seq<char>>,
    extra: Seq<(String, String)>,
)
    ensures
        request_parts_error(host, path, key, protocol, extensions, extra) is None <==> {
            &&& headers::is_host(host)
            &&& headers::is_origin_form(path)
            &&& headers::is_websocket_key(key)
            &&& protocol matches Some(p) ==> headers::is_protocol_list(p)
                && headers::no_empty_element(p)
            &&& extensions matches Some(e) ==> headers::is_extension_list(e)
                && headers::no_empty_element(e)
            &&& forall|i: int|
                0 <= i < extra.len() ==> headers::is_token((#[trigger] extra[i]).0@)
                    && !is_reserved(extra[i].0@) && headers::all_value_chars(extra[i].1@)
        },
{
    law_extra_headers_pass(extra, 0);
}

/// A response is built exactly where its accept key is a field value, its subprotocol
/// a token, and its extensions a list without gaps.
pub proof fn law_buildable_responses(
    accept_key: Seq<char>,
    protocol: Option<Seq<char>>,
    extensions: Option<Seq<char>>,
)
    ensures
        response_parts_error(accept_key, protocol, extensions) is None <==> {
            &&& accept_key.len() > 0
            &&& headers::all_value_chars(accept_key)
            &&& protocol matches Some(p) ==> headers::is_token(p)
            &&& extensions matches Some(e) ==> headers::is_extension_list(e)
                && headers::no_empty_element(e)
        },
{
}

/// A server may answer exactly with a subprotocol that was offered, or none, and with
/// extensions that were offered, or none.
pub proof fn law_selections_that_may_be_made(
    request: RequestView,
    protocol: Option<Seq<char>>,
    extensions: Option<Seq<char>>,
)
    ensures
        server_selection_result(request, protocol, extensions) is Ok <==> {
            &&& protocol matches Some(p) ==> (request.protocol matches Some(o) && headers::elements(
                o,
                ',',
            ).contains(p))
            &&& extensions matches Some(e) ==> headers::is_extension_list(e) && (request.extensions
                matches Some(o) && headers::all_extensions_offered(o, e))
        },
{
}

/// Only the first 8192 bytes count as a head: they are read as they are, and a head
/// that is not complete within them is refused; a shorter one is waited for.
pub proof fn law_head_is_sought_in_its_window(buf: Seq<u8>)
    ensures
        head_window(buf) == buf.take(
            if buf.len() < 8192 {
                buf.len() as int
            } else {
                8192
            },
        ),
        http_text::request_head(head_window(buf), MAX_HEADER_LINES as nat) is Partial ==> (
        parsed_request(buf) is Ok <==> buf.len() < 8192),
        parsed_request(buf) == Ok::<Option<(RequestView, usize)>, Error>(None)
            <==> http_text::request_head(head_window(buf), MAX_HEADER_LINES as nat) is Partial
            && buf.len() < 8192,
        parsed_response(buf) == Ok::<Option<(ResponseView, usize)>, Error>(None)
            <==> http_text::response_head(head_window(buf), MAX_HEADER_LINES as nat) is Partial
            && buf.len() < 8192,
        http_text::request_head(head_window(buf), MAX_HEADER_LINES as nat) is Failed
            ==> parsed_request(buf) is Err,
        http_text::response_head(head_window(buf), MAX_HEADER_LINES as nat) is Failed
            ==> parsed_response(buf) is Err,
        MAX_HEADER_LINES == 32,
{
    assert(buf.take(buf.len() as int) =~= buf);
}

/// What is read from a complete head is what the head says, and it takes up the bytes
/// of the head.
pub proof fn law_complete_heads_are_read(buf: Seq<u8>)
    ensures
        http_text::request_head(head_window(buf), MAX_HEADER_LINES as nat) matches
            HeadParse::Complete(head, n) ==> (match parsed_request(buf) {
            Ok(Some((q, m))) => request_of(head) == Ok::<RequestView, Error>(q) && m == n,
            Ok(None) => false,
            Err(e) => request_of(head) == Err::<RequestView, Error>(e),
        }),
        http_text::response_head(head_window(buf), MAX_HEADER_LINES as nat) matches
            HeadParse::Complete(head, n) ==> (match parsed_response(buf) {
            Ok(Some((q, m))) => response_of(head) == Ok::<ResponseView, Error>(q) && m == n,
            Ok(None) => false,
            Err(e) => response_of(head) == Err::<ResponseView, Error>(e),
        }),
{
}

/// What a built request or response is read as has each part where it was given.
pub proof fn law_built_parts_come_back(
    host: Seq<char>,
    path: Seq<char>,
    key: Seq<char>,
    protocol: Option<Seq<char>>,
    extensions: Option<Seq<char>>,
    extra: Seq<(String, String)>,
)
    ensures
        ({
            let q = built_request(host, path, key, protocol, extensions, extra);
            &&& q.path == path
            &&& q.host == Some(host)
            &&& q.key == key
            &&& q.version == "13"@
            &&& q.protocol == protocol
            &&& q.extensions == extensions
            &&& q.origin is Some <==> extra_origins(extra).len() > 0
        }),
        ({
            let q = built_response(key, protocol, extensions);
            &&& q.status == 101
            &&& q.accept == Some(key)
            &&& q.protocol == protocol
            &&& q.extensions == extensions
        }),
{
}

/// The views of requests and responses hold the fields under their own names.
pub proof fn law_views_are_the_fields(request: HandshakeRequest<'_>, response: HandshakeResponse<'_>)
    ensures
        request@.path == request.path@,
        request@.host == http_text::opt_view(request.host),
        request@.key == request.key@,
        request@.version == request.version@,
        request@.protocol == crate::handshake::opt_cow_view(request.protocol),
        request@.extensions == crate::handshake::opt_cow_view(request.extensions),
        request@.origin == http_text::opt_view(request.origin),
        response@.status == response.status,
        response@.accept == http_text::opt_view(response.accept),
        response@.protocol == http_text::opt_view(response.protocol),
        response@.extensions == http_text::opt_view(response.extensions),
{
}

/// What a client reports of its handshake is the path that it asked for, and the
/// subprotocol and extensions of the response.
pub proof fn law_client_reports_the_response(
    done: crate::handshake::HandshakeResult,
    path: Seq<char>,
    response: ResponseView,
)
    requires
        crate::opening::is_client_result(done, path, response),
    ensures
        done.path@ == path,
        http_text::opt_string_view(done.protocol) == response.protocol,
        http_text::opt_string_view(done.extensions) == response.extensions,
{
}

/// An optional text is there exactly where its view is, and the view is its text.
pub proof fn law_optional_texts(s: Option<&str>, t: Option<String>)
    ensures
        http_text::opt_view(s) is Some <==> s is Some,
        s matches Some(x) ==> http_text::opt_view(s) == Some(x@),
        http_text::opt_string_view(t) is Some <==> t is Some,
        t matches Some(x) ==> http_text::opt_string_view(t) == Some(x@),
{
}

/// Every request that is accepted is sound.
pub proof fn law_sound_requests(request: RequestView)
    requires
        crate::handshake::is_sound_request(request),
    ensures
        request.path.len() > 0 && request.path[0] == '/',
        request.version == "13"@,
        codec::base64_bytes(request.key) matches Some(bytes) && bytes.len() == 16,
        request.host matches Some(host) && !host.contains('@'),
        request.protocol matches Some(list) ==> headers::is_protocol_list(list),
        request.extensions matches Some(list) ==> headers::is_extension_list(list),
{
}

/// A key is the Base64 text of 16 bytes; a host is an authority without user
/// information; a target in origin form is a path that the parser of URIs takes as
/// it is.
pub proof fn law_keys_hosts_and_paths(value: Seq<char>)
    ensures
        headers::is_websocket_key(value) <==> (codec::base64_bytes(value) matches Some(bytes)
            && bytes.len() == 16),
        headers::is_host(value) <==> http_text::is_authority(value) && forall|i: int|
            0 <= i < value.len() ==> #[trigger] value[i] != '@',
        headers::is_origin_form(value) <==> value.len() > 0 && value[0] == '/'
            && http_text::uri_of(value) == Some(
            (http_text::UriView { scheme: None, authority: None, path_and_query: Some(value) }),
        ),
{
    if headers::is_host(value) {
        assert forall|i: int| 0 <= i < value.len() implies #[trigger] value[i] != '@' by {
            assert(value.contains(value[i]));
        }
    }
}

/// A server's own subprotocols are accepted exactly where each is a token.
pub proof fn law_supported_protocols(protocols: Seq<String>)
    ensures
        headers::supported_protocols_ok(protocols) <==> forall|i: int|
            0 <= i < protocols.len() ==> headers::is_token((#[trigger] protocols[i])@),
{
}

/// The fields of a list are each name with its value, in order.
pub proof fn law_field_views(fields: Seq<(String, String)>, i: int)
    requires
        0 <= i < fields.len(),
    ensures
        crate::extended_connect::fields_view(fields).len() == fields.len(),
        crate::extended_connect::fields_view(fields)[i] == (fields[i].0@, fields[i].1@),
{
}

/// A value that may be sent holds no control character but the tab.
pub proof fn law_sendable_values(value: Option<Seq<char>>)
    ensures
        crate::extended_connect::is_sendable(value) <==> (value matches Some(v)
            ==> headers::all_value_chars(v)),
{
    if let Some(v) = value {
        if headers::all_value_chars(v) {
            assert forall|i: int| 0 <= i < v.len() implies #[trigger] v[i] == '\t' || (v[i] >= ' '
                && v[i] != '\x7f') by {
                assert(headers::is_value_char(v[i]));
            }
        }
        if http_text::is_header_text(v) {
            assert forall|i: int| 0 <= i < v.len() implies headers::is_value_char(#[trigger] v[i]) by {
                assert(v[i] == '\t' || (v[i] >= ' ' && v[i] != '\x7f'));
            }
        }
    }
}

/// The first fault of some lines is that of all lines they begin.
proof fn lemma_first_fault(before: Seq<Line>, line: Line, after: Seq<Line>)
    ensures
        request_lines_error(before) is None ==> (request_line_error(before, line) is Some
            ==> request_lines_error(before.push(line) + after) == request_line_error(before, line)),
        response_lines_error(before) is None ==> (crate::handshake::response_line_error(
            before,
            line,
        ) is Some ==> response_lines_error(before.push(line) + after)
            == crate::handshake::response_line_error(before, line)),
    decreases after.len(),
{
    let whole = before.push(line) + after;
    if after.len() == 0 {
        assert(whole =~= before.push(line));
        assert(whole.drop_last() =~= before);
    } else {
        lemma_first_fault(before, line, after.drop_last());
        assert(whole.drop_last() =~= before.push(line) + after.drop_last());
    }
}

/// The first line of a request that is at fault is named: a value that is no text, a
/// second key, version, host or origin, or a body.
pub proof fn law_first_faulty_line_is_named(before: Seq<Line>, line: Line, after: Seq<Line>)
    requires
        request_lines_error(before) is None,
    ensures
        ({
            let e = request_lines_error(before.push(line) + after);
            let text_ok = valid_utf8(line.1);
            &&& !text_ok ==> e == Some(Error::InvalidHttp("invalid header value"))
            &&& text_ok && text::eq_ignore_ascii_case(line.0, "sec-websocket-key"@) && !is_absent(
                before,
                "sec-websocket-key"@,
            ) ==> e == Some(Error::HandshakeFailed("duplicate Sec-WebSocket-Key"))
            &&& text_ok && text::eq_ignore_ascii_case(line.0, "sec-websocket-version"@)
                && !is_absent(before, "sec-websocket-version"@) ==> e == Some(
                Error::HandshakeFailed("duplicate Sec-WebSocket-Version"),
            )
            &&& text_ok && text::eq_ignore_ascii_case(line.0, "host"@) && !is_absent(
                before,
                "host"@,
            ) ==> e == Some(Error::HandshakeFailed("duplicate Host"))
            &&& text_ok && text::eq_ignore_ascii_case(line.0, "origin"@) && !is_absent(
                before,
                "origin"@,
            ) ==> e == Some(Error::HandshakeFailed("duplicate Origin"))
            &&& text_ok && text::eq_ignore_ascii_case(line.0, "content-length"@)
                && !headers::is_zero_length(text::trim(decode_utf8(line.1))) ==> e == Some(
                Error::InvalidHttp("WebSocket handshake must not contain a body"),
            )
            &&& text_ok && text::eq_ignore_ascii_case(line.0, "transfer-encoding"@) ==> e == Some(
                Error::InvalidHttp("WebSocket handshake must not use Transfer-Encoding"),
            )
        }),
{
    reveal_strlit("sec-websocket-key");
    reveal_strlit("sec-websocket-version");
    reveal_strlit("host");
    reveal_strlit("origin");
    reveal_strlit("content-length");
    reveal_strlit("transfer-encoding");
    lemma_values(before, "sec-websocket-key"@);
    lemma_values(before, "sec-websocket-version"@);
    lemma_values(before, "host"@);
    lemma_values(before, "origin"@);
    assert(!(text::eq_ignore_ascii_case(line.0, "sec-websocket-key"@)
        && text::eq_ignore_ascii_case(line.0, "transfer-encoding"@))) by {
        if text::eq_ignore_ascii_case(line.0, "sec-websocket-key"@) && text::eq_ignore_ascii_case(
            line.0,
            "transfer-encoding"@,
        ) {
            assert("sec-websocket-key"@[0] == 's');
            assert("transfer-encoding"@[0] == 't');
            crate::text_laws::law_only_case_is_ignored(line.0, "sec-websocket-key"@);
            crate::text_laws::law_only_case_is_ignored(line.0, "transfer-encoding"@);
            let c = line.0[0];
            assert(c == 's' || c == 'S');
            assert(c == 't' || c == 'T');
        }
    }
    lemma_first_fault(before, line, after);
}

/// The first line of a response that is at fault is named: a value that is no text, or a
/// second accept key, subprotocol or extension line.
pub proof fn law_first_faulty_response_line_is_named(
    before: Seq<Line>,
    line: Line,
    after: Seq<Line>,
)
    requires
        response_lines_error(before) is None,
    ensures
        ({
            let e = response_lines_error(before.push(line) + after);
            let text_ok = valid_utf8(line.1);
            &&& !text_ok ==> e == Some(Error::InvalidHttp("invalid header value"))
            &&& text_ok && text::eq_ignore_ascii_case(line.0, "sec-websocket-accept"@)
                && !is_absent(before, "sec-websocket-accept"@) ==> e == Some(
                Error::HandshakeFailed("duplicate Sec-WebSocket-Accept"),
            )
            &&& text_ok && text::eq_ignore_ascii_case(line.0, "sec-websocket-protocol"@)
                && !is_absent(before, "sec-websocket-protocol"@) ==> e == Some(
                Error::HandshakeFailed("duplicate Sec-WebSocket-Protocol"),
            )
            &&& text_ok && text::eq_ignore_ascii_case(line.0, "sec-websocket-extensions"@)
                && !is_absent(before, "sec-websocket-extensions"@) ==> e == Some(
                Error::HandshakeFailed("duplicate Sec-WebSocket-Extensions"),
            )
        }),
{
    reveal_strlit("sec-websocket-accept");
    reveal_strlit("sec-websocket-protocol");
    reveal_strlit("sec-websocket-extensions");
    lemma_values(before, "sec-websocket-accept"@);
    lemma_values(before, "sec-websocket-protocol"@);
    lemma_values(before, "sec-websocket-extensions"@);
    lemma_first_fault(before, line, after);
}

/// Why a request with sound lines is refused: what is missing or wrong is named, in the
/// order in which it is looked for.
pub proof fn law_refused_requests_are_told_why(head: RequestHeadView, key: int, host: int)
    requires
        request_lines_error(head.headers) is None,
    ensures
        ({
            let lines = head.headers;
            let r = request_of(head);
            let get = head.method == Some("GET"@);
            let http = get && head.version == Some(1u8);
            let upgrade = http && some_line_lists(lines, "upgrade"@, "websocket"@);
            let connection = upgrade && some_line_lists(lines, "connection"@, "upgrade"@);
            let keyed = connection && !is_absent(lines, "sec-websocket-key"@);
            let versioned = keyed && !is_absent(lines, "sec-websocket-version"@);
            let hosted = versioned && !is_absent(lines, "host"@);
            &&& !get ==> r == Err::<RequestView, Error>(Error::InvalidHttp("method must be GET"))
            &&& get && !http ==> r == Err::<RequestView, Error>(
                Error::InvalidHttp("HTTP version must be 1.1"),
            )
            &&& http && !upgrade ==> r == Err::<RequestView, Error>(
                Error::HandshakeFailed("missing Upgrade: websocket"),
            )
            &&& upgrade && !connection ==> r == Err::<RequestView, Error>(
                Error::HandshakeFailed("missing Connection: Upgrade"),
            )
            &&& connection && !keyed ==> r == Err::<RequestView, Error>(
                Error::HandshakeFailed("missing Sec-WebSocket-Key"),
            )
            &&& keyed && !versioned ==> r == Err::<RequestView, Error>(
                Error::HandshakeFailed("missing Sec-WebSocket-Version"),
            )
            &&& versioned && !hosted ==> r == Err::<RequestView, Error>(
                Error::HandshakeFailed("missing Host"),
            )
            &&& hosted && (forall|i: int| #[trigger]
                bears(lines, i, "sec-websocket-version"@) ==> says(lines, i) != "13"@) ==> r == Err::<
                RequestView,
                Error,
            >(Error::HandshakeFailed("unsupported WebSocket version"))
            &&& hosted && (forall|i: int| #[trigger]
                bears(lines, i, "sec-websocket-version"@) ==> says(lines, i) == "13"@) && bears(
                lines,
                key,
                "sec-websocket-key"@,
            ) && bears(lines, host, "host"@) ==> {
                let protocols = said_together(lines, "sec-websocket-protocol"@);
                let extensions = said_together(lines, "sec-websocket-extensions"@);
                let key_ok = headers::is_websocket_key(says(lines, key));
                let host_ok = key_ok && headers::is_host(says(lines, host));
                let protocols_ok = host_ok && (protocols matches Some(p)
                    ==> headers::is_protocol_list(p));
                let extensions_ok = protocols_ok && (extensions matches Some(e)
                    ==> headers::is_extension_list(e));
                &&& !key_ok ==> r == Err::<RequestView, Error>(
                    Error::HandshakeFailed("invalid Sec-WebSocket-Key"),
                )
                &&& key_ok && !host_ok ==> r == Err::<RequestView, Error>(
                    Error::InvalidHttp("invalid Host"),
                )
                &&& host_ok && !protocols_ok ==> r == Err::<RequestView, Error>(
                    Error::HandshakeFailed("invalid Sec-WebSocket-Protocol"),
                )
                &&& protocols_ok && !extensions_ok ==> r == Err::<RequestView, Error>(
                    Error::HandshakeFailed("invalid Sec-WebSocket-Extensions"),
                )
                &&& extensions_ok && head.path is None ==> r == Err::<RequestView, Error>(
                    Error::InvalidHttp("missing request target"),
                )
                &&& extensions_ok && (head.path matches Some(target) && server_target(
                    target,
                    says(lines, host),
                ) is None) ==> r == Err::<RequestView, Error>(
                    Error::InvalidHttp("invalid request target"),
                )
            }
        }),
{
    let lines = head.headers;
    lemma_request_lines(lines);
    lemma_single(lines, "sec-websocket-key"@);
    lemma_single(lines, "sec-websocket-version"@);
    lemma_single(lines, "host"@);
    lemma_combined(lines, "sec-websocket-protocol"@);
    lemma_combined(lines, "sec-websocket-extensions"@);
    lemma_names_token(lines, "upgrade"@, "websocket"@);
    lemma_names_token(lines, "connection"@, "upgrade"@);
}

/// Why a response with sound lines is refused, in the order in which it is looked for.
pub proof fn law_refused_responses_are_told_why(
    head: ResponseHeadView,
    protocol: int,
    extensions: int,
)
    requires
        response_lines_error(head.headers) is None,
    ensures
        ({
            let lines = head.headers;
            let r = response_of(head);
            let http = head.version == Some(1u8);
            let switched = http && head.code == Some(101u16);
            let upgrade = switched && some_line_lists(lines, "upgrade"@, "websocket"@);
            let connection = upgrade && some_line_lists(lines, "connection"@, "upgrade"@);
            let protocol_ok = connection && (bears(lines, protocol, "sec-websocket-protocol"@)
                ==> headers::is_token(says(lines, protocol)));
            &&& !http ==> r == Err::<ResponseView, Error>(
                Error::InvalidHttp("HTTP version must be 1.1"),
            )
            &&& http && !switched ==> r == Err::<ResponseView, Error>(
                Error::HandshakeFailed("expected 101 Switching Protocols"),
            )
            &&& switched && !upgrade ==> r == Err::<ResponseView, Error>(
                Error::HandshakeFailed("missing Upgrade: websocket"),
            )
            &&& upgrade && !connection ==> r == Err::<ResponseView, Error>(
                Error::HandshakeFailed("missing Connection: Upgrade"),
            )
            &&& connection && !protocol_ok ==> r == Err::<ResponseView, Error>(
                Error::HandshakeFailed("invalid Sec-WebSocket-Protocol"),
            )
            &&& protocol_ok && (is_absent(lines, "sec-websocket-protocol"@) || bears(
                lines,
                protocol,
                "sec-websocket-protocol"@,
            )) && bears(lines, extensions, "sec-websocket-extensions"@)
                && !headers::is_extension_list(says(lines, extensions)) ==> r == Err::<
                ResponseView,
                Error,
            >(Error::HandshakeFailed("invalid Sec-WebSocket-Extensions"))
        }),
{
    let lines = head.headers;
    lemma_response_lines(lines);
    lemma_single(lines, "sec-websocket-protocol"@);
    lemma_single(lines, "sec-websocket-extensions"@);
    lemma_names_token(lines, "upgrade"@, "websocket"@);
    lemma_names_token(lines, "connection"@, "upgrade"@);
}

/// Why a reply is refused: the accept key first, then the subprotocol, then the
/// extensions.
pub proof fn law_refused_replies_are_told_why(
    key: Seq<char>,
    offered: Option<Seq<char>>,
    response: ResponseView,
)
    ensures
        response.accept is None ==> reply_result(key, offered, response) == Err::<(), Error>(
            Error::HandshakeFailed("missing Sec-WebSocket-Accept"),
        ),
        response.accept matches Some(a) ==> (a != accept_key_of(key) ==> reply_result(
            key,
            offered,
            response,
        ) == Err::<(), Error>(Error::HandshakeFailed("invalid Sec-WebSocket-Accept"))),
        response.accept == Some(accept_key_of(key)) && (response.protocol matches Some(p) && !(
        offered matches Some(o) && headers::elements(o, ',').contains(p))) ==> reply_result(
            key,
            offered,
            response,
        ) == Err::<(), Error>(Error::HandshakeFailed("server returned an unoffered subprotocol")),
        response.accept == Some(accept_key_of(key)) && response.protocol is None
            && response.extensions is Some ==> reply_result(key, offered, response) == Err::<
            (),
            Error,
        >(Error::HandshakeFailed("server returned an unoffered extension")),
{
}

/// Why a request or a response cannot be built, in the order in which it is looked for.
pub proof fn law_unbuildable_parts_are_named(
    host: Seq<char>,
    path: Seq<char>,
    key: Seq<char>,
    protocol: Option<Seq<char>>,
    extensions: Option<Seq<char>>,
    extra: Seq<(String, String)>,
    accept_key: Seq<char>,
)
    ensures
        ({
            let e = request_parts_error(host, path, key, protocol, extensions, extra);
            let host_ok = headers::is_host(host);
            let path_ok = host_ok && headers::is_origin_form(path);
            let protocol_ok = path_ok && (protocol matches Some(p) ==> headers::is_protocol_list(p)
                && headers::no_empty_element(p));
            &&& !host_ok ==> e == Some(Error::InvalidHttp("invalid Host"))
            &&& host_ok && !path_ok ==> e == Some(Error::InvalidHttp("invalid request target"))
            &&& path_ok && (protocol matches Some(p) && !(headers::is_protocol_list(p)
                && headers::no_empty_element(p))) ==> e == Some(
                Error::InvalidHttp("invalid Sec-WebSocket-Protocol"),
            )
            &&& protocol_ok && (extensions matches Some(x) && !(headers::is_extension_list(x)
                && headers::no_empty_element(x))) ==> e == Some(
                Error::InvalidHttp("invalid Sec-WebSocket-Extensions"),
            )
            &&& protocol_ok && extensions is None && !headers::is_websocket_key(key) ==> e == Some(
                Error::InvalidHttp("invalid Sec-WebSocket-Key"),
            )
            &&& protocol_ok && extensions is None && headers::is_websocket_key(key) ==> e
                == extra_headers_error(extra, 0)
        }),
        ({
            let e = response_parts_error(accept_key, protocol, extensions);
            let accept_ok = headers::is_value_text(accept_key);
            let token_ok = accept_ok && (protocol matches Some(p) ==> headers::is_token(p));
            &&& !accept_ok ==> e == Some(Error::InvalidHttp("invalid Sec-WebSocket-Accept"))
            &&& accept_ok && !token_ok ==> e == Some(
                Error::InvalidHttp("invalid Sec-WebSocket-Protocol"),
            )
            &&& token_ok && (extensions matches Some(x) && !(headers::is_extension_list(x)
                && headers::no_empty_element(x))) ==> e == Some(
                Error::InvalidHttp("invalid Sec-WebSocket-Extensions"),
            )
        }),
{
}

/// The first extra header that cannot be sent is named: for its name, for being one of the
/// handshake's own, or for its value.
pub proof fn law_refused_extra_headers_are_told_why(extra: Seq<(String, String)>, from: int, k: int)
    requires
        0 <= from <= k < extra.len(),
        forall|i: int|
            from <= i < k ==> headers::is_token((#[trigger] extra[i]).0@) && !is_reserved(
                extra[i].0@,
            ) && headers::all_value_chars(extra[i].1@),
    ensures
        ({
            let e = extra_headers_error(extra, from);
            let named = headers::is_token(extra[k].0@);
            let free = named && !is_reserved(extra[k].0@);
            &&& !named ==> e == Some(Error::InvalidHttp("invalid header name"))
            &&& named && !free ==> e == Some(Error::InvalidHttp("reserved handshake header"))
            &&& free && !headers::all_value_chars(extra[k].1@) ==> e == Some(
                Error::InvalidHttp("invalid header value"),
            )
        }),
    decreases k - from,
{
    if from < k {
        assert(extra_header_error(extra[from]) is None);
        law_refused_extra_headers_are_told_why(extra, from + 1, k);
    }
}

/// A head that outgrows the limit, and one that is none, are told apart.
pub proof fn law_refused_heads_are_told_why(buf: Seq<u8>)
    ensures
        ({
            let request = http_text::request_head(head_window(buf), MAX_HEADER_LINES as nat);
            &&& request is Partial && buf.len() >= 8192 ==> parsed_request(buf) == Err::<
                Option<(RequestView, usize)>,
                Error,
            >(Error::InvalidHttp("request too large"))
            &&& request is Failed ==> parsed_request(buf) == Err::<
                Option<(RequestView, usize)>,
                Error,
            >(Error::InvalidHttp("failed to parse HTTP request"))
        }),
        ({
            let response = http_text::response_head(head_window(buf), MAX_HEADER_LINES as nat);
            &&& response is Partial && buf.len() >= 8192 ==> parsed_response(buf) == Err::<
                Option<(ResponseView, usize)>,
                Error,
            >(Error::InvalidHttp("response too large"))
            &&& response is Failed ==> parsed_response(buf) == Err::<
                Option<(ResponseView, usize)>,
                Error,
            >(Error::InvalidHttp("failed to parse HTTP response"))
        }),
{
}

/// Why a server may not select extensions: what it selected is no list, or names what was
/// not offered.
pub proof fn law_refused_selections_are_told_why(
    offered: Option<Seq<char>>,
    selected: Seq<char>,
)
    ensures
        !headers::is_extension_list(selected) ==> headers::selected_extensions_result(
            offered,
            Some(selected),
        ) == Err::<(), Error>(Error::HandshakeFailed("invalid selected extension")),
        headers::is_extension_list(selected) && headers::selected_extensions_result(
            offered,
            Some(selected),
        ) is Err ==> headers::selected_extensions_result(offered, Some(selected)) == Err::<
            (),
            Error,
        >(Error::HandshakeFailed("server selected an unoffered extension")),
        headers::selected_extensions_result(offered, None) is Ok,
{
}

/// A target with a scheme is taken only where the scheme is `http` or `https`, and without
/// user information; anything else that does not begin with a slash is refused.
pub proof fn law_other_targets_are_refused(target: Seq<char>, header_host: Seq<char>)
    requires
        target.len() == 0 || target[0] != '/',
    ensures
        server_target(target, header_host) is Some ==> (http_text::uri_of(target) matches Some(uri)
            && uri.scheme is Some && (text::eq_ignore_ascii_case(uri.scheme->0, "http"@)
            || text::eq_ignore_ascii_case(uri.scheme->0, "https"@)) && uri.authority is Some
            && !uri.authority->0.contains('@')),
        server_target(target, header_host) matches Some((_, host)) ==> http_text::uri_of(
            target,
        )->0.authority == Some(host),
        http_text::uri_of(target) is None ==> server_target(target, header_host) is None,
{
}

/// What comes of a check is told as it is: what was read where it passed, and the error
/// where it failed.
pub proof fn law_outcomes_are_told_as_they_are(
    request: HandshakeRequest<'_>,
    response: HandshakeResponse<'_>,
    n: usize,
    e: Error,
    extra: &[(String, String)],
)
    ensures
        crate::handshake::request_outcome(Ok(request)) == Ok::<RequestView, Error>(request@),
        crate::handshake::request_outcome(Err(e)) == Err::<RequestView, Error>(e),
        crate::handshake::response_outcome(Ok(response)) == Ok::<ResponseView, Error>(response@),
        crate::handshake::response_outcome(Err(e)) == Err::<ResponseView, Error>(e),
        crate::handshake::request_parse(Ok(Some((request, n)))) == Ok::<
            Option<(RequestView, usize)>,
            Error,
        >(Some((request@, n))),
        crate::handshake::request_parse(Ok(None)) == Ok::<Option<(RequestView, usize)>, Error>(
            None,
        ),
        crate::handshake::request_parse(Err(e)) == Err::<Option<(RequestView, usize)>, Error>(e),
        crate::handshake::response_parse(Ok(Some((response, n)))) == Ok::<
            Option<(ResponseView, usize)>,
            Error,
        >(Some((response@, n))),
        crate::handshake::response_parse(Ok(None)) == Ok::<Option<(ResponseView, usize)>, Error>(
            None,
        ),
        crate::handshake::response_parse(Err(e)) == Err::<Option<(ResponseView, usize)>, Error>(e),
        crate::handshake::verdict(Some(e)) == Err::<(), Error>(e),
        crate::handshake::verdict(None) == Ok::<(), Error>(()),
        crate::handshake::extra_lines(Some(extra)) == extra@,
        crate::handshake::extra_lines(None).len() == 0,
{
}

/// The lines of a head are each name with its value, in order.
pub proof fn law_line_views(lines: Seq<http_text::HeaderLine>, i: int)
    requires
        0 <= i < lines.len(),
    ensures
        http_text::lines_view(lines).len() == lines.len(),
        http_text::lines_view(lines)[i] == (lines[i].name@, lines[i].value@),
        http_text::line_view(lines[i]) == (lines[i].name@, lines[i].value@),
{
}

} // verus!
