//! What a client asks for over HTTP/2 and HTTP/3, a server reads; and what a server
//! answers, a client understands.

use crate::axum_integration::{
    answers_upgrade, contains_ignore_case, first_entry, is_upgrade_for, negotiated_extensions,
    rejection_of, rejection_status, rejection_text, RequestParts, UpgradeView,
    WebSocketUpgradeRejection, WebSocketUpgradeResponse,
};
use crate::deflate::{
    config_of, is_window_bits, offer_of, params_error, DeflateConfig,
};
use crate::error::Error;
use crate::extended_connect::{
    accepted_fields, connect_target, field_if, optional_elements, optional_list_has,
    refused_fields, ConnectParts, Field,
};
use crate::headers;
use crate::headers_laws::{are_items, law_list_is_its_elements};
use crate::http2::{
    h2_answer, h2_connect_fields, h2_request_of, h2_verdict, H2HandshakeRequest, H2RequestView,
};
use crate::http3::{
    client_request_of, connect_uri, h3_answer, h3_connect_fields, h3_filtered_answer, h3_request_of,
    h3_verdict, protocol_meant, refusal, url_of, with_protocol_of_stream, H3HandshakeRequest,
    H3RequestView,
};
use crate::http_text::{opt_string_view, opt_view, UriView};
use crate::text;
use crate::text_laws::written_with;
use vstd::prelude::*;

verus! {

/// The value of the first field of a name.
pub open spec fn value_of(fields: Seq<Field>, name: Seq<char>) -> Option<Seq<char>>
    decreases fields.len(),
{
    if fields.len() == 0 {
        None
    } else if fields[0].0 == name {
        Some(fields[0].1)
    } else {
        value_of(fields.skip(1), name)
    }
}

/// Whether what a transport found in a request are the values of its header fields,
/// each under its own name.
pub open spec fn carries(parts: ConnectParts, fields: Seq<Field>) -> bool {
    &&& opt_view(parts.host) == value_of(fields, "host"@)
    &&& opt_view(parts.subprotocols) == value_of(fields, "sec-websocket-protocol"@)
    &&& opt_view(parts.extensions) == value_of(fields, "sec-websocket-extensions"@)
    &&& opt_view(parts.origin) == value_of(fields, "origin"@)
    &&& opt_view(parts.version) == value_of(fields, "sec-websocket-version"@)
}

/// The value behind one more field in front.
proof fn lemma_value_of_front(f: Field, rest: Seq<Field>, name: Seq<char>)
    ensures
        value_of(seq![f] + rest, name) == (if f.0 == name {
            Some(f.1)
        } else {
            value_of(rest, name)
        }),
{
    assert((seq![f] + rest).skip(1) =~= rest);
    assert((seq![f] + rest)[0] == f);
}

/// The value behind an optional field in front.
proof fn lemma_value_of_optional(
    name: Seq<char>,
    value: Option<Seq<char>>,
    rest: Seq<Field>,
    sought: Seq<char>,
)
    ensures
        value_of(field_if(name, value) + rest, sought) == (if name == sought && value is Some {
            value
        } else {
            value_of(rest, sought)
        }),
{
    match value {
        Some(v) => {
            assert(field_if(name, value) + rest =~= seq![(name, v)] + rest);
            lemma_value_of_front((name, v), rest, sought);
        },
        None => {
            assert(field_if(name, value) + rest =~= rest);
        },
    }
}

/// The names of header fields differ.
proof fn lemma_field_names()
    ensures
        "host"@ != "sec-websocket-protocol"@,
        "host"@ != "sec-websocket-version"@,
        "host"@ != "origin"@,
        "host"@ != ":protocol"@,
        "origin"@ != "sec-websocket-protocol"@,
        "origin"@ != "sec-websocket-extensions"@,
        "origin"@ != "sec-websocket-version"@,
        "origin"@ != ":protocol"@,
        "sec-websocket-protocol"@ != "sec-websocket-extensions"@,
        "sec-websocket-protocol"@ != "sec-websocket-version"@,
        "sec-websocket-extensions"@ != "sec-websocket-version"@,
        ":protocol"@ != "sec-websocket-protocol"@,
        ":protocol"@ != "sec-websocket-extensions"@,
        ":protocol"@ != "sec-websocket-version"@,
        "websocket"@ != "webtransport"@,
{
    reveal_strlit("host");
    reveal_strlit("origin");
    reveal_strlit(":protocol");
    reveal_strlit("sec-websocket-protocol");
    reveal_strlit("sec-websocket-extensions");
    reveal_strlit("sec-websocket-version");
    reveal_strlit("websocket");
    reveal_strlit("webtransport");
    assert("host"@.len() == 4);
    assert("origin"@.len() == 6);
    assert(":protocol"@.len() == 9);
    assert("sec-websocket-protocol"@.len() == 22);
    assert("sec-websocket-extensions"@.len() == 24);
    assert("sec-websocket-version"@.len() == 21);
    assert("websocket"@.len() == 9);
    assert("webtransport"@.len() == 12);
}

/// Each part of an HTTP/3 request is read from its own header field or
/// pseudo-header; the host stands in for a missing authority.
pub proof fn law_h3_request_is_read_field_by_field(parts: ConnectParts, fields: Seq<Field>)
    requires
        carries(parts, fields),
    ensures
        h3_request_of(parts) is Some <==> parts.method@ == "CONNECT"@,
        h3_request_of(parts) matches Some(q) ==> {
            &&& q.subprotocols == value_of(fields, "sec-websocket-protocol"@)
            &&& q.extensions == value_of(fields, "sec-websocket-extensions"@)
            &&& q.origin == value_of(fields, "origin"@)
            &&& q.version == value_of(fields, "sec-websocket-version"@)
            &&& q.protocol == opt_view(parts.protocol)
            &&& q.scheme == "https"@
            &&& parts.path_and_query matches Some(p) ==> q.path == p@
            &&& parts.path_and_query is None ==> q.path == "/"@
            &&& parts.authority matches Some(a) ==> q.authority == a@
            &&& parts.authority is None && value_of(fields, "host"@) is Some ==> Some(q.authority)
                == value_of(fields, "host"@)
            &&& parts.authority is None && value_of(fields, "host"@) is None ==> q.authority.len()
                == 0
        },
{
    reveal_strlit("");
}

/// What an HTTP/3 client asks for is what the server reads: the subprotocols and the
/// origin that it was given, version 13, and no extensions; and a server that takes
/// it for a WebSocket accepts it.
pub proof fn law_h3_server_reads_what_the_client_asks(
    subprotocol: Option<Seq<char>>,
    origin: Option<Seq<char>>,
    parts: ConnectParts,
)
    requires
        parts.method@ == "CONNECT"@,
        carries(parts, h3_connect_fields(subprotocol, origin)),
    ensures
        h3_request_of(parts) matches Some(q) && {
            &&& q.subprotocols == subprotocol
            &&& q.origin == origin
            &&& q.version == Some("13"@)
            &&& q.extensions is None
            &&& opt_view(parts.protocol) == Some("websocket"@) ==> h3_answer(Some(q)).0 == 200
                && h3_filtered_answer(Some(q), true).0 == 200
        },
{
    let fields = h3_connect_fields(subprotocol, origin);
    lemma_field_names();
    let none = Seq::<Field>::empty();
    let last = field_if("origin"@, origin);
    let mid = field_if("sec-websocket-protocol"@, subprotocol);
    assert(last + none =~= last);
    assert(fields =~= seq![("sec-websocket-version"@, "13"@)] + (mid + last));
    assert forall|name: Seq<char>| #[trigger] value_of(fields, name) == (if name
        == "sec-websocket-version"@ {
        Some("13"@)
    } else if name == "sec-websocket-protocol"@ {
        subprotocol
    } else if name == "origin"@ {
        origin
    } else {
        None
    }) by {
        lemma_value_of_front(("sec-websocket-version"@, "13"@), mid + last, name);
        lemma_value_of_optional("sec-websocket-protocol"@, subprotocol, last, name);
        lemma_value_of_optional("origin"@, origin, none, name);
    }
    law_h3_request_is_read_field_by_field(parts, fields);
    assert(text::eq_ignore_ascii_case("websocket"@, "websocket"@));
}

/// Each part of an HTTP/2 request is read from its own header field or
/// pseudo-header; it is read only where it is an Extended CONNECT for "websocket"
/// with all it needs.
pub proof fn law_h2_request_is_read_field_by_field(parts: ConnectParts, fields: Seq<Field>)
    requires
        carries(parts, fields),
    ensures
        h2_request_of(parts) is Some <==> {
            &&& parts.method@ == "CONNECT"@
            &&& parts.protocol matches Some(p) && p@ == "websocket"@
            &&& parts.path_and_query is Some
            &&& parts.scheme is Some
            &&& parts.authority is Some || value_of(fields, "host"@) is Some
        },
        h2_request_of(parts) matches Some(q) ==> {
            &&& q.protocol == value_of(fields, "sec-websocket-protocol"@)
            &&& q.extensions == value_of(fields, "sec-websocket-extensions"@)
            &&& q.origin == value_of(fields, "origin"@)
            &&& q.version == value_of(fields, "sec-websocket-version"@)
            &&& q.path == parts.path_and_query->0@
            &&& q.scheme == parts.scheme->0@
            &&& parts.authority matches Some(a) ==> q.authority == a@
            &&& parts.authority is None ==> Some(q.authority) == value_of(fields, "host"@)
        },
{
}

/// What an HTTP/2 client asks for is what the server reads, where the caller's own
/// headers do not bear the names of those that are read; and a server that accepts
/// it answers with the subprotocols that were asked for.
pub proof fn law_h2_server_reads_what_the_client_asks(
    protocol: Option<Seq<char>>,
    extra: Seq<Field>,
    parts: ConnectParts,
)
    requires
        parts.method@ == "CONNECT"@,
        opt_view(parts.protocol) == value_of(h2_connect_fields(protocol, extra), ":protocol"@),
        parts.path_and_query is Some,
        parts.scheme is Some,
        parts.authority is Some,
        carries(parts, h2_connect_fields(protocol, extra)),
        value_of(extra, "sec-websocket-protocol"@) is None,
        value_of(extra, "sec-websocket-extensions"@) is None,
    ensures
        h2_request_of(parts) matches Some(q) && {
            &&& q.protocol == protocol
            &&& q.version == Some("13"@)
            &&& q.extensions is None
            &&& q.origin == value_of(extra, "origin"@)
            &&& h2_answer(Some(q), true).0 == 200
            &&& protocol matches Some(p) ==> h2_answer(Some(q), true).1.dom().contains(
                "sec-websocket-protocol"@,
            ) && h2_answer(Some(q), true).1["sec-websocket-protocol"@] == p
            &&& h2_answer(Some(q), false).0 == 403
        },
        h2_answer(None, true).0 == 400,
{
    let fields = h2_connect_fields(protocol, extra);
    lemma_field_names();
    let mid = field_if("sec-websocket-protocol"@, protocol);
    let version = ("sec-websocket-version"@, "13"@);
    let rest = seq![version] + extra;
    assert(fields =~= seq![(":protocol"@, "websocket"@)] + (mid + rest));
    assert forall|name: Seq<char>| #[trigger] value_of(fields, name) == (if name == ":protocol"@ {
        Some("websocket"@)
    } else if name == "sec-websocket-protocol"@ && protocol is Some {
        protocol
    } else if name == "sec-websocket-version"@ {
        Some("13"@)
    } else {
        value_of(extra, name)
    }) by {
        lemma_value_of_front((":protocol"@, "websocket"@), mid + rest, name);
        lemma_value_of_optional("sec-websocket-protocol"@, protocol, rest, name);
        lemma_value_of_front(version, extra, name);
    }
    law_h2_request_is_read_field_by_field(parts, fields);
    law_answer_fields(protocol, None, None);
}

/// The answer to an accepted request holds the subprotocol and the extensions under
/// their names, and nothing else; a refusal holds its reason, and nothing else.
pub proof fn law_answer_fields(
    protocol: Option<Seq<char>>,
    extensions: Option<Seq<char>>,
    reason: Option<Seq<char>>,
)
    ensures
        ({
            let m = accepted_fields(protocol, extensions);
            &&& m.dom().contains("sec-websocket-protocol"@) <==> protocol is Some
            &&& m.dom().contains("sec-websocket-extensions"@) <==> extensions is Some
            &&& protocol matches Some(p) ==> m["sec-websocket-protocol"@] == p
            &&& extensions matches Some(e) ==> m["sec-websocket-extensions"@] == e
            &&& forall|name: Seq<char>| #[trigger]
                m.dom().contains(name) ==> name == "sec-websocket-protocol"@ || name
                    == "sec-websocket-extensions"@
        }),
        ({
            let m = refused_fields(reason);
            &&& m.dom().contains("x-error-reason"@) <==> reason is Some
            &&& reason matches Some(x) ==> m["x-error-reason"@] == x
            &&& forall|name: Seq<char>| #[trigger]
                m.dom().contains(name) ==> name == "x-error-reason"@
        }),
{
    lemma_field_names();
}

/// An HTTP/3 request is refused with 501 exactly where it asks for another protocol
/// than "websocket", in whatever case, and with 400 where it asks for a version
/// other than 13; any other is accepted, unless a filter rejects it with 403. No
/// request at all is answered with 405.
pub proof fn law_h3_answers(q: H3RequestView, accepted: bool)
    ensures
        h3_answer(Some(q)).0 == (if q.protocol is None || !text::eq_ignore_ascii_case(
            q.protocol->0,
            "websocket"@,
        ) {
            501u16
        } else if q.version is Some && q.version->0 != "13"@ {
            400
        } else {
            200
        }),
        accepted ==> h3_filtered_answer(Some(q), accepted).0 == h3_answer(Some(q)).0,
        !accepted ==> h3_filtered_answer(Some(q), accepted).0 == 403,
        h3_answer(None).0 == 405,
        h3_filtered_answer(None, accepted).0 == 405,
        h3_answer(Some(q)).0 == 200 ==> h3_answer(Some(q)).1 == Map::<Seq<char>, Seq<char>>::empty(),
        refusal(q) is None <==> h3_answer(Some(q)).0 == 200,
{
}

/// Only "webtransport" stands for something else, for "websocket".
pub proof fn law_protocol_meant(name: Seq<char>)
    ensures
        protocol_meant("webtransport"@) == "websocket"@,
        protocol_meant("websocket"@) == "websocket"@,
        name.len() != 12 ==> protocol_meant(name) == name,
        protocol_meant(name) != name ==> name == "webtransport"@,
{
    lemma_field_names();
    reveal_strlit("webtransport");
    assert("webtransport"@.len() == 12);
}

/// A client's own request names what its URI names, asks for a WebSocket of version
/// 13 with the given subprotocol, and for nothing else.
pub proof fn law_client_request_is_what_was_asked(uri: UriView, subprotocol: Option<Seq<char>>)
    ensures
        client_request_of(Some(uri), subprotocol) is Some <==> uri.authority is Some,
        client_request_of(None, subprotocol) is None,
        client_request_of(Some(uri), subprotocol) matches Some(q) ==> {
            &&& Some(q.authority) == uri.authority
            &&& uri.path_and_query matches Some(p) ==> q.path == p
            &&& uri.path_and_query is None ==> q.path == "/"@
            &&& q.subprotocols == subprotocol
            &&& q.extensions is None
            &&& q.origin is None
            &&& q.protocol == Some("websocket"@)
            &&& q.version == Some("13"@)
            &&& q.scheme == "https"@
        },
{
}

/// The target of a request is the URI put together again.
pub proof fn law_target_is_the_uri(scheme: Seq<char>, authority: Seq<char>, path: Seq<char>)
    ensures
        connect_target(
            Some(
                (UriView {
                    scheme: Some(scheme),
                    authority: Some(authority),
                    path_and_query: Some(path),
                }),
            ),
        ) matches Ok(target) && target == scheme + "://"@ + authority + path,
        connect_target(
            Some(
                (UriView { scheme: None, authority: Some(authority), path_and_query: None }),
            ),
        ) matches Ok(target) && target == "https://"@ + authority + "/"@,
        connect_target(None) is Err,
        connect_target(
            Some((UriView { scheme: Some(scheme), authority: None, path_and_query: Some(path) })),
        ) is Err,
{
    reveal_strlit("https");
    reveal_strlit("://");
    reveal_strlit("https://");
    assert("https"@ + "://"@ =~= "https://"@);
}

/// A list of subprotocols has those that were written, in whatever case.
pub proof fn law_subprotocols_are_those_written(items: Seq<Seq<char>>, item: Seq<char>)
    requires
        items.len() > 0,
        are_items(items, ','),
    ensures
        optional_elements(Some(written_with(items, seq![',', ' ']))) == items,
        optional_elements(None).len() == 0,
        optional_list_has(Some(written_with(items, seq![',', ' '])), item) <==> exists|i: int|
            0 <= i < items.len() && text::eq_ignore_ascii_case(#[trigger] items[i], item),
        !optional_list_has(None, item),
{
    law_list_is_its_elements(items, ',');
}

/// The views of requests hold the fields under their own names.
pub proof fn law_views_are_the_fields(h2: H2HandshakeRequest, h3: H3HandshakeRequest)
    ensures
        h2@.path == h2.path@,
        h2@.authority == h2.authority@,
        h2@.scheme == h2.scheme@,
        h2@.protocol == opt_string_view(h2.protocol),
        h2@.extensions == opt_string_view(h2.extensions),
        h2@.origin == opt_string_view(h2.origin),
        h2@.version == opt_string_view(h2.version),
        h3@.path == h3.path@,
        h3@.authority == h3.authority@,
        h3@.scheme == h3.scheme@,
        h3@.protocol == opt_string_view(h3.protocol),
        h3@.extensions == opt_string_view(h3.extensions),
        h3@.origin == opt_string_view(h3.origin),
        h3@.version == opt_string_view(h3.version),
        h3@.subprotocols == opt_string_view(h3.subprotocols),
{
}

/// A framework's request is accepted exactly where it is a GET that names
/// "websocket" and "upgrade", in whatever case, has a key and version 13, and can be
/// upgraded; and the reason for a rejection holds.
pub proof fn law_framework_requests(parts: RequestParts)
    ensures
        rejection_of(parts) is None <==> {
            &&& parts.method@ == "GET"@
            &&& parts.upgrade matches Some(u) && contains_ignore_case(u@, "websocket"@)
            &&& parts.connection matches Some(c) && contains_ignore_case(c@, "upgrade"@)
            &&& parts.key is Some
            &&& parts.version matches Some(v) && v@ == "13"@
            &&& parts.can_upgrade
        },
        rejection_of(parts) matches Some(r) ==> match r {
            WebSocketUpgradeRejection::MethodNotGet => parts.method@ != "GET"@,
            WebSocketUpgradeRejection::MissingUpgradeHeader => parts.upgrade is None,
            WebSocketUpgradeRejection::InvalidUpgradeHeader => parts.upgrade matches Some(u)
                && !contains_ignore_case(u@, "websocket"@),
            WebSocketUpgradeRejection::MissingConnectionHeader => parts.connection is None,
            WebSocketUpgradeRejection::InvalidConnectionHeader => parts.connection matches Some(c)
                && !contains_ignore_case(c@, "upgrade"@),
            WebSocketUpgradeRejection::MissingSecWebSocketKey => parts.key is None,
            WebSocketUpgradeRejection::MissingSecWebSocketVersion => parts.version is None,
            WebSocketUpgradeRejection::UnsupportedVersion => parts.version matches Some(v) && v@
                != "13"@,
            WebSocketUpgradeRejection::MissingUpgrade => !parts.can_upgrade,
        },
{
}

/// A text occurs in another wherever that is written around it, in whatever case.
pub proof fn law_text_occurs_where_it_is_written(
    before: Seq<char>,
    pat: Seq<char>,
    after: Seq<char>,
    other: Seq<char>,
)
    requires
        text::eq_ignore_ascii_case(pat, other),
    ensures
        contains_ignore_case(before + pat + after, other),
        pat.len() > before.len() ==> !contains_ignore_case(before, pat),
{
    let s = before + pat + after;
    let i = before.len() as int;
    assert(s.subrange(i, i + other.len()) =~= pat);
}

/// The first entry of a list of subprotocols is the first that was written.
pub proof fn law_first_entry_is_the_first(items: Seq<Seq<char>>)
    requires
        items.len() > 0,
        are_items(items, ','),
    ensures
        first_entry(Some(written_with(items, seq![',', ' ']))) == Some(items[0]),
        first_entry(None) is None,
{
    let value = written_with(items, seq![',', ' ']);
    law_list_is_its_elements(items, ',');
    crate::text_laws::law_pieces_make_up_the_text(value, ',');
    assert(headers::elements(value, ',')[0] == text::trim(text::split(value, ',')[0]));
}

/// A server that compresses answers every proper offer, and what its answer says is
/// read back as its own windows and contexts.
pub proof fn law_negotiated_answer_reads_back(config: DeflateConfig, offer: Seq<char>)
    requires
        is_window_bits(config.server_max_window_bits),
        is_window_bits(config.client_max_window_bits),
    ensures
        negotiated_extensions(Some(config), Some(offer)) is Some <==> (offer_of(offer) matches Some(
            params,
        ) && params_error(params) is None),
        negotiated_extensions(Some(config), Some(offer)) matches Some(answer) ==> (offer_of(answer)
            matches Some(params) && params_error(params) is None && config_of(
            params,
        ).server_max_window_bits == config.server_max_window_bits && config_of(
            params,
        ).client_max_window_bits == config.client_max_window_bits && config_of(
            params,
        ).client_no_context_takeover == config.client_no_context_takeover),
        negotiated_extensions(None, Some(offer)) is None,
        negotiated_extensions(Some(config), None) is None,
{
    crate::deflate_laws::law_response_header_reads_back(config);
}

/// A client takes the answer of a server that accepts, and no other; over HTTP/3 it tells
/// a server without WebSockets from one that refuses.
pub proof fn law_clients_understand_the_answers(
    h2: H2RequestView,
    h3: H3RequestView,
    accepted: bool,
    status: u16,
)
    ensures
        h2_verdict(h2_answer(Some(h2), accepted).0) is Ok <==> accepted,
        h2_verdict(h2_answer(None, accepted).0) is Err,
        h3_verdict(h3_answer(Some(h3)).0) is Ok <==> refusal(h3) is None,
        h3_verdict(h3_filtered_answer(Some(h3), false).0) is Err,
        h3_verdict(h3_answer(None).0) is Err,
        h3_verdict(h3_answer(Some(h3)).0) == Err::<(), Error>(Error::ExtendedConnectNotSupported)
            <==> (h3.protocol is None || !text::eq_ignore_ascii_case(
            h3.protocol->0,
            "websocket"@,
        )),
        h2_verdict(status) is Ok <==> status == 200,
        h3_verdict(status) is Ok <==> status == 200,
        h3_verdict(status) == Err::<(), Error>(Error::ExtendedConnectNotSupported) <==> status == 501,
        h3_verdict(403) == Err::<(), Error>(
            Error::HandshakeFailed("server returned 403: connection forbidden"),
        ),
        status != 200 ==> h2_verdict(status) == Err::<(), Error>(
            Error::HandshakeFailed("server rejected WebSocket upgrade"),
        ),
{
    law_h3_answers(h3, accepted);
}

/// The address of a request is its scheme, its authority and its path, one behind the
/// other; so is the address that a client connects to.
pub proof fn law_addresses(request: H3RequestView, name: Seq<char>, port: u16, path: Seq<char>)
    ensures
        url_of(request).len() == 6 + request.authority.len() + request.path.len(),
        url_of(request).take(6) == "wss://"@,
        url_of(request).skip(6) == request.authority + request.path,
        connect_target(
            Some(
                (UriView {
                    scheme: Some("https"@),
                    authority: Some(name + ":"@ + text::decimal(port as nat)),
                    path_and_query: Some(path),
                }),
            ),
        ) == Ok::<Seq<char>, Error>(connect_uri(name, port, path)),
{
    reveal_strlit("wss://");
    reveal_strlit("https");
    reveal_strlit("https://");
    reveal_strlit("://");
    reveal_strlit(":");
    assert(url_of(request).take(6) =~= "wss://"@);
    assert(url_of(request).skip(6) =~= request.authority + request.path);
    law_target_is_the_uri("https"@, name + ":"@ + text::decimal(port as nat), path);
    assert("https"@ + "://"@ + (name + ":"@ + text::decimal(port as nat)) + path =~= connect_uri(
        name,
        port,
        path,
    ));
}

/// A request keeps its own `:protocol`; one without takes that of its stream. Nothing
/// else changes.
pub proof fn law_protocol_of_the_stream(request: H3RequestView, protocol: Option<Seq<char>>)
    ensures
        ({
            let q = with_protocol_of_stream(request, protocol);
            &&& request.protocol is Some ==> q == request
            &&& request.protocol is None ==> q.protocol == protocol
            &&& q.path == request.path
            &&& q.authority == request.authority
            &&& q.scheme == request.scheme
            &&& q.extensions == request.extensions
            &&& q.origin == request.origin
            &&& q.version == request.version
            &&& q.subprotocols == request.subprotocols
        }),
{
}

/// Only the wrong method is answered with 405; every rejection has a text of its own.
pub proof fn law_rejections_are_told_apart(
    a: WebSocketUpgradeRejection,
    b: WebSocketUpgradeRejection,
)
    ensures
        rejection_status(a) == 405 <==> a == WebSocketUpgradeRejection::MethodNotGet,
        rejection_status(a) == 400 <==> a != WebSocketUpgradeRejection::MethodNotGet,
        rejection_text(a) == rejection_text(b) <==> a == b,
{
    reveal_strlit("Method must be GET");
    reveal_strlit("Missing Upgrade header");
    reveal_strlit("Invalid Upgrade header");
    reveal_strlit("Missing Connection header");
    reveal_strlit("Invalid Connection header");
    reveal_strlit("Missing Sec-WebSocket-Key");
    reveal_strlit("Missing Sec-WebSocket-Version");
    reveal_strlit("Unsupported WebSocket version");
    reveal_strlit("Missing upgrade in request extensions");
    let (s, t) = (rejection_text(a), rejection_text(b));
    assert(a != b ==> s.len() != t.len() || s[0] != t[0] || s[8] != t[8]);
}

/// An upgrade is answered with the accept key of the request, the first subprotocol that
/// it offers, and extensions only where it offers some and the server has settings.
pub proof fn law_upgrade_answers_its_request(
    parts: RequestParts,
    u: UpgradeView,
    r: WebSocketUpgradeResponse,
)
    requires
        is_upgrade_for(parts, u),
        answers_upgrade(u, r),
    ensures
        parts.key matches Some(key) && r.accept_key@ == crate::handshake::accept_key_of(key@),
        opt_string_view(r.protocol) == first_entry(opt_view(parts.protocol)),
        parts.protocol is None ==> r.protocol is None,
        parts.extensions is None || u.config.deflate is None ==> r.extensions is None,
        opt_string_view(r.extensions) == negotiated_extensions(
            u.config.deflate,
            opt_view(parts.extensions),
        ),
        r.config == u.config,
{
}

/// The target for a URI has its authority; its scheme and its path, where it has them,
/// else `https` and a slash.
pub proof fn law_target_of_any_uri(uri: UriView, authority: Seq<char>)
    requires
        uri.authority == Some(authority),
    ensures
        connect_target(Some(uri)) matches Ok(target) && exists|scheme: Seq<char>, path: Seq<char>|
            #![trigger scheme + "://"@ + authority + path]
            {
                &&& target == scheme + "://"@ + authority + path
                &&& uri.scheme is Some ==> uri.scheme == Some(scheme)
                &&& uri.scheme is None ==> scheme == "https"@
                &&& uri.path_and_query is Some ==> uri.path_and_query == Some(path)
                &&& uri.path_and_query is None ==> path == "/"@
            },
        connect_target(Some((UriView { authority: None, ..uri }))) == Err::<Seq<char>, Error>(
            Error::HandshakeFailed("URI missing authority"),
        ),
        connect_target(None) == Err::<Seq<char>, Error>(Error::HandshakeFailed("invalid URI")),
{
    let scheme = match uri.scheme {
        Some(s) => s,
        None => "https"@,
    };
    let path = match uri.path_and_query {
        Some(p) => p,
        None => "/"@,
    };
    assert(connect_target(Some(uri)) == Ok::<Seq<char>, Error>(
        scheme + "://"@ + authority + path,
    ));
}

/// The first entry of a list is what stands before the first comma, without white space
/// around it.
pub proof fn law_first_entry_ends_at_the_comma(a: Seq<char>, rest: Seq<char>)
    requires
        !a.contains(','),
    ensures
        first_entry(Some(a)) == Some(text::trim(a)),
        first_entry(Some(a + seq![','] + rest)) == Some(text::trim(a)),
{
    text::lemma_find_range(a, ',', 0);
    text::lemma_find_from(a, ',', 0, a.len() as int);
    let s = a + seq![','] + rest;
    assert forall|j: int| 0 <= j < a.len() implies #[trigger] s[j] != ',' by {
        assert(s[j] == a[j]);
        assert(a.contains(a[j]));
    }
    assert forall|j: int| 0 <= j < a.len() implies #[trigger] a[j] != ',' by {
        assert(a.contains(a[j]));
    }
    text::lemma_find_from(s, ',', 0, a.len() as int);
    assert(s.take(a.len() as int) =~= a);
}

/// A text occurs only where it is written, up to the case of letters.
pub proof fn law_text_occurs_only_where_it_is_written(s: Seq<char>, pat: Seq<char>)
    requires
        contains_ignore_case(s, pat),
    ensures
        exists|before: Seq<char>, found: Seq<char>, after: Seq<char>|
            s == #[trigger] (before + found + after) && text::eq_ignore_ascii_case(found, pat),
{
    let i = choose|i: int|
        0 <= i <= s.len() - pat.len() && text::eq_ignore_ascii_case(
            #[trigger] s.subrange(i, i + pat.len()),
            pat,
        );
    let (before, found, after) = (s.take(i), s.subrange(i, i + pat.len()), s.skip(i + pat.len()));
    assert(s =~= before + found + after);
}

/// What a client sends over HTTP/2 ends with the headers that the caller adds, all of them
/// and in order; over HTTP/3 it is the version, and the subprotocols and the origin where
/// there are any.
pub proof fn law_client_fields(
    protocol: Option<Seq<char>>,
    extra: Seq<Field>,
    origin: Option<Seq<char>>,
)
    ensures
        ({
            let fields = h2_connect_fields(protocol, extra);
            let own: int = if protocol is Some {
                3
            } else {
                2
            };
            &&& fields.len() == own + extra.len()
            &&& fields.skip(own) == extra
            &&& fields[0] == (":protocol"@, "websocket"@)
            &&& fields[own - 1] == ("sec-websocket-version"@, "13"@)
        }),
        h3_connect_fields(protocol, origin).len() == 1 + (if protocol is Some {
            1int
        } else {
            0
        }) + (if origin is Some {
            1int
        } else {
            0
        }),
{
    let fields = h2_connect_fields(protocol, extra);
    let own: int = if protocol is Some {
        3
    } else {
        2
    };
    assert(fields.skip(own) =~= extra);
}

} // verus!
