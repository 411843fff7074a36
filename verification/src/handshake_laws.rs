//! What holds of the handshake as a whole: what one side builds, the other side
//! accepts.

use crate::error::Error;
use crate::handshake::{
    accept_key_of, built_request, extra_header_error, extra_headers_error, extra_text, head_window,
    is_built_request, is_built_response, is_reserved, line_text, optional_line, reply_result,
    request_line_error, request_lines_error, request_of, request_parts_error, request_text,
    response_line_error, response_lines_error, response_of, response_text, server_selection_result,
    values, Line, RequestView, ResponseView,
};
use crate::headers;
use crate::http_text::{
    are_plain_fields, fields_text, is_plain_field, is_request_head, is_upgrade_head, lines_of,
    Field, RequestHeadView, ResponseHeadView,
};
use crate::text;
use vstd::prelude::*;
use vstd::utf8::*;

verus! {

/// One optional field.
pub open spec fn optional_field(name: Seq<char>, value: Option<Seq<char>>) -> Seq<Field> {
    match value {
        Some(v) => seq![(name, v)],
        None => seq![],
    }
}

/// The fields of a built request.
pub open spec fn request_fields(
    host: Seq<char>,
    key: Seq<char>,
    protocol: Option<Seq<char>>,
    extensions: Option<Seq<char>>,
) -> Seq<Field> {
    seq![
        ("Host"@, host),
        ("Upgrade"@, "websocket"@),
        ("Connection"@, "Upgrade"@),
        ("Sec-WebSocket-Key"@, key),
        ("Sec-WebSocket-Version"@, "13"@),
    ] + optional_field("Sec-WebSocket-Protocol"@, protocol) + optional_field(
        "Sec-WebSocket-Extensions"@,
        extensions,
    )
}

/// The fields of a built response.
pub open spec fn response_fields(
    accept_key: Seq<char>,
    protocol: Option<Seq<char>>,
    extensions: Option<Seq<char>>,
) -> Seq<Field> {
    seq![
        ("Upgrade"@, "websocket"@),
        ("Connection"@, "Upgrade"@),
        ("Sec-WebSocket-Accept"@, accept_key),
    ] + optional_field("Sec-WebSocket-Protocol"@, protocol) + optional_field(
        "Sec-WebSocket-Extensions"@,
        extensions,
    )
}

/// Additional headers as fields.
pub open spec fn extra_fields(extra: Seq<(String, String)>) -> Seq<Field> {
    extra.map_values(|h: (String, String)| (h.0@, h.1@))
}

/// The values of additional headers that are named Origin.
pub open spec fn extra_origins(extra: Seq<(String, String)>) -> Seq<Seq<char>> {
    values(lines_of(extra_fields(extra)), "origin"@)
}

/// Whether no white space surrounds an optional text.
pub open spec fn is_trimmed(s: Option<Seq<char>>) -> bool {
    s matches Some(x) ==> text::trim(x) == x
}

/// The values of one more line.
proof fn lemma_values_add(lines: Seq<Line>, field: Field, name: Seq<char>)
    ensures
        values(lines.push((field.0, encode_utf8(field.1))), name) == (if text::eq_ignore_ascii_case(
            field.0,
            name,
        ) {
            values(lines, name).push(text::trim(field.1))
        } else {
            values(lines, name)
        }),
        valid_utf8(encode_utf8(field.1)),
        line_text((field.0, encode_utf8(field.1))) == text::trim(field.1),
{
    let line = (field.0, encode_utf8(field.1));
    assert(lines.push(line).drop_last() =~= lines);
    encode_utf8_decode_utf8(field.1);
    encode_utf8_valid_utf8(field.1);
}

/// Additional headers that may be sent, with at most one Origin among them, cause
/// no error and leave what the handshake looks for as it is.
proof fn lemma_extra_lines(base: Seq<Line>, extra: Seq<(String, String)>)
    requires
        request_lines_error(base) is None,
        values(base, "origin"@).len() == 0,
        forall|i: int| 0 <= i < extra.len() ==> extra_header_error(#[trigger] extra[i]) is None,
        extra_origins(extra).len() <= 1,
    ensures
        ({
            let all = base + lines_of(extra_fields(extra));
            &&& request_lines_error(all) is None
            &&& values(all, "origin"@) == extra_origins(extra)
            &&& forall|name: Seq<char>|
                looked_for(name) ==> #[trigger] values(all, name) == values(base, name)
        }),
    decreases extra.len(),
{
    let lines = lines_of(extra_fields(extra));
    let all = base + lines;
    if extra.len() == 0 {
        assert(all =~= base);
        assert(extra_origins(extra) =~= values(base, "origin"@));
    } else {
        let init = extra.drop_last();
        let line = lines.last();
        let field = (extra.last().0@, extra.last().1@);
        assert(lines.drop_last() =~= lines_of(extra_fields(init)));
        assert(all.drop_last() =~= base + lines_of(extra_fields(init)));
        assert(all.last() == line);
        assert(line == (field.0, encode_utf8(field.1)));
        assert forall|i: int| 0 <= i < init.len() implies extra_header_error(#[trigger] init[i])
            is None by {
            assert(extra_header_error(extra[i]) is None);
        }
        assert(extra_header_error(extra[extra.len() - 1]) is None);
        lemma_extra_lines(base, init);
        encode_utf8_valid_utf8(field.1);
        assert(request_line_error(all.drop_last(), line) is None);
        assert forall|name: Seq<char>| looked_for(name) implies #[trigger] values(all, name)
            == values(base, name) by {
            assert(!text::eq_ignore_ascii_case(field.0, name));
            assert(values(all.drop_last(), name) == values(base, name));
        }
    }
}

/// The names of the lines that the handshake looks for, besides Origin.
spec fn looked_for(name: Seq<char>) -> bool {
    ||| name == "host"@
    ||| name == "upgrade"@
    ||| name == "connection"@
    ||| name == "sec-websocket-key"@
    ||| name == "sec-websocket-version"@
    ||| name == "sec-websocket-protocol"@
    ||| name == "sec-websocket-extensions"@
}

/// A request that is built from valid parts and additional headers, without white
/// space around its values and with at most one Origin, is one that the server
/// side accepts, and it reads the same parts.
pub proof fn law_built_request_with_headers_is_accepted(
    host: Seq<char>,
    path: Seq<char>,
    key: Seq<char>,
    protocol: Option<Seq<char>>,
    extensions: Option<Seq<char>>,
    extra: Seq<(String, String)>,
)
    requires
        request_parts_error(host, path, key, protocol, extensions, extra) is None,
        text::trim(host) == host,
        text::trim(key) == key,
        is_trimmed(protocol),
        is_trimmed(extensions),
        extra_origins(extra).len() <= 1,
    ensures
        request_of(
            RequestHeadView {
                method: Some("GET"@),
                path: Some(path),
                version: Some(1u8),
                headers: lines_of(
                    request_fields(host, key, protocol, extensions) + extra_fields(extra),
                ),
            },
        ) == Ok::<RequestView, Error>(
            built_request(host, path, key, protocol, extensions, extra),
        ),
{
    let base = lines_of(request_fields(host, key, protocol, extensions));
    let all = lines_of(request_fields(host, key, protocol, extensions) + extra_fields(extra));
    assert(extra_headers_error(seq![], 0) is None);
    law_built_request_is_accepted(host, path, key, protocol, extensions);
    assert forall|i: int| 0 <= i < extra.len() implies extra_header_error(#[trigger] extra[i])
        is None by {
        lemma_extra_from(extra, 0, i);
    }
    assert(all =~= base + lines_of(extra_fields(extra)));
    lemma_extra_lines(base, extra);
    assert(values(all, "upgrade"@) == values(base, "upgrade"@));
    assert(values(all, "connection"@) == values(base, "connection"@));
    assert(values(all, "host"@) == values(base, "host"@));
    assert(values(all, "sec-websocket-key"@) == values(base, "sec-websocket-key"@));
    assert(values(all, "sec-websocket-version"@) == values(base, "sec-websocket-version"@));
    assert(values(all, "sec-websocket-protocol"@) == values(base, "sec-websocket-protocol"@));
    assert(values(all, "sec-websocket-extensions"@) == values(base, "sec-websocket-extensions"@));
}

/// A text without commas and white space around it is its own only element.
proof fn lemma_single_element(s: Seq<char>)
    requires
        s.len() > 0,
        !text::is_white_space(s[0]),
        !text::is_white_space(s.last()),
        forall|i: int| 0 <= i < s.len() ==> s[i] != ',',
    ensures
        headers::elements(s, ',') == seq![s],
        text::trim(s) == s,
{
    text::lemma_find_from(s, ',', 0, s.len() as int);
    assert(headers::elements(s, ',') =~= seq![s]);
}

/// A text lists itself, up to case.
proof fn lemma_lists_token(s: Seq<char>, token: Seq<char>)
    requires
        headers::elements(s, ',') == seq![s],
        text::eq_ignore_ascii_case(s, token),
    ensures
        headers::contains_token(s, token),
{
    assert(headers::elements(s, ',')[0] == s);
}

/// The name of a built field is the name that the other side looks for, and no
/// other.
proof fn lemma_built_names(name: Seq<char>)
    ensures
        text::eq_ignore_ascii_case("Host"@, name) <==> text::eq_ignore_ascii_case("host"@, name),
        text::eq_ignore_ascii_case("Upgrade"@, name) <==> text::eq_ignore_ascii_case(
            "upgrade"@,
            name,
        ),
        text::eq_ignore_ascii_case("Connection"@, name) <==> text::eq_ignore_ascii_case(
            "connection"@,
            name,
        ),
        text::eq_ignore_ascii_case("Sec-WebSocket-Key"@, name) <==> text::eq_ignore_ascii_case(
            "sec-websocket-key"@,
            name,
        ),
        text::eq_ignore_ascii_case("Sec-WebSocket-Version"@, name) <==> text::eq_ignore_ascii_case(
            "sec-websocket-version"@,
            name,
        ),
        text::eq_ignore_ascii_case("Sec-WebSocket-Protocol"@, name) <==> text::eq_ignore_ascii_case(
            "sec-websocket-protocol"@,
            name,
        ),
        text::eq_ignore_ascii_case("Sec-WebSocket-Extensions"@, name)
            <==> text::eq_ignore_ascii_case("sec-websocket-extensions"@, name),
        text::eq_ignore_ascii_case("Sec-WebSocket-Accept"@, name) <==> text::eq_ignore_ascii_case(
            "sec-websocket-accept"@,
            name,
        ),
{
    lemma_case_variants("Host"@, "host"@, name);
    lemma_case_variants("Upgrade"@, "upgrade"@, name);
    lemma_case_variants("Connection"@, "connection"@, name);
    lemma_case_variants("Sec-WebSocket-Key"@, "sec-websocket-key"@, name);
    lemma_case_variants("Sec-WebSocket-Version"@, "sec-websocket-version"@, name);
    lemma_case_variants("Sec-WebSocket-Protocol"@, "sec-websocket-protocol"@, name);
    lemma_case_variants("Sec-WebSocket-Extensions"@, "sec-websocket-extensions"@, name);
    lemma_case_variants("Sec-WebSocket-Accept"@, "sec-websocket-accept"@, name);
    reveal_strlit("Host");
    reveal_strlit("host");
    reveal_strlit("Upgrade");
    reveal_strlit("upgrade");
    reveal_strlit("Connection");
    reveal_strlit("connection");
    reveal_strlit("Sec-WebSocket-Key");
    reveal_strlit("sec-websocket-key");
    reveal_strlit("Sec-WebSocket-Version");
    reveal_strlit("sec-websocket-version");
    reveal_strlit("Sec-WebSocket-Protocol");
    reveal_strlit("sec-websocket-protocol");
    reveal_strlit("Sec-WebSocket-Extensions");
    reveal_strlit("sec-websocket-extensions");
    reveal_strlit("Sec-WebSocket-Accept");
    reveal_strlit("sec-websocket-accept");
}

/// Texts that differ in case only are equal to the same texts, up to case.
proof fn lemma_case_variants(a: Seq<char>, b: Seq<char>, name: Seq<char>)
    ensures
        text::eq_ignore_ascii_case(a, b) ==> (text::eq_ignore_ascii_case(a, name)
            <==> text::eq_ignore_ascii_case(b, name)),
{
    if text::eq_ignore_ascii_case(a, b) {
        if text::eq_ignore_ascii_case(a, name) {
            assert forall|i: int| 0 <= i < b.len() implies text::ascii_lower(#[trigger] b[i])
                == text::ascii_lower(name[i]) by {
                assert(text::ascii_lower(a[i]) == text::ascii_lower(b[i]));
            }
        }
        if text::eq_ignore_ascii_case(b, name) {
            assert forall|i: int| 0 <= i < a.len() implies text::ascii_lower(#[trigger] a[i])
                == text::ascii_lower(name[i]) by {
                assert(text::ascii_lower(b[i]) == text::ascii_lower(name[i]));
            }
        }
    }
}

/// All that one more line does to what a request's lines say.
proof fn lemma_request_step(lines: Seq<Line>, field: Field)
    requires
        request_lines_error(lines) is None,
        request_line_error(lines, (field.0, encode_utf8(field.1))) is None,
    ensures
        ({
            let line = (field.0, encode_utf8(field.1));
            let next = lines.push(line);
            &&& request_lines_error(next) is None
            &&& forall|name: Seq<char>| #[trigger]
                values(next, name) == (if text::eq_ignore_ascii_case(field.0, name) {
                    values(lines, name).push(text::trim(field.1))
                } else {
                    values(lines, name)
                })
        }),
{
    let line = (field.0, encode_utf8(field.1));
    let next = lines.push(line);
    assert(next.drop_last() =~= lines);
    assert forall|name: Seq<char>| #[trigger]
        values(next, name) == (if text::eq_ignore_ascii_case(field.0, name) {
            values(lines, name).push(text::trim(field.1))
        } else {
            values(lines, name)
        }) by {
        lemma_values_add(lines, field, name);
    }
}

/// A request that is built from valid parts, without white space around its
/// values, is one that the server side accepts, and it reads the same parts.
pub proof fn law_built_request_is_accepted(
    host: Seq<char>,
    path: Seq<char>,
    key: Seq<char>,
    protocol: Option<Seq<char>>,
    extensions: Option<Seq<char>>,
)
    requires
        request_parts_error(host, path, key, protocol, extensions, seq![]) is None,
        text::trim(host) == host,
        text::trim(key) == key,
        is_trimmed(protocol),
        is_trimmed(extensions),
    ensures
        request_of(
            RequestHeadView {
                method: Some("GET"@),
                path: Some(path),
                version: Some(1u8),
                headers: lines_of(request_fields(host, key, protocol, extensions)),
            },
        ) == Ok::<RequestView, Error>(
            RequestView {
                path,
                host: Some(host),
                key,
                version: "13"@,
                protocol,
                extensions,
                origin: None,
            },
        ),
{
    let f0 = ("Host"@, host);
    let f1 = ("Upgrade"@, "websocket"@);
    let f2 = ("Connection"@, "Upgrade"@);
    let f3 = ("Sec-WebSocket-Key"@, key);
    let f4 = ("Sec-WebSocket-Version"@, "13"@);
    let f5 = ("Sec-WebSocket-Protocol"@, protocol->0);
    let f6 = ("Sec-WebSocket-Extensions"@, extensions->0);
    lemma_distinct_fields();
    let l0 = Seq::<Line>::empty();
    let l1 = l0.push((f0.0, encode_utf8(f0.1)));
    let l2 = l1.push((f1.0, encode_utf8(f1.1)));
    let l3 = l2.push((f2.0, encode_utf8(f2.1)));
    let l4 = l3.push((f3.0, encode_utf8(f3.1)));
    let l5 = l4.push((f4.0, encode_utf8(f4.1)));
    let l6 = if protocol is Some {
        l5.push((f5.0, encode_utf8(f5.1)))
    } else {
        l5
    };
    let l7 = if extensions is Some {
        l6.push((f6.0, encode_utf8(f6.1)))
    } else {
        l6
    };
    encode_utf8_valid_utf8(f0.1);
    lemma_request_step(l0, f0);
    encode_utf8_valid_utf8(f1.1);
    lemma_request_step(l1, f1);
    encode_utf8_valid_utf8(f2.1);
    lemma_request_step(l2, f2);
    encode_utf8_valid_utf8(f3.1);
    lemma_request_step(l3, f3);
    encode_utf8_valid_utf8(f4.1);
    lemma_request_step(l4, f4);
    if protocol is Some {
        encode_utf8_valid_utf8(f5.1);
        lemma_request_step(l5, f5);
    }
    if extensions is Some {
        encode_utf8_valid_utf8(f6.1);
        lemma_request_step(l6, f6);
    }
    assert(lines_of(request_fields(host, key, protocol, extensions)) =~= l7);
    lemma_fixed_values();
    assert(values(l7, "host"@) =~= seq![host]);
    assert(values(l7, "sec-websocket-key"@) =~= seq![key]);
    assert(values(l7, "sec-websocket-version"@) =~= seq!["13"@]);
    assert(values(l7, "origin"@) =~= seq![]);
    assert(values(l7, "upgrade"@) =~= seq!["websocket"@]);
    assert(values(l7, "upgrade"@)[0] == "websocket"@);
    assert(values(l7, "connection"@) =~= seq!["Upgrade"@]);
    assert(values(l7, "connection"@)[0] == "Upgrade"@);
    if protocol is Some {
        assert(values(l7, "sec-websocket-protocol"@) =~= seq![protocol->0]);
    }
    if extensions is Some {
        assert(values(l7, "sec-websocket-extensions"@) =~= seq![extensions->0]);
    }
}

/// The fixed values of built messages say what the other side looks for.
proof fn lemma_fixed_values()
    ensures
        text::trim("websocket"@) == "websocket"@,
        text::trim("Upgrade"@) == "Upgrade"@,
        text::trim("13"@) == "13"@,
        headers::contains_token("websocket"@, "websocket"@),
        headers::contains_token("Upgrade"@, "upgrade"@),
{
    reveal_strlit("websocket");
    reveal_strlit("Upgrade");
    reveal_strlit("upgrade");
    reveal_strlit("13");
    lemma_single_element("websocket"@);
    lemma_single_element("Upgrade"@);
    lemma_single_element("13"@);
    lemma_lists_token("websocket"@, "websocket"@);
    lemma_lists_token("Upgrade"@, "upgrade"@);
}

/// The names of built fields, against the names that are looked for.
proof fn lemma_distinct_fields()
    ensures
        forall|field: Seq<char>, name: Seq<char>|
            #![trigger text::eq_ignore_ascii_case(field, name)]
            built_name(field) && sought_name(name) ==> (text::eq_ignore_ascii_case(field, name)
                <==> sought_by(field) == name),
        "host"@.len() == 4,
        "upgrade"@.len() == 7,
        "connection"@.len() == 10,
        "sec-websocket-key"@.len() == 17,
        "sec-websocket-key"@[0] == 's',
        "sec-websocket-version"@.len() == 21,
        "sec-websocket-protocol"@.len() == 22,
        "sec-websocket-extensions"@.len() == 24,
        "sec-websocket-accept"@.len() == 20,
        "origin"@.len() == 6,
        "content-length"@.len() == 14,
        "transfer-encoding"@.len() == 17,
        "transfer-encoding"@[0] == 't',
        "Host"@.len() == 4,
        "Upgrade"@.len() == 7,
        "Connection"@.len() == 10,
        "Sec-WebSocket-Key"@.len() == 17,
        "Sec-WebSocket-Version"@.len() == 21,
        "Sec-WebSocket-Protocol"@.len() == 22,
        "Sec-WebSocket-Extensions"@.len() == 24,
        "Sec-WebSocket-Accept"@.len() == 20,
{
    reveal_strlit("host");
    reveal_strlit("upgrade");
    reveal_strlit("connection");
    reveal_strlit("sec-websocket-key");
    reveal_strlit("sec-websocket-version");
    reveal_strlit("sec-websocket-protocol");
    reveal_strlit("sec-websocket-extensions");
    reveal_strlit("sec-websocket-accept");
    reveal_strlit("origin");
    reveal_strlit("content-length");
    reveal_strlit("transfer-encoding");
    reveal_strlit("Host");
    reveal_strlit("Upgrade");
    reveal_strlit("Connection");
    reveal_strlit("Sec-WebSocket-Key");
    reveal_strlit("Sec-WebSocket-Version");
    reveal_strlit("Sec-WebSocket-Protocol");
    reveal_strlit("Sec-WebSocket-Extensions");
    reveal_strlit("Sec-WebSocket-Accept");
    assert forall|field: Seq<char>, name: Seq<char>|
        #![trigger text::eq_ignore_ascii_case(field, name)]
        built_name(field) && sought_name(name) implies (text::eq_ignore_ascii_case(field, name)
        <==> sought_by(field) == name) by {
        lemma_built_names(name);
        lemma_sought_names(sought_by(field), name);
    }
}

/// The names of built fields.
spec fn built_name(n: Seq<char>) -> bool {
    ||| n == "Host"@
    ||| n == "Upgrade"@
    ||| n == "Connection"@
    ||| n == "Sec-WebSocket-Key"@
    ||| n == "Sec-WebSocket-Version"@
    ||| n == "Sec-WebSocket-Protocol"@
    ||| n == "Sec-WebSocket-Extensions"@
    ||| n == "Sec-WebSocket-Accept"@
}

/// The names that the other side looks for.
spec fn sought_name(n: Seq<char>) -> bool {
    ||| n == "host"@
    ||| n == "upgrade"@
    ||| n == "connection"@
    ||| n == "sec-websocket-key"@
    ||| n == "sec-websocket-version"@
    ||| n == "sec-websocket-protocol"@
    ||| n == "sec-websocket-extensions"@
    ||| n == "sec-websocket-accept"@
    ||| n == "origin"@
    ||| n == "content-length"@
    ||| n == "transfer-encoding"@
}

/// The name under which a built field is looked for.
spec fn sought_by(n: Seq<char>) -> Seq<char> {
    if n == "Host"@ {
        "host"@
    } else if n == "Upgrade"@ {
        "upgrade"@
    } else if n == "Connection"@ {
        "connection"@
    } else if n == "Sec-WebSocket-Key"@ {
        "sec-websocket-key"@
    } else if n == "Sec-WebSocket-Version"@ {
        "sec-websocket-version"@
    } else if n == "Sec-WebSocket-Protocol"@ {
        "sec-websocket-protocol"@
    } else if n == "Sec-WebSocket-Extensions"@ {
        "sec-websocket-extensions"@
    } else {
        "sec-websocket-accept"@
    }
}

/// Names that are looked for are equal up to case only where they are equal.
proof fn lemma_sought_names(a: Seq<char>, b: Seq<char>)
    requires
        sought_name(a),
        sought_name(b),
    ensures
        text::eq_ignore_ascii_case(a, b) <==> a == b,
{
    reveal_strlit("host");
    reveal_strlit("upgrade");
    reveal_strlit("connection");
    reveal_strlit("sec-websocket-key");
    reveal_strlit("sec-websocket-version");
    reveal_strlit("sec-websocket-protocol");
    reveal_strlit("sec-websocket-extensions");
    reveal_strlit("sec-websocket-accept");
    reveal_strlit("origin");
    reveal_strlit("content-length");
    reveal_strlit("transfer-encoding");
    if a != b && text::eq_ignore_ascii_case(a, b) {
        assert(a.len() == b.len());
        assert(a.len() == 17);
        assert(text::ascii_lower(a[0]) == text::ascii_lower(b[0]));
        assert(text::ascii_lower('s') != text::ascii_lower('t'));
        assert(false);
    }
}

/// All that one more line does to what a response's lines say.
proof fn lemma_response_step(lines: Seq<Line>, field: Field)
    requires
        response_lines_error(lines) is None,
        response_line_error(lines, (field.0, encode_utf8(field.1))) is None,
    ensures
        ({
            let line = (field.0, encode_utf8(field.1));
            let next = lines.push(line);
            &&& response_lines_error(next) is None
            &&& forall|name: Seq<char>| #[trigger]
                values(next, name) == (if text::eq_ignore_ascii_case(field.0, name) {
                    values(lines, name).push(text::trim(field.1))
                } else {
                    values(lines, name)
                })
        }),
{
    let line = (field.0, encode_utf8(field.1));
    let next = lines.push(line);
    assert(next.drop_last() =~= lines);
    assert forall|name: Seq<char>| #[trigger]
        values(next, name) == (if text::eq_ignore_ascii_case(field.0, name) {
            values(lines, name).push(text::trim(field.1))
        } else {
            values(lines, name)
        }) by {
        lemma_values_add(lines, field, name);
    }
}

/// A response that is built from valid parts, without white space around its
/// values, is one that the client side accepts, and it reads the same parts.
pub proof fn law_built_response_is_accepted(
    accept_key: Seq<char>,
    protocol: Option<Seq<char>>,
    extensions: Option<Seq<char>>,
)
    requires
        protocol matches Some(p) ==> headers::is_token(p),
        extensions matches Some(e) ==> headers::is_extension_list(e),
        text::trim(accept_key) == accept_key,
        is_trimmed(protocol),
        is_trimmed(extensions),
    ensures
        response_of(
            ResponseHeadView {
                code: Some(101u16),
                version: Some(1u8),
                headers: lines_of(response_fields(accept_key, protocol, extensions)),
            },
        ) == Ok::<ResponseView, Error>(
            ResponseView { status: 101, accept: Some(accept_key), protocol, extensions },
        ),
{
    let f0 = ("Upgrade"@, "websocket"@);
    let f1 = ("Connection"@, "Upgrade"@);
    let f2 = ("Sec-WebSocket-Accept"@, accept_key);
    let f3 = ("Sec-WebSocket-Protocol"@, protocol->0);
    let f4 = ("Sec-WebSocket-Extensions"@, extensions->0);
    lemma_distinct_fields();
    let l0 = Seq::<Line>::empty();
    let l1 = l0.push((f0.0, encode_utf8(f0.1)));
    let l2 = l1.push((f1.0, encode_utf8(f1.1)));
    let l3 = l2.push((f2.0, encode_utf8(f2.1)));
    let l4 = if protocol is Some {
        l3.push((f3.0, encode_utf8(f3.1)))
    } else {
        l3
    };
    let l5 = if extensions is Some {
        l4.push((f4.0, encode_utf8(f4.1)))
    } else {
        l4
    };
    encode_utf8_valid_utf8(f0.1);
    lemma_response_step(l0, f0);
    encode_utf8_valid_utf8(f1.1);
    lemma_response_step(l1, f1);
    encode_utf8_valid_utf8(f2.1);
    lemma_response_step(l2, f2);
    if protocol is Some {
        encode_utf8_valid_utf8(f3.1);
        lemma_response_step(l3, f3);
    }
    if extensions is Some {
        encode_utf8_valid_utf8(f4.1);
        lemma_response_step(l4, f4);
    }
    assert(lines_of(response_fields(accept_key, protocol, extensions)) =~= l5);
    lemma_fixed_values();
    assert(values(l5, "sec-websocket-accept"@) =~= seq![accept_key]);
    assert(values(l5, "upgrade"@) =~= seq!["websocket"@]);
    assert(values(l5, "upgrade"@)[0] == "websocket"@);
    assert(values(l5, "connection"@) =~= seq!["Upgrade"@]);
    assert(values(l5, "connection"@)[0] == "Upgrade"@);
    if protocol is Some {
        assert(values(l5, "sec-websocket-protocol"@) =~= seq![protocol->0]);
    }
    if extensions is Some {
        assert(values(l5, "sec-websocket-extensions"@) =~= seq![extensions->0]);
    }
}

/// A client takes the answer of a server that used its key, selected a
/// subprotocol that it offered (or none), and added no extension.
pub proof fn law_client_takes_server_reply(
    key: Seq<char>,
    offered: Option<Seq<char>>,
    selected: Option<Seq<char>>,
)
    requires
        selected matches Some(s) ==> (offered matches Some(o) && headers::lists(o, s)),
    ensures
        reply_result(
            key,
            offered,
            ResponseView {
                status: 101,
                accept: Some(accept_key_of(key)),
                protocol: selected,
                extensions: None,
            },
        ) == Ok::<(), Error>(()),
{
}

/// A response whose accept key is not the one for the client's key is refused,
/// whatever else it holds.
pub proof fn law_wrong_accept_key_is_refused(
    key: Seq<char>,
    offered: Option<Seq<char>>,
    response: ResponseView,
)
    requires
        response.accept != Some(accept_key_of(key)),
    ensures
        reply_result(key, offered, response) is Err,
{
}

/// Additional headers that pass never name a header that the handshake manages,
/// and consist of tokens and field value characters.
pub proof fn law_extra_headers_are_harmless(extra: Seq<(String, String)>, i: int)
    requires
        extra_headers_error(extra, 0) is None,
        0 <= i < extra.len(),
    ensures
        !is_reserved(extra[i].0@),
        headers::is_token(extra[i].0@),
        headers::all_value_chars(extra[i].1@),
{
    lemma_extra_from(extra, 0, i);
}

/// No error from `from` on means none at `i`.
proof fn lemma_extra_from(extra: Seq<(String, String)>, from: int, i: int)
    requires
        extra_headers_error(extra, from) is None,
        0 <= from <= i < extra.len(),
    ensures
        extra_header_error(extra[i]) is None,
        !is_reserved(extra[i].0@),
        headers::is_token(extra[i].0@),
        headers::all_value_chars(extra[i].1@),
    decreases i - from,
{
    if from < i {
        lemma_extra_from(extra, from + 1, i);
    }
}

/// A server can only answer with a subprotocol and with extensions that the
/// request offered.
pub proof fn law_selection_was_offered(
    request: RequestView,
    protocol: Option<Seq<char>>,
    extensions: Option<Seq<char>>,
)
    requires
        server_selection_result(request, protocol, extensions) is Ok,
    ensures
        protocol matches Some(p) ==> (request.protocol matches Some(o) && headers::lists(o, p)),
        extensions matches Some(e) ==> (request.extensions matches Some(o)
            && headers::all_extensions_offered(o, e)),
{
}

/// The text of a built request is its request line, its fields in order, and an
/// empty line.
pub proof fn law_request_text_is_its_fields(
    host: Seq<char>,
    path: Seq<char>,
    key: Seq<char>,
    protocol: Option<Seq<char>>,
    extensions: Option<Seq<char>>,
    extra: Seq<(String, String)>,
)
    ensures
        request_text(host, path, key, protocol, extensions, extra) == "GET "@ + path
            + " HTTP/1.1\r\n"@ + fields_text(
            request_fields(host, key, protocol, extensions) + extra_fields(extra),
        ) + "\r\n"@,
{
    let base = seq![
        ("Host"@, host),
        ("Upgrade"@, "websocket"@),
        ("Connection"@, "Upgrade"@),
        ("Sec-WebSocket-Key"@, key),
        ("Sec-WebSocket-Version"@, "13"@),
    ];
    let b4 = base.drop_last();
    let b3 = b4.drop_last();
    let b2 = b3.drop_last();
    let b1 = b2.drop_last();
    assert(b1.drop_last() =~= seq![]);
    let p = optional_field("Sec-WebSocket-Protocol"@, protocol);
    let e = optional_field("Sec-WebSocket-Extensions"@, extensions);
    lemma_optional_text(base, "Sec-WebSocket-Protocol"@, "Sec-WebSocket-Protocol: "@, protocol);
    lemma_optional_text(
        base + p,
        "Sec-WebSocket-Extensions"@,
        "Sec-WebSocket-Extensions: "@,
        extensions,
    );
    reveal_strlit(": ");
    reveal_strlit("\r\n");
    reveal_strlit("Host");
    reveal_strlit("Upgrade");
    reveal_strlit("websocket");
    reveal_strlit("Connection");
    reveal_strlit("Sec-WebSocket-Key");
    reveal_strlit("Sec-WebSocket-Version");
    reveal_strlit("13");
    reveal_strlit(" HTTP/1.1\r\n");
    reveal_strlit(" HTTP/1.1\r\nHost: ");
    reveal_strlit("\r\nUpgrade: websocket\r\nConnection: Upgrade\r\nSec-WebSocket-Key: ");
    reveal_strlit("\r\nSec-WebSocket-Version: 13\r\n");
    reveal_strlit("Sec-WebSocket-Protocol");
    reveal_strlit("Sec-WebSocket-Protocol: ");
    reveal_strlit("Sec-WebSocket-Extensions");
    reveal_strlit("Sec-WebSocket-Extensions: ");
    assert("Sec-WebSocket-Protocol"@ + ": "@ =~= "Sec-WebSocket-Protocol: "@);
    assert("Sec-WebSocket-Extensions"@ + ": "@ =~= "Sec-WebSocket-Extensions: "@);
    assert(" HTTP/1.1\r\n"@ + "Host"@ + ": "@ =~= " HTTP/1.1\r\nHost: "@);
    assert("\r\n"@ + "Upgrade"@ + ": "@ + "websocket"@ + "\r\n"@ + "Connection"@ + ": "@
        + "Upgrade"@ + "\r\n"@ + "Sec-WebSocket-Key"@ + ": "@
        =~= "\r\nUpgrade: websocket\r\nConnection: Upgrade\r\nSec-WebSocket-Key: "@);
    assert("\r\n"@ + "Sec-WebSocket-Version"@ + ": "@ + "13"@ + "\r\n"@
        =~= "\r\nSec-WebSocket-Version: 13\r\n"@);
    let front = "GET "@ + path + " HTTP/1.1\r\n"@ + fields_text(base);
    assert(fields_text(base) == fields_text(b4) + "Sec-WebSocket-Version"@ + ": "@ + "13"@
        + "\r\n"@);
    assert(fields_text(b4) == fields_text(b3) + "Sec-WebSocket-Key"@ + ": "@ + key + "\r\n"@);
    assert(fields_text(b3) == fields_text(b2) + "Connection"@ + ": "@ + "Upgrade"@ + "\r\n"@);
    assert(fields_text(b2) == fields_text(b1) + "Upgrade"@ + ": "@ + "websocket"@ + "\r\n"@);
    let b0 = b1.drop_last();
    assert(fields_text(b0) =~= seq![]);
    assert(fields_text(b1) == fields_text(b0) + "Host"@ + ": "@ + host + "\r\n"@);
    assert(fields_text(b1) =~= "Host"@ + ": "@ + host + "\r\n"@);
    assert(front =~= "GET "@ + path + (" HTTP/1.1\r\n"@ + "Host"@ + ": "@) + host + ("\r\n"@
        + "Upgrade"@ + ": "@ + "websocket"@ + "\r\n"@ + "Connection"@ + ": "@ + "Upgrade"@
        + "\r\n"@ + "Sec-WebSocket-Key"@ + ": "@) + key + ("\r\n"@ + "Sec-WebSocket-Version"@
        + ": "@ + "13"@ + "\r\n"@));
    let lp = optional_line("Sec-WebSocket-Protocol: "@, protocol);
    let le = optional_line("Sec-WebSocket-Extensions: "@, extensions);
    lemma_extra_text(base + p + e, extra);
    let lx = extra_text(extra);
    assert(request_text(host, path, key, protocol, extensions, extra) =~= front + lp + le + lx
        + "\r\n"@);
    assert("GET "@ + path + " HTTP/1.1\r\n"@ + (fields_text(base) + lp + le + lx) + "\r\n"@
        =~= front + lp + le + lx + "\r\n"@);
}

/// Additional fields add their lines.
proof fn lemma_extra_text(fields: Seq<Field>, extra: Seq<(String, String)>)
    ensures
        fields_text(fields + extra_fields(extra)) == fields_text(fields) + extra_text(extra),
    decreases extra.len(),
{
    if extra.len() == 0 {
        assert(fields + extra_fields(extra) =~= fields);
        assert(fields_text(fields) + extra_text(extra) =~= fields_text(fields));
    } else {
        let init = extra.drop_last();
        let all = fields + extra_fields(extra);
        lemma_extra_text(fields, init);
        assert(all.drop_last() =~= fields + extra_fields(init));
        let (name, value) = (extra.last().0@, extra.last().1@);
        assert(fields_text(fields) + extra_text(init) + name + ": "@ + value + "\r\n"@
            =~= fields_text(fields) + (extra_text(init) + name + ": "@ + value + "\r\n"@));
    }
}

/// An optional field adds its optional line.
proof fn lemma_optional_text(
    fields: Seq<Field>,
    name: Seq<char>,
    start: Seq<char>,
    value: Option<Seq<char>>,
)
    ensures
        start == name + ": "@ ==> fields_text(fields + optional_field(name, value)) == fields_text(
            fields,
        ) + optional_line(start, value),
{
    match value {
        Some(v) => {
            let all = fields + optional_field(name, value);
            assert(all.drop_last() =~= fields);
            assert(fields_text(fields) + name + ": "@ + v + "\r\n"@ =~= fields_text(fields) + (name
                + ": "@ + v + "\r\n"@));
        },
        None => {
            assert(fields + optional_field(name, value) =~= fields);
            assert(fields_text(fields) + seq![] =~= fields_text(fields));
        },
    }
}

/// The text of a built response is its status line, its fields in order, and an
/// empty line.
pub proof fn law_response_text_is_its_fields(
    accept_key: Seq<char>,
    protocol: Option<Seq<char>>,
    extensions: Option<Seq<char>>,
)
    ensures
        response_text(accept_key, protocol, extensions)
            == "HTTP/1.1 101 Switching Protocols\r\n"@ + fields_text(
            response_fields(accept_key, protocol, extensions),
        ) + "\r\n"@,
{
    let base = seq![
        ("Upgrade"@, "websocket"@),
        ("Connection"@, "Upgrade"@),
        ("Sec-WebSocket-Accept"@, accept_key),
    ];
    let b2 = base.drop_last();
    let b1 = b2.drop_last();
    let b0 = b1.drop_last();
    assert(b0 =~= seq![]);
    let p = optional_field("Sec-WebSocket-Protocol"@, protocol);
    let e = optional_field("Sec-WebSocket-Extensions"@, extensions);
    lemma_optional_text(base, "Sec-WebSocket-Protocol"@, "Sec-WebSocket-Protocol: "@, protocol);
    lemma_optional_text(
        base + p,
        "Sec-WebSocket-Extensions"@,
        "Sec-WebSocket-Extensions: "@,
        extensions,
    );
    reveal_strlit(": ");
    reveal_strlit("\r\n");
    reveal_strlit("Upgrade");
    reveal_strlit("websocket");
    reveal_strlit("Connection");
    reveal_strlit("Sec-WebSocket-Accept");
    reveal_strlit("Sec-WebSocket-Protocol");
    reveal_strlit("Sec-WebSocket-Protocol: ");
    reveal_strlit("Sec-WebSocket-Extensions");
    reveal_strlit("Sec-WebSocket-Extensions: ");
    reveal_strlit("HTTP/1.1 101 Switching Protocols\r\n");
    reveal_strlit(
        "HTTP/1.1 101 Switching Protocols\r\nUpgrade: websocket\r\nConnection: Upgrade\r\nSec-WebSocket-Accept: ",
    );
    assert("Sec-WebSocket-Protocol"@ + ": "@ =~= "Sec-WebSocket-Protocol: "@);
    assert("Sec-WebSocket-Extensions"@ + ": "@ =~= "Sec-WebSocket-Extensions: "@);
    let start = "HTTP/1.1 101 Switching Protocols\r\n"@;
    let fixed = "Upgrade"@ + ": "@ + "websocket"@ + "\r\n"@ + "Connection"@ + ": "@ + "Upgrade"@
        + "\r\n"@ + "Sec-WebSocket-Accept"@ + ": "@;
    assert(start + fixed
        =~= "HTTP/1.1 101 Switching Protocols\r\nUpgrade: websocket\r\nConnection: Upgrade\r\nSec-WebSocket-Accept: "@);
    assert(fields_text(b0) =~= seq![]);
    assert(fields_text(b1) == fields_text(b0) + "Upgrade"@ + ": "@ + "websocket"@ + "\r\n"@);
    assert(fields_text(b2) == fields_text(b1) + "Connection"@ + ": "@ + "Upgrade"@ + "\r\n"@);
    assert(fields_text(base) == fields_text(b2) + "Sec-WebSocket-Accept"@ + ": "@ + accept_key
        + "\r\n"@);
    assert(fields_text(base) =~= fixed + accept_key + "\r\n"@);
    let lp = optional_line("Sec-WebSocket-Protocol: "@, protocol);
    let le = optional_line("Sec-WebSocket-Extensions: "@, extensions);
    assert(start + (fields_text(base) + lp + le) + "\r\n"@ =~= (start + fixed) + accept_key
        + "\r\n"@ + lp + le + "\r\n"@);
}

/// A plain value makes a plain field.
proof fn lemma_plain_value(name: Seq<char>, value: Seq<char>)
    requires
        headers::is_token(name),
        headers::is_plain_value(value),
    ensures
        is_plain_field((name, value)),
{
    if value.len() > 0 {
        text::lemma_trimmed_ends(value);
    }
}

/// The names and the fixed values of the handshake's fields are plain.
proof fn lemma_plain_names()
    ensures
        headers::is_token("Host"@),
        headers::is_token("Upgrade"@),
        headers::is_token("Connection"@),
        headers::is_token("Sec-WebSocket-Key"@),
        headers::is_token("Sec-WebSocket-Version"@),
        headers::is_token("Sec-WebSocket-Protocol"@),
        headers::is_token("Sec-WebSocket-Extensions"@),
        headers::is_token("Sec-WebSocket-Accept"@),
        headers::is_plain_value("websocket"@),
        headers::is_plain_value("Upgrade"@),
        headers::is_plain_value("13"@),
{
    reveal_strlit("Host");
    reveal_strlit("Upgrade");
    reveal_strlit("Connection");
    reveal_strlit("Sec-WebSocket-Key");
    reveal_strlit("Sec-WebSocket-Version");
    reveal_strlit("Sec-WebSocket-Protocol");
    reveal_strlit("Sec-WebSocket-Extensions");
    reveal_strlit("Sec-WebSocket-Accept");
    reveal_strlit("websocket");
    reveal_strlit("13");
    text::lemma_trim_plain("websocket"@);
    text::lemma_trim_plain("Upgrade"@);
    text::lemma_trim_plain("13"@);
}

/// A built request is a request head with the fields it was built from, also in
/// the part of the buffer that may hold a head.
pub proof fn lemma_built_request_head(
    buf: Seq<u8>,
    host: Seq<char>,
    path: Seq<char>,
    key: Seq<char>,
    protocol: Option<Seq<char>>,
    extensions: Option<Seq<char>>,
    extra: Seq<(String, String)>,
    rest: Seq<u8>,
)
    requires
        is_built_request(buf, host, path, key, protocol, extensions, extra, rest),
    ensures
        ({
            let fields = request_fields(host, key, protocol, extensions) + extra_fields(extra);
            let window = head_window(buf);
            let left = window.skip(buf.len() - rest.len());
            &&& fields.len() <= 7 + extra.len()
            &&& is_request_head(window, path, fields, left)
            &&& window.len() - left.len() == buf.len() - rest.len()
        }),
{
    let own = request_fields(host, key, protocol, extensions);
    let fields = own + extra_fields(extra);
    let head = encode_utf8(request_text(host, path, key, protocol, extensions, extra));
    let window = head_window(buf);
    let left = window.skip(head.len() as int);
    law_request_text_is_its_fields(host, path, key, protocol, extensions, extra);
    assert(window =~= head + left);
    lemma_plain_names();
    lemma_plain_value("Host"@, host);
    lemma_plain_value("Upgrade"@, "websocket"@);
    lemma_plain_value("Connection"@, "Upgrade"@);
    lemma_plain_value("Sec-WebSocket-Key"@, key);
    lemma_plain_value("Sec-WebSocket-Version"@, "13"@);
    if protocol is Some {
        lemma_plain_value("Sec-WebSocket-Protocol"@, protocol->0);
    }
    if extensions is Some {
        lemma_plain_value("Sec-WebSocket-Extensions"@, extensions->0);
    }
    assert(are_plain_fields(own));
    assert forall|i: int| 0 <= i < fields.len() implies is_plain_field(#[trigger] fields[i]) by {
        if i < own.len() {
            assert(is_plain_field(own[i]));
        } else {
            let k = i - own.len();
            lemma_extra_from(extra, 0, k);
            assert(headers::is_plain_value(extra[k].1@));
            lemma_plain_value(extra[k].0@, extra[k].1@);
        }
    }
}

/// A built response is a response head with the fields it was built from, also in
/// the part of the buffer that may hold a head.
pub proof fn lemma_built_response_head(
    buf: Seq<u8>,
    accept_key: Seq<char>,
    protocol: Option<Seq<char>>,
    extensions: Option<Seq<char>>,
    rest: Seq<u8>,
)
    requires
        is_built_response(buf, accept_key, protocol, extensions, rest),
    ensures
        ({
            let fields = response_fields(accept_key, protocol, extensions);
            let window = head_window(buf);
            let left = window.skip(buf.len() - rest.len());
            &&& fields.len() <= 5
            &&& is_upgrade_head(window, fields, left)
            &&& window.len() - left.len() == buf.len() - rest.len()
        }),
{
    let fields = response_fields(accept_key, protocol, extensions);
    let head = encode_utf8(response_text(accept_key, protocol, extensions));
    let window = head_window(buf);
    let left = window.skip(head.len() as int);
    law_response_text_is_its_fields(accept_key, protocol, extensions);
    assert(window =~= head + left);
    lemma_plain_names();
    lemma_plain_value("Upgrade"@, "websocket"@);
    lemma_plain_value("Connection"@, "Upgrade"@);
    lemma_plain_value("Sec-WebSocket-Accept"@, accept_key);
    if protocol is Some {
        lemma_plain_value("Sec-WebSocket-Protocol"@, protocol->0);
    }
    if extensions is Some {
        lemma_plain_value("Sec-WebSocket-Extensions"@, extensions->0);
    }
    assert(are_plain_fields(fields));
}

} // verus!
