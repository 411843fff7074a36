//! What a server announces about permessage-deflate, a client reads back.

use crate::deflate::{
    config_of, has_param, is_window_bits, offer_of, only_if, param_error, param_of, params_error,
    params_of, response_header, trim_quotes, window_param, DeflateConfig, Param, MAX_WINDOW_BITS,
};
use crate::error::Error;
use crate::headers;
use crate::headers_laws::{
    extension_text, extensions_text, is_proper_extension, is_proper_param,
    law_written_extensions_are_accepted, parameter_text, quoted, Extension, ExtensionParam,
};
use crate::text;
use crate::text_laws::{
    is_all_white, law_byte_reads_back, law_decimal_has_its_value,
    law_split_once_splits_at_the_first, law_trim_takes_white_space_away, written_with,
};
use vstd::prelude::*;

verus! {

/// One optional part of a response header.
spec fn part_if(condition: bool, s: Seq<char>) -> Seq<Seq<char>> {
    if condition {
        seq![s]
    } else {
        seq![]
    }
}

/// The parts behind the extension name in the response of a server.
spec fn parts(config: DeflateConfig) -> Seq<Seq<char>> {
    part_if(config.server_no_context_takeover, "server_no_context_takeover"@) + part_if(
        config.client_no_context_takeover,
        "client_no_context_takeover"@,
    ) + part_if(
        config.server_max_window_bits < MAX_WINDOW_BITS,
        "server_max_window_bits="@ + text::decimal(config.server_max_window_bits as nat),
    ) + part_if(
        config.client_max_window_bits < MAX_WINDOW_BITS,
        "client_max_window_bits="@ + text::decimal(config.client_max_window_bits as nat),
    )
}

/// The parts as they are written, each behind a semicolon and a space.
spec fn parts_text(p: Seq<Seq<char>>) -> Seq<char>
    decreases p.len(),
{
    if p.len() == 0 {
        seq![]
    } else {
        seq![';', ' '] + p[0] + parts_text(p.skip(1))
    }
}

/// A part that reads back as itself: not empty, without semicolons, and without
/// white space at its ends.
spec fn is_clean(s: Seq<char>) -> bool {
    &&& s.len() > 0
    &&& !text::is_white_space(s[0])
    &&& !text::is_white_space(s.last())
    &&& forall|i: int| 0 <= i < s.len() ==> #[trigger] s[i] != ';'
}

/// The text of parts put together is the texts put together.
proof fn lemma_parts_text_concat(a: Seq<Seq<char>>, b: Seq<Seq<char>>)
    ensures
        parts_text(a + b) == parts_text(a) + parts_text(b),
    decreases a.len(),
{
    if a.len() == 0 {
        assert(a + b =~= b);
        assert(parts_text(a) + parts_text(b) =~= parts_text(b));
    } else {
        lemma_parts_text_concat(a.skip(1), b);
        assert((a + b).skip(1) =~= a.skip(1) + b);
        assert((a + b)[0] == a[0]);
        assert(seq![';', ' '] + a[0] + (parts_text(a.skip(1)) + parts_text(b)) =~= seq![';', ' ']
            + a[0] + parts_text(a.skip(1)) + parts_text(b));
    }
}

/// The text of one optional part.
proof fn lemma_part_text(condition: bool, s: Seq<char>, written: Seq<char>)
    requires
        written == seq![';', ' '] + s,
    ensures
        parts_text(part_if(condition, s)) == only_if(condition, written),
{
    if condition {
        let p = part_if(condition, s);
        assert(p.skip(1) =~= seq![]);
        assert(parts_text(p.skip(1)) =~= seq![]);
        assert(parts_text(p) == seq![';', ' '] + p[0] + parts_text(p.skip(1)));
        assert(parts_text(p) =~= written);
    }
}

/// A response header is the extension name followed by its parts.
proof fn lemma_header_parts(config: DeflateConfig)
    ensures
        response_header(config) == "permessage-deflate"@ + parts_text(parts(config)),
{
    reveal_strlit("server_no_context_takeover");
    reveal_strlit("client_no_context_takeover");
    reveal_strlit("server_max_window_bits=");
    reveal_strlit("client_max_window_bits=");
    reveal_strlit("; server_no_context_takeover");
    reveal_strlit("; client_no_context_takeover");
    reveal_strlit("; server_max_window_bits=");
    reveal_strlit("; client_max_window_bits=");
    let s = text::decimal(config.server_max_window_bits as nat);
    let c = text::decimal(config.client_max_window_bits as nat);
    assert("; server_no_context_takeover"@ =~= seq![';', ' '] + "server_no_context_takeover"@);
    assert("; client_no_context_takeover"@ =~= seq![';', ' '] + "client_no_context_takeover"@);
    assert("; server_max_window_bits="@ + s =~= seq![';', ' '] + ("server_max_window_bits="@ + s));
    assert("; client_max_window_bits="@ + c =~= seq![';', ' '] + ("client_max_window_bits="@ + c));
    let p1 = part_if(config.server_no_context_takeover, "server_no_context_takeover"@);
    let p2 = part_if(config.client_no_context_takeover, "client_no_context_takeover"@);
    let p3 = part_if(
        config.server_max_window_bits < MAX_WINDOW_BITS,
        "server_max_window_bits="@ + s,
    );
    let p4 = part_if(
        config.client_max_window_bits < MAX_WINDOW_BITS,
        "client_max_window_bits="@ + c,
    );
    lemma_part_text(
        config.server_no_context_takeover,
        "server_no_context_takeover"@,
        "; server_no_context_takeover"@,
    );
    lemma_part_text(
        config.client_no_context_takeover,
        "client_no_context_takeover"@,
        "; client_no_context_takeover"@,
    );
    lemma_part_text(
        config.server_max_window_bits < MAX_WINDOW_BITS,
        "server_max_window_bits="@ + s,
        "; server_max_window_bits="@ + s,
    );
    lemma_part_text(
        config.client_max_window_bits < MAX_WINDOW_BITS,
        "client_max_window_bits="@ + c,
        "; client_max_window_bits="@ + c,
    );
    lemma_parts_text_concat(p1 + p2 + p3, p4);
    lemma_parts_text_concat(p1 + p2, p3);
    lemma_parts_text_concat(p1, p2);
    assert("permessage-deflate"@ + (parts_text(p1) + parts_text(p2) + parts_text(p3) + parts_text(
        p4,
    )) =~= "permessage-deflate"@ + parts_text(p1) + parts_text(p2) + parts_text(p3)
        + parts_text(p4));
}

/// Parameters of pieces put together are the parameters put together.
proof fn lemma_params_of_concat(a: Seq<Seq<char>>, b: Seq<Seq<char>>)
    ensures
        params_of(a + b) == params_of(a) + params_of(b),
    decreases b.len(),
{
    if b.len() == 0 {
        assert(a + b =~= a);
        assert(params_of(a) + params_of(b) =~= params_of(a));
    } else {
        lemma_params_of_concat(a, b.drop_last());
        assert((a + b).drop_last() =~= a + b.drop_last());
        assert((a + b).last() == b.last());
        let piece = text::trim(b.last());
        if piece.len() > 0 {
            assert((params_of(a) + params_of(b.drop_last())).push(param_of(piece)) =~= params_of(a)
                + params_of(b.drop_last()).push(param_of(piece)));
        }
    }
}

/// The parameters of a single piece with one space before it.
proof fn lemma_params_of_one(s: Seq<char>)
    requires
        is_clean(s),
    ensures
        params_of(seq![seq![' '] + s]) == seq![param_of(s)],
{
    let t = seq![' '] + s;
    assert(t[0] == ' ');
    assert(t[1] == s[0]);
    text::lemma_trim_start(t, 1);
    assert(t.skip(1) =~= s);
    text::lemma_trim_end(s, s.len() as int);
    assert(s.take(s.len() as int) =~= s);
    assert(text::trim(t) == s);
    let one = seq![t];
    assert(one.drop_last() =~= seq![]);
    assert(params_of(one.drop_last()) =~= seq![]);
    assert(params_of(one) =~= seq![param_of(s)]);
}

/// Clean parts read back one by one.
proof fn lemma_parts_read_back(p: Seq<Seq<char>>)
    requires
        p.len() > 0,
        forall|i: int| 0 <= i < p.len() ==> is_clean(#[trigger] p[i]),
    ensures
        parts_text(p).len() > 0,
        parts_text(p)[0] == ';',
        !text::is_white_space(parts_text(p).last()),
        params_of(text::split(parts_text(p).skip(1), ';')) == p.map_values(
            |s: Seq<char>| param_of(s),
        ),
    decreases p.len(),
{
    let whole = parts_text(p);
    let rest = parts_text(p.skip(1));
    let s = p[0];
    assert(is_clean(p[0]));
    let piece = seq![' '] + s;
    assert(whole.skip(1) =~= piece + rest);
    let t = piece + rest;
    let k = piece.len() as int;
    assert forall|j: int| 0 <= j < k implies #[trigger] t[j] != ';' by {
        if j == 0 {
            assert(t[0] == ' ');
        } else {
            assert(t[j] == s[j - 1]);
        }
    }
    lemma_params_of_one(s);
    if p.len() == 1 {
        assert(p.skip(1) =~= seq![]);
        assert(rest =~= seq![]);
        assert(t =~= piece);
        text::lemma_find_from(t, ';', 0, t.len() as int);
        assert(text::split(t, ';') =~= seq![piece]);
        assert(whole.last() == s.last());
        assert(p.map_values(|x: Seq<char>| param_of(x)) =~= seq![param_of(s)]);
    } else {
        assert forall|i: int| 0 <= i < p.skip(1).len() implies is_clean(#[trigger] p.skip(1)[i]) by {
            assert(p.skip(1)[i] == p[i + 1]);
        }
        lemma_parts_read_back(p.skip(1));
        assert(t[k] == rest[0]);
        text::lemma_find_from(t, ';', 0, k);
        assert(t.take(k) =~= piece);
        assert(t.skip(k + 1) =~= rest.skip(1));
        let tail = text::split(rest.skip(1), ';');
        assert(text::split(t, ';') == seq![piece] + tail);
        lemma_params_of_concat(seq![piece], tail);
        assert(whole.last() == rest.last());
        assert(p.map_values(|x: Seq<char>| param_of(x)) =~= seq![param_of(s)] + p.skip(
            1,
        ).map_values(|x: Seq<char>| param_of(x)));
    }
}

/// A part that consists of a name alone.
proof fn lemma_flag_part(name: Seq<char>)
    requires
        is_clean(name),
        forall|i: int| 0 <= i < name.len() ==> #[trigger] name[i] != '=',
    ensures
        param_of(name) == (name, None::<Seq<char>>),
{
    text::lemma_find_from(name, '=', 0, name.len() as int);
}

/// Window bits below the default, in decimal, read back as themselves.
proof fn lemma_bits_text(n: u8)
    requires
        8 <= n < 15,
    ensures
        text::u8_from_text(text::decimal(n as nat)) == Some(n),
        text::decimal(n as nat).len() > 0,
        forall|i: int| 0 <= i < text::decimal(n as nat).len() ==> text::is_digit(#[trigger] text::decimal(n as nat)[i]),
{
    let d = text::decimal(n as nat);
    if n < 10 {
        assert(d == seq![text::digit_char(n as nat)]);
        assert(d.drop_last() =~= seq![]);
        assert(text::digits_value(d.drop_last()) == 0);
        assert(text::digits_value(d) == n);
    } else {
        assert(text::decimal((n / 10) as nat) == seq![text::digit_char((n / 10) as nat)]);
        assert(d =~= seq![text::digit_char((n / 10) as nat), text::digit_char((n % 10) as nat)]);
        let e = d.drop_last();
        assert(e =~= seq![text::digit_char((n / 10) as nat)]);
        assert(e.drop_last() =~= seq![]);
        assert(text::digits_value(e.drop_last()) == 0);
        assert(text::digits_value(e) == n / 10);
        assert(text::digits_value(d) == n);
    }
    assert(text::all_digits(d));
}

/// A part that consists of a name and window bits.
proof fn lemma_bits_part(name: Seq<char>, n: u8)
    requires
        8 <= n < 15,
        name.len() > 0,
        !text::is_white_space(name[0]),
        !text::is_white_space(name.last()),
        forall|i: int| 0 <= i < name.len() ==> #[trigger] name[i] != '=' && name[i] != ';',
    ensures
        param_of(name + seq!['='] + text::decimal(n as nat)) == (
            name,
            Some(text::decimal(n as nat)),
        ),
        is_clean(name + seq!['='] + text::decimal(n as nat)),
{
    let d = text::decimal(n as nat);
    lemma_bits_text(n);
    let s = name + seq!['='] + d;
    let k = name.len() as int;
    assert forall|j: int| 0 <= j < k implies #[trigger] s[j] != '=' by {
        assert(s[j] == name[j]);
    }
    assert(s[k] == '=');
    text::lemma_find_from(s, '=', 0, k);
    assert(s.take(k) =~= name);
    assert(s.skip(k + 1) =~= d);
    text::lemma_trim_start(name, 0);
    assert(name.skip(0) =~= name);
    text::lemma_trim_end(name, name.len() as int);
    assert(name.take(name.len() as int) =~= name);
    assert(text::is_digit(d[0]));
    assert(text::is_digit(d[d.len() - 1]));
    text::lemma_trim_start(d, 0);
    assert(d.skip(0) =~= d);
    text::lemma_trim_end(d, d.len() as int);
    assert(d.take(d.len() as int) =~= d);
    assert(trim_quotes(d) == d);
    assert forall|i: int| 0 <= i < s.len() implies #[trigger] s[i] != ';' by {
        if i < k {
            assert(s[i] == name[i]);
        } else if i > k {
            assert(s[i] == d[i - k - 1]);
            assert(text::is_digit(d[i - k - 1]));
        }
    }
    assert(s[0] == name[0]);
    assert(s.last() == d.last());
}

/// One parameter behind others.
proof fn lemma_params_push(params: Seq<Param>, p: Param)
    ensures
        params_error(params.push(p)) == (match params_error(params) {
            Some(e) => Some(e),
            None => param_error(p),
        }),
        forall|name: Seq<char>| #[trigger] has_param(params.push(p), name) == (has_param(params, name)
            || p.0 == name),
        forall|name: Seq<char>| #[trigger] window_param(params.push(p), name) == (if p.0 == name
            && p.1 is Some {
            text::u8_from_text(p.1->0)->0
        } else {
            window_param(params, name)
        }),
{
    assert(params.push(p).drop_last() =~= params);
    assert forall|name: Seq<char>| #[trigger] has_param(params.push(p), name) == (has_param(
        params,
        name,
    ) || p.0 == name) by {
        crate::deflate::lemma_has_param_push(params, p, name);
    }
}

/// What a server announces reads back as what it is configured with.
///
/// The windows and the client's context come back as they are; a client that
/// drops its context makes the server drop its own. What is not announced, the
/// level and the threshold, is at its default.
pub proof fn law_response_header_reads_back(config: DeflateConfig)
    requires
        is_window_bits(config.server_max_window_bits),
        is_window_bits(config.client_max_window_bits),
    ensures
        offer_of(response_header(config)) matches Some(params) && params_error(params) is None
            && config_of(params) == (DeflateConfig {
            server_no_context_takeover: config.server_no_context_takeover
                || config.client_no_context_takeover,
            compression_level: 6,
            compression_threshold: 32,
            ..config
        }),
{
    let p = parts(config);
    let header = response_header(config);
    lemma_header_parts(config);
    crate::deflate::lemma_param_names();
    reveal_strlit("permessage-deflate");
    reveal_strlit("server_no_context_takeover");
    reveal_strlit("client_no_context_takeover");
    reveal_strlit("server_max_window_bits");
    reveal_strlit("client_max_window_bits");
    reveal_strlit("server_max_window_bits=");
    reveal_strlit("client_max_window_bits=");
    assert("server_max_window_bits="@ =~= "server_max_window_bits"@ + seq!['=']);
    assert("client_max_window_bits="@ =~= "client_max_window_bits"@ + seq!['=']);
    lemma_flag_part("server_no_context_takeover"@);
    lemma_flag_part("client_no_context_takeover"@);
    if config.server_max_window_bits < MAX_WINDOW_BITS {
        lemma_bits_part("server_max_window_bits"@, config.server_max_window_bits);
        lemma_bits_text(config.server_max_window_bits);
    }
    if config.client_max_window_bits < MAX_WINDOW_BITS {
        lemma_bits_part("client_max_window_bits"@, config.client_max_window_bits);
        lemma_bits_text(config.client_max_window_bits);
    }
    let q = p.map_values(|s: Seq<char>| param_of(s));
    let name = "permessage-deflate"@;
    assert(header.subrange(0, name.len() as int) =~= name);
    assert(header.skip(name.len() as int) =~= parts_text(p));
    assert(header[0] == name[0]);
    if p.len() > 0 {
        lemma_parts_read_back(p);
        assert(header.last() == parts_text(p).last());
    } else {
        assert(parts_text(p) =~= seq![]);
        assert(header =~= name);
    }
    text::lemma_trim_start(header, 0);
    assert(header.skip(0) =~= header);
    text::lemma_trim_end(header, header.len() as int);
    assert(header.take(header.len() as int) =~= header);
    assert(text::trim_start(parts_text(p)) == parts_text(p));
    assert(offer_of(header) == Some(q));
    let e0 = Seq::<Param>::empty();
    let f1: Param = ("server_no_context_takeover"@, None);
    let f2: Param = ("client_no_context_takeover"@, None);
    let f3: Param = (
        "server_max_window_bits"@,
        Some(text::decimal(config.server_max_window_bits as nat)),
    );
    let f4: Param = (
        "client_max_window_bits"@,
        Some(text::decimal(config.client_max_window_bits as nat)),
    );
    let e1 = if config.server_no_context_takeover {
        e0.push(f1)
    } else {
        e0
    };
    let e2 = if config.client_no_context_takeover {
        e1.push(f2)
    } else {
        e1
    };
    let e3 = if config.server_max_window_bits < MAX_WINDOW_BITS {
        e2.push(f3)
    } else {
        e2
    };
    let e4 = if config.client_max_window_bits < MAX_WINDOW_BITS {
        e3.push(f4)
    } else {
        e3
    };
    lemma_params_push(e0, f1);
    lemma_params_push(e1, f2);
    lemma_params_push(e2, f3);
    lemma_params_push(e3, f4);
    assert(q =~= e4);
}

/// Parts behind a name, written with semicolons between them.
proof fn lemma_written_parts(name: Seq<char>, p: Seq<Seq<char>>)
    ensures
        written_with(seq![name] + p, seq![';', ' ']) == name + parts_text(p),
    decreases p.len(),
{
    let all = seq![name] + p;
    assert(all.skip(1) =~= p);
    if p.len() == 0 {
        assert(name + parts_text(p) =~= name);
    } else {
        lemma_written_parts(p[0], p.skip(1));
        assert(seq![p[0]] + p.skip(1) =~= p);
        assert(name + seq![';', ' '] + (p[0] + parts_text(p.skip(1))) =~= name + (seq![';', ' ']
            + p[0] + parts_text(p.skip(1))));
    }
}

/// What stands behind the name of the extension is read part by part.
proof fn lemma_offer_of_parts(p: Seq<Seq<char>>)
    requires
        forall|i: int| 0 <= i < p.len() ==> is_clean(#[trigger] p[i]),
    ensures
        offer_of("permessage-deflate"@ + parts_text(p)) == Some(
            p.map_values(|s: Seq<char>| param_of(s)),
        ),
{
    reveal_strlit("permessage-deflate");
    let name = "permessage-deflate"@;
    let header = name + parts_text(p);
    let q = p.map_values(|s: Seq<char>| param_of(s));
    assert(header.subrange(0, name.len() as int) =~= name);
    assert(header.skip(name.len() as int) =~= parts_text(p));
    assert(header[0] == name[0]);
    if p.len() > 0 {
        lemma_parts_read_back(p);
        assert(header.last() == parts_text(p).last());
    } else {
        assert(parts_text(p) =~= seq![]);
        assert(header =~= name);
        assert(q =~= seq![]);
    }
    text::lemma_trim_start(header, 0);
    assert(header.skip(0) =~= header);
    text::lemma_trim_end(header, header.len() as int);
    assert(header.take(header.len() as int) =~= header);
    assert(text::trim_start(parts_text(p)) == parts_text(p));
}

/// The parameter that a written one means: a value in quotes means what is between
/// them.
pub open spec fn param_meant(p: ExtensionParam) -> Param {
    match p.1 {
        Some(v) => if headers::is_token(v) {
            (p.0, Some(v))
        } else {
            (p.0, Some(v.subrange(1, v.len() - 1)))
        },
        None => (p.0, None),
    }
}

/// Quotes around a token are taken off, and none else are there.
proof fn lemma_trim_quotes_token(t: Seq<char>)
    requires
        headers::is_token(t),
    ensures
        trim_quotes(t) == t,
        trim_quotes(quoted(t)) == t,
{
    assert(headers::is_name_char(t[0]));
    assert(headers::is_name_char(t[t.len() - 1]));
    let q = quoted(t);
    let r = q.skip(1);
    assert(q[0] == '"');
    assert(r =~= t.push('"'));
    assert(r[0] == t[0]);
    assert(r.last() == '"');
    assert(r.drop_last() =~= t);
    assert(trim_quotes(r) == trim_quotes(t));
    assert(trim_quotes(q) == trim_quotes(r));
}

/// One written parameter is read as what it means.
proof fn lemma_param_reads_back(p: ExtensionParam)
    requires
        is_proper_param(p),
    ensures
        param_of(parameter_text(p)) == param_meant(p),
        is_clean(parameter_text(p)),
{
    let name = p.0;
    let none = Seq::<char>::empty();
    let s = parameter_text(p);
    let n = name.len() as int;
    assert(is_all_white(none));
    assert(headers::is_name_char(name[0]) && headers::is_name_char(name[n - 1]));
    assert(!name.contains('=')) by {
        if name.contains('=') {
            let k = choose|k: int| 0 <= k < name.len() && name[k] == '=';
            assert(headers::is_name_char(name[k]));
        }
    }
    law_trim_takes_white_space_away(none, name, none);
    assert(none + name + none =~= name);
    match p.1 {
        None => {
            law_split_once_splits_at_the_first(name, '=', none);
            assert forall|i: int| 0 <= i < s.len() implies #[trigger] s[i] != ';' by {
                assert(headers::is_name_char(name[i]));
            }
        },
        Some(v) => {
            law_split_once_splits_at_the_first(name, '=', v);
            let t = if headers::is_token(v) {
                v
            } else {
                choose|t: Seq<char>| headers::is_token(t) && v == #[trigger] quoted(t)
            };
            assert(headers::is_token(t));
            lemma_trim_quotes_token(t);
            assert(headers::is_name_char(t[0]) && headers::is_name_char(t[t.len() - 1]));
            if !headers::is_token(v) {
                assert(v.subrange(1, v.len() - 1) =~= t);
            }
            law_trim_takes_white_space_away(none, v, none);
            assert(none + v + none =~= v);
            assert(s[0] == name[0]);
            assert(s.last() == v.last());
            assert forall|i: int| 0 <= i < s.len() implies #[trigger] s[i] != ';' by {
                if i < n {
                    assert(s[i] == name[i]);
                    assert(headers::is_name_char(name[i]));
                } else if i > n {
                    assert(s[i] == v[i - n - 1]);
                    if headers::is_token(v) {
                        assert(headers::is_name_char(v[i - n - 1]));
                    } else if 0 < i - n - 1 < v.len() - 1 {
                        assert(v[i - n - 1] == t[i - n - 2]);
                        assert(headers::is_name_char(t[i - n - 2]));
                    }
                }
            }
        },
    }
}

/// Every offer is read parameter by parameter, as it was written: names, with values
/// or without, and values in quotes without them.
pub proof fn law_offer_reads_back(params: Seq<ExtensionParam>)
    requires
        forall|i: int| 0 <= i < params.len() ==> is_proper_param(#[trigger] params[i]),
    ensures
        offer_of(extension_text(("permessage-deflate"@, params))) == Some(
            params.map_values(|p: ExtensionParam| param_meant(p)),
        ),
{
    let p = params.map_values(|x: ExtensionParam| parameter_text(x));
    lemma_written_parts("permessage-deflate"@, p);
    assert forall|i: int| 0 <= i < p.len() implies is_clean(#[trigger] p[i]) && param_of(p[i])
        == param_meant(params[i]) by {
        assert(is_proper_param(params[i]));
        lemma_param_reads_back(params[i]);
    }
    lemma_offer_of_parts(p);
    assert(p.map_values(|s: Seq<char>| param_of(s)) =~= params.map_values(
        |x: ExtensionParam| param_meant(x),
    ));
}

/// An extension of another name is no offer.
pub proof fn law_other_extensions_are_no_offer(value: Seq<char>)
    requires
        value.len() > 0,
        !text::is_white_space(value[0]),
        !text::is_white_space(value.last()),
        value.len() < 18 || value.take(18) != "permessage-deflate"@,
    ensures
        offer_of(value) is None,
{
    reveal_strlit("permessage-deflate");
    let name = "permessage-deflate"@;
    assert(name.len() == 18);
    text::lemma_trim_plain(value);
    if name.is_prefix_of(value) {
        assert(value.subrange(0, 18) =~= value.take(18));
    }
}

/// The parameters by which a server announces its configuration.
pub open spec fn announced(config: DeflateConfig) -> Seq<ExtensionParam> {
    flag_if(config.server_no_context_takeover, "server_no_context_takeover"@) + flag_if(
        config.client_no_context_takeover,
        "client_no_context_takeover"@,
    ) + bits_if("server_max_window_bits"@, config.server_max_window_bits) + bits_if(
        "client_max_window_bits"@,
        config.client_max_window_bits,
    )
}

/// A parameter without a value, where a condition holds.
pub open spec fn flag_if(condition: bool, name: Seq<char>) -> Seq<ExtensionParam> {
    if condition {
        seq![(name, None)]
    } else {
        seq![]
    }
}

/// A parameter for a window that is smaller than the largest.
pub open spec fn bits_if(name: Seq<char>, bits: u8) -> Seq<ExtensionParam> {
    if bits < 15 {
        seq![(name, Some(text::decimal(bits as nat)))]
    } else {
        seq![]
    }
}

/// What a server announces is an extension as any other is written, and is accepted
/// wherever extensions are: by those who read requests, and by those who read
/// responses.
pub proof fn law_response_header_is_accepted(config: DeflateConfig)
    ensures
        response_header(config) == extension_text(("permessage-deflate"@, announced(config))),
        headers::is_extension_list(response_header(config)),
        headers::no_empty_element(response_header(config)),
        headers::is_plain_value(response_header(config)),
{
    let params = announced(config);
    let p = parts(config);
    reveal_strlit("permessage-deflate");
    reveal_strlit("server_no_context_takeover");
    reveal_strlit("client_no_context_takeover");
    reveal_strlit("server_max_window_bits");
    reveal_strlit("client_max_window_bits");
    reveal_strlit("server_max_window_bits=");
    reveal_strlit("client_max_window_bits=");
    assert("server_max_window_bits="@ =~= "server_max_window_bits"@ + seq!['=']);
    assert("client_max_window_bits="@ =~= "client_max_window_bits"@ + seq!['=']);
    lemma_header_parts(config);
    let texts = params.map_values(|x: ExtensionParam| parameter_text(x));
    assert(texts =~= p);
    lemma_written_parts("permessage-deflate"@, p);
    law_decimal_has_its_value(config.server_max_window_bits as nat);
    law_decimal_has_its_value(config.client_max_window_bits as nat);
    lemma_digits_are_token(config.server_max_window_bits);
    lemma_digits_are_token(config.client_max_window_bits);
    let x: Extension = ("permessage-deflate"@, params);
    lemma_names_are_tokens();
    assert forall|i: int| 0 <= i < params.len() implies is_proper_param(#[trigger] params[i]) by {
        let q = params[i];
        assert(q == ("server_no_context_takeover"@, None::<Seq<char>>) || q == (
            "client_no_context_takeover"@,
            None::<Seq<char>>,
        ) || q == (
            "server_max_window_bits"@,
            Some(text::decimal(config.server_max_window_bits as nat)),
        ) || q == (
            "client_max_window_bits"@,
            Some(text::decimal(config.client_max_window_bits as nat)),
        ));
    }
    assert(is_proper_extension(x));
    law_written_extensions_are_accepted(seq![x]);
    assert(seq![x].map_values(|y: Extension| extension_text(y)) =~= seq![extension_text(x)]);
    assert(extensions_text(seq![x]) == extension_text(x));
}

/// A number is a token.
proof fn lemma_digits_are_token(n: u8)
    ensures
        headers::is_token(text::decimal(n as nat)),
{
    law_decimal_has_its_value(n as nat);
    let d = text::decimal(n as nat);
    assert forall|i: int| 0 <= i < d.len() implies headers::is_name_char(#[trigger] d[i]) by {
        assert(text::is_digit(d[i]));
    }
}

/// The names of the extension and its parameters are tokens.
proof fn lemma_names_are_tokens()
    ensures
        headers::is_token("permessage-deflate"@),
        headers::is_token("server_no_context_takeover"@),
        headers::is_token("client_no_context_takeover"@),
        headers::is_token("server_max_window_bits"@),
        headers::is_token("client_max_window_bits"@),
{
    reveal_strlit("permessage-deflate");
    reveal_strlit("server_no_context_takeover");
    reveal_strlit("client_no_context_takeover");
    reveal_strlit("server_max_window_bits");
    reveal_strlit("client_max_window_bits");
}

/// Parameters are accepted exactly where each is: a context parameter without a
/// value, or a window parameter without one or with a number from 8 to 15.
pub proof fn law_accepted_parameters(params: Seq<Param>)
    ensures
        params_error(params) is None <==> forall|i: int|
            0 <= i < params.len() ==> is_known_param(#[trigger] params[i]),
    decreases params.len(),
{
    crate::deflate::lemma_param_names();
    if params.len() > 0 {
        let init = params.drop_last();
        let n = init.len() as int;
        law_accepted_parameters(init);
        assert(param_error(params[n]) is None <==> is_known_param(params[n]));
        if forall|i: int| 0 <= i < params.len() ==> is_known_param(#[trigger] params[i]) {
            assert forall|i: int| 0 <= i < init.len() implies is_known_param(#[trigger] init[i]) by {
                assert(init[i] == params[i]);
            }
            assert(is_known_param(params[n]));
        }
        if params_error(params) is None {
            assert forall|i: int| 0 <= i < params.len() implies is_known_param(
                #[trigger] params[i],
            ) by {
                if i < n {
                    assert(init[i] == params[i]);
                    assert(is_known_param(init[i]));
                }
            }
        }
    }
}

/// Whether a parameter is one of the four, with a value that it may have.
pub open spec fn is_known_param(p: Param) -> bool {
    ||| (p.0 == "server_no_context_takeover"@ || p.0 == "client_no_context_takeover"@) && p.1
        is None
    ||| (p.0 == "server_max_window_bits"@ || p.0 == "client_max_window_bits"@) && (p.1 matches Some(
        v,
    ) ==> (text::u8_from_text(v) matches Some(bits) && 8 <= bits < 16))
}

/// What parameters say: a context is dropped exactly where its parameter is there, or,
/// for the server's, where the client's is; a window has the size that the last
/// parameter with a value gives, and otherwise the largest.
pub proof fn law_parameters_say(params: Seq<Param>, i: int)
    ensures
        config_of(params).client_no_context_takeover <==> exists|k: int|
            0 <= k < params.len() && (#[trigger] params[k]).0 == "client_no_context_takeover"@,
        config_of(params).server_no_context_takeover <==> exists|k: int|
            0 <= k < params.len() && ((#[trigger] params[k]).0 == "server_no_context_takeover"@
                || params[k].0 == "client_no_context_takeover"@),
        is_last_value(params, "server_max_window_bits"@, i) ==> text::u8_from_text(
            params[i].1->0,
        )->0 == config_of(params).server_max_window_bits,
        is_last_value(params, "client_max_window_bits"@, i) ==> text::u8_from_text(
            params[i].1->0,
        )->0 == config_of(params).client_max_window_bits,
        (forall|k: int| !has_value(params, "server_max_window_bits"@, k)) ==> config_of(
            params,
        ).server_max_window_bits == 15,
        (forall|k: int| !has_value(params, "client_max_window_bits"@, k)) ==> config_of(
            params,
        ).client_max_window_bits == 15,
{
    lemma_window(params, "server_max_window_bits"@, i);
    lemma_window(params, "client_max_window_bits"@, i);
    if has_param(params, "server_no_context_takeover"@) {
        let k = choose|k: int|
            0 <= k < params.len() && (#[trigger] params[k]).0 == "server_no_context_takeover"@;
        assert(params[k].0 == "server_no_context_takeover"@);
    }
    if has_param(params, "client_no_context_takeover"@) {
        let k = choose|k: int|
            0 <= k < params.len() && (#[trigger] params[k]).0 == "client_no_context_takeover"@;
        assert(params[k].0 == "client_no_context_takeover"@);
    }
}

/// Whether parameter `k` has a name and a value.
pub open spec fn has_value(params: Seq<Param>, name: Seq<char>, k: int) -> bool {
    0 <= k < params.len() && params[k].0 == name && params[k].1 is Some
}

/// Whether parameter `i` is the last of a name that has a value.
pub open spec fn is_last_value(params: Seq<Param>, name: Seq<char>, i: int) -> bool {
    has_value(params, name, i) && forall|k: int| i < k ==> !has_value(params, name, k)
}

/// The last value counts.
proof fn lemma_window(params: Seq<Param>, name: Seq<char>, i: int)
    ensures
        is_last_value(params, name, i) ==> window_param(params, name) == text::u8_from_text(
            params[i].1->0,
        )->0,
        (forall|k: int| !has_value(params, name, k)) ==> window_param(params, name) == 15,
    decreases params.len(),
{
    if params.len() > 0 {
        let init = params.drop_last();
        let n = init.len() as int;
        lemma_window(init, name, i);
        if !has_value(params, name, n) {
            assert forall|k: int| has_value(init, name, k) == has_value(params, name, k) by {}
        } else if is_last_value(params, name, i) {
            assert(i == n) by {
                if i < n {
                    assert(!has_value(params, name, n));
                }
            }
        }
    }
}

/// A window that is written in decimal is accepted exactly from 8 to 15, and is then
/// the one that is configured.
pub proof fn law_window_is_read(n: nat)
    ensures
        ({
            let server: Seq<Param> = seq![
                ("server_max_window_bits"@, Some(text::decimal(n))),
            ];
            let client: Seq<Param> = seq![
                ("client_max_window_bits"@, Some(text::decimal(n))),
            ];
            &&& params_error(server) is None <==> 8 <= n <= 15
            &&& params_error(client) is None <==> 8 <= n <= 15
            &&& 8 <= n <= 15 ==> config_of(server).server_max_window_bits == n && config_of(
                server,
            ).client_max_window_bits == 15
            &&& 8 <= n <= 15 ==> config_of(client).client_max_window_bits == n && config_of(
                client,
            ).server_max_window_bits == 15
        }),
{
    let server: Seq<Param> = seq![("server_max_window_bits"@, Some(text::decimal(n)))];
    let client: Seq<Param> = seq![("client_max_window_bits"@, Some(text::decimal(n)))];
    crate::deflate::lemma_param_names();
    law_byte_reads_back(n);
    law_accepted_parameters(server);
    law_accepted_parameters(client);
    assert(server[0] == ("server_max_window_bits"@, Some(text::decimal(n))));
    assert(client[0] == ("client_max_window_bits"@, Some(text::decimal(n))));
    if 8 <= n <= 15 {
        law_parameters_say(server, 0);
        law_parameters_say(client, 0);
        assert(is_last_value(server, "server_max_window_bits"@, 0));
        assert(is_last_value(client, "client_max_window_bits"@, 0));
    }
    if params_error(server) is None {
        assert(is_known_param(server[0]));
    }
    if params_error(client) is None {
        assert(is_known_param(client[0]));
    }
}

/// Each side compresses with its own window, context and level, and expands with the
/// other side's.
pub proof fn law_contexts_use_their_own_settings(
    config: DeflateConfig,
    server: crate::deflate::DeflateContext,
    client: crate::deflate::DeflateContext,
)
    requires
        crate::deflate::is_server_context(server, config),
        crate::deflate::is_client_context(client, config),
    ensures
        server.encoder.state().window_bits == config.server_max_window_bits,
        server.encoder.resets() == config.server_no_context_takeover,
        server.encoder.level() == config.compression_level,
        server.encoder.least() == config.compression_threshold,
        server.decoder.bits() == config.client_max_window_bits,
        server.decoder.resets() == config.client_no_context_takeover,
        client.encoder.state().window_bits == config.client_max_window_bits,
        client.encoder.resets() == config.client_no_context_takeover,
        client.encoder.level() == config.compression_level,
        client.encoder.least() == config.compression_threshold,
        client.decoder.bits() == config.server_max_window_bits,
        client.decoder.resets() == config.server_no_context_takeover,
        server.encoder.state().input.len() == 0,
        client.encoder.state().input.len() == 0,
{
}

/// A message may be made up of streams that end: each gives its own part, in order,
/// and the next may refer back to the last 32 KiB of all that was given out, unless
/// the context is dropped. A stream that ends with the message leaves an expander
/// that has taken in nothing yet.
pub proof fn law_streams_follow_one_another(
    state: crate::zlib::StreamState,
    bits: u8,
    resets: bool,
    kept: Seq<u8>,
    input: Seq<u8>,
    payload: int,
)
    requires
        input.len() > 0,
        crate::deflate::ending(state, input) matches Some((_, n)) && n > 0,
    ensures
        ({
            let (new, n) = crate::deflate::ending(state, input)->0;
            let all = kept + new;
            let next = crate::deflate::restarted(
                bits,
                if resets {
                    Seq::empty()
                } else if all.len() > 32768 {
                    all.skip(all.len() - 32768)
                } else {
                    all
                },
            );
            let whole = crate::deflate::message_of(state, bits, resets, kept, input, payload);
            &&& n == payload ==> whole == Some((new, next))
            &&& n != payload ==> match crate::deflate::message_of(
                next,
                bits,
                resets,
                all,
                input.skip(n as int),
                payload - n,
            ) {
                Some((rest, end)) => whole == Some((new + rest, end)),
                None => whole is None,
            }
            &&& next.input.len() == 0
            &&& next.output.len() == 0
        }),
{
}

/// Without parameters, windows are the largest, contexts are kept, the level is 6, and
/// messages from 32 bytes on are compressed.
pub proof fn law_default_settings()
    ensures
        crate::deflate::default_deflate_config() == config_of(seq![]),
        crate::deflate::default_deflate_config().server_max_window_bits == 15,
        crate::deflate::default_deflate_config().client_max_window_bits == 15,
        !crate::deflate::default_deflate_config().server_no_context_takeover,
        !crate::deflate::default_deflate_config().client_no_context_takeover,
        crate::deflate::default_deflate_config().compression_level == 6,
        crate::deflate::default_deflate_config().compression_threshold == 32,
{
}

/// Quotes are taken off both ends, however many there are, and nothing else is.
pub proof fn law_quotes_are_taken_off(front: nat, s: Seq<char>, back: nat)
    requires
        s.len() > 0 ==> s[0] != '"' && s.last() != '"',
    ensures
        trim_quotes(Seq::new(front, |i: int| '"') + s + Seq::new(back, |i: int| '"')) == s,
    decreases front + back,
{
    let a = Seq::new(front, |i: int| '"');
    let b = Seq::new(back, |i: int| '"');
    let t = a + s + b;
    if front > 0 {
        let c = Seq::new((front - 1) as nat, |i: int| '"');
        law_quotes_are_taken_off((front - 1) as nat, s, back);
        assert(t[0] == '"');
        assert(t.skip(1) =~= c + s + b);
    } else if back > 0 {
        let c = Seq::new((back - 1) as nat, |i: int| '"');
        law_quotes_are_taken_off(front, s, (back - 1) as nat);
        assert(t.last() == '"');
        assert(t.drop_last() =~= a + s + c);
        if s.len() == 0 {
            assert(t[0] == '"');
            assert(t.skip(1) =~= a + s + c);
        } else {
            assert(t[0] == s[0]);
        }
    } else {
        assert(t =~= s);
    }
}

/// The view of parameters holds each name with its value, in order.
pub proof fn law_parameter_views(p: Seq<(&str, Option<&str>)>, i: int)
    requires
        0 <= i < p.len(),
    ensures
        crate::deflate::params_view(p).len() == p.len(),
        crate::deflate::params_view(p)[i] == (match p[i].1 {
            Some(v) => (p[i].0@, Some(v@)),
            None => (p[i].0@, None),
        }),
{
}

/// A step adds what was taken in and what was given out behind what was before, and
/// changes nothing else.
pub proof fn law_steps_add_up(
    state: crate::zlib::StreamState,
    input: Seq<u8>,
    output: Seq<u8>,
    more: Seq<u8>,
    given: Seq<u8>,
)
    ensures
        ({
            let one = crate::deflate::stepped(state, input, output);
            let two = crate::deflate::stepped(one, more, given);
            &&& one.input == state.input + input
            &&& one.output == state.output + output
            &&& two == crate::deflate::stepped(state, input + more, output + given)
            &&& one.window_bits == state.window_bits
            &&& one.history == state.history
        }),
{
    let one = crate::deflate::stepped(state, input, output);
    let two = crate::deflate::stepped(one, more, given);
    assert(two.input =~= state.input + (input + more));
    assert(two.output =~= state.output + (output + given));
}

/// An expander has a window of at least 9 bits, and of the bits asked for otherwise.
pub proof fn law_window_of_an_expander(bits: u8)
    ensures
        crate::deflate::expander_bits(bits) >= 9,
        crate::deflate::expander_bits(bits) >= bits,
        crate::deflate::expander_bits(bits) == 9 || crate::deflate::expander_bits(bits) == bits,
        crate::deflate::fresh(bits).window_bits == bits,
        crate::deflate::fresh(bits).history.len() == 0,
        crate::deflate::fresh(bits).input.len() == 0,
        crate::deflate::fresh(bits).output.len() == 0,
        !crate::deflate::fresh(bits).finished,
{
}

/// The presets are settings that contexts can be made with. The one with little memory
/// keeps no context and announces so; the one that compresses best is at the ends of the
/// ranges, and keeps contexts.
pub proof fn law_presets()
    ensures
        ({
            let low = crate::deflate::low_memory_config();
            &&& low.server_max_window_bits == 10
            &&& low.client_max_window_bits == 10
            &&& low.server_no_context_takeover
            &&& low.client_no_context_takeover
            &&& low.compression_level == 1
            &&& low.compression_threshold == 64
            &&& is_window_bits(low.server_max_window_bits)
            &&& is_window_bits(low.client_max_window_bits)
        }),
        ({
            let best = crate::deflate::best_compression_config();
            &&& best.server_max_window_bits == 15
            &&& best.client_max_window_bits == 15
            &&& !best.server_no_context_takeover
            &&& !best.client_no_context_takeover
            &&& best.compression_level == 9
            &&& best.compression_threshold == 16
        }),
{
}

/// The room for a message is four times its length, or 1024 bytes where that is more, and
/// never more than a message may have.
pub proof fn law_first_room(len: nat, max_size: nat)
    ensures
        crate::deflate::first_room(len, max_size) <= max_size,
        crate::deflate::first_room(len, max_size) == max_size || (crate::deflate::first_room(
            len,
            max_size,
        ) >= 4 * len && crate::deflate::first_room(len, max_size) >= 1024),
        crate::deflate::first_room(len, max_size) <= 1024 || crate::deflate::first_room(
            len,
            max_size,
        ) <= 4 * len,
{
}

/// The first parameter that is at fault is named.
pub proof fn law_first_faulty_parameter_is_named(before: Seq<Param>, p: Param, after: Seq<Param>)
    requires
        params_error(before) is None,
        !is_known_param(p),
    ensures
        ({
            let e = params_error(before.push(p) + after);
            &&& p.0 == "server_no_context_takeover"@ ==> e == Some(
                Error::HandshakeFailed("server_no_context_takeover must not have a value"),
            )
            &&& p.0 == "client_no_context_takeover"@ ==> e == Some(
                Error::HandshakeFailed("client_no_context_takeover must not have a value"),
            )
            &&& p.0 == "server_max_window_bits"@ && text::u8_from_text(p.1->0) is None ==> e == Some(
                Error::HandshakeFailed("invalid server_max_window_bits value"),
            )
            &&& p.0 == "server_max_window_bits"@ && text::u8_from_text(p.1->0) is Some ==> e == Some(
                Error::HandshakeFailed("server_max_window_bits out of range (8-15)"),
            )
            &&& p.0 == "client_max_window_bits"@ && text::u8_from_text(p.1->0) is None ==> e == Some(
                Error::HandshakeFailed("invalid client_max_window_bits value"),
            )
            &&& p.0 == "client_max_window_bits"@ && text::u8_from_text(p.1->0) is Some ==> e == Some(
                Error::HandshakeFailed("client_max_window_bits out of range (8-15)"),
            )
            &&& p.0 != "server_no_context_takeover"@ && p.0 != "client_no_context_takeover"@ && p.0
                != "server_max_window_bits"@ && p.0 != "client_max_window_bits"@ ==> e == Some(
                Error::HandshakeFailed("unknown permessage-deflate parameter"),
            )
        }),
{
    reveal_strlit("server_no_context_takeover");
    reveal_strlit("client_no_context_takeover");
    reveal_strlit("server_max_window_bits");
    reveal_strlit("client_max_window_bits");
    assert("server_no_context_takeover"@[0] != "client_no_context_takeover"@[0]);
    assert("server_max_window_bits"@[0] != "client_max_window_bits"@[0]);
    assert("server_no_context_takeover"@.len() != "client_max_window_bits"@.len());
    assert("server_no_context_takeover"@.len() != "server_max_window_bits"@.len());
    assert("client_no_context_takeover"@.len() != "client_max_window_bits"@.len());
    assert("client_no_context_takeover"@.len() != "server_max_window_bits"@.len());
    assert(param_error(p) is Some);
    lemma_first_fault(before, p, after);
}

/// The first fault of some parameters is that of all parameters they begin.
proof fn lemma_first_fault(before: Seq<Param>, p: Param, after: Seq<Param>)
    requires
        params_error(before) is None,
        param_error(p) is Some,
    ensures
        params_error(before.push(p) + after) == param_error(p),
    decreases after.len(),
{
    let whole = before.push(p) + after;
    if after.len() == 0 {
        assert(whole =~= before.push(p));
        assert(whole.drop_last() =~= before);
    } else {
        lemma_first_fault(before, p, after.drop_last());
        assert(whole.drop_last() =~= before.push(p) + after.drop_last());
    }
}

/// The name of the extension alone is an offer without parameters; a longer name is
/// another extension.
pub proof fn law_offer_is_named_exactly(rest: Seq<char>)
    requires
        rest.len() > 0,
        rest[0] != ';',
        !text::is_white_space(rest[0]),
        !text::is_white_space(rest.last()),
    ensures
        offer_of("permessage-deflate"@) == Some(Seq::<Param>::empty()),
        offer_of("permessage-deflate"@ + rest) is None,
{
    reveal_strlit("permessage-deflate");
    let name = "permessage-deflate"@;
    assert(!text::is_white_space(name[0]));
    assert(!text::is_white_space(name.last()));
    text::lemma_trim_plain(name);
    text::lemma_trim_plain(name + rest);
    assert((name + rest).last() == rest.last());
    assert(name.skip(18) =~= Seq::<char>::empty());
    assert((name + rest).skip(18) =~= rest);
    let none = Seq::<char>::empty();
    assert(is_all_white(none));
    law_trim_takes_white_space_away(none, none, none);
    assert(none + none + none =~= none);
    law_trim_takes_white_space_away(none, rest, none);
    assert(none + rest + none =~= rest);
    assert(rest + none =~= rest);
}

/// Parameters are read one by one, in order; an empty one does not count. One with an
/// equals sign has a name and a value, without white space or quotes around them.
pub proof fn law_parameters_are_read_one_by_one(
    a: Seq<Seq<char>>,
    b: Seq<Seq<char>>,
    name: Seq<char>,
    value: Seq<char>,
)
    requires
        !name.contains('='),
        name.len() > 0,
        !text::is_white_space(name[0]),
        !text::is_white_space(name.last()),
        value.len() > 0,
        !text::is_white_space(value.last()),
    ensures
        params_of(a + b) == params_of(a) + params_of(b),
        params_of(seq![Seq::<char>::empty()]).len() == 0,
        params_of(seq![name]) == seq![(name, None::<Seq<char>>)],
        params_of(seq![name + seq!['='] + value]) == seq![
            (name, Some(trim_quotes(text::trim(value)))),
        ],
{
    lemma_params_of_concat(a, b);
    let none = Seq::<char>::empty();
    assert(is_all_white(none));
    law_trim_takes_white_space_away(none, none, none);
    assert(none + none + none =~= none);
    let none_of = Seq::<Seq<char>>::empty();
    assert(params_of(none_of) =~= Seq::<Param>::empty());
    assert(seq![none].drop_last() =~= none_of);
    assert(seq![name].drop_last() =~= none_of);
    let p = name + seq!['='] + value;
    assert(seq![p].drop_last() =~= none_of);
    text::lemma_trim_plain(name);
    assert(p[0] == name[0]);
    assert(p.last() == value.last());
    text::lemma_trim_plain(p);
    law_split_once_splits_at_the_first(name, '=', value);
    assert(params_of(seq![name]) =~= seq![(name, None::<Seq<char>>)]);
    assert(params_of(seq![p]) =~= seq![(name, Some(trim_quotes(text::trim(value))))]);
}

/// Parameters say nothing of the level and of the length from which on messages are
/// compressed.
pub proof fn law_parameters_leave_the_level(params: Seq<Param>)
    ensures
        config_of(params).compression_level == 6,
        config_of(params).compression_threshold == 32,
{
}

/// The errors of a payload that is no compressed data and of one that ends too early are
/// told apart.
pub proof fn law_payload_errors_are_told_apart(e: Error)
    ensures
        !(crate::deflate::is_data_error(e) && crate::deflate::is_incomplete_error(e)),
        crate::deflate::is_data_error(e) ==> (e matches Error::Compression(text) && text@
            == "inflate error: status code -3"@),
        crate::deflate::is_incomplete_error(e) ==> (e matches Error::Compression(text) && text@
            == "incomplete deflate payload"@),
        crate::zlib::flush_trailer() == seq![0u8, 0u8, 255u8, 255u8],
{
    reveal_strlit("inflate error: status code -3");
    reveal_strlit("incomplete deflate payload");
    assert("inflate error: status code -3"@.len() != "incomplete deflate payload"@.len());
}

} // verus!
