//! Which header values are accepted, by how they may be written.

use crate::error::Error;
use crate::headers::{
    all_extensions_offered, all_name_chars, contains_token, elements, extension_name,
    first_offered, is_extension, is_extension_list, is_extension_parameter, is_extension_value,
    is_name_char, is_plain_value, is_protocol_list, is_quoted_token, is_token, is_value_char,
    is_zero_length, lists, no_empty_element, offers_extension, selected_extensions_result,
    selected_protocol_result, selected_subprotocol, some_element,
};
use crate::text;
use crate::text_laws::{
    is_all_white, law_pieces_make_up_the_text, law_split_once_splits_at_the_first,
    law_split_undoes_writing, law_trim_takes_white_space_away, written_with,
};
use vstd::prelude::*;

verus! {

/// The visible ASCII characters that separate tokens.
pub open spec fn delimiters() -> Seq<char> {
    seq!['"', '(', ')', ',', '/', ':', ';', '<', '=', '>', '?', '@', '[', '\\', ']', '{', '}']
}

/// A token is made of the visible ASCII characters that separate nothing.
pub proof fn law_token_characters(c: char)
    ensures
        is_name_char(c) <==> 33 <= c as u32 <= 126 && !delimiters().contains(c),
{
    let d = delimiters();
    if d.contains(c) {
        let k = choose|k: int| 0 <= k < d.len() && d[k] == c;
        assert(d[k] == c);
    }
    if 33 <= c as u32 <= 126 && !is_name_char(c) {
        let k: int = if c == '"' {
            0
        } else if c == '(' {
            1
        } else if c == ')' {
            2
        } else if c == ',' {
            3
        } else if c == '/' {
            4
        } else if c == ':' {
            5
        } else if c == ';' {
            6
        } else if c == '<' {
            7
        } else if c == '=' {
            8
        } else if c == '>' {
            9
        } else if c == '?' {
            10
        } else if c == '@' {
            11
        } else if c == '[' {
            12
        } else if c == '\\' {
            13
        } else if c == ']' {
            14
        } else if c == '{' {
            15
        } else {
            16
        };
        assert(d[k] == c);
    }
}

/// A field value holds anything but control characters, of which it may hold the
/// tab.
pub proof fn law_value_characters(c: char)
    ensures
        is_value_char(c) <==> !((c as u32) < 32 || c as u32 == 127) || c as u32 == 9,
{
}

/// No token character is white space or a separator of lists.
proof fn lemma_name_char_is_plain(c: char)
    requires
        is_name_char(c),
    ensures
        !text::is_white_space(c),
        c != ',' && c != ';' && c != '=' && c != '"' && c != '\\' && c != ' ',
{
}

/// A text that can stand in a list as it is: without the separator, and without
/// white space at its ends.
pub open spec fn is_item(s: Seq<char>, sep: char) -> bool {
    !s.contains(sep) && (s.len() > 0 ==> !text::is_white_space(s[0]) && !text::is_white_space(
        s.last(),
    ))
}

/// Whether all texts can stand in a list as they are.
pub open spec fn are_items(items: Seq<Seq<char>>, sep: char) -> bool {
    forall|i: int| 0 <= i < items.len() ==> is_item(#[trigger] items[i], sep)
}

/// A text behind which others are written.
proof fn lemma_written_front(x: Seq<char>, rest: Seq<Seq<char>>, sep: Seq<char>)
    ensures
        written_with(seq![x] + rest, sep) == (if rest.len() == 0 {
            x
        } else {
            x + sep + written_with(rest, sep)
        }),
{
    assert((seq![x] + rest).skip(1) =~= rest);
}

/// Spaces behind separators may be counted to the texts.
proof fn lemma_spaced(front: Seq<char>, rest: Seq<Seq<char>>, sep: char)
    ensures
        written_with(seq![front] + rest, seq![sep, ' ']) == written_with(
            seq![front] + rest.map_values(|x: Seq<char>| seq![' '] + x),
            seq![sep],
        ),
    decreases rest.len(),
{
    let shifted = rest.map_values(|x: Seq<char>| seq![' '] + x);
    lemma_written_front(front, rest, seq![sep, ' ']);
    lemma_written_front(front, shifted, seq![sep]);
    if rest.len() > 0 {
        let tail = rest.skip(1);
        lemma_spaced(rest[0], tail, sep);
        let tail_shifted = tail.map_values(|x: Seq<char>| seq![' '] + x);
        assert(seq![rest[0]] + tail =~= rest);
        assert(shifted =~= seq![seq![' '] + rest[0]] + tail_shifted);
        lemma_written_front(rest[0], tail_shifted, seq![sep]);
        lemma_written_front(seq![' '] + rest[0], tail_shifted, seq![sep]);
        assert(seq![sep, ' '] =~= seq![sep] + seq![' ']);
        let inner = written_with(seq![rest[0]] + tail_shifted, seq![sep]);
        assert(written_with(shifted, seq![sep]) =~= seq![' '] + inner);
        assert(front + seq![sep, ' '] + inner =~= front + seq![sep] + (seq![' '] + inner));
    }
}

/// The elements of a list are what was written, whether there is a space behind the
/// separators or not.
pub proof fn law_list_is_its_elements(items: Seq<Seq<char>>, sep: char)
    requires
        items.len() > 0,
        are_items(items, sep),
        sep != ' ',
    ensures
        elements(written_with(items, seq![sep]), sep) == items,
        elements(written_with(items, seq![sep, ' ']), sep) == items,
{
    let none = Seq::<char>::empty();
    assert forall|i: int| 0 <= i < items.len() implies !(#[trigger] items[i]).contains(sep) by {
        assert(is_item(items[i], sep));
    }
    law_split_undoes_writing(items, sep);
    assert(is_all_white(none));
    assert forall|i: int| 0 <= i < items.len() implies text::trim(#[trigger] items[i]) == items[i] by {
        assert(is_item(items[i], sep));
        law_trim_takes_white_space_away(none, items[i], none);
        assert(none + items[i] + none =~= items[i]);
    }
    assert(elements(written_with(items, seq![sep]), sep) =~= items);
    let rest = items.skip(1);
    let shifted = rest.map_values(|x: Seq<char>| seq![' '] + x);
    let all = seq![items[0]] + shifted;
    assert(seq![items[0]] + rest =~= items);
    lemma_spaced(items[0], rest, sep);
    assert forall|i: int| 0 <= i < all.len() implies !(#[trigger] all[i]).contains(sep) by {
        assert(is_item(items[i], sep));
        if i > 0 {
            assert(all[i] == seq![' '] + items[i]);
            let t = all[i];
            if t.contains(sep) {
                let k = choose|k: int| 0 <= k < t.len() && t[k] == sep;
                assert(k > 0);
                assert(items[i][k - 1] == sep);
            }
        }
    }
    law_split_undoes_writing(all, sep);
    let blank = seq![' '];
    assert(is_all_white(blank));
    assert forall|i: int| 0 <= i < all.len() implies text::trim(#[trigger] all[i]) == items[i] by {
        assert(is_item(items[i], sep));
        if i > 0 {
            law_trim_takes_white_space_away(blank, items[i], none);
            assert(all[i] =~= blank + items[i] + none);
        }
    }
    assert(elements(written_with(items, seq![sep, ' ']), sep) =~= items);
}

/// Two lists with a comma between them are split into the pieces of both.
proof fn lemma_split_both(a: Seq<char>, b: Seq<char>, sep: char)
    ensures
        text::split(a + seq![sep] + b, sep) == text::split(a, sep) + text::split(b, sep),
    decreases a.len(),
{
    let s = a + seq![sep] + b;
    let i = text::find_from(a, sep, 0);
    text::lemma_find_range(a, sep, 0);
    assert forall|j: int| 0 <= j < i implies #[trigger] s[j] != sep by {
        assert(s[j] == a[j]);
    }
    text::lemma_find_from(s, sep, 0, i);
    if i < a.len() {
        lemma_split_both(a.skip(i + 1), b, sep);
        assert(s.take(i) =~= a.take(i));
        assert(s.skip(i + 1) =~= a.skip(i + 1) + seq![sep] + b);
        assert(seq![a.take(i)] + (text::split(a.skip(i + 1), sep) + text::split(b, sep))
            =~= text::split(a, sep) + text::split(b, sep));
    } else {
        assert(s.take(i) =~= a);
        assert(s.skip(i + 1) =~= b);
    }
}

/// A list names what either of its halves names; a single element names itself, up
/// to white space around it and the case of letters.
pub proof fn law_list_names_what_its_parts_name(a: Seq<char>, b: Seq<char>, token: Seq<char>)
    ensures
        contains_token(a + seq![','] + b, token) <==> contains_token(a, token) || contains_token(
            b,
            token,
        ),
        !a.contains(',') ==> (contains_token(a, token) <==> text::eq_ignore_ascii_case(
            text::trim(a),
            token,
        )),
        lists(a + seq![','] + b, token) <==> lists(a, token) || lists(b, token),
        !a.contains(',') ==> (lists(a, token) <==> text::trim(a) == token),
{
    let whole = a + seq![','] + b;
    lemma_split_both(a, b, ',');
    let (e, ea, eb) = (elements(whole, ','), elements(a, ','), elements(b, ','));
    assert(e =~= ea + eb);
    if contains_token(a, token) {
        let i = choose|i: int|
            0 <= i < ea.len() && text::eq_ignore_ascii_case(#[trigger] ea[i], token);
        assert(e[i] == ea[i]);
    }
    if contains_token(b, token) {
        let i = choose|i: int|
            0 <= i < eb.len() && text::eq_ignore_ascii_case(#[trigger] eb[i], token);
        assert(e[i + ea.len()] == eb[i]);
    }
    if contains_token(whole, token) {
        let i = choose|i: int|
            0 <= i < e.len() && text::eq_ignore_ascii_case(#[trigger] e[i], token);
        if i < ea.len() {
            assert(ea[i] == e[i]);
        } else {
            assert(eb[i - ea.len()] == e[i]);
        }
    }
    if lists(a, token) {
        let i = choose|i: int| 0 <= i < ea.len() && ea[i] == token;
        assert(e[i] == token);
    }
    if lists(b, token) {
        let i = choose|i: int| 0 <= i < eb.len() && eb[i] == token;
        assert(e[i + ea.len()] == token);
    }
    if lists(whole, token) {
        let i = choose|i: int| 0 <= i < e.len() && e[i] == token;
        if i < ea.len() {
            assert(ea[i] == token);
        } else {
            assert(eb[i - ea.len()] == token);
        }
    }
    if !a.contains(',') {
        law_split_undoes_writing(seq![a], ',');
        assert(text::split(a, ',') == seq![a]);
        assert(ea =~= seq![text::trim(a)]);
        assert(ea[0] == text::trim(a));
    }
}

/// Whether every text is a token.
pub open spec fn are_tokens(items: Seq<Seq<char>>) -> bool {
    forall|i: int| 0 <= i < items.len() ==> is_token(#[trigger] items[i])
}

/// A list of texts is a subprotocol list exactly where they are tokens, all
/// different, and at least one.
pub proof fn law_subprotocols_are_different_tokens(items: Seq<Seq<char>>)
    requires
        items.len() > 0,
        are_items(items, ','),
        forall|i: int| 0 <= i < items.len() ==> (#[trigger] items[i]).len() > 0,
    ensures
        is_protocol_list(written_with(items, seq![',', ' '])) <==> are_tokens(items)
            && items.no_duplicates(),
        is_protocol_list(written_with(items, seq![','])) <==> are_tokens(items)
            && items.no_duplicates(),
        !is_protocol_list(Seq::empty()),
{
    law_list_is_its_elements(items, ',');
    lemma_protocols(written_with(items, seq![',', ' ']), items);
    lemma_protocols(written_with(items, seq![',']), items);
    let none = Seq::<char>::empty();
    law_split_undoes_writing(seq![none], ',');
    assert(text::split(none, ',') == seq![none]);
    assert(text::trim(none) =~= none);
    assert(elements(none, ',') =~= seq![none]);
}

/// When texts that a list consists of make a subprotocol list.
proof fn lemma_protocols(value: Seq<char>, items: Seq<Seq<char>>)
    requires
        items.len() > 0,
        elements(value, ',') == items,
        forall|i: int| 0 <= i < items.len() ==> (#[trigger] items[i]).len() > 0,
    ensures
        is_protocol_list(value) <==> are_tokens(items) && items.no_duplicates(),
{
    assert(items[0].len() > 0);
    assert(some_element(value));
    if is_protocol_list(value) {
        assert forall|i: int, j: int|
            0 <= i < items.len() && 0 <= j < items.len() && i != j implies items[i] != items[j] by {
            if i < j {
                assert(items[i] != items[j]);
            } else {
                assert(items[j] != items[i]);
            }
        }
    }
}

/// A parameter of an extension: its name, and its value where it has one.
pub type ExtensionParam = (Seq<char>, Option<Seq<char>>);

/// An extension: its name and its parameters.
pub type Extension = (Seq<char>, Seq<ExtensionParam>);

/// A parameter as it is written.
pub open spec fn parameter_text(p: ExtensionParam) -> Seq<char> {
    match p.1 {
        Some(value) => p.0 + seq!['='] + value,
        None => p.0,
    }
}

/// An extension as it is written: its name, and its parameters behind semicolons.
pub open spec fn extension_text(x: Extension) -> Seq<char> {
    written_with(
        seq![x.0] + x.1.map_values(|p: ExtensionParam| parameter_text(p)),
        seq![';', ' '],
    )
}

/// Extensions as they are written, with commas between them.
pub open spec fn extensions_text(xs: Seq<Extension>) -> Seq<char> {
    written_with(xs.map_values(|x: Extension| extension_text(x)), seq![',', ' '])
}

/// A text in double quotes.
pub open spec fn quoted(s: Seq<char>) -> Seq<char> {
    seq!['"'] + s + seq!['"']
}

/// Whether a parameter has a token as its name, and as its value, if it has one, a
/// token, plain or in quotes.
pub open spec fn is_proper_param(p: ExtensionParam) -> bool {
    &&& is_token(p.0)
    &&& p.1 matches Some(v) ==> is_token(v) || exists|t: Seq<char>| is_token(t) && v == #[trigger] quoted(t)
}

/// Whether an extension has a token as its name and proper parameters.
pub open spec fn is_proper_extension(x: Extension) -> bool {
    &&& is_token(x.0)
    &&& forall|i: int| 0 <= i < x.1.len() ==> is_proper_param(#[trigger] x.1[i])
}

/// Token characters are the content of a quoted value.
proof fn lemma_token_may_be_quoted(s: Seq<char>)
    requires
        all_name_chars(s),
    ensures
        is_quoted_token(s),
    decreases s.len(),
{
    if s.len() > 0 {
        assert(is_name_char(s[0]));
        let t = s.skip(1);
        assert forall|i: int| 0 <= i < t.len() implies is_name_char(#[trigger] t[i]) by {
            assert(t[i] == s[i + 1]);
        }
        lemma_token_may_be_quoted(t);
    }
}

/// Within quotes a token character may stand alone or behind a backslash, and
/// nothing else may.
pub proof fn law_quoted_characters(c: char, rest: Seq<char>)
    ensures
        is_quoted_token(Seq::empty()),
        is_quoted_token(seq!['\\', c] + rest) <==> is_name_char(c) && is_quoted_token(rest),
        c != '\\' ==> (is_quoted_token(seq![c] + rest) <==> is_name_char(c) && is_quoted_token(
            rest,
        )),
        !is_quoted_token(seq!['\\']),
{
    let a = seq!['\\', c] + rest;
    assert(a[0] == '\\' && a[1] == c);
    assert(a.skip(2) =~= rest);
    let b = seq![c] + rest;
    assert(b[0] == c);
    assert(b.skip(1) =~= rest);
    let d = seq!['\\'];
    assert(d[0] == '\\');
}

/// A text made of token characters and a few others has neither a given separator
/// nor white space at its ends.
proof fn lemma_param_item(p: ExtensionParam, sep: char)
    requires
        is_proper_param(p),
        sep == ',' || sep == ';',
    ensures
        is_item(parameter_text(p), sep),
        parameter_text(p).len() > 0,
        is_extension_parameter(parameter_text(p)),
        !parameter_text(p).contains(','),
        !parameter_text(p).contains(';'),
        forall|i: int|
            0 <= i < parameter_text(p).len() ==> is_value_char(#[trigger] parameter_text(p)[i])
                && parameter_text(p)[i] != ' ',
{
    let s = parameter_text(p);
    let name = p.0;
    let n = name.len() as int;
    let none = Seq::<char>::empty();
    assert(is_all_white(none));
    assert(is_name_char(name[0]) && is_name_char(name[n - 1]));
    lemma_name_char_is_plain(name[0]);
    lemma_name_char_is_plain(name[n - 1]);
    assert(!name.contains('=')) by {
        if name.contains('=') {
            let k = choose|k: int| 0 <= k < name.len() && name[k] == '=';
            assert(is_name_char(name[k]));
        }
    }
    law_trim_takes_white_space_away(none, name, none);
    assert(none + name + none =~= name);
    match p.1 {
        None => {
            law_split_once_splits_at_the_first(name, '=', none);
            assert forall|i: int| 0 <= i < s.len() implies is_name_char(#[trigger] s[i]) by {
                assert(s[i] == name[i]);
            }
        },
        Some(v) => {
            law_split_once_splits_at_the_first(name, '=', v);
            lemma_value(v);
            law_trim_takes_white_space_away(none, v, none);
            assert(none + v + none =~= v);
            assert(s[0] == name[0]);
            assert(s.last() == v.last());
            assert forall|i: int| 0 <= i < s.len() implies #[trigger] s[i] != ',' && s[i] != ';'
                && s[i] != ' ' && is_value_char(s[i]) by {
                if i < n {
                    assert(s[i] == name[i]);
                    assert(is_name_char(name[i]));
                } else if i > n {
                    assert(s[i] == v[i - n - 1]);
                }
            }
        },
    }
    assert forall|i: int| 0 <= i < s.len() implies #[trigger] s[i] != ',' && s[i] != ';' && s[i]
        != ' ' && is_value_char(s[i]) by {
        if p.1 is None {
            assert(is_name_char(name[i]));
        }
    }
}

/// A proper value is accepted, and holds no separator.
proof fn lemma_value(v: Seq<char>)
    requires
        is_token(v) || exists|t: Seq<char>| is_token(t) && v == #[trigger] quoted(t),
    ensures
        is_extension_value(v),
        v.len() > 0,
        !text::is_white_space(v[0]),
        !text::is_white_space(v.last()),
        forall|i: int|
            0 <= i < v.len() ==> #[trigger] v[i] != ',' && v[i] != ';' && v[i] != ' '
                && is_value_char(v[i]),
{
    if is_token(v) {
        assert(is_name_char(v[0]) && is_name_char(v[v.len() - 1]));
        assert forall|i: int| 0 <= i < v.len() implies #[trigger] v[i] != ',' && v[i] != ';'
            && v[i] != ' ' && is_value_char(v[i]) by {
            assert(is_name_char(v[i]));
        }
    } else {
        let t = choose|t: Seq<char>| is_token(t) && v == #[trigger] quoted(t);
        lemma_token_may_be_quoted(t);
        assert(v.subrange(1, v.len() - 1) =~= t);
        assert forall|i: int| 0 <= i < v.len() implies #[trigger] v[i] != ',' && v[i] != ';'
            && v[i] != ' ' && is_value_char(v[i]) by {
            if 0 < i < v.len() - 1 {
                assert(v[i] == t[i - 1]);
                assert(is_name_char(t[i - 1]));
            }
        }
    }
}

/// The characters of written texts are those of the texts and of the separator.
proof fn lemma_written_chars(items: Seq<Seq<char>>, sep: Seq<char>, c: char)
    requires
        written_with(items, sep).contains(c),
    ensures
        sep.contains(c) || exists|i: int| 0 <= i < items.len() && (#[trigger] items[i]).contains(c),
    decreases items.len(),
{
    let s = written_with(items, sep);
    let k = choose|k: int| 0 <= k < s.len() && s[k] == c;
    if items.len() == 1 {
        assert(items[0].contains(c));
    } else if items.len() > 1 {
        let rest = items.skip(1);
        let tail = written_with(rest, sep);
        let n = items[0].len() as int;
        if k < n {
            assert(items[0][k] == c);
            assert(items[0].contains(c));
        } else if k < n + sep.len() {
            assert(sep[k - n] == c);
        } else {
            assert(tail[k - n - sep.len()] == c);
            lemma_written_chars(rest, sep, c);
            if !sep.contains(c) {
                let i = choose|i: int| 0 <= i < rest.len() && (#[trigger] rest[i]).contains(c);
                assert(items[i + 1].contains(c));
            }
        }
    }
}

/// How written texts begin and end.
proof fn lemma_written_ends(items: Seq<Seq<char>>, sep: Seq<char>)
    requires
        items.len() > 0,
        forall|i: int| 0 <= i < items.len() ==> (#[trigger] items[i]).len() > 0,
    ensures
        written_with(items, sep).len() > 0,
        written_with(items, sep)[0] == items[0][0],
        written_with(items, sep).last() == items.last().last(),
    decreases items.len(),
{
    assert(items[0].len() > 0);
    if items.len() > 1 {
        let rest = items.skip(1);
        assert forall|i: int| 0 <= i < rest.len() implies (#[trigger] rest[i]).len() > 0 by {
            assert(rest[i] == items[i + 1]);
        }
        lemma_written_ends(rest, sep);
        assert(rest.last() == items.last());
    }
}

/// The parts that an extension is written from.
spec fn extension_parts(x: Extension) -> Seq<Seq<char>> {
    seq![x.0] + x.1.map_values(|p: ExtensionParam| parameter_text(p))
}

/// What holds of a proper extension as it is written.
proof fn lemma_extension_item(x: Extension)
    requires
        is_proper_extension(x),
    ensures
        elements(extension_text(x), ';') == extension_parts(x),
        is_extension(extension_text(x)),
        is_item(extension_text(x), ','),
        extension_text(x).len() > 0,
        extension_name(extension_text(x)) == x.0,
        forall|i: int| 0 <= i < extension_text(x).len() ==> is_value_char(#[trigger] extension_text(x)[i]),
{
    let parts = extension_parts(x);
    let s = extension_text(x);
    let name = x.0;
    assert(is_name_char(name[0]) && is_name_char(name[name.len() - 1]));
    assert forall|i: int| 0 <= i < parts.len() implies is_item(#[trigger] parts[i], ';')
        && parts[i].len() > 0 && !parts[i].contains(',') && is_item(parts[i], ',')
        && (forall|k: int| 0 <= k < parts[i].len() ==> is_value_char(#[trigger] parts[i][k])) by {
        if i == 0 {
            if name.contains(';') {
                let k = choose|k: int| 0 <= k < name.len() && name[k] == ';';
                assert(is_name_char(name[k]));
            }
            if name.contains(',') {
                let k = choose|k: int| 0 <= k < name.len() && name[k] == ',';
                assert(is_name_char(name[k]));
            }
            assert forall|k: int| 0 <= k < name.len() implies is_value_char(#[trigger] name[k]) by {
                assert(is_name_char(name[k]));
            }
        } else {
            assert(is_proper_param(x.1[i - 1]));
            assert(parts[i] == parameter_text(x.1[i - 1]));
            lemma_param_item(x.1[i - 1], ';');
            lemma_param_item(x.1[i - 1], ',');
        }
    }
    law_list_is_its_elements(parts, ';');
    assert(elements(s, ';')[0] == name);
    assert forall|i: int| 1 <= i < parts.len() implies is_extension_parameter(
        #[trigger] elements(s, ';')[i],
    ) by {
        assert(is_proper_param(x.1[i - 1]));
        lemma_param_item(x.1[i - 1], ';');
    }
    law_pieces_make_up_the_text(s, ';');
    assert(extension_name(s) == elements(s, ';')[0]);
    lemma_written_ends(parts, seq![';', ' ']);
    if s.contains(',') {
        lemma_written_chars(parts, seq![';', ' '], ',');
    }
    assert forall|k: int| 0 <= k < s.len() implies is_value_char(#[trigger] s[k]) by {
        assert(s.contains(s[k]));
        lemma_written_chars(parts, seq![';', ' '], s[k]);
        if !seq![';', ' '].contains(s[k]) {
            let i = choose|i: int| 0 <= i < parts.len() && (#[trigger] parts[i]).contains(s[k]);
            let m = choose|m: int| 0 <= m < parts[i].len() && parts[i][m] == s[k];
            assert(is_value_char(parts[i][m]));
        } else {
            let sp = seq![';', ' '];
            let m = choose|m: int| 0 <= m < sp.len() && sp[m] == s[k];
            assert(sp[m] == s[k]);
        }
    }
    assert(is_item(parts[0], ','));
    assert(is_item(parts[parts.len() - 1], ','));
}

/// Any extensions may be asked for, with any parameters, each with or without a
/// value: what is written from tokens is an extension list, and may be sent as it
/// is.
pub proof fn law_written_extensions_are_accepted(xs: Seq<Extension>)
    requires
        xs.len() > 0,
        forall|i: int| 0 <= i < xs.len() ==> is_proper_extension(#[trigger] xs[i]),
    ensures
        is_extension_list(extensions_text(xs)),
        no_empty_element(extensions_text(xs)),
        is_plain_value(extensions_text(xs)),
{
    let items = xs.map_values(|x: Extension| extension_text(x));
    let value = extensions_text(xs);
    let none = Seq::<char>::empty();
    assert forall|i: int| 0 <= i < items.len() implies is_item(#[trigger] items[i], ',')
        && items[i].len() > 0 && is_extension(items[i]) && (forall|k: int|
        0 <= k < items[i].len() ==> is_value_char(#[trigger] items[i][k])) by {
        assert(is_proper_extension(xs[i]));
        lemma_extension_item(xs[i]);
    }
    law_list_is_its_elements(items, ',');
    assert(items[0].len() > 0);
    assert(elements(value, ',')[0].len() > 0);
    assert(some_element(value));
    lemma_written_ends(items, seq![',', ' ']);
    assert(is_item(items[0], ','));
    assert(is_item(items[items.len() - 1], ','));
    assert(is_all_white(none));
    law_trim_takes_white_space_away(none, value, none);
    assert(none + value + none =~= value);
    assert forall|k: int| 0 <= k < value.len() implies is_value_char(#[trigger] value[k]) by {
        assert(value.contains(value[k]));
        lemma_written_chars(items, seq![',', ' '], value[k]);
        if !seq![',', ' '].contains(value[k]) {
            let i = choose|i: int| 0 <= i < items.len() && (#[trigger] items[i]).contains(value[k]);
            let m = choose|m: int| 0 <= m < items[i].len() && items[i][m] == value[k];
            assert(is_value_char(items[i][m]));
        } else {
            let sp = seq![',', ' '];
            let m = choose|m: int| 0 <= m < sp.len() && sp[m] == value[k];
            assert(sp[m] == value[k]);
        }
    }
}

/// One extension with one parameter is accepted, with and without a value.
pub proof fn law_parameter_needs_no_value(name: Seq<char>, param: Seq<char>, value: Seq<char>)
    requires
        is_token(name),
        is_token(param),
        is_token(value),
    ensures
        is_extension_list(name),
        is_extension_list(name + seq![';', ' '] + param),
        is_extension_list(name + seq![';', ' '] + param + seq!['='] + value),
        is_extension_list(name + seq![';', ' '] + param + seq!['='] + quoted(value)),
{
    let flag: ExtensionParam = (param, None);
    let plain: ExtensionParam = (param, Some(value));
    let held: ExtensionParam = (param, Some(quoted(value)));
    assert(is_proper_param(flag));
    assert(is_proper_param(plain));
    assert(is_proper_param(held));
    lemma_one_extension(name, seq![]);
    lemma_one_extension(name, seq![flag]);
    lemma_one_extension(name, seq![plain]);
    lemma_one_extension(name, seq![held]);
    lemma_one_parameter_text(name, flag);
    lemma_one_parameter_text(name, plain);
    lemma_one_parameter_text(name, held);
    assert(seq![name] + Seq::<ExtensionParam>::empty().map_values(
        |p: ExtensionParam| parameter_text(p),
    ) =~= seq![name]);
    assert(name + seq![';', ' '] + (param + seq!['='] + value) =~= name + seq![';', ' '] + param
        + seq!['='] + value);
    assert(name + seq![';', ' '] + (param + seq!['='] + quoted(value)) =~= name + seq![';', ' ']
        + param + seq!['='] + quoted(value));
}

/// One proper extension is a list.
proof fn lemma_one_extension(name: Seq<char>, params: Seq<ExtensionParam>)
    requires
        is_token(name),
        forall|i: int| 0 <= i < params.len() ==> is_proper_param(#[trigger] params[i]),
    ensures
        is_extension_list(extension_text((name, params))),
{
    let x: Extension = (name, params);
    assert(is_proper_extension(x));
    law_written_extensions_are_accepted(seq![x]);
    assert(seq![x].map_values(|y: Extension| extension_text(y)) =~= seq![extension_text(x)]);
}

/// How one extension with one parameter is written.
proof fn lemma_one_parameter_text(name: Seq<char>, p: ExtensionParam)
    ensures
        extension_text((name, seq![p])) == name + seq![';', ' '] + parameter_text(p),
{
    let params = seq![p].map_values(|q: ExtensionParam| parameter_text(q));
    assert(params =~= seq![parameter_text(p)]);
    lemma_written_front(name, params, seq![';', ' ']);
    assert(written_with(params, seq![';', ' ']) == parameter_text(p));
}

/// An extension whose name or some parameter's name is no token, or whose parameter
/// has an equals sign without a proper value, is refused.
pub proof fn law_improper_extensions_are_refused(name: Seq<char>, param: Seq<char>, value: Seq<char>)
    requires
        is_item(name, ';'),
        is_item(param, ';'),
        !param.contains('='),
        is_item(value, ';'),
    ensures
        is_extension(name) <==> is_token(name),
        is_extension(name + seq![';', ' '] + param) <==> is_token(name) && is_token(param),
        is_extension(name + seq![';', ' '] + param + seq!['='] + value) ==> is_token(name)
            && is_token(param) && value.len() > 0 && (is_token(value) || value[0] == '"'
            && value.last() == '"' && value.len() > 2),
{
    let sep = seq![';', ' '];
    let none = Seq::<char>::empty();
    let one = seq![name];
    assert(is_item(one[0], ';'));
    law_list_is_its_elements(one, ';');
    assert(written_with(one, sep) == name);
    let two = seq![name, param];
    assert(are_items(two, ';'));
    law_list_is_its_elements(two, ';');
    assert(two.skip(1) =~= seq![param]);
    assert(written_with(two.skip(1), sep) == param);
    assert(written_with(two, sep) == name + sep + param);
    law_split_once_splits_at_the_first(param, '=', value);
    assert(elements(name + sep + param, ';') == two);
    assert(is_extension(name + sep + param) <==> is_token(two[0]) && is_extension_parameter(two[1]));
    let whole = param + seq!['='] + value;
    if value.len() == 0 && param.len() == 0 {
        let three = seq![name, whole];
        assert(whole =~= seq!['=']);
        assert(!whole.contains(';'));
        assert(are_items(three, ';'));
        lemma_two_parts(name, whole);
    } else {
        assert(!whole.contains(';')) by {
            if whole.contains(';') {
                let k = choose|k: int| 0 <= k < whole.len() && whole[k] == ';';
                if k < param.len() {
                    assert(param[k] == ';');
                } else {
                    assert(value[k - param.len() - 1] == ';');
                }
            }
        }
        if param.len() > 0 {
            assert(whole[0] == param[0]);
        }
        if value.len() > 0 {
            assert(whole.last() == value.last());
        }
        lemma_two_parts(name, whole);
    }
    assert(name + sep + whole =~= name + sep + param + seq!['='] + value);
    assert(is_all_white(none));
    law_trim_takes_white_space_away(none, param, none);
    assert(none + param + none =~= param);
    law_trim_takes_white_space_away(none, value, none);
    assert(none + value + none =~= value);
}

/// An extension of two parts is one where both are what they must be.
proof fn lemma_two_parts(name: Seq<char>, part: Seq<char>)
    requires
        is_item(name, ';'),
        is_item(part, ';'),
    ensures
        is_extension(name + seq![';', ' '] + part) <==> is_token(name) && is_extension_parameter(
            part,
        ),
{
    let sep = seq![';', ' '];
    let two = seq![name, part];
    assert(are_items(two, ';'));
    law_list_is_its_elements(two, ';');
    assert(two.skip(1) =~= seq![part]);
    assert(written_with(two.skip(1), sep) == part);
    assert(elements(name + sep + part, ';') == two);
    assert(is_extension(name + sep + part) <==> is_token(two[0]) && is_extension_parameter(two[1]));
}

/// A list is an extension list exactly where each of its elements is an extension.
pub proof fn law_list_of_extensions(items: Seq<Seq<char>>)
    requires
        items.len() > 0,
        are_items(items, ','),
        forall|i: int| 0 <= i < items.len() ==> (#[trigger] items[i]).len() > 0,
    ensures
        is_extension_list(written_with(items, seq![',', ' '])) <==> forall|i: int|
            0 <= i < items.len() ==> is_extension(#[trigger] items[i]),
        !is_extension_list(Seq::empty()),
{
    let value = written_with(items, seq![',', ' ']);
    law_list_is_its_elements(items, ',');
    assert(items[0].len() > 0);
    assert(elements(value, ',')[0].len() > 0);
    assert(some_element(value));
    let none = Seq::<char>::empty();
    law_split_undoes_writing(seq![none], ',');
    assert(text::split(none, ',') == seq![none]);
    assert(text::trim(none) =~= none);
    assert(elements(none, ',') =~= seq![none]);
}

/// A server may select exactly the extensions whose names were offered.
pub proof fn law_selected_extensions_were_offered(offered: Seq<Extension>, selected: Seq<Extension>)
    requires
        offered.len() > 0,
        selected.len() > 0,
        forall|i: int| 0 <= i < offered.len() ==> is_proper_extension(#[trigger] offered[i]),
        forall|i: int| 0 <= i < selected.len() ==> is_proper_extension(#[trigger] selected[i]),
    ensures
        selected_extensions_result(
            Some(extensions_text(offered)),
            Some(extensions_text(selected)),
        ) is Ok <==> forall|i: int|
            0 <= i < selected.len() ==> exists|j: int|
                0 <= j < offered.len() && (#[trigger] offered[j]).0 == (#[trigger] selected[i]).0,
        selected_extensions_result(None, Some(extensions_text(selected))) is Err,
        selected_extensions_result(Some(extensions_text(offered)), None) is Ok,
{
    let o = extensions_text(offered);
    let s = extensions_text(selected);
    let e = elements(s, ',');
    law_written_extensions_are_accepted(selected);
    let items = selected.map_values(|x: Extension| extension_text(x));
    assert forall|i: int| 0 <= i < items.len() implies is_item(#[trigger] items[i], ',')
        && items[i].len() > 0 && extension_name(items[i]) == selected[i].0 by {
        assert(is_proper_extension(selected[i]));
        lemma_extension_item(selected[i]);
    }
    law_list_is_its_elements(items, ',');
    assert forall|i: int| 0 <= i < selected.len() implies (offers_extension(
        o,
        (#[trigger] selected[i]).0,
    ) <==> exists|j: int| 0 <= j < offered.len() && (#[trigger] offered[j]).0 == selected[i].0) by {
        lemma_offers(offered, selected[i].0);
    }
    if all_extensions_offered(o, s) {
        assert forall|i: int| 0 <= i < selected.len() implies exists|j: int|
            0 <= j < offered.len() && (#[trigger] offered[j]).0 == (#[trigger] selected[i]).0 by {
            assert(e[i] == items[i]);
            assert(offers_extension(o, selected[i].0));
        }
    }
    if forall|i: int|
        0 <= i < selected.len() ==> exists|j: int|
            0 <= j < offered.len() && (#[trigger] offered[j]).0 == (#[trigger] selected[i]).0 {
        assert forall|i: int| 0 <= i < e.len() && (#[trigger] e[i]).len() > 0 implies offers_extension(
            o,
            extension_name(e[i]),
        ) by {
            assert(e[i] == items[i]);
            let x = selected[i];
            assert(exists|j: int| 0 <= j < offered.len() && (#[trigger] offered[j]).0 == x.0);
        }
    }
}

/// What a written list offers.
proof fn lemma_offers(offered: Seq<Extension>, name: Seq<char>)
    requires
        offered.len() > 0,
        forall|i: int| 0 <= i < offered.len() ==> is_proper_extension(#[trigger] offered[i]),
    ensures
        offers_extension(extensions_text(offered), name) <==> exists|j: int|
            0 <= j < offered.len() && (#[trigger] offered[j]).0 == name,
{
    let o = extensions_text(offered);
    let items = offered.map_values(|x: Extension| extension_text(x));
    assert forall|i: int| 0 <= i < items.len() implies is_item(#[trigger] items[i], ',')
        && items[i].len() > 0 by {
        assert(is_proper_extension(offered[i]));
        lemma_extension_item(offered[i]);
    }
    let rest = items.skip(1);
    let shifted = rest.map_values(|x: Seq<char>| seq![' '] + x);
    let all = seq![items[0]] + shifted;
    assert(seq![items[0]] + rest =~= items);
    lemma_spaced(items[0], rest, ',');
    assert forall|i: int| 0 <= i < all.len() implies !(#[trigger] all[i]).contains(',') by {
        assert(is_item(items[i], ','));
        if i > 0 {
            assert(all[i] == seq![' '] + items[i]);
            let t = all[i];
            if t.contains(',') {
                let k = choose|k: int| 0 <= k < t.len() && t[k] == ',';
                assert(k > 0);
                assert(items[i][k - 1] == ',');
            }
        }
    }
    law_split_undoes_writing(all, ',');
    let p = text::split(o, ',');
    assert(p == all);
    assert forall|i: int| 0 <= i < all.len() implies extension_name(#[trigger] all[i])
        == offered[i].0 by {
        assert(is_proper_extension(offered[i]));
        lemma_extension_item(offered[i]);
        if i > 0 {
            assert(all[i] == seq![' '] + items[i]);
            lemma_name_behind_space(offered[i]);
        }
    }
    if offers_extension(o, name) {
        let i = choose|i: int| 0 <= i < p.len() && extension_name(#[trigger] p[i]) == name;
        assert(extension_name(all[i]) == offered[i].0);
    }
    if exists|j: int| 0 <= j < offered.len() && (#[trigger] offered[j]).0 == name {
        let j = choose|j: int| 0 <= j < offered.len() && (#[trigger] offered[j]).0 == name;
        assert(extension_name(p[j]) == name);
    }
}

/// A space before an extension does not change its name.
proof fn lemma_name_behind_space(x: Extension)
    requires
        is_proper_extension(x),
    ensures
        extension_name(seq![' '] + extension_text(x)) == x.0,
{
    let s = extension_text(x);
    let t = seq![' '] + s;
    let none = Seq::<char>::empty();
    let p = text::split(s, ';');
    lemma_extension_item(x);
    law_pieces_make_up_the_text(s, ';');
    let q = seq![seq![' '] + p[0]] + p.skip(1);
    assert(seq![p[0]] + p.skip(1) =~= p);
    lemma_written_front(p[0], p.skip(1), seq![';']);
    lemma_written_front(seq![' '] + p[0], p.skip(1), seq![';']);
    assert(written_with(q, seq![';']) =~= t);
    assert forall|i: int| 0 <= i < q.len() implies !(#[trigger] q[i]).contains(';') by {
        assert(!p[i].contains(';'));
        if i == 0 {
            let u = q[0];
            if u.contains(';') {
                let k = choose|k: int| 0 <= k < u.len() && u[k] == ';';
                assert(k > 0);
                assert(p[0][k - 1] == ';');
            }
        } else {
            assert(q[i] == p[i]);
        }
    }
    law_split_undoes_writing(q, ';');
    assert(text::split(t, ';')[0] == seq![' '] + p[0]);
    assert(text::trim(p[0]) == x.0);
    assert(text::trim(seq![' '] + p[0]) == text::trim(p[0])) by {
        let u = seq![' '] + p[0];
        assert(u[0] == ' ');
        assert(u.skip(1) =~= p[0]);
    }
}

/// A body of no length is announced by zeros alone: each element of the list is
/// made of digits, at least one, and has the value zero.
pub proof fn law_zero_length_is_zero(items: Seq<Seq<char>>)
    requires
        items.len() > 0,
        are_items(items, ','),
    ensures
        is_zero_length(written_with(items, seq![',', ' '])) <==> forall|i: int|
            0 <= i < items.len() ==> (#[trigger] items[i]).len() > 0 && text::all_digits(items[i])
                && text::digits_value(items[i]) == 0,
{
    let value = written_with(items, seq![',', ' ']);
    law_list_is_its_elements(items, ',');
    let e = elements(value, ',');
    assert forall|i: int| 0 <= i < items.len() implies ((#[trigger] items[i] == Seq::new(
        items[i].len(),
        |j: int| '0',
    )) <==> text::all_digits(items[i]) && text::digits_value(items[i]) == 0) by {
        lemma_zeros(items[i]);
    }
    if is_zero_length(value) {
        assert forall|i: int| 0 <= i < items.len() implies (#[trigger] items[i]).len() > 0
            && text::all_digits(items[i]) && text::digits_value(items[i]) == 0 by {
            assert(e[i] == items[i]);
        }
    }
}

/// Digits have the value zero exactly where all are zero.
proof fn lemma_zeros(s: Seq<char>)
    ensures
        s == Seq::new(s.len(), |j: int| '0') <==> text::all_digits(s) && text::digits_value(s) == 0,
    decreases s.len(),
{
    let z = Seq::new(s.len(), |j: int| '0');
    if s.len() == 0 {
        assert(s =~= z);
    } else {
        let t = s.drop_last();
        lemma_zeros(t);
        if s == z {
            assert(t =~= Seq::new(t.len(), |j: int| '0'));
            assert(s.last() == z[s.len() - 1]);
            assert forall|i: int| 0 <= i < s.len() implies text::is_digit(#[trigger] s[i]) by {
                assert(z[i] == '0');
            }
        }
        if text::all_digits(s) && text::digits_value(s) == 0 {
            assert(text::is_digit(s[s.len() - 1]));
            assert forall|i: int| 0 <= i < t.len() implies text::is_digit(#[trigger] t[i]) by {
                assert(t[i] == s[i]);
            }
            assert(text::digits_value(t) == 0);
            assert forall|i: int| 0 <= i < s.len() implies s[i] == z[i] by {
                if i < t.len() {
                    assert(t[i] == Seq::new(t.len(), |j: int| '0')[i]);
                }
            }
            assert(s =~= z);
        }
    }
}

/// The subprotocol that is selected is the one that the server prefers among those
/// that the client offers: supported, offered, and none before it offered. Where
/// none is selected, none that is supported is offered.
pub proof fn law_preferred_subprotocol_is_selected(offered: Seq<char>, supported: Seq<String>)
    ensures
        match selected_subprotocol(Some(offered), supported) {
            Some(p) => exists|k: int|
                #![trigger supported[k]]
                0 <= k < supported.len() && supported[k]@ == p && lists(offered, p) && forall|j: int|
                    0 <= j < k ==> !lists(offered, (#[trigger] supported[j])@),
            None => forall|j: int|
                0 <= j < supported.len() ==> !lists(offered, (#[trigger] supported[j])@),
        },
        selected_subprotocol(None, supported) is None,
{
    lemma_first(offered, supported, 0);
    let k = first_offered(offered, supported, 0);
    if k < supported.len() {
        assert(supported[k]@ == supported[k]@);
    }
}

/// What is found first.
proof fn lemma_first(offered: Seq<char>, supported: Seq<String>, from: int)
    requires
        0 <= from <= supported.len(),
    ensures
        ({
            let k = first_offered(offered, supported, from);
            &&& from <= k <= supported.len()
            &&& k < supported.len() ==> lists(offered, supported[k]@)
            &&& forall|j: int| from <= j < k ==> !lists(offered, (#[trigger] supported[j])@)
        }),
    decreases supported.len() - from,
{
    if from < supported.len() && !lists(offered, supported[from]@) {
        lemma_first(offered, supported, from + 1);
    }
}

/// A client takes exactly a subprotocol that it offered, or none.
pub proof fn law_client_takes_what_it_offered(items: Seq<Seq<char>>, selected: Seq<char>)
    requires
        items.len() > 0,
        are_items(items, ','),
    ensures
        selected_protocol_result(Some(written_with(items, seq![',', ' '])), Some(selected)) is Ok
            <==> items.contains(selected),
        selected_protocol_result(Some(written_with(items, seq![',', ' '])), None) is Ok,
        selected_protocol_result(None, Some(selected)) == Err::<(), Error>(
            Error::HandshakeFailed("server returned an unoffered subprotocol"),
        ),
{
    law_list_is_its_elements(items, ',');
}

/// An extension is its name and its parameters, with semicolons between them: it is
/// accepted exactly where the name is a token and each parameter is accepted.
pub proof fn law_extension_is_its_parts(parts: Seq<Seq<char>>)
    requires
        parts.len() > 0,
        are_items(parts, ';'),
    ensures
        is_extension(written_with(parts, seq![';', ' '])) <==> is_token(parts[0]) && forall|i: int|
            1 <= i < parts.len() ==> is_extension_parameter(#[trigger] parts[i]),
        is_extension(written_with(parts, seq![';'])) <==> is_token(parts[0]) && forall|i: int|
            1 <= i < parts.len() ==> is_extension_parameter(#[trigger] parts[i]),
{
    law_list_is_its_elements(parts, ';');
}

/// A parameter without an equals sign is a token. One with is a token, the sign, and a
/// value: a token, or token characters in quotes, each possibly behind a backslash.
pub proof fn law_parameter_is_name_and_value(name: Seq<char>, value: Seq<char>, inner: Seq<char>)
    requires
        !name.contains('='),
    ensures
        is_extension_parameter(name) <==> is_token(name),
        is_extension_parameter(name + seq!['='] + value) <==> is_token(text::trim(name))
            && is_extension_value(text::trim(value)),
        is_token(value) ==> is_extension_value(value),
        is_extension_value(seq!['"'] + inner + seq!['"']) <==> inner.len() > 0 && is_quoted_token(
            inner,
        ),
        value.len() > 0 && value[0] != '"' ==> (is_extension_value(value) <==> is_token(value)),
        !is_extension_value(Seq::empty()),
{
    law_split_once_splits_at_the_first(name, '=', value);
    let q = seq!['"'] + inner + seq!['"'];
    assert(q.subrange(1, q.len() - 1) =~= inner);
    assert(q[0] == '"');
    assert(!is_token(q)) by {
        if is_token(q) {
            law_token_characters('"');
            assert(is_name_char(q[0]));
            assert(delimiters().contains('"'));
        }
    }
}

/// Empty elements of a list do not count: a comma in front of it or behind it changes
/// nothing. A list of nothing but them is none.
pub proof fn law_empty_elements_do_not_count(value: Seq<char>)
    ensures
        is_extension_list(value + seq![',']) <==> is_extension_list(value),
        is_extension_list(seq![','] + value) <==> is_extension_list(value),
        is_protocol_list(value + seq![',']) <==> is_protocol_list(value),
        is_protocol_list(seq![','] + value) <==> is_protocol_list(value),
        !no_empty_element(value + seq![',']),
        !no_empty_element(seq![','] + value),
{
    let none = Seq::<char>::empty();
    assert(value + seq![','] =~= value + seq![','] + none);
    assert(seq![','] + value =~= none + seq![','] + value);
    lemma_split_both(value, none, ',');
    lemma_split_both(none, value, ',');
    law_split_undoes_writing(seq![none], ',');
    assert(text::split(none, ',') == seq![none]);
    assert(is_all_white(none));
    law_trim_takes_white_space_away(none, none, none);
    assert(none + none + none =~= none);
    let e = elements(value, ',');
    let (behind, front) = (elements(value + seq![','], ','), elements(seq![','] + value, ','));
    assert(behind =~= e.push(none));
    assert(front =~= seq![none] + e);
    assert(behind[e.len() as int].len() == 0);
    assert(front[0].len() == 0);
    assert forall|i: int| 0 <= i < e.len() implies #[trigger] e[i] == behind[i] && e[i] == front[i
        + 1] by {}
    assert forall|i: int| 0 < i < front.len() implies #[trigger] front[i] == e[i - 1] by {}
    assert(some_element(value + seq![',']) <==> some_element(value)) by {
        if some_element(value) {
            let i = choose|i: int| 0 <= i < e.len() && (#[trigger] e[i]).len() > 0;
            assert(behind[i].len() > 0);
        }
        if some_element(value + seq![',']) {
            let i = choose|i: int| 0 <= i < behind.len() && (#[trigger] behind[i]).len() > 0;
            assert(e[i].len() > 0);
        }
    }
    assert(some_element(seq![','] + value) <==> some_element(value)) by {
        if some_element(value) {
            let i = choose|i: int| 0 <= i < e.len() && (#[trigger] e[i]).len() > 0;
            assert(front[i + 1].len() > 0);
        }
        if some_element(seq![','] + value) {
            let i = choose|i: int| 0 <= i < front.len() && (#[trigger] front[i]).len() > 0;
            assert(e[i - 1].len() > 0);
        }
    }
    lemma_same_lists(e, behind, 0);
    lemma_same_lists(e, front, 1);
}

/// Two lists whose elements are the same but for one empty one are alike.
proof fn lemma_same_lists(e: Seq<Seq<char>>, f: Seq<Seq<char>>, shift: int)
    requires
        shift == 0 || shift == 1,
        f.len() == e.len() + 1,
        forall|i: int| 0 <= i < e.len() ==> #[trigger] e[i] == f[i + shift],
        shift == 0 ==> f[e.len() as int].len() == 0,
        shift == 1 ==> f[0].len() == 0,
    ensures
        (forall|i: int| 0 <= i < f.len() && (#[trigger] f[i]).len() > 0 ==> is_extension(f[i])) <==> (
        forall|i: int| 0 <= i < e.len() && (#[trigger] e[i]).len() > 0 ==> is_extension(e[i])),
        (forall|i: int| 0 <= i < f.len() && (#[trigger] f[i]).len() > 0 ==> is_token(f[i])) <==> (
        forall|i: int| 0 <= i < e.len() && (#[trigger] e[i]).len() > 0 ==> is_token(e[i])),
        (forall|i: int, j: int|
            0 <= i < j < f.len() && (#[trigger] f[i]).len() > 0 ==> f[i] != #[trigger] f[j]) <==> (
        forall|i: int, j: int|
            0 <= i < j < e.len() && (#[trigger] e[i]).len() > 0 ==> e[i] != #[trigger] e[j]),
{
    assert forall|i: int| 0 <= i < f.len() && (#[trigger] f[i]).len() > 0 implies 0 <= i - shift
        < e.len() && f[i] == e[i - shift] by {
        assert(e[i - shift] == f[i - shift + shift]);
    }
    if forall|i: int| 0 <= i < f.len() && (#[trigger] f[i]).len() > 0 ==> is_extension(f[i]) {
        assert forall|i: int| 0 <= i < e.len() && (#[trigger] e[i]).len() > 0 implies is_extension(
            e[i],
        ) by {
            assert(f[i + shift].len() > 0);
        }
    }
    if forall|i: int| 0 <= i < f.len() && (#[trigger] f[i]).len() > 0 ==> is_token(f[i]) {
        assert forall|i: int| 0 <= i < e.len() && (#[trigger] e[i]).len() > 0 implies is_token(
            e[i],
        ) by {
            assert(f[i + shift].len() > 0);
        }
    }
    if forall|i: int, j: int|
        0 <= i < j < f.len() && (#[trigger] f[i]).len() > 0 ==> f[i] != #[trigger] f[j] {
        assert forall|i: int, j: int|
            0 <= i < j < e.len() && (#[trigger] e[i]).len() > 0 implies e[i] != #[trigger] e[j] by {
            assert(f[i + shift].len() > 0);
            assert(f[i + shift] != f[j + shift]);
        }
    }
    if forall|i: int, j: int|
        0 <= i < j < e.len() && (#[trigger] e[i]).len() > 0 ==> e[i] != #[trigger] e[j] {
        assert forall|i: int, j: int|
            0 <= i < j < f.len() && (#[trigger] f[i]).len() > 0 implies f[i] != #[trigger] f[j] by {
            if f[j].len() > 0 {
                assert(e[i - shift] != e[j - shift]);
            }
        }
    }
}

/// A token is one or more visible ASCII characters that separate nothing.
pub proof fn law_tokens(s: Seq<char>)
    ensures
        is_token(s) <==> s.len() > 0 && forall|i: int|
            0 <= i < s.len() ==> 33 <= (#[trigger] s[i]) as u32 <= 126 && !delimiters().contains(
                s[i],
            ),
{
    assert forall|i: int| 0 <= i < s.len() implies (is_name_char(#[trigger] s[i]) <==> 33 <= s[i] as u32
        <= 126 && !delimiters().contains(s[i])) by {
        law_token_characters(s[i]);
    }
    if is_token(s) {
        assert forall|i: int| 0 <= i < s.len() implies 33 <= (#[trigger] s[i]) as u32 <= 126
            && !delimiters().contains(s[i]) by {
            assert(is_name_char(s[i]));
        }
    }
    if s.len() > 0 && forall|i: int|
        0 <= i < s.len() ==> 33 <= (#[trigger] s[i]) as u32 <= 126 && !delimiters().contains(s[i]) {
        assert forall|i: int| 0 <= i < s.len() implies is_name_char(#[trigger] s[i]) by {
            assert(33 <= s[i] as u32);
        }
    }
}

/// A header value is any text without control characters, the tab apart; a plain one has
/// no white space around it.
pub proof fn law_header_values(s: Seq<char>)
    ensures
        crate::headers::all_value_chars(s) <==> forall|i: int|
            0 <= i < s.len() ==> (#[trigger] s[i]) as u32 == 9 || (s[i] as u32 >= 32 && s[i] as u32
                != 127),
        crate::headers::is_value_text(s) <==> s.len() > 0 && crate::headers::all_value_chars(s),
        is_plain_value(s) <==> crate::headers::all_value_chars(s) && (s.len() == 0 || (
        !text::is_white_space(s[0]) && !text::is_white_space(s.last()))),
{
    if crate::headers::all_value_chars(s) {
        assert forall|i: int| 0 <= i < s.len() implies (#[trigger] s[i]) as u32 == 9 || (s[i] as u32
            >= 32 && s[i] as u32 != 127) by {
            assert(is_value_char(s[i]));
            law_value_characters(s[i]);
        }
    }
    if forall|i: int|
        0 <= i < s.len() ==> (#[trigger] s[i]) as u32 == 9 || (s[i] as u32 >= 32 && s[i] as u32
            != 127) {
        assert forall|i: int| 0 <= i < s.len() implies is_value_char(#[trigger] s[i]) by {
            law_value_characters(s[i]);
            assert(s[i] as u32 == 9 || s[i] as u32 >= 32);
        }
    }
    let none = Seq::<char>::empty();
    assert(is_all_white(none));
    if s.len() == 0 || (!text::is_white_space(s[0]) && !text::is_white_space(s.last())) {
        law_trim_takes_white_space_away(none, s, none);
        assert(none + s + none =~= s);
    }
    if text::trim(s) == s {
        crate::text_laws::law_text_around_trim(s);
    }
}

} // verus!
