//! The syntax of header fields: tokens, comma-separated lists, subprotocol and
//! extension lists.

use crate::codec;
use crate::error::Error;
use crate::http_text;
use crate::text;
use vstd::prelude::*;
use vstd::string::*;

verus! {

/// The characters of an HTTP token.
pub open spec fn is_name_char(c: char) -> bool {
    ||| '0' <= c && c <= '9'
    ||| 'A' <= c && c <= 'Z'
    ||| 'a' <= c && c <= 'z'
    ||| c == '!' || c == '#' || c == '$' || c == '%' || c == '&' || c == '\'' || c == '*'
    ||| c == '+' || c == '-' || c == '.' || c == '^' || c == '_' || c == '`' || c == '|'
    ||| c == '~'
}

/// The characters of a field value: HTAB, visible characters, and everything
/// beyond ASCII.
pub open spec fn is_value_char(c: char) -> bool {
    c == '\t' || (c >= ' ' && c != '\x7f')
}

/// Whether every character of `s` may stand in a field value.
pub open spec fn all_value_chars(s: Seq<char>) -> bool {
    forall|i: int| 0 <= i < s.len() ==> is_value_char(#[trigger] s[i])
}

/// Whether every character of `s` may stand in a token.
pub open spec fn all_name_chars(s: Seq<char>) -> bool {
    forall|i: int| 0 <= i < s.len() ==> is_name_char(#[trigger] s[i])
}

/// An HTTP token: one or more token characters.
pub open spec fn is_token(s: Seq<char>) -> bool {
    s.len() > 0 && all_name_chars(s)
}

/// A non-empty field value.
pub open spec fn is_value_text(s: Seq<char>) -> bool {
    s.len() > 0 && all_value_chars(s)
}

/// A field value without white space at its ends.
pub open spec fn is_plain_value(s: Seq<char>) -> bool {
    all_value_chars(s) && text::trim(s) == s
}

/// The elements of a list, with the white space around them removed.
pub open spec fn elements(s: Seq<char>, sep: char) -> Seq<Seq<char>> {
    text::split(s, sep).map_values(|x: Seq<char>| text::trim(x))
}

/// Whether one of the comma-separated elements of `value` is `expected`, up to
/// the case of ASCII letters.
pub open spec fn contains_token(value: Seq<char>, expected: Seq<char>) -> bool {
    exists|i: int|
        0 <= i < elements(value, ',').len() && text::eq_ignore_ascii_case(
            #[trigger] elements(value, ',')[i],
            expected,
        )
}

/// Whether one of the comma-separated elements of `value` is exactly `item`.
pub open spec fn lists(value: Seq<char>, item: Seq<char>) -> bool {
    elements(value, ',').contains(item)
}

/// Whether every element of the comma-separated list is non-empty.
pub open spec fn no_empty_element(value: Seq<char>) -> bool {
    forall|i: int|
        0 <= i < elements(value, ',').len() ==> (#[trigger] elements(value, ',')[i]).len() > 0
}

/// Whether some element of the comma-separated list is non-empty.
pub open spec fn some_element(value: Seq<char>) -> bool {
    exists|i: int|
        0 <= i < elements(value, ',').len() && (#[trigger] elements(value, ',')[i]).len() > 0
}

/// A subprotocol list: at least one element that is not empty, each of those a
/// token, and none of them twice.
pub open spec fn is_protocol_list(value: Seq<char>) -> bool {
    let e = elements(value, ',');
    &&& some_element(value)
    &&& forall|i: int| 0 <= i < e.len() && (#[trigger] e[i]).len() > 0 ==> is_token(e[i])
    &&& forall|i: int, j: int|
        0 <= i < j < e.len() && (#[trigger] e[i]).len() > 0 ==> e[i] != #[trigger] e[j]
}

/// The content of a quoted extension value: token characters, each possibly
/// behind a backslash.
pub open spec fn is_quoted_token(s: Seq<char>) -> bool
    decreases s.len(),
{
    if s.len() == 0 {
        true
    } else if s[0] == '\\' {
        s.len() >= 2 && is_name_char(s[1]) && is_quoted_token(s.skip(2))
    } else {
        is_name_char(s[0]) && is_quoted_token(s.skip(1))
    }
}

/// The value of an extension parameter: a token, or one in double quotes.
pub open spec fn is_extension_value(s: Seq<char>) -> bool {
    ||| is_token(s)
    ||| s.len() > 2 && s[0] == '"' && s.last() == '"' && is_quoted_token(
        s.subrange(1, s.len() - 1),
    )
}

/// A parameter of an extension, with or without a value.
pub open spec fn is_extension_parameter(s: Seq<char>) -> bool {
    match text::split_once(s, '=') {
        Some((name, value)) => is_token(text::trim(name)) && is_extension_value(text::trim(value)),
        None => is_token(s),
    }
}

/// One extension: its name, then its parameters, separated by semicolons.
pub open spec fn is_extension(s: Seq<char>) -> bool {
    let parts = elements(s, ';');
    &&& is_token(parts[0])
    &&& forall|i: int| 1 <= i < parts.len() ==> is_extension_parameter(#[trigger] parts[i])
}

/// An extension list: at least one element that is not empty, and each of those
/// an extension.
pub open spec fn is_extension_list(value: Seq<char>) -> bool {
    let e = elements(value, ',');
    &&& some_element(value)
    &&& forall|i: int| 0 <= i < e.len() && (#[trigger] e[i]).len() > 0 ==> is_extension(e[i])
}

/// The name of an extension: what stands before its first semicolon.
pub open spec fn extension_name(s: Seq<char>) -> Seq<char> {
    text::trim(text::split(s, ';')[0])
}

/// A content length that announces no body: one or more zeros, or a
/// comma-separated list of such.
pub open spec fn is_zero_length(value: Seq<char>) -> bool {
    let e = elements(value, ',');
    forall|i: int|
        0 <= i < e.len() ==> (#[trigger] e[i]).len() > 0 && e[i] == Seq::new(e[i].len(), |j: int| '0')
}

/// A handshake key: the Base64 text of 16 bytes.
pub open spec fn is_websocket_key(value: Seq<char>) -> bool {
    codec::base64_bytes(value) matches Some(bytes) && bytes.len() == 16
}

/// A host: an authority without user information.
pub open spec fn is_host(value: Seq<char>) -> bool {
    !value.contains('@') && http_text::is_authority(value)
}

/// A request target in origin form.
pub open spec fn is_origin_form(value: Seq<char>) -> bool {
    &&& value.len() > 0 && value[0] == '/'
    &&& http_text::uri_of(value) matches Some(uri) && uri.scheme is None && uri.authority is None
        && uri.path_and_query == Some(value)
}

/// Whether `c` may stand in a token.
pub fn is_header_name_char(c: char) -> (r: bool)
    ensures
        r == is_name_char(c),
{
    ('0' <= c && c <= '9') || ('A' <= c && c <= 'Z') || ('a' <= c && c <= 'z') || c == '!' || c
        == '#' || c == '$' || c == '%' || c == '&' || c == '\'' || c == '*' || c == '+' || c == '-'
        || c == '.' || c == '^' || c == '_' || c == '`' || c == '|' || c == '~'
}

/// Whether `c` may stand in a field value.
pub fn is_header_value_char(c: char) -> (r: bool)
    ensures
        r == is_value_char(c),
{
    c == '\t' || (c >= ' ' && c != '\x7f')
}

/// Whether `value` consists of field value characters.
pub fn is_header_value(value: &str) -> (r: bool)
    ensures
        r == all_value_chars(value@),
{
    let chars = text::to_chars(value);
    let mut i: usize = 0;
    while i < chars.len()
        invariant
            chars@ == value@,
            i <= chars.len(),
            forall|j: int| 0 <= j < i ==> is_value_char(#[trigger] value@[j]),
        decreases chars.len() - i,
    {
        if !is_header_value_char(chars[i]) {
            assert(!is_value_char(value@[i as int]));
            return false;
        }
        i = i + 1;
    }
    true
}

/// Whether `value` is a non-empty field value.
pub fn is_valid_header_text(value: &str) -> (r: bool)
    ensures
        r == is_value_text(value@),
{
    !value.is_empty() && is_header_value(value)
}

/// Whether `value` is an HTTP token.
pub fn is_header_name_token(value: &str) -> (r: bool)
    ensures
        r == is_token(value@),
{
    let chars = text::to_chars(value);
    if chars.len() == 0 {
        return false;
    }
    let mut i: usize = 0;
    while i < chars.len()
        invariant
            chars@ == value@,
            i <= chars.len(),
            forall|j: int| 0 <= j < i ==> is_name_char(#[trigger] value@[j]),
        decreases chars.len() - i,
    {
        if !is_header_name_char(chars[i]) {
            assert(!is_name_char(value@[i as int]));
            return false;
        }
        i = i + 1;
    }
    true
}

/// The trimmed elements of a list.
pub fn list_elements<'a>(value: &'a str, sep: char) -> (r: Vec<&'a str>)
    ensures
        text::views(r@) == elements(value@, sep),
        r.len() == elements(value@, sep).len(),
        r.len() >= 1,
        forall|i: int| 0 <= i < r.len() ==> (#[trigger] r@[i])@ == elements(value@, sep)[i],
{
    let pieces = text::str_split(value, sep);
    let mut out: Vec<&'a str> = Vec::new();
    let mut i: usize = 0;
    assert(text::views(pieces@) == text::split(value@, sep));
    while i < pieces.len()
        invariant
            text::views(pieces@) == text::split(value@, sep),
            i <= pieces.len(),
            out.len() == i,
            forall|j: int| 0 <= j < i ==> (#[trigger] out@[j])@ == text::trim(pieces@[j]@),
        decreases pieces.len() - i,
    {
        out.push(text::str_trim(pieces[i]));
        i = i + 1;
    }
    proof {
        assert(text::views(pieces@).len() == pieces.len());
        assert forall|j: int| 0 <= j < out.len() implies text::views(out@)[j] == elements(
            value@,
            sep,
        )[j] by {
            assert(text::views(pieces@)[j] == pieces@[j]@);
            assert((out@[j])@ == text::trim(pieces@[j]@));
        }
        assert(text::views(out@) =~= elements(value@, sep));
        assert forall|j: int| 0 <= j < out.len() implies (#[trigger] out@[j])@ == elements(
            value@,
            sep,
        )[j] by {
            assert(text::views(out@)[j] == out@[j]@);
        }
    }
    out
}

/// Whether the comma-separated `value` contains `expected`, up to the case of
/// ASCII letters and the white space around the elements.
pub fn contains_header_token(value: &str, expected: &str) -> (r: bool)
    ensures
        r == contains_token(value@, expected@),
{
    let e = list_elements(value, ',');
    let mut i: usize = 0;
    while i < e.len()
        invariant
            e.len() == elements(value@, ',').len(),
            forall|j: int| 0 <= j < e.len() ==> (#[trigger] e@[j])@ == elements(value@, ',')[j],
            i <= e.len(),
            forall|j: int|
                0 <= j < i ==> !text::eq_ignore_ascii_case(
                    #[trigger] elements(value@, ',')[j],
                    expected@,
                ),
        decreases e.len() - i,
    {
        if text::str_eq_ignore_ascii_case(e[i], expected) {
            assert(text::eq_ignore_ascii_case(elements(value@, ',')[i as int], expected@));
            return true;
        }
        i = i + 1;
    }
    false
}

/// Whether the comma-separated `value` lists `item`.
pub fn list_contains(value: &str, item: &str) -> (r: bool)
    ensures
        r == lists(value@, item@),
{
    let e = list_elements(value, ',');
    let mut i: usize = 0;
    while i < e.len()
        invariant
            e.len() == elements(value@, ',').len(),
            forall|j: int| 0 <= j < e.len() ==> (#[trigger] e@[j])@ == elements(value@, ',')[j],
            i <= e.len(),
            forall|j: int| 0 <= j < i ==> #[trigger] elements(value@, ',')[j] != item@,
        decreases e.len() - i,
    {
        if text::str_eq(e[i], item) {
            assert(elements(value@, ',')[i as int] == item@);
            return true;
        }
        i = i + 1;
    }
    false
}

/// Whether every element of the comma-separated `value` is non-empty.
pub fn has_no_empty_element(value: &str) -> (r: bool)
    ensures
        r == no_empty_element(value@),
{
    let e = list_elements(value, ',');
    let mut i: usize = 0;
    while i < e.len()
        invariant
            e.len() == elements(value@, ',').len(),
            forall|j: int| 0 <= j < e.len() ==> (#[trigger] e@[j])@ == elements(value@, ',')[j],
            i <= e.len(),
            forall|j: int| 0 <= j < i ==> (#[trigger] elements(value@, ',')[j]).len() > 0,
        decreases e.len() - i,
    {
        if e[i].is_empty() {
            assert(elements(value@, ',')[i as int].len() == 0);
            return false;
        }
        i = i + 1;
    }
    true
}

/// Whether `value` is a handshake key.
pub fn is_valid_websocket_key(value: &str) -> (r: bool)
    ensures
        r == is_websocket_key(value@),
{
    match codec::base64_decode(value) {
        Some(bytes) => bytes.len() == 16,
        None => false,
    }
}

/// Whether `value` is a host without user information.
pub fn is_valid_host(value: &str) -> (r: bool)
    ensures
        r == is_host(value@),
{
    !text::str_contains_char(value, '@') && http_text::authority_parses(value)
}

/// Whether `value` is a request target in origin form.
pub fn is_valid_request_target(value: &str) -> (r: bool)
    ensures
        r == is_origin_form(value@),
{
    proof {
        reveal_strlit("/");
        assert("/"@.len() == 1);
        if value@.len() > 0 {
            assert("/"@.is_prefix_of(value@) <==> value@[0] == '/') by {
                assert(value@.subrange(0, 1) =~= seq![value@[0]]);
                assert("/"@ =~= seq!['/']);
                assert(seq![value@[0]][0] == value@[0]);
                assert(seq!['/'][0] == '/');
            }
        }
    }
    if !text::str_starts_with(value, "/") {
        return false;
    }
    match http_text::parse_uri(value) {
        Some(uri) => {
            if uri.scheme.is_some() || uri.authority.is_some() {
                return false;
            }
            match uri.path_and_query.as_ref() {
                Some(p) => text::str_eq(p.as_str(), value),
                None => false,
            }
        },
        None => false,
    }
}

/// Whether `value` is a subprotocol list.
///
/// Empty elements are ignored, but there must be at least one protocol, and none
/// may be repeated.
pub fn is_valid_protocol_list(value: &str) -> (r: bool)
    ensures
        r == is_protocol_list(value@),
{
    let e = list_elements(value, ',');
    let mut i: usize = 0;
    let mut found: bool = false;
    while i < e.len()
        invariant
            e.len() == elements(value@, ',').len(),
            forall|j: int| 0 <= j < e.len() ==> (#[trigger] e@[j])@ == elements(value@, ',')[j],
            i <= e.len(),
            found == (exists|j: int| 0 <= j < i && (#[trigger] elements(value@, ',')[j]).len() > 0),
            forall|j: int|
                0 <= j < i && (#[trigger] elements(value@, ',')[j]).len() > 0 ==> is_token(
                    elements(value@, ',')[j],
                ),
            forall|j: int, k: int|
                0 <= j < k < i && (#[trigger] elements(value@, ',')[j]).len() > 0 ==> elements(
                    value@,
                    ',',
                )[j] != #[trigger] elements(value@, ',')[k],
        decreases e.len() - i,
    {
        if !e[i].is_empty() {
            assert(elements(value@, ',')[i as int].len() > 0);
            if !is_header_name_token(e[i]) {
                return false;
            }
            found = true;
            let mut k: usize = 0;
            while k < i
                invariant
                    e.len() == elements(value@, ',').len(),
                    forall|j: int|
                        0 <= j < e.len() ==> (#[trigger] e@[j])@ == elements(value@, ',')[j],
                    k <= i < e.len(),
                    elements(value@, ',')[i as int].len() > 0,
                    forall|j: int|
                        0 <= j < k ==> #[trigger] elements(value@, ',')[j] != elements(
                            value@,
                            ',',
                        )[i as int],
                decreases i - k,
            {
                if text::str_eq(e[k], e[i]) {
                    assert(elements(value@, ',')[k as int] == elements(value@, ',')[i as int]);
                    return false;
                }
                k = k + 1;
            }
        }
        i = i + 1;
    }
    found
}

/// Whether `chars` from position `from` on is the content of a quoted token.
fn quoted_token_ok(chars: &Vec<char>, from: usize, to: usize) -> (r: bool)
    requires
        from <= to <= chars.len(),
    ensures
        r == is_quoted_token(chars@.subrange(from as int, to as int)),
{
    let mut i: usize = from;
    while i < to
        invariant
            from <= i <= to <= chars.len(),
            is_quoted_token(chars@.subrange(from as int, to as int)) == is_quoted_token(
                chars@.subrange(i as int, to as int),
            ),
        decreases to - i,
    {
        let ghost rest = chars@.subrange(i as int, to as int);
        if chars[i] == '\\' {
            if i + 1 >= to {
                return false;
            }
            assert(rest[1] == chars@[i + 1]);
            if !is_header_name_char(chars[i + 1]) {
                return false;
            }
            assert(rest.skip(2) =~= chars@.subrange(i + 2, to as int));
            i = i + 2;
        } else {
            if !is_header_name_char(chars[i]) {
                return false;
            }
            assert(rest.skip(1) =~= chars@.subrange(i + 1, to as int));
            i = i + 1;
        }
    }
    true
}

/// Whether `value` may stand behind the equals sign of an extension parameter.
pub fn is_valid_extension_value(value: &str) -> (r: bool)
    ensures
        r == is_extension_value(value@),
{
    if is_header_name_token(value) {
        return true;
    }
    let chars = text::to_chars(value);
    let n: usize = chars.len();
    if n <= 2 || chars[0] != '"' || chars[n - 1] != '"' {
        return false;
    }
    quoted_token_ok(&chars, 1, n - 1)
}

/// Whether `parameter` is an extension parameter.
pub fn is_valid_extension_parameter(parameter: &str) -> (r: bool)
    ensures
        r == is_extension_parameter(parameter@),
{
    match text::str_split_once(parameter, '=') {
        Some((name, value)) => is_header_name_token(text::str_trim(name))
            && is_valid_extension_value(text::str_trim(value)),
        None => is_header_name_token(parameter),
    }
}

/// Whether `extension` is one extension with its parameters.
pub fn is_valid_extension(extension: &str) -> (r: bool)
    ensures
        r == is_extension(extension@),
{
    let parts = list_elements(extension, ';');
    if !is_header_name_token(parts[0]) {
        return false;
    }
    let mut i: usize = 1;
    while i < parts.len()
        invariant
            parts.len() == elements(extension@, ';').len(),
            forall|j: int|
                0 <= j < parts.len() ==> (#[trigger] parts@[j])@ == elements(extension@, ';')[j],
            1 <= i <= parts.len(),
            is_token(elements(extension@, ';')[0]),
            forall|j: int|
                1 <= j < i ==> is_extension_parameter(#[trigger] elements(extension@, ';')[j]),
        decreases parts.len() - i,
    {
        if !is_valid_extension_parameter(parts[i]) {
            assert(!is_extension_parameter(elements(extension@, ';')[i as int]));
            return false;
        }
        i = i + 1;
    }
    true
}

/// Whether `value` is an extension list.
pub fn is_valid_extension_list(value: &str) -> (r: bool)
    ensures
        r == is_extension_list(value@),
{
    let e = list_elements(value, ',');
    let mut i: usize = 0;
    let mut found: bool = false;
    while i < e.len()
        invariant
            e.len() == elements(value@, ',').len(),
            forall|j: int| 0 <= j < e.len() ==> (#[trigger] e@[j])@ == elements(value@, ',')[j],
            i <= e.len(),
            found == (exists|j: int| 0 <= j < i && (#[trigger] elements(value@, ',')[j]).len() > 0),
            forall|j: int|
                0 <= j < i && (#[trigger] elements(value@, ',')[j]).len() > 0 ==> is_extension(
                    elements(value@, ',')[j],
                ),
        decreases e.len() - i,
    {
        if !e[i].is_empty() {
            assert(elements(value@, ',')[i as int].len() > 0);
            if !is_valid_extension(e[i]) {
                return false;
            }
            found = true;
        }
        i = i + 1;
    }
    found
}

/// Whether `value` announces that no body follows.
pub fn is_zero_content_length(value: &str) -> (r: bool)
    ensures
        r == is_zero_length(value@),
{
    let e = list_elements(value, ',');
    let mut i: usize = 0;
    while i < e.len()
        invariant
            e.len() == elements(value@, ',').len(),
            forall|j: int| 0 <= j < e.len() ==> (#[trigger] e@[j])@ == elements(value@, ',')[j],
            i <= e.len(),
            forall|j: int|
                0 <= j < i ==> (#[trigger] elements(value@, ',')[j]).len() > 0 && elements(
                    value@,
                    ',',
                )[j] == Seq::new(elements(value@, ',')[j].len(), |k: int| '0'),
        decreases e.len() - i,
    {
        let ghost x = elements(value@, ',')[i as int];
        let chars = text::to_chars(e[i]);
        if chars.len() == 0 {
            return false;
        }
        let mut k: usize = 0;
        while k < chars.len()
            invariant
                chars@ == x,
                i < elements(value@, ',').len(),
                x == elements(value@, ',')[i as int],
                k <= chars.len(),
                forall|j: int| 0 <= j < k ==> #[trigger] x[j] == '0',
            decreases chars.len() - k,
        {
            if chars[k] != '0' {
                assert(Seq::new(x.len(), |j: int| '0')[k as int] != x[k as int]);
                return false;
            }
            k = k + 1;
        }
        assert(x =~= Seq::new(x.len(), |j: int| '0'));
        i = i + 1;
    }
    true
}

/// The error for a subprotocol that was not offered.
pub open spec fn selected_protocol_result(
    offered: Option<Seq<char>>,
    selected: Option<Seq<char>>,
) -> Result<(), Error> {
    match (selected, offered) {
        (None, _) => Ok(()),
        (Some(s), Some(o)) if lists(o, s) => Ok(()),
        _ => Err(Error::HandshakeFailed("server returned an unoffered subprotocol")),
    }
}

/// Checks that the selected subprotocol was offered.
pub fn validate_selected_protocol(offered: Option<&str>, selected: Option<&str>) -> (r: Result<
    (),
    Error,
>)
    ensures
        r == selected_protocol_result(http_text::opt_view(offered), http_text::opt_view(selected)),
{
    let selected = match selected {
        Some(s) => s,
        None => {
            return Ok(());
        },
    };
    let offered = match offered {
        Some(o) => o,
        None => {
            return Err(Error::HandshakeFailed("server returned an unoffered subprotocol"));
        },
    };
    if list_contains(offered, selected) {
        Ok(())
    } else {
        Err(Error::HandshakeFailed("server returned an unoffered subprotocol"))
    }
}

/// Whether an extension of the name `name` was offered.
pub open spec fn offers_extension(offered: Seq<char>, name: Seq<char>) -> bool {
    exists|i: int|
        0 <= i < text::split(offered, ',').len() && extension_name(
            #[trigger] text::split(offered, ',')[i],
        ) == name
}

/// Whether every selected extension was offered.
pub open spec fn all_extensions_offered(offered: Seq<char>, selected: Seq<char>) -> bool {
    let e = elements(selected, ',');
    forall|i: int|
        0 <= i < e.len() && (#[trigger] e[i]).len() > 0 ==> offers_extension(
            offered,
            extension_name(e[i]),
        )
}

/// The verdict on the extensions that were selected.
pub open spec fn selected_extensions_result(
    offered: Option<Seq<char>>,
    selected: Option<Seq<char>>,
) -> Result<(), Error> {
    match selected {
        None => Ok(()),
        Some(s) => if !is_extension_list(s) {
            Err(Error::HandshakeFailed("invalid selected extension"))
        } else if offered matches Some(o) && all_extensions_offered(o, s) {
            Ok(())
        } else {
            Err(Error::HandshakeFailed("server selected an unoffered extension"))
        },
    }
}

/// The name of an extension: what stands before its first semicolon.
fn name_of_extension<'a>(extension: &'a str) -> (r: &'a str)
    ensures
        r@ == extension_name(extension@),
{
    let parts = text::str_split(extension, ';');
    assert(text::views(parts@)[0] == parts@[0]@);
    text::str_trim(parts[0])
}

/// Whether an extension of the name `name` was offered.
fn extension_is_offered(offered: &str, name: &str) -> (r: bool)
    ensures
        r == offers_extension(offered@, name@),
{
    let pieces = text::str_split(offered, ',');
    let mut i: usize = 0;
    assert(text::views(pieces@).len() == pieces.len());
    while i < pieces.len()
        invariant
            text::views(pieces@) == text::split(offered@, ','),
            text::views(pieces@).len() == pieces.len(),
            i <= pieces.len(),
            forall|j: int|
                0 <= j < i ==> extension_name(#[trigger] text::split(offered@, ',')[j]) != name@,
        decreases pieces.len() - i,
    {
        assert(text::views(pieces@)[i as int] == pieces@[i as int]@);
        let offered_name = name_of_extension(pieces[i]);
        if text::str_eq(offered_name, name) {
            assert(extension_name(text::split(offered@, ',')[i as int]) == name@);
            return true;
        }
        i = i + 1;
    }
    false
}

/// Checks that the selected extensions are well formed and were offered.
pub fn validate_selected_extensions(offered: Option<&str>, selected: Option<&str>) -> (r: Result<
    (),
    Error,
>)
    ensures
        r == selected_extensions_result(http_text::opt_view(offered), http_text::opt_view(selected)),
{
    let chosen = match selected {
        Some(s) => s,
        None => {
            return Ok(());
        },
    };
    if !is_valid_extension_list(chosen) {
        return Err(Error::HandshakeFailed("invalid selected extension"));
    }
    let offer = match offered {
        Some(o) => o,
        None => {
            return Err(Error::HandshakeFailed("server selected an unoffered extension"));
        },
    };
    let e = list_elements(chosen, ',');
    let mut i: usize = 0;
    while i < e.len()
        invariant
            selected == Some(chosen),
            offered == Some(offer),
            is_extension_list(chosen@),
            e.len() == elements(chosen@, ',').len(),
            forall|j: int| 0 <= j < e.len() ==> (#[trigger] e@[j])@ == elements(chosen@, ',')[j],
            i <= e.len(),
            forall|j: int|
                0 <= j < i && (#[trigger] elements(chosen@, ',')[j]).len() > 0
                    ==> offers_extension(offer@, extension_name(elements(chosen@, ',')[j])),
        decreases e.len() - i,
    {
        if !e[i].is_empty() {
            let name = name_of_extension(e[i]);
            if !extension_is_offered(offer, name) {
                assert(!offers_extension(
                    offer@,
                    extension_name(elements(chosen@, ',')[i as int]),
                ));
                assert(!all_extensions_offered(offer@, chosen@));
                return Err(Error::HandshakeFailed("server selected an unoffered extension"));
            }
        }
        i = i + 1;
    }
    Ok(())
}

/// Every protocol that a server supports must be a token.
pub open spec fn supported_protocols_ok(protocols: Seq<String>) -> bool {
    forall|i: int| 0 <= i < protocols.len() ==> is_token((#[trigger] protocols[i])@)
}

/// Checks the subprotocols that a server is configured with.
pub fn validate_supported_protocols(protocols: &[String]) -> (r: Result<(), Error>)
    ensures
        r == (if supported_protocols_ok(protocols@) {
            Ok(())
        } else {
            Err(Error::InvalidHttp("invalid supported subprotocol"))
        }),
{
    let mut i: usize = 0;
    while i < protocols.len()
        invariant
            i <= protocols.len(),
            forall|j: int| 0 <= j < i ==> is_token((#[trigger] protocols@[j])@),
        decreases protocols.len() - i,
    {
        if !is_header_name_token(protocols[i].as_str()) {
            assert(!is_token(protocols@[i as int]@));
            return Err(Error::InvalidHttp("invalid supported subprotocol"));
        }
        i = i + 1;
    }
    Ok(())
}

/// The position, from `from` on, of the first supported subprotocol that the
/// client offered, or the number of supported ones.
pub open spec fn first_offered(offered: Seq<char>, supported: Seq<String>, from: int) -> int
    decreases supported.len() - from,
{
    if from < 0 || from >= supported.len() {
        supported.len() as int
    } else if lists(offered, supported[from]@) {
        from
    } else {
        first_offered(offered, supported, from + 1)
    }
}

/// The subprotocol that a server with the given preferences selects.
pub open spec fn selected_subprotocol(
    offered: Option<Seq<char>>,
    supported: Seq<String>,
) -> Option<Seq<char>> {
    match offered {
        Some(o) => {
            let k = first_offered(o, supported, 0);
            if 0 <= k < supported.len() {
                Some(supported[k]@)
            } else {
                None
            }
        },
        None => None,
    }
}

/// Selects the first supported subprotocol that the client offered.
pub fn select_subprotocol<'a>(offered: Option<&str>, supported: &'a [String]) -> (r: Option<
    &'a str,
>)
    ensures
        http_text::opt_view(r) == selected_subprotocol(http_text::opt_view(offered), supported@),
{
    let offer = match offered {
        Some(o) => o,
        None => {
            return None;
        },
    };
    let mut i: usize = 0;
    while i < supported.len()
        invariant
            offered == Some(offer),
            i <= supported.len(),
            first_offered(offer@, supported@, 0) == first_offered(offer@, supported@, i as int),
        decreases supported.len() - i,
    {
        if list_contains(offer, supported[i].as_str()) {
            return Some(supported[i].as_str());
        }
        i = i + 1;
    }
    None
}

/// What `first_offered` finds is offered.
proof fn lemma_first_offered(offered: Seq<char>, supported: Seq<String>, from: int)
    requires
        0 <= from <= supported.len(),
    ensures
        from <= first_offered(offered, supported, from) <= supported.len(),
        first_offered(offered, supported, from) < supported.len() ==> lists(
            offered,
            supported[first_offered(offered, supported, from)]@,
        ),
    decreases supported.len() - from,
{
    if from < supported.len() && !lists(offered, supported[from]@) {
        lemma_first_offered(offered, supported, from + 1);
    }
}

/// What `select_subprotocol` picks always passes `validate_selected_protocol`.
pub proof fn law_selected_protocol_is_offered(offered: Option<Seq<char>>, supported: Seq<String>)
    ensures
        selected_protocol_result(offered, selected_subprotocol(offered, supported)) == Ok::<
            (),
            Error,
        >(()),
{
    if let Some(o) = offered {
        lemma_first_offered(o, supported, 0);
    }
}

} // verus!
