//! Text handling shared by the handshake and the extension negotiation.
//!
//! Every function works on the characters of a string: `s@` is the sequence of
//! `char`s, and the specification functions below say what splitting, trimming
//! and caseless comparison mean on such sequences.

use vstd::prelude::*;
use vstd::string::*;

verus! {

/// The Unicode `White_Space` property.
pub open spec fn is_white_space(c: char) -> bool {
    let n = c as u32;
    ||| 0x09 <= n <= 0x0d
    ||| n == 0x20
    ||| n == 0x85
    ||| n == 0xa0
    ||| n == 0x1680
    ||| 0x2000 <= n <= 0x200a
    ||| n == 0x2028
    ||| n == 0x2029
    ||| n == 0x202f
    ||| n == 0x205f
    ||| n == 0x3000
}

/// `s` without its leading white space.
pub open spec fn trim_start(s: Seq<char>) -> Seq<char>
    decreases s.len(),
{
    if s.len() > 0 && is_white_space(s[0]) {
        trim_start(s.skip(1))
    } else {
        s
    }
}

/// `s` without its trailing white space.
pub open spec fn trim_end(s: Seq<char>) -> Seq<char>
    decreases s.len(),
{
    if s.len() > 0 && is_white_space(s.last()) {
        trim_end(s.drop_last())
    } else {
        s
    }
}

/// `s` without leading and trailing white space.
pub open spec fn trim(s: Seq<char>) -> Seq<char> {
    trim_end(trim_start(s))
}

/// The position of the first `sep` at or after `from`, or the length of `s`.
pub open spec fn find_from(s: Seq<char>, sep: char, from: int) -> int
    decreases s.len() - from,
{
    if from < 0 || from >= s.len() {
        s.len() as int
    } else if s[from] == sep {
        from
    } else {
        find_from(s, sep, from + 1)
    }
}

/// The pieces of `s` between the occurrences of `sep`, in order.
///
/// There is always at least one piece; adjacent separators give empty ones.
pub open spec fn split(s: Seq<char>, sep: char) -> Seq<Seq<char>>
    decreases s.len(),
{
    let i = find_from(s, sep, 0);
    if 0 <= i < s.len() {
        seq![s.take(i)] + split(s.skip(i + 1), sep)
    } else {
        seq![s]
    }
}

/// What stands before and after the first `sep`, where there is one.
pub open spec fn split_once(s: Seq<char>, sep: char) -> Option<(Seq<char>, Seq<char>)> {
    let i = find_from(s, sep, 0);
    if 0 <= i < s.len() {
        Some((s.take(i), s.skip(i + 1)))
    } else {
        None
    }
}

/// `c` with the letters A to Z mapped to a to z.
pub open spec fn ascii_lower(c: char) -> char {
    if 'A' <= c && c <= 'Z' {
        ((c as u8) + 32) as u8 as char
    } else {
        c
    }
}

/// Equality up to the case of ASCII letters.
pub open spec fn eq_ignore_ascii_case(a: Seq<char>, b: Seq<char>) -> bool {
    a.len() == b.len() && forall|i: int|
        0 <= i < a.len() ==> ascii_lower(#[trigger] a[i]) == ascii_lower(b[i])
}

/// The views of a list of string slices.
pub open spec fn views(v: Seq<&str>) -> Seq<Seq<char>> {
    v.map_values(|s: &str| s@)
}

/// Decides the Unicode `White_Space` property.
pub fn char_is_white_space(c: char) -> (r: bool)
    ensures
        r == is_white_space(c),
{
    let n: u32 = c as u32;
    (0x09 <= n && n <= 0x0d) || n == 0x20 || n == 0x85 || n == 0xa0 || n == 0x1680 || (0x2000 <= n
        && n <= 0x200a) || n == 0x2028 || n == 0x2029 || n == 0x202f || n == 0x205f || n == 0x3000
}

/// The characters of `s`.
pub fn to_chars(s: &str) -> (r: Vec<char>)
    ensures
        r@ == s@,
{
    let mut out: Vec<char> = Vec::new();
    for c in it: s.chars()
        invariant
            it.seq() == s@,
            out@ == s@.take(it.index()),
    {
        out.push(c);
        assert(s@.take(it.index() + 1) =~= s@.take(it.index()).push(c));
    }
    assert(s@.take(s@.len() as int) =~= s@);
    out
}

/// Lower-cases one ASCII letter and keeps every other character.
pub fn char_ascii_lower(c: char) -> (r: char)
    ensures
        r == ascii_lower(c),
{
    if 'A' <= c && c <= 'Z' {
        ((c as u8) + 32) as char
    } else {
        c
    }
}

/// Compares two strings up to the case of ASCII letters.
pub fn str_eq_ignore_ascii_case(a: &str, b: &str) -> (r: bool)
    ensures
        r == eq_ignore_ascii_case(a@, b@),
{
    let x = to_chars(a);
    let y = to_chars(b);
    if x.len() != y.len() {
        return false;
    }
    let mut i: usize = 0;
    while i < x.len()
        invariant
            x@ == a@,
            y@ == b@,
            x.len() == y.len(),
            i <= x.len(),
            forall|j: int| 0 <= j < i ==> ascii_lower(#[trigger] a@[j]) == ascii_lower(b@[j]),
        decreases x.len() - i,
    {
        if char_ascii_lower(x[i]) != char_ascii_lower(y[i]) {
            assert(ascii_lower(a@[i as int]) != ascii_lower(b@[i as int]));
            return false;
        }
        i = i + 1;
    }
    true
}

/// Compares two strings.
pub fn str_eq(a: &str, b: &str) -> (r: bool)
    ensures
        r == (a@ == b@),
{
    let x = to_chars(a);
    let y = to_chars(b);
    if x.len() != y.len() {
        return false;
    }
    let mut i: usize = 0;
    while i < x.len()
        invariant
            x@ == a@,
            y@ == b@,
            x.len() == y.len(),
            i <= x.len(),
            forall|j: int| 0 <= j < i ==> #[trigger] a@[j] == b@[j],
        decreases x.len() - i,
    {
        if x[i] != y[i] {
            return false;
        }
        i = i + 1;
    }
    assert(a@ =~= b@);
    true
}

/// Trimming the front drops exactly the white space before position `k`.
pub proof fn lemma_trim_start(s: Seq<char>, k: int)
    requires
        0 <= k <= s.len(),
        forall|j: int| 0 <= j < k ==> is_white_space(#[trigger] s[j]),
        k < s.len() ==> !is_white_space(s[k]),
    ensures
        trim_start(s) == s.skip(k),
    decreases k,
{
    if k > 0 {
        assert(is_white_space(s[0]));
        let t = s.skip(1);
        assert forall|j: int| 0 <= j < k - 1 implies is_white_space(#[trigger] t[j]) by {
            assert(t[j] == s[j + 1]);
        }
        if k < s.len() {
            assert(t[k - 1] == s[k]);
        }
        lemma_trim_start(t, k - 1);
        assert(t.skip(k - 1) =~= s.skip(k));
    } else {
        assert(s.skip(0) =~= s);
    }
}

/// Trimming the end drops exactly the white space from position `k` on.
pub proof fn lemma_trim_end(s: Seq<char>, k: int)
    requires
        0 <= k <= s.len(),
        forall|j: int| k <= j < s.len() ==> is_white_space(#[trigger] s[j]),
        k > 0 ==> !is_white_space(s[k - 1]),
    ensures
        trim_end(s) == s.take(k),
    decreases s.len() - k,
{
    if k < s.len() {
        assert(is_white_space(s[s.len() - 1]));
        let t = s.drop_last();
        assert forall|j: int| k <= j < t.len() implies is_white_space(#[trigger] t[j]) by {
            assert(t[j] == s[j]);
        }
        lemma_trim_end(t, k);
        assert(t.take(k) =~= s.take(k));
    } else {
        assert(s.take(k) =~= s);
    }
}

/// A text that trimming leaves as it is has no white space at its ends.
pub proof fn lemma_trimmed_ends(s: Seq<char>)
    requires
        trim(s) == s,
        s.len() > 0,
    ensures
        !is_white_space(s[0]),
        !is_white_space(s.last()),
{
    lemma_trim_len(s);
    if is_white_space(s[0]) {
        lemma_trim_len(s.skip(1));
    } else {
        assert(trim_start(s) == s);
        if is_white_space(s.last()) {
            lemma_trim_len(s.drop_last());
        }
    }
}

/// Trimming makes nothing longer.
proof fn lemma_trim_len(s: Seq<char>)
    ensures
        trim_start(s).len() <= s.len(),
        trim_end(s).len() <= s.len(),
        trim(s).len() <= trim_start(s).len(),
    decreases s.len(),
{
    if s.len() > 0 {
        lemma_trim_len(s.skip(1));
        lemma_trim_len(s.drop_last());
    }
    if trim_start(s).len() < s.len() {
        lemma_trim_len(trim_start(s));
    }
}

/// Trimming leaves a text without white space at its ends as it is.
pub proof fn lemma_trim_plain(s: Seq<char>)
    requires
        s.len() > 0 ==> !is_white_space(s[0]) && !is_white_space(s.last()),
    ensures
        trim(s) == s,
{
}

/// Removes leading white space.
pub fn str_trim_start<'a>(s: &'a str) -> (r: &'a str)
    ensures
        r@ == trim_start(s@),
{
    let chars = to_chars(s);
    let n: usize = chars.len();
    let mut a: usize = 0;
    while a < n && char_is_white_space(chars[a])
        invariant
            chars@ == s@,
            n == chars.len(),
            a <= n,
            forall|j: int| 0 <= j < a ==> is_white_space(#[trigger] s@[j]),
        decreases n - a,
    {
        a = a + 1;
    }
    proof {
        lemma_trim_start(s@, a as int);
        assert(s@.skip(a as int) =~= s@.subrange(a as int, n as int));
    }
    s.substring_char(a, n)
}

/// Removes leading and trailing white space.
pub fn str_trim<'a>(s: &'a str) -> (r: &'a str)
    ensures
        r@ == trim(s@),
{
    let chars = to_chars(s);
    let n: usize = chars.len();
    let mut a: usize = 0;
    while a < n && char_is_white_space(chars[a])
        invariant
            chars@ == s@,
            n == chars.len(),
            a <= n,
            forall|j: int| 0 <= j < a ==> is_white_space(#[trigger] s@[j]),
        decreases n - a,
    {
        a = a + 1;
    }
    let mut b: usize = n;
    while b > a && char_is_white_space(chars[b - 1])
        invariant
            chars@ == s@,
            n == chars.len(),
            a <= b <= n,
            forall|j: int| b <= j < n ==> is_white_space(#[trigger] s@[j]),
        decreases b,
    {
        b = b - 1;
    }
    proof {
        lemma_trim_start(s@, a as int);
        let t = s@.skip(a as int);
        assert forall|j: int| b - a <= j < t.len() implies is_white_space(#[trigger] t[j]) by {
            assert(t[j] == s@[j + a]);
        }
        if b > a {
            assert(t[b - a - 1] == s@[b - 1]);
        }
        lemma_trim_end(t, b - a);
        assert(t.take(b - a) =~= s@.subrange(a as int, b as int));
    }
    s.substring_char(a, b)
}

/// `find_from` gives the least position that holds `sep`.
pub proof fn lemma_find_from(s: Seq<char>, sep: char, from: int, k: int)
    requires
        0 <= from <= k <= s.len(),
        forall|j: int| from <= j < k ==> #[trigger] s[j] != sep,
        k < s.len() ==> s[k] == sep,
    ensures
        find_from(s, sep, from) == k,
    decreases k - from,
{
    if from < k {
        assert(s[from] != sep);
        lemma_find_from(s, sep, from + 1, k);
    }
}

/// What `find_from` finds.
pub proof fn lemma_find_range(s: Seq<char>, sep: char, from: int)
    requires
        0 <= from <= s.len(),
    ensures
        from <= find_from(s, sep, from) <= s.len(),
        forall|j: int| from <= j < find_from(s, sep, from) ==> #[trigger] s[j] != sep,
        find_from(s, sep, from) < s.len() ==> s[find_from(s, sep, from)] == sep,
    decreases s.len() - from,
{
    if from < s.len() && s[from] != sep {
        lemma_find_range(s, sep, from + 1);
    }
}

/// Splits `s` at every `sep`.
pub fn str_split<'a>(s: &'a str, sep: char) -> (r: Vec<&'a str>)
    ensures
        views(r@) == split(s@, sep),
        r.len() >= 1,
{
    let chars = to_chars(s);
    let n: usize = chars.len();
    let mut out: Vec<&'a str> = Vec::new();
    let mut start: usize = 0;
    let mut i: usize = 0;
    proof {
        assert(s@.skip(0) =~= s@);
        assert(views(out@) + split(s@, sep) =~= split(s@, sep));
    }
    while i < n
        invariant
            chars@ == s@,
            n == chars.len(),
            start <= i <= n,
            forall|j: int| start <= j < i ==> #[trigger] s@[j] != sep,
            views(out@) + split(s@.skip(start as int), sep) == split(s@, sep),
        decreases n - i,
    {
        if chars[i] == sep {
            let piece = s.substring_char(start, i);
            proof {
                let t = s@.skip(start as int);
                assert forall|j: int| 0 <= j < i - start implies #[trigger] t[j] != sep by {
                    assert(t[j] == s@[j + start]);
                }
                assert(t[i - start] == s@[i as int]);
                lemma_find_from(t, sep, 0, i - start);
                assert(t.take(i - start) =~= piece@);
                assert(t.skip(i - start + 1) =~= s@.skip(i + 1));
                assert(split(t, sep) == seq![piece@] + split(s@.skip(i + 1), sep));
                assert(views(out@.push(piece)) =~= views(out@).push(piece@));
                assert(views(out@).push(piece@) + split(s@.skip(i + 1), sep) =~= views(out@) + (
                seq![piece@] + split(s@.skip(i + 1), sep)));
            }
            out.push(piece);
            start = i + 1;
        }
        i = i + 1;
    }
    let piece = s.substring_char(start, n);
    proof {
        let t = s@.skip(start as int);
        assert forall|j: int| 0 <= j < t.len() implies #[trigger] t[j] != sep by {
            assert(t[j] == s@[j + start]);
        }
        lemma_find_from(t, sep, 0, t.len() as int);
        assert(t =~= piece@);
        assert(views(out@.push(piece)) =~= views(out@) + seq![piece@]);
    }
    out.push(piece);
    out
}

/// Splits `s` at the first `sep`.
pub fn str_split_once<'a>(s: &'a str, sep: char) -> (r: Option<(&'a str, &'a str)>)
    ensures
        match (r, split_once(s@, sep)) {
            (Some((a, b)), Some((x, y))) => a@ == x && b@ == y,
            (None, None) => true,
            _ => false,
        },
{
    let chars = to_chars(s);
    let n: usize = chars.len();
    let mut i: usize = 0;
    while i < n
        invariant
            chars@ == s@,
            n == chars.len(),
            i <= n,
            forall|j: int| 0 <= j < i ==> #[trigger] s@[j] != sep,
        decreases n - i,
    {
        if chars[i] == sep {
            proof {
                lemma_find_from(s@, sep, 0, i as int);
                assert(s@.take(i as int) =~= s@.subrange(0, i as int));
                assert(s@.skip(i + 1) =~= s@.subrange(i + 1, n as int));
            }
            return Some((s.substring_char(0, i), s.substring_char(i + 1, n)));
        }
        i = i + 1;
    }
    proof {
        lemma_find_from(s@, sep, 0, n as int);
    }
    None
}

/// Decides whether `c` occurs in `s`.
pub fn str_contains_char(s: &str, c: char) -> (r: bool)
    ensures
        r == s@.contains(c),
{
    let chars = to_chars(s);
    let mut i: usize = 0;
    while i < chars.len()
        invariant
            chars@ == s@,
            i <= chars.len(),
            forall|j: int| 0 <= j < i ==> #[trigger] s@[j] != c,
        decreases chars.len() - i,
    {
        if chars[i] == c {
            return true;
        }
        i = i + 1;
    }
    false
}

/// Decides whether `s` starts with `prefix`.
pub fn str_starts_with(s: &str, prefix: &str) -> (r: bool)
    ensures
        r == prefix@.is_prefix_of(s@),
{
    let a = to_chars(s);
    let b = to_chars(prefix);
    if b.len() > a.len() {
        return false;
    }
    let mut i: usize = 0;
    while i < b.len()
        invariant
            a@ == s@,
            b@ == prefix@,
            i <= b.len() <= a.len(),
            forall|j: int| 0 <= j < i ==> #[trigger] a@[j] == b@[j],
        decreases b.len() - i,
    {
        if a[i] != b[i] {
            assert(a@.subrange(0, b@.len() as int)[i as int] != b@[i as int]);
            return false;
        }
        i = i + 1;
    }
    assert(a@.subrange(0, b@.len() as int) =~= b@);
    true
}

/// `s` without its first `n` characters.
pub fn str_skip<'a>(s: &'a str, n: usize) -> (r: &'a str)
    requires
        n <= s@.len(),
    ensures
        r@ == s@.skip(n as int),
{
    let len: usize = s.unicode_len();
    assert(s@.skip(n as int) =~= s@.subrange(n as int, len as int));
    s.substring_char(n, len)
}

/// The decimal digits of `n`, most significant first, without leading zeros.
pub open spec fn decimal(n: nat) -> Seq<char>
    decreases n,
{
    if n < 10 {
        seq![digit_char(n)]
    } else {
        decimal(n / 10).push(digit_char(n % 10))
    }
}

/// The digit that stands for `d`.
pub open spec fn digit_char(d: nat) -> char {
    (0x30 + d) as u8 as char
}

/// Writes `n` in decimal.
pub fn u64_to_decimal(n: u64) -> (r: String)
    ensures
        r@ == decimal(n as nat),
{
    u128_to_decimal(n as u128)
}

/// Writes `n` in decimal.
pub fn u128_to_decimal(n: u128) -> (r: String)
    ensures
        r@ == decimal(n as nat),
    decreases n,
{
    let digits = "0123456789";
    proof {
        reveal_strlit("0123456789");
    }
    let d: usize = (n % 10) as usize;
    let last = digits.substring_char(d, d + 1);
    assert(last@ =~= seq![digit_char((n % 10) as nat)]);
    if n < 10 {
        last.to_owned()
    } else {
        let mut s = u128_to_decimal(n / 10);
        s.append(last);
        assert(s@ =~= decimal((n / 10) as nat).push(digit_char((n % 10) as nat)));
        s
    }
}

/// The value of a sequence of decimal digits.
pub open spec fn digits_value(s: Seq<char>) -> nat
    decreases s.len(),
{
    if s.len() == 0 {
        0
    } else {
        digits_value(s.drop_last()) * 10 + (s.last() as u32 - 0x30) as nat
    }
}

/// Whether `c` is one of 0 to 9.
pub open spec fn is_digit(c: char) -> bool {
    '0' <= c && c <= '9'
}

/// Whether every character of `s` is a digit.
pub open spec fn all_digits(s: Seq<char>) -> bool {
    forall|i: int| 0 <= i < s.len() ==> is_digit(#[trigger] s[i])
}

/// The number that `s` writes down, where it is a `u8`: an optional plus sign
/// and at least one decimal digit.
pub open spec fn u8_from_text(s: Seq<char>) -> Option<u8> {
    let d = if s.len() > 0 && s[0] == '+' {
        s.skip(1)
    } else {
        s
    };
    if d.len() > 0 && all_digits(d) && digits_value(d) <= 255 {
        Some(digits_value(d) as u8)
    } else {
        None
    }
}

/// The value of a longer digit sequence is at least that of its prefix.
proof fn lemma_digits_value_monotone(s: Seq<char>, k: int)
    requires
        0 <= k <= s.len(),
        forall|i: int| 0 <= i < s.len() ==> is_digit(#[trigger] s[i]),
    ensures
        digits_value(s.take(k)) <= digits_value(s),
    decreases s.len() - k,
{
    if k < s.len() {
        let t = s.drop_last();
        assert forall|i: int| 0 <= i < t.len() implies is_digit(#[trigger] t[i]) by {
            assert(t[i] == s[i]);
        }
        lemma_digits_value_monotone(t, k);
        assert(t.take(k) =~= s.take(k));
        assert(is_digit(s[s.len() - 1]));
    } else {
        assert(s.take(k) =~= s);
    }
}

/// Reads a `u8` in decimal.
pub fn parse_u8(s: &str) -> (r: Option<u8>)
    ensures
        r == u8_from_text(s@),
{
    let chars = to_chars(s);
    let n: usize = chars.len();
    let start: usize = if n > 0 && chars[0] == '+' {
        1
    } else {
        0
    };
    let ghost d = s@.skip(start as int);
    assert(s@.skip(0) =~= s@);
    if start == n {
        return None;
    }
    let mut i: usize = start;
    let mut value: u32 = 0;
    assert(d.take(0) =~= Seq::empty());
    while i < n
        invariant
            chars@ == s@,
            n == chars.len(),
            start <= i <= n,
            start <= 1,
            d == s@.skip(start as int),
            d.len() > 0,
            d == (if s@.len() > 0 && s@[0] == '+' { s@.skip(1) } else { s@ }),
            value <= 255,
            value == digits_value(d.take(i - start)),
            forall|j: int| 0 <= j < i - start ==> is_digit(#[trigger] d[j]),
        decreases n - i,
    {
        let c = chars[i];
        assert(d[i - start] == c);
        if !('0' <= c && c <= '9') {
            assert(!is_digit(d[i - start]));
            return None;
        }
        let next: u32 = value * 10 + (c as u32 - 0x30);
        proof {
            let t = d.take(i - start + 1);
            assert(t.drop_last() =~= d.take(i - start));
            assert(digits_value(t) == next);
        }
        if next > 255 {
            proof {
                if all_digits(d) {
                    lemma_digits_value_monotone(d, i - start + 1);
                }
            }
            return None;
        }
        value = next;
        i = i + 1;
    }
    assert(d.take(n - start) =~= d);
    Some(value as u8)
}

/// Reads bytes as UTF-8 text.
///
/// `std::str::from_utf8` succeeds exactly on valid UTF-8, and the text it gives
/// back is encoded by the bytes it was given.
#[verifier::external_body]
pub(crate) fn str_from_utf8<'a>(bytes: &'a [u8]) -> (r: Option<&'a str>)
    ensures
        r is Some <==> vstd::utf8::valid_utf8(bytes@),
        r matches Some(s) ==> s.spec_bytes() == bytes@,
{
    std::str::from_utf8(bytes).ok()
}

/// The position of the first occurrence of `pat` at or after `from`, or -1.
pub open spec fn find_text(s: Seq<char>, pat: Seq<char>, from: int) -> int
    decreases s.len() + 1 - from,
{
    if from < 0 || from > s.len() {
        -1
    } else if pat.is_prefix_of(s.skip(from)) {
        from
    } else {
        find_text(s, pat, from + 1)
    }
}

/// The position of the first occurrence of `pat` in `s`.
pub fn str_find(s: &str, pat: &str) -> (r: Option<usize>)
    ensures
        match r {
            Some(k) => k == find_text(s@, pat@, 0) && k + pat@.len() <= s@.len() <= usize::MAX
                && pat@.is_prefix_of(s@.skip(k as int)),
            None => find_text(s@, pat@, 0) == -1,
        },
{
    let n: usize = s.unicode_len();
    let mut i: usize = 0;
    loop
        invariant
            n == s@.len(),
            i <= n,
            find_text(s@, pat@, 0) == find_text(s@, pat@, i as int),
        decreases n - i,
    {
        if str_starts_with(str_skip(s, i), pat) {
            return Some(i);
        }
        if i == n {
            assert(find_text(s@, pat@, n + 1) == -1);
            return None;
        }
        i = i + 1;
    }
}

} // verus!
