//! What splitting, trimming, comparing and writing texts comes to.

use crate::text;
use crate::text::{
    all_digits, ascii_lower, decimal, digit_char, digits_value, eq_ignore_ascii_case, find_from,
    find_text, is_digit, is_white_space, lemma_find_from, lemma_find_range, lemma_trim_end,
    lemma_trim_start, split_once, trim, trim_end, trim_start, u8_from_text,
};
use vstd::prelude::*;

verus! {

/// Texts written one behind the other, with `sep` between them.
pub open spec fn written_with(pieces: Seq<Seq<char>>, sep: Seq<char>) -> Seq<char>
    decreases pieces.len(),
{
    if pieces.len() == 0 {
        seq![]
    } else if pieces.len() == 1 {
        pieces[0]
    } else {
        pieces[0] + sep + written_with(pieces.skip(1), sep)
    }
}

/// Whether none of the texts holds a character.
pub open spec fn all_without(pieces: Seq<Seq<char>>, c: char) -> bool {
    forall|i: int| 0 <= i < pieces.len() ==> !(#[trigger] pieces[i]).contains(c)
}

/// Whether a text is nothing but white space.
pub open spec fn is_all_white(s: Seq<char>) -> bool {
    forall|i: int| 0 <= i < s.len() ==> is_white_space(#[trigger] s[i])
}

/// The code points that are white space.
pub open spec fn white_code_points() -> Seq<u32> {
    seq![
        9, 10, 11, 12, 13, 32, 133, 160, 5760, 8192, 8193, 8194, 8195, 8196, 8197, 8198, 8199, 8200,
        8201, 8202, 8232, 8233, 8239, 8287, 12288,
    ]
}

/// White space is what has the White_Space property.
pub proof fn law_white_space(c: char)
    ensures
        is_white_space(c) <==> white_code_points().contains(c as u32),
{
    let w = white_code_points();
    let n = c as u32;
    if is_white_space(c) {
        let k: int = if 9 <= n <= 13 {
            n - 9
        } else if n == 32 {
            5
        } else if n == 133 {
            6
        } else if n == 160 {
            7
        } else if n == 5760 {
            8
        } else if 8192 <= n <= 8202 {
            n - 8192 + 9
        } else if n == 8232 {
            20
        } else if n == 8233 {
            21
        } else if n == 8239 {
            22
        } else if n == 8287 {
            23
        } else {
            24
        };
        assert(w[k] == n);
    }
    if w.contains(n) {
        let k = choose|k: int| 0 <= k < w.len() && w[k] == n;
        assert(w[k] == n);
    }
}

/// Splitting a text at a character gives pieces without it, which written one
/// behind the other are the text again.
pub proof fn law_pieces_make_up_the_text(s: Seq<char>, sep: char)
    ensures
        text::split(s, sep).len() > 0,
        all_without(text::split(s, sep), sep),
        written_with(text::split(s, sep), seq![sep]) == s,
    decreases s.len(),
{
    let i = find_from(s, sep, 0);
    lemma_find_range(s, sep, 0);
    if 0 <= i < s.len() {
        let rest = s.skip(i + 1);
        law_pieces_make_up_the_text(rest, sep);
        let p = text::split(s, sep);
        assert(p.skip(1) =~= text::split(rest, sep));
        assert forall|k: int| 0 <= k < p.len() implies !(#[trigger] p[k]).contains(sep) by {
            if k > 0 {
                assert(p[k] == text::split(rest, sep)[k - 1]);
            }
        }
        assert(s.take(i) + seq![sep] + rest =~= s);
    } else {
        assert(text::split(s, sep) =~= seq![s]);
    }
}

/// Splitting undoes writing: texts without the separator, written with it between
/// them, are split into themselves.
pub proof fn law_split_undoes_writing(pieces: Seq<Seq<char>>, sep: char)
    requires
        pieces.len() > 0,
        all_without(pieces, sep),
    ensures
        text::split(written_with(pieces, seq![sep]), sep) == pieces,
    decreases pieces.len(),
{
    let s = written_with(pieces, seq![sep]);
    let k = pieces[0].len() as int;
    assert(!pieces[0].contains(sep));
    if pieces.len() == 1 {
        lemma_find_from(s, sep, 0, s.len() as int);
        assert(text::split(s, sep) =~= pieces);
    } else {
        let rest = pieces.skip(1);
        let tail = written_with(rest, seq![sep]);
        assert forall|i: int| 0 <= i < rest.len() implies !(#[trigger] rest[i]).contains(sep) by {
            assert(rest[i] == pieces[i + 1]);
        }
        law_split_undoes_writing(rest, sep);
        assert forall|j: int| 0 <= j < k implies #[trigger] s[j] != sep by {
            assert(s[j] == pieces[0][j]);
        }
        assert(s[k] == sep);
        lemma_find_from(s, sep, 0, k);
        assert(s.take(k) =~= pieces[0]);
        assert(s.skip(k + 1) =~= tail);
        assert(seq![pieces[0]] + rest =~= pieces);
    }
}

/// Splitting once splits at the first separator, and not at all where there is none.
pub proof fn law_split_once_splits_at_the_first(a: Seq<char>, sep: char, b: Seq<char>)
    requires
        !a.contains(sep),
    ensures
        split_once(a + seq![sep] + b, sep) == Some((a, b)),
        split_once(a, sep) is None,
{
    let s = a + seq![sep] + b;
    let k = a.len() as int;
    assert forall|j: int| 0 <= j < k implies #[trigger] s[j] != sep by {
        assert(s[j] == a[j]);
    }
    assert(s[k] == sep);
    lemma_find_from(s, sep, 0, k);
    assert(s.take(k) =~= a);
    assert(s.skip(k + 1) =~= b);
    assert forall|j: int| 0 <= j < k implies #[trigger] a[j] != sep by {
        assert(a.contains(a[j]));
    }
    lemma_find_from(a, sep, 0, k);
}

/// Trimming takes away exactly the white space around a text that itself neither
/// begins nor ends with any.
pub proof fn law_trim_takes_white_space_away(before: Seq<char>, s: Seq<char>, after: Seq<char>)
    requires
        is_all_white(before),
        is_all_white(after),
        s.len() > 0 ==> !is_white_space(s[0]) && !is_white_space(s.last()),
    ensures
        trim(before + s + after) == s,
        trim_start(before + s + after) == (if s.len() > 0 {
            s + after
        } else {
            seq![]
        }),
{
    let t = before + s + after;
    let k: int = if s.len() > 0 {
        before.len() as int
    } else {
        t.len() as int
    };
    assert forall|j: int| 0 <= j < k implies is_white_space(#[trigger] t[j]) by {
        if j < before.len() {
            assert(t[j] == before[j]);
        } else {
            assert(t[j] == after[j - before.len()]);
        }
    }
    if k < t.len() {
        assert(t[k] == s[0]);
    }
    lemma_trim_start(t, k);
    let u = t.skip(k);
    if s.len() > 0 {
        assert(u =~= s + after);
        assert forall|j: int| s.len() <= j < u.len() implies is_white_space(#[trigger] u[j]) by {
            assert(u[j] == after[j - s.len()]);
        }
        assert(u[s.len() - 1] == s.last());
        lemma_trim_end(u, s.len() as int);
        assert(u.take(s.len() as int) =~= s);
    } else {
        assert(u =~= seq![]);
        assert(trim(t) =~= s);
    }
}

/// Every text is its trimmed text with white space around it.
pub proof fn law_text_around_trim(s: Seq<char>)
    ensures
        exists|before: Seq<char>, after: Seq<char>|
            #![trigger is_all_white(before), is_all_white(after)]
            is_all_white(before) && is_all_white(after) && s == before + trim(s) + after,
        trim(s).len() > 0 ==> !is_white_space(trim(s)[0]) && !is_white_space(trim(s).last()),
    decreases s.len(),
{
    if s.len() > 0 && is_white_space(s[0]) {
        let t = s.skip(1);
        law_text_around_trim(t);
        let (b, a) = choose|b: Seq<char>, a: Seq<char>|
            #![trigger is_all_white(b), is_all_white(a)]
            is_all_white(b) && is_all_white(a) && t == b + trim(t) + a;
        let before = seq![s[0]] + b;
        assert(is_all_white(before)) by {
            assert forall|i: int| 0 <= i < before.len() implies is_white_space(#[trigger] before[i]) by {
                if i > 0 {
                    assert(before[i] == b[i - 1]);
                }
            }
        }
        assert(trim(s) == trim(t));
        assert(s =~= seq![s[0]] + t);
        assert(seq![s[0]] + (b + trim(t) + a) =~= before + trim(t) + a);
        assert(is_all_white(a));
    } else {
        law_text_around_trim_end(s);
        assert(trim(s) == trim_end(s));
        let after = choose|after: Seq<char>| #[trigger]
            is_all_white(after) && s == trim_end(s) + after;
        let before = Seq::<char>::empty();
        assert(is_all_white(before));
        assert(is_all_white(after));
        assert(s =~= before + trim(s) + after);
        if trim(s).len() > 0 {
            assert(trim(s)[0] == s[0]);
        }
    }
}

/// Every text is what is left of it without white space at its end, and that.
proof fn law_text_around_trim_end(s: Seq<char>)
    ensures
        exists|after: Seq<char>| #[trigger] is_all_white(after) && s == trim_end(s) + after,
        trim_end(s).len() > 0 ==> !is_white_space(trim_end(s).last()),
    decreases s.len(),
{
    if s.len() > 0 && is_white_space(s.last()) {
        let t = s.drop_last();
        law_text_around_trim_end(t);
        let a = choose|a: Seq<char>| #[trigger] is_all_white(a) && t == trim_end(t) + a;
        let after = a.push(s.last());
        assert(is_all_white(after)) by {
            assert forall|i: int| 0 <= i < after.len() implies is_white_space(#[trigger] after[i]) by {
                if i < a.len() {
                    assert(after[i] == a[i]);
                }
            }
        }
        assert(trim_end(s) == trim_end(t));
        assert(s =~= t.push(s.last()));
        assert((trim_end(t) + a).push(s.last()) =~= trim_end(t) + after);
    } else {
        let after = Seq::<char>::empty();
        assert(is_all_white(after));
        assert(s =~= trim_end(s) + after);
    }
}

/// Whether two characters are one letter in both cases: 32 apart, the upper one
/// among A to Z.
pub open spec fn is_letter_pair(upper: char, lower: char) -> bool {
    65 <= upper as u32 <= 90 && lower as u32 == upper as u32 + 32
}

/// Texts are equal up to case exactly where they are of one length and differ, at
/// most, in the case of ASCII letters.
pub proof fn law_only_case_is_ignored(a: Seq<char>, b: Seq<char>)
    ensures
        eq_ignore_ascii_case(a, b) <==> a.len() == b.len() && forall|i: int|
            0 <= i < a.len() ==> #[trigger] a[i] == b[i] || is_letter_pair(a[i], b[i])
                || is_letter_pair(b[i], a[i]),
{
    if a.len() == b.len() {
        assert forall|i: int| 0 <= i < a.len() implies (ascii_lower(#[trigger] a[i]) == ascii_lower(
            b[i],
        ) <==> a[i] == b[i] || is_letter_pair(a[i], b[i]) || is_letter_pair(b[i], a[i])) by {
            lemma_lower(a[i], b[i]);
        }
        if eq_ignore_ascii_case(a, b) {
            assert forall|i: int| 0 <= i < a.len() implies #[trigger] a[i] == b[i] || is_letter_pair(
                a[i],
                b[i],
            ) || is_letter_pair(b[i], a[i]) by {
                assert(ascii_lower(a[i]) == ascii_lower(b[i]));
            }
        }
    }
}

/// When two characters are one in lower case.
proof fn lemma_lower(x: char, y: char)
    ensures
        ascii_lower(x) == ascii_lower(y) <==> x == y || is_letter_pair(x, y) || is_letter_pair(
            y,
            x,
        ),
{
    assert('A' <= x && x <= 'Z' <==> 65 <= x as u32 <= 90);
    assert('A' <= y && y <= 'Z' <==> 65 <= y as u32 <= 90);
    if 65 <= x as u32 <= 90 {
        assert(ascii_lower(x) as u32 == x as u32 + 32);
    }
    if 65 <= y as u32 <= 90 {
        assert(ascii_lower(y) as u32 == y as u32 + 32);
    }
}

/// A number in decimal is made of digits, without a zero in front, and has the
/// number as its value.
pub proof fn law_decimal_has_its_value(n: nat)
    ensures
        all_digits(decimal(n)),
        decimal(n).len() > 0,
        digits_value(decimal(n)) == n,
        decimal(n).len() > 1 ==> decimal(n)[0] != '0',
    decreases n,
{
    let d = decimal(n);
    if n < 10 {
        assert(d.drop_last() =~= seq![]);
        assert(digits_value(d.drop_last()) == 0);
        assert(d.last() == digit_char(n));
    } else {
        law_decimal_has_its_value(n / 10);
        let e = decimal(n / 10);
        assert(d.drop_last() =~= e);
        assert forall|i: int| 0 <= i < d.len() implies is_digit(#[trigger] d[i]) by {
            if i < e.len() {
                assert(d[i] == e[i]);
            }
        }
        if e.len() == 1 {
            assert(n / 10 < 10) by {
                if n / 10 >= 10 {
                    assert(decimal(n / 10 / 10).len() > 0) by {
                        law_decimal_has_its_value(n / 10 / 10);
                    }
                }
            }
            assert(e[0] == digit_char(n / 10));
        }
        assert(d[0] == e[0]);
    }
}

/// The value of digits is counted in tens: those in front count ten times as much
/// for each digit behind them, and one digit counts as far as it is from zero.
pub proof fn law_digits_count_in_tens(front: Seq<char>, c: char)
    requires
        is_digit(c),
    ensures
        digits_value(front.push(c)) == 10 * digits_value(front) + (c as int - '0' as int),
        digits_value(Seq::<char>::empty()) == 0,
{
    assert(front.push(c).drop_last() =~= front);
}

/// Every number that fits a byte is read back from its decimal digits, with or
/// without a plus sign, and no larger one is.
pub proof fn law_byte_reads_back(n: nat)
    ensures
        u8_from_text(decimal(n)) == (if n < 256 {
            Some(n as u8)
        } else {
            None
        }),
        u8_from_text(seq!['+'] + decimal(n)) == u8_from_text(decimal(n)),
        u8_from_text(seq!['-'] + decimal(n)) is None,
        u8_from_text(seq![]) is None,
{
    law_decimal_has_its_value(n);
    let d = decimal(n);
    assert(is_digit(d[0]));
    assert((seq!['+'] + d).skip(1) =~= d);
    let m = seq!['-'] + d;
    assert(!is_digit(m[0]));
}

/// What is found is the first occurrence, and nothing is found only where there is
/// none.
pub proof fn law_first_occurrence_is_found(s: Seq<char>, pat: Seq<char>, from: int)
    requires
        0 <= from <= s.len(),
    ensures
        ({
            let k = find_text(s, pat, from);
            if k == -1 {
                forall|i: int| from <= i <= s.len() - pat.len() ==> #[trigger] s.subrange(
                    i,
                    i + pat.len(),
                ) != pat
            } else {
                &&& from <= k <= s.len() - pat.len()
                &&& s.subrange(k, k + pat.len()) == pat
                &&& forall|i: int| from <= i < k ==> #[trigger] s.subrange(i, i + pat.len()) != pat
            }
        }),
    decreases s.len() - from,
{
    let rest = s.skip(from);
    if pat.len() <= rest.len() {
        assert(rest.subrange(0, pat.len() as int) =~= s.subrange(from, from + pat.len()));
    }
    if !pat.is_prefix_of(rest) {
        if from < s.len() {
            law_first_occurrence_is_found(s, pat, from + 1);
        } else {
            assert(find_text(s, pat, from + 1) == -1);
        }
        if from <= s.len() - pat.len() {
            assert(s.subrange(from, from + pat.len()) != pat);
        }
        let k = find_text(s, pat, from);
        assert(k == find_text(s, pat, from + 1));
        if k == -1 {
            assert forall|i: int| from <= i <= s.len() - pat.len() implies #[trigger] s.subrange(
                i,
                i + pat.len(),
            ) != pat by {
                if i > from {
                }
            }
        } else {
            assert forall|i: int| from <= i < k implies #[trigger] s.subrange(i, i + pat.len())
                != pat by {
                if i > from {
                }
            }
        }
    }
}

/// A text is a byte exactly where it is digits, possibly behind a plus sign, that are at
/// most 255.
pub proof fn law_only_digits_are_a_byte(s: Seq<char>, v: u8)
    ensures
        s.len() > 0 && s[0] != '+' ==> (u8_from_text(s) == Some(v) <==> all_digits(s)
            && digits_value(s) == v),
        u8_from_text(seq!['+'] + s) == Some(v) <==> s.len() > 0 && all_digits(s) && digits_value(s)
            == v,
        s.len() == 0 ==> u8_from_text(s) is None,
{
    assert((seq!['+'] + s).skip(1) =~= s);
}

/// The digits are those from 0 to 9.
pub proof fn law_digit(c: char)
    ensures
        is_digit(c) <==> 48 <= c as u32 <= 57,
{
}

/// A text is all digits where each of its characters is one.
pub proof fn law_digits(s: Seq<char>)
    ensures
        all_digits(s) <==> forall|i: int|
            0 <= i < s.len() ==> 48 <= (#[trigger] s[i]) as u32 <= 57,
{
    if all_digits(s) {
        assert forall|i: int| 0 <= i < s.len() implies 48 <= (#[trigger] s[i]) as u32 <= 57 by {
            law_digit(s[i]);
        }
    }
    if forall|i: int| 0 <= i < s.len() ==> 48 <= (#[trigger] s[i]) as u32 <= 57 {
        assert forall|i: int| 0 <= i < s.len() implies is_digit(#[trigger] s[i]) by {
            law_digit(s[i]);
        }
    }
}

/// The views of texts are the texts, one by one.
pub proof fn law_views_of_texts(v: Seq<&str>, i: int)
    requires
        0 <= i < v.len(),
    ensures
        text::views(v).len() == v.len(),
        text::views(v)[i] == v[i]@,
{
}

} // verus!
