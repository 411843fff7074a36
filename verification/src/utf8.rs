//! UTF-8 validation, of whole texts and of texts that arrive in fragments.

use vstd::prelude::*;
use vstd::utf8::*;

verus! {

/// Validates UTF-8 with `simdutf8::basic::from_utf8`, which succeeds exactly on
/// valid UTF-8.
#[verifier::external_body]
fn simd_validate(data: &[u8]) -> (r: bool)
    ensures
        r == valid_utf8(data@),
{
    simdutf8::basic::from_utf8(data).is_ok()
}

/// Whether `data` is valid UTF-8.
pub fn validate_utf8(data: &[u8]) -> (r: bool)
    ensures
        r == valid_utf8(data@),
{
    simd_validate(data)
}

/// Whether the second byte of a longer sequence fits the first: no overlong
/// form, no surrogate, nothing beyond U+10FFFF.
pub open spec fn second_byte_fits(b: u8, b1: u8) -> bool {
    &&& is_continuation_byte(b1)
    &&& (b == 0xe0 ==> b1 >= 0xa0)
    &&& (b == 0xed ==> b1 < 0xa0)
    &&& (b == 0xf0 ==> b1 >= 0x90)
    &&& (b == 0xf4 ==> b1 < 0x90)
}

/// Whether `t` is the beginning of a longer sequence: one to three bytes behind
/// which continuation bytes are missing.
///
/// 0xC0 and 0xC1 begin only overlong forms, so they begin no sequence.
pub open spec fn is_incomplete(t: Seq<u8>) -> bool {
    ||| t.len() == 1 && 0xc2 <= t[0] <= 0xf4
    ||| t.len() == 2 && 0xe0 <= t[0] <= 0xf4 && second_byte_fits(t[0], t[1])
    ||| t.len() == 3 && 0xf0 <= t[0] <= 0xf4 && second_byte_fits(t[0], t[1])
        && is_continuation_byte(t[2])
}

/// What a fragment of text amounts to: whether it is valid so far, and how many
/// bytes at its end belong to a sequence that is not complete.
pub open spec fn fragment(data: Seq<u8>) -> (bool, nat)
    decreases data.len(),
{
    if data.len() == 0 {
        (true, 0)
    } else if valid_first_scalar(data) {
        fragment(pop_first_scalar(data))
    } else if is_incomplete(data) {
        (true, data.len())
    } else {
        (false, 0)
    }
}

/// Two-byte sequences: overlong exactly below 0xC2.
proof fn lemma_width_2(b: u8, b1: u8)
    requires
        0xc0 <= b <= 0xdf,
        is_continuation_byte(b1),
    ensures
        codepoint_width_2(b, b1) >= 0x80 <==> b >= 0xc2,
        codepoint_width_2(b, b1) < 0xd800,
{
    assert((((b & 0x1F) as u32) << 6) | ((b1 & 0x3f) as u32) >= 0x80 <==> b >= 0xc2) by (bit_vector)
        requires
            0xc0 <= b <= 0xdf,
            0x80 <= b1 <= 0xbf,
    ;
    assert((((b & 0x1F) as u32) << 6) | ((b1 & 0x3f) as u32) < 0xd800) by (bit_vector)
        requires
            0xc0 <= b <= 0xdf,
            0x80 <= b1 <= 0xbf,
    ;
}

/// Three-byte sequences: overlong or surrogate exactly where the second byte
/// does not fit.
proof fn lemma_width_3(b: u8, b1: u8, b2: u8)
    requires
        0xe0 <= b <= 0xef,
        is_continuation_byte(b1),
        is_continuation_byte(b2),
    ensures
        (codepoint_width_3(b, b1, b2) >= 0x800 && !(0xd800 <= codepoint_width_3(b, b1, b2)
            <= 0xdfff)) <==> second_byte_fits(b, b1),
{
    assert(({
        let cp = (((b & 0x0F) as u32) << 12) | (((b1 & 0x3f) as u32) << 6) | ((b2 & 0x3f) as u32);
        (cp >= 0x800 && !(0xd800 <= cp && cp <= 0xdfff)) <==> ((b == 0xe0 ==> b1 >= 0xa0) && (b
            == 0xed ==> b1 < 0xa0))
    })) by (bit_vector)
        requires
            0xe0 <= b <= 0xef,
            0x80 <= b1 <= 0xbf,
            0x80 <= b2 <= 0xbf,
    ;
}

/// Four-byte sequences: overlong or too large exactly where the first two bytes
/// do not fit.
proof fn lemma_width_4(b: u8, b1: u8, b2: u8, b3: u8)
    requires
        0xf0 <= b <= 0xf7,
        is_continuation_byte(b1),
        is_continuation_byte(b2),
        is_continuation_byte(b3),
    ensures
        (0x10000 <= codepoint_width_4(b, b1, b2, b3) <= 0x10ffff) <==> (b <= 0xf4
            && second_byte_fits(b, b1)),
{
    assert(({
        let cp = (((b & 0x07) as u32) << 18) | (((b1 & 0x3f) as u32) << 12) | (((b2 & 0x3f) as u32)
            << 6) | ((b3 & 0x3f) as u32);
        (0x10000 <= cp && cp <= 0x10ffff) <==> (b <= 0xf4 && (b == 0xf0 ==> b1 >= 0x90) && (b
            == 0xf4 ==> b1 < 0x90))
    })) by (bit_vector)
        requires
            0xf0 <= b <= 0xf7,
            0x80 <= b1 <= 0xbf,
            0x80 <= b2 <= 0xbf,
            0x80 <= b3 <= 0xbf,
    ;
}

/// When the bytes begin with a complete, valid sequence, in terms of the bytes.
proof fn lemma_first_scalar(d: Seq<u8>)
    requires
        d.len() > 0,
    ensures
        d[0] < 0x80 ==> valid_first_scalar(d) && length_of_first_scalar(d) == 1,
        0x80 <= d[0] < 0xc0 ==> !valid_first_scalar(d),
        0xc0 <= d[0] < 0xe0 ==> (valid_first_scalar(d) <==> d.len() >= 2 && is_continuation_byte(
            d[1],
        ) && d[0] >= 0xc2) && length_of_first_scalar(d) == 2,
        0xe0 <= d[0] < 0xf0 ==> (valid_first_scalar(d) <==> d.len() >= 3 && second_byte_fits(
            d[0],
            d[1],
        ) && is_continuation_byte(d[2])) && length_of_first_scalar(d) == 3,
        0xf0 <= d[0] < 0xf5 ==> (valid_first_scalar(d) <==> d.len() >= 4 && second_byte_fits(
            d[0],
            d[1],
        ) && is_continuation_byte(d[2]) && is_continuation_byte(d[3])) && length_of_first_scalar(d)
            == 4,
        d[0] >= 0xf5 ==> !valid_first_scalar(d),
{
    let b = d[0];
    if b < 0x80 {
        assert(((b & 0x7F) as u32) < 0x80) by (bit_vector)
            requires
                b < 0x80,
        ;
    }
    if 0xc0 <= b < 0xe0 && d.len() >= 2 && is_continuation_byte(d[1]) {
        lemma_width_2(b, d[1]);
    }
    if 0xe0 <= b < 0xf0 && d.len() >= 3 && is_continuation_byte(d[1]) && is_continuation_byte(
        d[2],
    ) {
        lemma_width_3(b, d[1], d[2]);
    }
    if 0xf0 <= b <= 0xf7 && d.len() >= 4 && is_continuation_byte(d[1]) && is_continuation_byte(d[2])
        && is_continuation_byte(d[3]) {
        lemma_width_4(b, d[1], d[2], d[3]);
    }
}

/// Whether `b` continues a sequence.
fn is_continuation(b: u8) -> (r: bool)
    ensures
        r == is_continuation_byte(b),
{
    0x80 <= b && b <= 0xbf
}

/// Whether the second byte of a longer sequence fits the first.
fn second_fits(b: u8, b1: u8) -> (r: bool)
    ensures
        r == second_byte_fits(b, b1),
{
    is_continuation(b1) && !(b == 0xe0 && b1 < 0xa0) && !(b == 0xed && b1 >= 0xa0) && !(b == 0xf0
        && b1 < 0x90) && !(b == 0xf4 && b1 >= 0x90)
}

/// How the bytes from `i` on begin: the length of a valid sequence, or `None`
/// together with whether they are the beginning of one.
fn first_sequence(data: &[u8], i: usize) -> (r: (Option<usize>, bool))
    requires
        i < data.len(),
    ensures
        ({
            let rest = data@.skip(i as int);
            match r.0 {
                Some(n) => valid_first_scalar(rest) && n == length_of_first_scalar(rest) && n
                    <= rest.len(),
                None => !valid_first_scalar(rest) && r.1 == is_incomplete(rest),
            }
        }),
{
    let ghost rest = data@.skip(i as int);
    let left: usize = data.len() - i;
    let b: u8 = data[i];
    proof {
        lemma_first_scalar(rest);
        assert(rest[0] == b);
        if left > 1 {
            assert(rest[1] == data@[i + 1]);
        }
        if left > 2 {
            assert(rest[2] == data@[i + 2]);
        }
        if left > 3 {
            assert(rest[3] == data@[i + 3]);
        }
    }
    if b < 0x80 {
        (Some(1), false)
    } else if b < 0xc2 {
        (None, false)
    } else if b < 0xe0 {
        if left < 2 {
            (None, true)
        } else if is_continuation(data[i + 1]) {
            (Some(2), false)
        } else {
            (None, false)
        }
    } else if b < 0xf0 {
        if left < 2 {
            (None, true)
        } else if !second_fits(b, data[i + 1]) {
            (None, false)
        } else if left < 3 {
            (None, true)
        } else if is_continuation(data[i + 2]) {
            (Some(3), false)
        } else {
            (None, false)
        }
    } else if b < 0xf5 {
        if left < 2 {
            (None, true)
        } else if !second_fits(b, data[i + 1]) {
            (None, false)
        } else if left < 3 {
            (None, true)
        } else if !is_continuation(data[i + 2]) {
            (None, false)
        } else if left < 4 {
            (None, true)
        } else if is_continuation(data[i + 3]) {
            (Some(4), false)
        } else {
            (None, false)
        }
    } else {
        (None, false)
    }
}

/// Validates a fragment of text.
///
/// Gives `(true, n)` where all complete sequences are valid and the last `n`
/// bytes begin one that is not complete, and `(false, 0)` where the fragment
/// holds something invalid.
pub fn validate_utf8_incomplete(data: &[u8]) -> (r: (bool, usize))
    ensures
        r.0 == fragment(data@).0,
        r.1 == fragment(data@).1,
{
    let n: usize = data.len();
    let mut i: usize = 0;
    assert(data@.skip(0) =~= data@);
    while i < n
        invariant
            n == data@.len(),
            i <= n,
            fragment(data@.skip(i as int)) == fragment(data@),
        decreases n - i,
    {
        let ghost rest = data@.skip(i as int);
        let (len, incomplete) = first_sequence(data, i);
        match len {
            Some(k) => {
                proof {
                    lemma_first_scalar(rest);
                    assert(pop_first_scalar(rest) =~= data@.skip(i + k));
                }
                i = i + k;
            },
            None => {
                if incomplete {
                    return (true, n - i);
                }
                return (false, 0);
            },
        }
    }
    (true, 0)
}

/// A valid first sequence stays the first one when more bytes follow.
proof fn lemma_first_scalar_extends(a: Seq<u8>, b: Seq<u8>)
    requires
        valid_first_scalar(a),
    ensures
        valid_first_scalar(a + b),
        pop_first_scalar(a + b) == pop_first_scalar(a) + b,
        pop_first_scalar(a).len() < a.len(),
{
    lemma_first_scalar(a);
    lemma_first_scalar(a + b);
    assert((a + b)[0] == a[0]);
    let n = length_of_first_scalar(a);
    assert(n <= a.len());
    if n > 1 {
        assert((a + b)[1] == a[1]);
    }
    if n > 2 {
        assert((a + b)[2] == a[2]);
    }
    if n > 3 {
        assert((a + b)[3] == a[3]);
    }
    assert(pop_first_scalar(a + b) =~= pop_first_scalar(a) + b);
}

/// What neither begins with a valid sequence nor could be completed to one stays
/// invalid, whatever follows.
proof fn lemma_invalid_extends(a: Seq<u8>, b: Seq<u8>)
    requires
        a.len() > 0,
        !valid_first_scalar(a),
        !is_incomplete(a),
    ensures
        !valid_first_scalar(a + b),
        !is_incomplete(a + b),
{
    let c = a + b;
    lemma_first_scalar(a);
    lemma_first_scalar(c);
    assert(c[0] == a[0]);
    if a.len() > 1 {
        assert(c[1] == a[1]);
    }
    if a.len() > 2 {
        assert(c[2] == a[2]);
    }
    if a.len() > 3 {
        assert(c[3] == a[3]);
    }
}

/// The complete part of a valid fragment is valid UTF-8, at most three bytes are
/// left over, and they begin a sequence.
pub proof fn law_fragment_parts(data: Seq<u8>)
    ensures
        fragment(data).1 <= data.len(),
        fragment(data).1 <= 3,
        fragment(data).0 ==> valid_utf8(data.take(data.len() - fragment(data).1)),
        fragment(data).1 > 0 ==> fragment(data).0 && is_incomplete(
            data.skip(data.len() - fragment(data).1),
        ),
    decreases data.len(),
{
    if data.len() == 0 {
        assert(data.take(0) =~= seq![]);
    } else if valid_first_scalar(data) {
        let n = length_of_first_scalar(data);
        let rest = pop_first_scalar(data);
        lemma_first_scalar(data);
        law_fragment_parts(rest);
        let k = data.len() - fragment(data).1;
        if fragment(data).0 {
            let whole = data.take(k);
            lemma_first_scalar(whole);
            assert(whole[0] == data[0]);
            if n > 1 {
                assert(whole[1] == data[1]);
            }
            if n > 2 {
                assert(whole[2] == data[2]);
            }
            if n > 3 {
                assert(whole[3] == data[3]);
            }
            assert(pop_first_scalar(whole) =~= rest.take(k - n));
        }
        assert(data.skip(k) =~= rest.skip(k - n));
    } else if is_incomplete(data) {
        assert(data.take(0) =~= seq![]);
        assert(data.skip(0) =~= data);
    }
}

/// A fragment is complete and valid exactly where it is valid UTF-8.
pub proof fn law_complete_fragment_is_valid(data: Seq<u8>)
    ensures
        fragment(data) == (true, 0nat) <==> valid_utf8(data),
    decreases data.len(),
{
    if data.len() > 0 && valid_first_scalar(data) {
        lemma_first_scalar(data);
        law_complete_fragment_is_valid(pop_first_scalar(data));
    }
}

/// Text that arrives in two fragments is valid exactly where the first fragment
/// is valid so far and what it left over, followed by the second, is valid. As a
/// fragment, both together are what that is: as many bytes are left over as where
/// only those of the first are carried on.
pub proof fn law_fragments_compose(a: Seq<u8>, b: Seq<u8>)
    ensures
        valid_utf8(a + b) <==> fragment(a).0 && valid_utf8(
            a.skip(a.len() - fragment(a).1) + b,
        ),
        fragment(a + b) == (if fragment(a).0 {
            fragment(a.skip(a.len() - fragment(a).1) + b)
        } else {
            (false, 0nat)
        }),
    decreases a.len(),
{
    if a.len() == 0 {
        assert(a.skip(0) + b =~= a + b);
    } else if valid_first_scalar(a) {
        lemma_first_scalar(a);
        lemma_first_scalar_extends(a, b);
        let rest = pop_first_scalar(a);
        law_fragment_parts(rest);
        law_fragments_compose(rest, b);
        assert(a.skip(a.len() - fragment(a).1) =~= rest.skip(rest.len() - fragment(rest).1));
        assert((a + b).len() > 0);
    } else if is_incomplete(a) {
        assert(a.skip(0) + b =~= a + b);
    } else {
        lemma_invalid_extends(a, b);
        assert((a + b).len() > 0);
    }
}

/// Whether `t` and `tail` together are the encoding of one character.
pub open spec fn completes(t: Seq<u8>, tail: Seq<u8>) -> bool {
    &&& tail.len() > 0
    &&& valid_first_scalar(t + tail)
    &&& length_of_first_scalar(t + tail) == t.len() + tail.len()
}

/// What a fragment leaves over is exactly what begins the encoding of some
/// character without ending it.
pub proof fn law_incomplete_begins_a_character(t: Seq<u8>)
    ensures
        is_incomplete(t) <==> t.len() > 0 && exists|tail: Seq<u8>| #[trigger] completes(t, tail),
{
    if is_incomplete(t) {
        let b1: u8 = if t[0] == 0xe0 {
            0xa0
        } else if t[0] == 0xf0 {
            0x90
        } else {
            0x80
        };
        let tail: Seq<u8> = if t.len() > 1 {
            if t[0] < 0xf0 || t.len() == 3 {
                seq![0x80]
            } else {
                seq![0x80, 0x80]
            }
        } else if t[0] < 0xe0 {
            seq![0x80]
        } else if t[0] < 0xf0 {
            seq![b1, 0x80]
        } else {
            seq![b1, 0x80, 0x80]
        };
        lemma_first_scalar(t + tail);
        assert(completes(t, tail));
    }
    if t.len() > 0 && exists|tail: Seq<u8>| #[trigger] completes(t, tail) {
        let tail = choose|tail: Seq<u8>| #[trigger] completes(t, tail);
        let c = t + tail;
        lemma_first_scalar(c);
        assert(c[0] == t[0]);
        if t.len() > 1 {
            assert(c[1] == t[1]);
        }
        if t.len() > 2 {
            assert(c[2] == t[2]);
        }
    }
}

/// A fragment is valid with `n` bytes left over exactly where what precedes them is
/// valid UTF-8 and they begin a sequence, or there are none.
pub proof fn law_fragment_is_exact(data: Seq<u8>, n: nat)
    requires
        n <= data.len(),
    ensures
        fragment(data) == (true, n) <==> valid_utf8(data.take(data.len() - n)) && (n == 0
            || is_incomplete(data.skip(data.len() - n))),
    decreases data.len(),
{
    let whole = data.take(data.len() - n);
    let left = data.skip(data.len() - n);
    law_fragment_parts(data);
    if valid_utf8(whole) && (n == 0 || is_incomplete(left)) {
        if whole.len() == 0 {
            assert(left =~= data);
            if data.len() > 0 {
                lemma_first_scalar(data);
            }
        } else {
            assert(valid_first_scalar(whole));
            lemma_first_scalar_extends(whole, left);
            assert(whole + left =~= data);
            let rest = pop_first_scalar(data);
            lemma_first_scalar(data);
            law_fragment_is_exact(rest, n);
            assert(rest.take(rest.len() - n) =~= pop_first_scalar(whole));
            assert(rest.skip(rest.len() - n) =~= left);
        }
    }
}

} // verus!
