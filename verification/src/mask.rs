//! Masking keys and other random bytes.

use crate::codec;
use crate::codec::is_draw;
pub use crate::simd::{apply_mask, apply_mask_offset};
use vstd::prelude::*;

verus! {

/// Generates a random masking key.
///
/// The four bytes are random: every value may come out, and nothing can be said of
/// them but that they were drawn.
pub fn generate_mask() -> (r: [u8; 4])
    ensures
        is_draw(r),
{
    codec::draw()
}

/// Joins four draws of four bytes, in order.
pub fn join_draws(a: [u8; 4], b: [u8; 4], c: [u8; 4], d: [u8; 4]) -> (r: [u8; 16])
    ensures
        r@ == a@ + b@ + c@ + d@,
{
    let r = [
        a[0],
        a[1],
        a[2],
        a[3],
        b[0],
        b[1],
        b[2],
        b[3],
        c[0],
        c[1],
        c[2],
        c[3],
        d[0],
        d[1],
        d[2],
        d[3],
    ];
    assert(r@ =~= a@ + b@ + c@ + d@);
    r
}

/// Whether 16 bytes are four draws, in order.
pub open spec fn are_key_draws(bytes: Seq<u8>) -> bool {
    exists|a: [u8; 4], b: [u8; 4], c: [u8; 4], d: [u8; 4]|
        #![trigger is_draw(a), is_draw(b), is_draw(c), is_draw(d)]
        is_draw(a) && is_draw(b) && is_draw(c) && is_draw(d) && bytes == a@ + b@ + c@ + d@
}

/// Generates the 16 random bytes of a handshake key, from four draws.
///
/// They are random: every value may come out, and nothing can be said of them but
/// that they were drawn.
pub fn generate_key_bytes() -> (r: [u8; 16])
    ensures
        are_key_draws(r@),
{
    let a = codec::draw();
    let b = codec::draw();
    let c = codec::draw();
    let d = codec::draw();
    assert(is_draw(a) && is_draw(b) && is_draw(c) && is_draw(d));
    join_draws(a, b, c, d)
}

} // verus!
