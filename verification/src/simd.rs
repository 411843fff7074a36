//! Masking: XOR with a repeating four-byte key (RFC 6455, section 5.3).

use crate::mask;
use vstd::prelude::*;

verus! {

/// The byte of the mask that applies at position `i` of the payload.
pub open spec fn mask_byte(mask: Seq<u8>, i: int) -> u8 {
    mask[i % 4]
}

/// `data` masked with `mask`, whose first byte to apply is the one at position
/// `offset` of the payload.
pub open spec fn masked(data: Seq<u8>, mask: Seq<u8>, offset: int) -> Seq<u8> {
    Seq::new(data.len(), |i: int| data[i] ^ mask_byte(mask, i + offset))
}

/// Masks or unmasks `data` in place.
pub fn apply_mask(data: &mut [u8], mask: [u8; 4])
    ensures
        final(data)@ == masked(old(data)@, mask@, 0),
{
    apply_mask_offset(data, mask, 0);
}

/// Masks or unmasks `data` in place, where `offset` bytes of the payload came
/// before.
pub fn apply_mask_offset(data: &mut [u8], mask: [u8; 4], offset: usize)
    ensures
        final(data)@ == masked(old(data)@, mask@, offset as int),
{
    let ghost before = data@;
    let n: usize = data.len();
    let mut phase: usize = offset % 4;
    let mut i: usize = 0;
    while i < n
        invariant
            n == data@.len(),
            before.len() == n,
            before == old(data)@,
            i <= n,
            phase == (i + offset) % 4,
            forall|j: int| 0 <= j < i ==> #[trigger] data@[j] == before[j] ^ mask_byte(mask@, j + offset),
            forall|j: int| i <= j < n ==> #[trigger] data@[j] == before[j],
        decreases n - i,
    {
        data[i] = data[i] ^ mask[phase];
        phase = (phase + 1) % 4;
        i = i + 1;
    }
    assert(data@ =~= masked(before, mask@, offset as int));
}

/// Writes the masked `payload` to `dest`, every byte of it.
pub fn encode_payload_masked_inline(dest: &mut [u8], payload: &[u8], mask: [u8; 4])
    requires
        old(dest)@.len() == payload@.len(),
    ensures
        final(dest)@ == masked(payload@, mask@, 0),
{
    let n: usize = payload.len();
    let mut i: usize = 0;
    while i < n
        invariant
            n == payload@.len(),
            dest@.len() == n,
            i <= n,
            forall|j: int| 0 <= j < i ==> #[trigger] dest@[j] == payload@[j] ^ mask_byte(mask@, j),
        decreases n - i,
    {
        dest[i] = payload[i] ^ mask[i % 4];
        i = i + 1;
    }
    assert(dest@ =~= masked(payload@, mask@, 0));
}

/// Generates a random masking key.
pub fn generate_mask() -> (r: [u8; 4])
    ensures
        crate::codec::is_draw(r),
{
    mask::generate_mask()
}

/// Masking twice gives the data back.
pub proof fn law_masking_is_self_inverse(data: Seq<u8>, mask: Seq<u8>, offset: int)
    requires
        mask.len() == 4,
    ensures
        masked(masked(data, mask, offset), mask, offset) == data,
{
    let once = masked(data, mask, offset);
    let twice = masked(once, mask, offset);
    assert forall|i: int| 0 <= i < data.len() implies twice[i] == data[i] by {
        let d = data[i];
        let m = mask_byte(mask, i + offset);
        assert((d ^ m) ^ m == d) by (bit_vector);
    }
    assert(twice =~= data);
}

/// Masking a payload in two parts is masking it whole, where the second part
/// continues at the offset that the first one reached.
pub proof fn law_masking_in_parts(a: Seq<u8>, b: Seq<u8>, mask: Seq<u8>, offset: int)
    requires
        mask.len() == 4,
    ensures
        masked(a + b, mask, offset) == masked(a, mask, offset) + masked(
            b,
            mask,
            offset + a.len(),
        ),
{
    assert(masked(a + b, mask, offset) =~= masked(a, mask, offset) + masked(
        b,
        mask,
        offset + a.len(),
    ));
}

/// Only the offset modulo four matters.
pub proof fn law_mask_offset_is_periodic(data: Seq<u8>, mask: Seq<u8>, offset: int)
    requires
        mask.len() == 4,
        offset >= 0,
    ensures
        masked(data, mask, offset) == masked(data, mask, offset % 4),
{
    let a = masked(data, mask, offset);
    let b = masked(data, mask, offset % 4);
    assert forall|i: int| 0 <= i < data.len() implies #[trigger] a[i] == b[i] by {
        assert((i + offset) % 4 == (i + offset % 4) % 4);
    }
    assert(a =~= b);
}

/// Masking adds the mask, repeated, to the data: zeros become the mask itself, byte
/// after byte from the offset on, and any byte is changed as a zero there is.
pub proof fn law_masking_adds_the_mask(data: Seq<u8>, mask: Seq<u8>, offset: int, i: int)
    requires
        mask.len() == 4,
        0 <= offset,
        0 <= i < data.len(),
    ensures
        ({
            let zeros = Seq::new(data.len(), |j: int| 0u8);
            &&& masked(data, mask, offset).len() == data.len()
            &&& masked(zeros, mask, 0).len() == data.len()
            &&& i < 4 ==> masked(zeros, mask, 0)[i] == mask[i]
            &&& i >= 4 ==> masked(zeros, mask, offset)[i] == masked(zeros, mask, offset)[i - 4]
            &&& i + 1 < data.len() ==> masked(zeros, mask, offset)[i + 1] == masked(
                zeros,
                mask,
                offset + 1,
            )[i]
            &&& masked(data, mask, offset)[i] == data[i] ^ masked(zeros, mask, offset)[i]
        }),
{
    let zeros = Seq::new(data.len(), |j: int| 0u8);
    let b = mask_byte(mask, i + offset);
    assert(0u8 ^ b == b) by (bit_vector);
    let c = mask_byte(mask, i + 1 + offset);
    assert(0u8 ^ c == c) by (bit_vector);
    let d = mask_byte(mask, i);
    assert(0u8 ^ d == d) by (bit_vector);
    if i >= 4 {
        let e = mask_byte(mask, i - 4 + offset);
        assert(0u8 ^ e == e) by (bit_vector);
        assert((i + offset) % 4 == (i - 4 + offset) % 4);
    }
}

} // verus!
