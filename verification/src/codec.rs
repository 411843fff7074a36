//! Hashing, Base64 and randomness for the opening handshake.

use base64::Engine;
use sha1::Digest;
use vstd::prelude::*;
use vstd::string::*;

verus! {

/// The SHA-1 digest of a byte sequence.
pub uninterp spec fn sha1_digest(data: Seq<u8>) -> Seq<u8>;

/// The standard, padded Base64 text of a byte sequence.
pub uninterp spec fn base64_text(data: Seq<u8>) -> Seq<char>;

/// The bytes that a standard, padded Base64 text stands for, where it is one.
pub uninterp spec fn base64_bytes(text: Seq<char>) -> Option<Seq<u8>>;

/// Hashes with `Sha1::digest`, whose output is always 20 bytes long.
#[verifier::external_body]
pub(crate) fn sha1(data: &[u8]) -> (r: Vec<u8>)
    ensures
        r@ == sha1_digest(data@),
        r.len() == 20,
{
    sha1::Sha1::digest(data).to_vec()
}

/// The characters of standard, padded Base64.
pub open spec fn is_base64_char(c: char) -> bool {
    ||| 'A' <= c && c <= 'Z'
    ||| 'a' <= c && c <= 'z'
    ||| '0' <= c && c <= '9'
    ||| c == '+'
    ||| c == '/'
    ||| c == '='
}

/// Whether a text consists of the characters of Base64.
pub open spec fn is_base64_text(s: Seq<char>) -> bool {
    forall|i: int| 0 <= i < s.len() ==> is_base64_char(#[trigger] s[i])
}

/// Encodes with the `STANDARD` engine of the `base64` crate.
///
/// The text consists of the characters of its alphabet and padding, four for each
/// three bytes that are begun, and decoding it with the same engine gives the
/// bytes back. The engine panics where the length of the text overflows.
#[verifier::external_body]
pub(crate) fn base64_encode(data: &[u8]) -> (r: String)
    requires
        data@.len() <= isize::MAX / 2,
    ensures
        r@ == base64_text(data@),
        base64_bytes(r@) == Some(data@),
        is_base64_text(r@),
        r@.len() == (data@.len() + 2) / 3 * 4,
{
    base64::engine::general_purpose::STANDARD.encode(data)
}

/// Decodes with the `STANDARD` engine of the `base64` crate; text that is not
/// canonical, padded Base64 gives `None`.
#[verifier::external_body]
pub(crate) fn base64_decode(text: &str) -> (r: Option<Vec<u8>>)
    ensures
        match (r, base64_bytes(text@)) {
            (Some(v), Some(bytes)) => v@ == bytes,
            (None, None) => true,
            _ => false,
        },
{
    base64::engine::general_purpose::STANDARD.decode(text).ok()
}

/// Draws four bytes from `fastrand::u32`. They are random, so nothing is said
/// of them.
#[verifier::external_body]
pub(crate) fn random_u32_bytes() -> (r: [u8; 4]) {
    fastrand::u32(..).to_ne_bytes()
}

/// Whether four bytes were drawn at random.
pub closed spec fn is_draw(r: [u8; 4]) -> bool {
    call_ensures(random_u32_bytes, (), r)
}

/// Draws with `source`.
fn draw_from<F: Fn() -> [u8; 4]>(source: F) -> (r: [u8; 4])
    requires
        call_requires(source, ()),
    ensures
        call_ensures(source, (), r),
{
    source()
}

/// Draws four random bytes.
pub(crate) fn draw() -> (r: [u8; 4])
    ensures
        is_draw(r),
{
    draw_from(random_u32_bytes)
}

} // verus!
