//! The byte buffers of the `bytes` crate.
//!
//! `Bytes` is an immutable, cheaply shared run of bytes and `BytesMut` a growable
//! one. Verus cannot look inside either, so what they hold has a name here, and
//! each operation that the library uses says what it does to those contents.

use bytes::{Buf, Bytes, BytesMut};
use vstd::prelude::*;

verus! {

/// The immutable byte buffer.
#[verifier::external_type_specification]
#[verifier::external_body]
pub struct ExBytes(Bytes);

/// The growable byte buffer.
#[verifier::external_type_specification]
#[verifier::external_body]
pub struct ExBytesMut(BytesMut);

/// The bytes that a `Bytes` holds.
pub uninterp spec fn contents(b: Bytes) -> Seq<u8>;

/// The bytes that a `BytesMut` holds.
pub uninterp spec fn buffered(b: BytesMut) -> Seq<u8>;

/// `Bytes::from(Vec<u8>)` keeps the bytes of the vector.
#[verifier::external_body]
pub(crate) fn bytes_from_vec(v: Vec<u8>) -> (r: Bytes)
    ensures
        contents(r) == v@,
{
    Bytes::from(v)
}

/// `Bytes::len` counts the bytes held.
pub assume_specification[ Bytes::len ](b: &Bytes) -> (r: usize)
    ensures
        r == contents(*b).len(),
;

/// `Bytes::is_empty` tells whether no byte is held.
pub assume_specification[ Bytes::is_empty ](b: &Bytes) -> (r: bool)
    ensures
        r == (contents(*b).len() == 0),
;

/// `Bytes::as_ref` lends the bytes held.
#[verifier::external_body]
pub(crate) fn bytes_as_slice(b: &Bytes) -> (r: &[u8])
    ensures
        r@ == contents(*b),
{
    b.as_ref()
}

/// `Bytes::clone` shares the bytes held.
#[verifier::external_body]
pub(crate) fn bytes_clone(b: &Bytes) -> (r: Bytes)
    ensures
        contents(r) == contents(*b),
{
    b.clone()
}

/// `Buf::advance` on a `Bytes` drops that many bytes from the front; it panics
/// where fewer are held.
#[verifier::external_body]
pub(crate) fn bytes_advance(b: &mut Bytes, n: usize)
    requires
        n <= contents(*old(b)).len(),
    ensures
        contents(*final(b)) == contents(*old(b)).skip(n as int),
{
    b.advance(n)
}

/// `BytesMut::with_capacity` gives an empty buffer; a capacity above
/// `isize::MAX` makes the allocation panic.
pub assume_specification[ BytesMut::with_capacity ](capacity: usize) -> (r: BytesMut)
    requires
        capacity <= isize::MAX,
    ensures
        buffered(r) == Seq::<u8>::empty(),
;

/// `BytesMut::len` counts the bytes held.
pub assume_specification[ BytesMut::len ](b: &BytesMut) -> (r: usize)
    ensures
        r == buffered(*b).len(),
;

/// `BytesMut::is_empty` tells whether no byte is held.
pub assume_specification[ BytesMut::is_empty ](b: &BytesMut) -> (r: bool)
    ensures
        r == (buffered(*b).len() == 0),
;

/// `BytesMut::extend_from_slice` appends the given bytes; growing a buffer past
/// `isize::MAX` bytes panics.
pub assume_specification[ BytesMut::extend_from_slice ](b: &mut BytesMut, extend: &[u8])
    requires
        buffered(*old(b)).len() + extend@.len() <= isize::MAX,
    ensures
        buffered(*final(b)) == buffered(*old(b)) + extend@,
;

/// `BytesMut::reserve` makes room and leaves the bytes held as they are.
pub assume_specification[ BytesMut::reserve ](b: &mut BytesMut, additional: usize)
    requires
        buffered(*old(b)).len() + additional <= isize::MAX,
    ensures
        buffered(*final(b)) == buffered(*old(b)),
;

/// Makes room for `additional` bytes with `reserve`.
pub(crate) fn reserve_with<F: Fn(&mut BytesMut, usize)>(
    reserve: F,
    b: &mut BytesMut,
    additional: usize,
)
    requires
        forall|a: &mut BytesMut| *a == *old(b) ==> #[trigger] call_requires(reserve, (a, additional)),
    ensures
        exists|a: &mut BytesMut|
            *a == *old(b) && *final(a) == *final(b) && #[trigger] call_ensures(
                reserve,
                (a, additional),
                (),
            ),
{
    reserve(b, additional)
}

/// `BytesMut::clear` drops every byte held.
pub assume_specification[ BytesMut::clear ](b: &mut BytesMut)
    ensures
        buffered(*final(b)) == Seq::<u8>::empty(),
;

/// `BytesMut::split` moves every byte held into a buffer of its own.
pub assume_specification[ BytesMut::split ](b: &mut BytesMut) -> (r: BytesMut)
    ensures
        buffered(r) == buffered(*old(b)),
        buffered(*final(b)) == Seq::<u8>::empty(),
;

/// `BytesMut::split_to` moves the first `at` bytes into a buffer of their own; it
/// panics where fewer are held.
pub assume_specification[ BytesMut::split_to ](b: &mut BytesMut, at: usize) -> (r: BytesMut)
    requires
        at <= buffered(*old(b)).len(),
    ensures
        buffered(r) == buffered(*old(b)).take(at as int),
        buffered(*final(b)) == buffered(*old(b)).skip(at as int),
;

/// `BytesMut::split_off` keeps the first `at` bytes and moves the others into a
/// buffer of their own. It panics beyond the capacity, which is at least the
/// number of bytes held.
pub assume_specification[ BytesMut::split_off ](b: &mut BytesMut, at: usize) -> (r: BytesMut)
    requires
        at <= buffered(*old(b)).len(),
    ensures
        buffered(*final(b)) == buffered(*old(b)).take(at as int),
        buffered(r) == buffered(*old(b)).skip(at as int),
;

/// `BytesMut::freeze` keeps the bytes held.
pub assume_specification[ BytesMut::freeze ](b: BytesMut) -> (r: Bytes)
    ensures
        contents(r) == buffered(b),
;

/// `Buf::advance` on a `BytesMut` drops that many bytes from the front; it
/// panics where fewer are held.
#[verifier::external_body]
pub(crate) fn buffer_advance(b: &mut BytesMut, n: usize)
    requires
        n <= buffered(*old(b)).len(),
    ensures
        buffered(*final(b)) == buffered(*old(b)).skip(n as int),
{
    b.advance(n)
}

/// `BytesMut::as_ref` lends the bytes held.
#[verifier::external_body]
pub(crate) fn buffer_as_slice(b: &BytesMut) -> (r: &[u8])
    ensures
        r@ == buffered(*b),
{
    b.as_ref()
}

} // verus!
