//! Write batching.
//!
//! Small writes accumulate in a buffer and go out together; large payloads are
//! queued by reference, behind everything written before.

use crate::buffers;
use crate::buffers::{buffered, contents};
use crate::CORK_BUFFER_SIZE;
use bytes::{Bytes, BytesMut};
use std::collections::VecDeque;
use vstd::prelude::*;

verus! {

/// Whether writes are being held back.
#[derive(Debug, Clone, Copy, PartialEq, Eq, Structural)]
pub enum CorkState {
    /// Writes may go out.
    Uncorked,
    /// Writes accumulate.
    Corked,
}

/// Payloads at least this large are queued by reference instead of copied.
pub const ZERO_COPY_MIN: usize = 8 * 1024;

/// All bytes of the segments, in order.
pub open spec fn flatten(segments: Seq<Seq<u8>>) -> Seq<u8>
    decreases segments.len(),
{
    if segments.len() == 0 {
        seq![]
    } else {
        segments[0] + flatten(segments.skip(1))
    }
}

/// What the segments hold.
pub open spec fn segment_views(segments: Seq<Bytes>) -> Seq<Seq<u8>> {
    segments.map_values(|b: Bytes| contents(b))
}

/// One more segment at the end.
pub proof fn lemma_flatten_push(segments: Seq<Seq<u8>>, last: Seq<u8>)
    ensures
        flatten(segments.push(last)) == flatten(segments) + last,
    decreases segments.len(),
{
    if segments.len() == 0 {
        assert(segments.push(last).skip(1) =~= seq![]);
        assert(flatten(segments.push(last).skip(1)) =~= seq![]);
        assert(flatten(segments.push(last)) =~= flatten(segments) + last);
    } else {
        lemma_flatten_push(segments.skip(1), last);
        assert(segments.push(last).skip(1) =~= segments.skip(1).push(last));
        assert(segments[0] + (flatten(segments.skip(1)) + last) =~= segments[0] + flatten(
            segments.skip(1),
        ) + last);
    }
}

/// Nothing is pending only where there is no segment, since none is empty.
proof fn lemma_flatten_nonempty(segments: Seq<Seq<u8>>)
    requires
        forall|i: int| 0 <= i < segments.len() ==> (#[trigger] segments[i]).len() > 0,
    ensures
        flatten(segments).len() == 0 <==> segments.len() == 0,
{
    if segments.len() > 0 {
        assert(segments[0].len() > 0);
    }
}

/// Write buffer for batching small writes.
pub struct CorkBuffer {
    /// Where small writes are appended.
    buffer: BytesMut,
    /// Soft limit of `buffer`.
    max_size: usize,
    /// Whether writes are being held back.
    state: CorkState,
    /// What goes out before `buffer`, in order.
    segments: VecDeque<Bytes>,
    /// The number of bytes in `segments`.
    segment_bytes: usize,
}

impl View for CorkBuffer {
    type V = Seq<u8>;

    /// Everything that is pending, in the order in which it goes out.
    closed spec fn view(&self) -> Seq<u8> {
        flatten(segment_views(self.segments@)) + buffered(self.buffer)
    }
}

impl CorkBuffer {
    /// What is queued before the open buffer.
    pub closed spec fn queued(&self) -> Seq<Seq<u8>> {
        segment_views(self.segments@)
    }

    /// The open buffer.
    pub closed spec fn open_buffer(&self) -> BytesMut {
        self.buffer
    }

    /// What the open buffer holds.
    pub closed spec fn open_bytes(&self) -> Seq<u8> {
        buffered(self.buffer)
    }

    /// The soft limit of the open buffer.
    pub closed spec fn limit(&self) -> usize {
        self.max_size
    }

    /// Whether writes are being held back.
    pub closed spec fn corked(&self) -> bool {
        self.state == CorkState::Corked
    }

    /// The bookkeeping is right, no segment is empty, and the number of pending
    /// bytes fits a `usize`.
    pub closed spec fn wf(&self) -> bool {
        &&& self.segment_bytes == flatten(segment_views(self.segments@)).len()
        &&& forall|i: int|
            0 <= i < self.segments@.len() ==> contents(#[trigger] self.segments@[i]).len() > 0
        &&& self@.len() <= usize::MAX
        &&& self.max_size <= isize::MAX
    }

    /// The pieces in which the pending bytes go out.
    pub open spec fn pieces(&self) -> Seq<Seq<u8>> {
        if self.open_bytes().len() == 0 {
            self.queued()
        } else {
            self.queued().push(self.open_bytes())
        }
    }

    /// Creates a buffer of the default size.
    pub fn new() -> (r: Self)
        ensures
            r.wf(),
            r@ == Seq::<u8>::empty(),
            !r.corked(),
            r.limit() == CORK_BUFFER_SIZE,
    {
        CorkBuffer::with_capacity(CORK_BUFFER_SIZE)
    }

    /// Creates a buffer of the given size.
    pub fn with_capacity(capacity: usize) -> (r: Self)
        requires
            capacity <= isize::MAX,
        ensures
            r.wf(),
            r@ == Seq::<u8>::empty(),
            !r.corked(),
            r.limit() == capacity,
    {
        let r = CorkBuffer {
            buffer: BytesMut::with_capacity(capacity),
            max_size: capacity,
            state: CorkState::Uncorked,
            segments: VecDeque::new(),
            segment_bytes: 0,
        };
        assert(segment_views(r.segments@) =~= seq![]);
        assert(r@ =~= seq![]);
        r
    }

    /// Holds writes back.
    pub fn cork(&mut self)
        requires
            old(self).wf(),
        ensures
            final(self).wf(),
            final(self).corked(),
            final(self)@ == old(self)@,
            final(self).pieces() == old(self).pieces(),
            final(self).limit() == old(self).limit(),
            is_cork_step(old(self)@, CorkStep::Other, final(self)@),
    {
        self.state = CorkState::Corked;
    }

    /// Lets writes out; tells whether there is anything to flush.
    pub fn uncork(&mut self) -> (r: bool)
        requires
            old(self).wf(),
        ensures
            final(self).wf(),
            !final(self).corked(),
            final(self)@ == old(self)@,
            final(self).pieces() == old(self).pieces(),
            final(self).limit() == old(self).limit(),
            r == (old(self)@.len() > 0),
            is_cork_step(old(self)@, CorkStep::Other, final(self)@),
            r == !is_within(final(self)@.len(), 0, 0),
    {
        self.state = CorkState::Uncorked;
        self.has_data()
    }

    /// Whether writes are being held back.
    pub fn is_corked(&self) -> (r: bool)
        ensures
            r == self.corked(),
    {
        self.state == CorkState::Corked
    }

    /// Whether anything is pending.
    pub fn has_data(&self) -> (r: bool)
        requires
            self.wf(),
        ensures
            r == (self@.len() > 0),
    {
        proof {
            let s = segment_views(self.segments@);
            assert forall|i: int| 0 <= i < s.len() implies (#[trigger] s[i]).len() > 0 by {
                assert(s[i] == contents(self.segments@[i]));
            }
            lemma_flatten_nonempty(s);
        }
        !self.buffer.is_empty() || self.segments.len() > 0
    }

    /// Whether more than the open buffer is pending.
    pub fn has_segments(&self) -> (r: bool)
        ensures
            r == (self.queued().len() > 0),
    {
        self.segments.len() > 0
    }

    /// The number of pending bytes.
    pub fn pending_bytes(&self) -> (r: usize)
        requires
            self.wf(),
        ensures
            r == self@.len(),
    {
        self.buffer.len() + self.segment_bytes
    }

    /// Copies data into the open buffer.
    ///
    /// Tells whether the open buffer is still within its limit; `false` is the
    /// caller's cue to flush.
    pub fn write(&mut self, data: &[u8]) -> (r: bool)
        requires
            old(self).wf(),
            old(self)@.len() + data@.len() <= isize::MAX,
        ensures
            final(self).wf(),
            final(self)@ == old(self)@ + data@,
            final(self).queued() == old(self).queued(),
            final(self).corked() == old(self).corked(),
            final(self).limit() == old(self).limit(),
            r == (old(self).open_bytes().len() + data@.len() <= old(self).limit()),
            is_cork_step(old(self)@, CorkStep::Wrote(data@), final(self)@),
            r == is_within(old(self).open_bytes().len(), data@.len(), old(self).limit()),
            r == is_within(final(self).open_bytes().len(), 0, final(self).limit()),
    {
        self.buffer.extend_from_slice(data);
        assert(self@ =~= old(self)@ + data@);
        self.buffer.len() <= self.max_size
    }

    /// Queues bytes; small payloads are copied, large ones are queued by
    /// reference.
    pub fn write_bytes(&mut self, data: Bytes)
        requires
            old(self).wf(),
            old(self)@.len() + contents(data).len() <= isize::MAX,
        ensures
            final(self).wf(),
            final(self)@ == old(self)@ + contents(data),
            final(self).corked() == old(self).corked(),
            final(self).limit() == old(self).limit(),
            contents(data).len() < ZERO_COPY_MIN ==> final(self).queued() == old(self).queued(),
            contents(data).len() >= ZERO_COPY_MIN ==> final(self).pieces() == old(self).pieces().push(
                contents(data),
            ),
            is_cork_step(old(self)@, CorkStep::Wrote(contents(data)), final(self)@),
    {
        if data.len() < ZERO_COPY_MIN {
            self.buffer.extend_from_slice(buffers::bytes_as_slice(&data));
            assert(self@ =~= old(self)@ + contents(data));
            return;
        }
        self.push_segment(data);
    }

    /// Queues bytes by reference, whatever their number.
    pub fn push_segment(&mut self, data: Bytes)
        requires
            old(self).wf(),
            old(self)@.len() + contents(data).len() <= isize::MAX,
        ensures
            final(self).wf(),
            final(self)@ == old(self)@ + contents(data),
            final(self).corked() == old(self).corked(),
            final(self).limit() == old(self).limit(),
            final(self).pieces() == (if contents(data).len() == 0 {
                old(self).pieces()
            } else {
                old(self).pieces().push(contents(data))
            }),
            is_cork_step(old(self)@, CorkStep::Wrote(contents(data)), final(self)@),
    {
        if data.is_empty() {
            assert(self@ =~= old(self)@ + contents(data));
            return;
        }
        let ghost s0 = segment_views(self.segments@);
        if !self.buffer.is_empty() {
            let closed = self.buffer.split().freeze();
            let ghost before = self.segments@;
            self.segment_bytes = self.segment_bytes + closed.len();
            self.segments.push_back(closed);
            proof {
                lemma_flatten_push(s0, contents(closed));
                assert(segment_views(self.segments@) =~= s0.push(contents(closed)));
            }
        }
        let ghost s1 = segment_views(self.segments@);
        self.segment_bytes = self.segment_bytes + data.len();
        self.segments.push_back(data);
        proof {
            lemma_flatten_push(s1, contents(data));
            assert(segment_views(self.segments@) =~= s1.push(contents(data)));
            assert(self@ =~= old(self)@ + contents(data));
        }
    }

    /// Lends the pending bytes piece by piece, in the order in which they go out.
    ///
    /// As many pieces as `out` has room for; tells how many.
    pub fn fill_write_slices<'a>(&'a self, out: &mut [&'a [u8]]) -> (r: usize)
        requires
            self.wf(),
        ensures
            r == (if self.pieces().len() < old(out)@.len() {
                self.pieces().len()
            } else {
                old(out)@.len()
            }),
            final(out)@.len() == old(out)@.len(),
            forall|i: int| 0 <= i < r ==> (#[trigger] final(out)@[i])@ == self.pieces()[i],
            forall|i: int| r <= i < old(out)@.len() ==> #[trigger] final(out)@[i] == old(out)@[i],
            r == pieces_lent(self.pieces().len(), old(out)@.len()),
            slice_views(final(out)@).take(r as int) == self.pieces().take(r as int),
    {
        let mut n: usize = 0;
        let count: usize = self.segments.len();
        let room: usize = out.len();
        while n < count && n < room
            invariant
                count == self.segments@.len(),
                room == out@.len(),
                out@.len() == old(out)@.len(),
                n <= count,
                n <= room,
                forall|i: int| 0 <= i < n ==> (#[trigger] out@[i])@ == contents(self.segments@[i]),
                forall|i: int| n <= i < room ==> #[trigger] out@[i] == old(out)@[i],
            decreases count - n,
        {
            out[n] = buffers::bytes_as_slice(&self.segments[n]);
            n = n + 1;
        }
        if n < room && !self.buffer.is_empty() {
            out[n] = buffers::buffer_as_slice(&self.buffer);
            n = n + 1;
        }
        proof {
            let lent = slice_views(out@).take(n as int);
            assert forall|i: int| 0 <= i < n implies #[trigger] lent[i] == self.pieces()[i] by {
                assert(lent[i] == out@[i]@);
            }
            assert(lent =~= self.pieces().take(n as int));
        }
        n
    }

    /// Lends the pending bytes piece by piece, in the order in which they go out.
    pub fn get_write_slices(&self) -> (r: Vec<&[u8]>)
        requires
            self.wf(),
        ensures
            slice_views(r@) == self.pieces(),
            flatten(slice_views(r@)) == self@,
    {
        let mut slices: Vec<&[u8]> = Vec::new();
        let count: usize = self.segments.len();
        let mut n: usize = 0;
        while n < count
            invariant
                count == self.segments@.len(),
                n <= count,
                slices.len() == n,
                forall|i: int| 0 <= i < n ==> (#[trigger] slices@[i])@ == contents(self.segments@[i]),
            decreases count - n,
        {
            slices.push(buffers::bytes_as_slice(&self.segments[n]));
            n = n + 1;
        }
        if !self.buffer.is_empty() {
            slices.push(buffers::buffer_as_slice(&self.buffer));
        }
        assert(slice_views(slices@) =~= self.pieces());
        proof {
            law_pieces_are_pending(self);
        }
        slices
    }
}

/// Whether the open buffer stays within its limit.
pub open spec fn is_within(open: nat, more: nat, limit: usize) -> bool {
    open + more <= limit
}

/// How many pieces fit where there is room for some.
pub open spec fn pieces_lent(pieces: nat, room: nat) -> nat {
    if pieces < room {
        pieces
    } else {
        room
    }
}

/// Whether a buffer is corked after a batch that began with it corked or not.
pub open spec fn corked_after(was_corked: bool, corked: bool) -> bool {
    was_corked && corked
}

/// What a call does to the bytes that are pending.
pub enum CorkStep {
    /// Bytes were written.
    Wrote(Seq<u8>),
    /// Bytes went out.
    Consumed(Seq<u8>),
    /// Nothing.
    Other,
}

/// Whether a call takes the pending bytes from `before` to `after`.
pub open spec fn is_cork_step(before: Seq<u8>, step: CorkStep, after: Seq<u8>) -> bool {
    match step {
        CorkStep::Wrote(data) => after == before + data,
        CorkStep::Consumed(data) => before == data + after,
        CorkStep::Other => after == before,
    }
}

/// What the slices hold.
pub open spec fn slice_views(slices: Seq<&[u8]>) -> Seq<Seq<u8>> {
    slices.map_values(|s: &[u8]| s@)
}

/// What is left of the pieces once their first `n` bytes are gone: whole pieces
/// go first, and the piece in which the cut falls keeps its end.
pub open spec fn pieces_after(pieces: Seq<Seq<u8>>, n: int) -> Seq<Seq<u8>>
    decreases pieces.len(),
{
    if n <= 0 || pieces.len() == 0 {
        pieces
    } else if n < pieces[0].len() {
        pieces.update(0, pieces[0].skip(n))
    } else {
        pieces_after(pieces.skip(1), n - pieces[0].len())
    }
}

/// What is left of `bytes` once the first `n` are gone.
pub open spec fn bytes_after(bytes: Seq<u8>, n: int) -> Seq<u8> {
    if n <= 0 {
        bytes
    } else if n < bytes.len() {
        bytes.skip(n)
    } else {
        Seq::empty()
    }
}

impl CorkBuffer {
    /// Drops the first `n` pending bytes, or all where there are fewer. The
    /// pieces behind the cut stay as they are.
    pub fn consume(&mut self, n: usize)
        requires
            old(self).wf(),
        ensures
            final(self).wf(),
            final(self)@ == old(self)@.skip(
                if n < old(self)@.len() {
                    n as int
                } else {
                    old(self)@.len() as int
                },
            ),
            final(self).queued() == pieces_after(old(self).queued(), n as int),
            final(self).open_bytes() == bytes_after(
                old(self).open_bytes(),
                n - flatten(old(self).queued()).len(),
            ),
            final(self).corked() == old(self).corked(),
            final(self).limit() == old(self).limit(),
            n <= old(self)@.len() ==> is_cork_step(
                old(self)@,
                CorkStep::Consumed(old(self)@.take(n as int)),
                final(self)@,
            ),
    {
        let mut left: usize = n;
        proof {
            assert(self@.skip(0) =~= self@);
            if n <= self@.len() {
                assert(self@ =~= self@.take(n as int) + self@.skip(n as int));
            }
        }
        while left > 0 && self.segments.len() > 0
            invariant
                self.wf(),
                self.state == old(self).state,
                self.max_size == old(self).max_size,
                left <= n,
                n - left <= old(self)@.len(),
                self@ == old(self)@.skip(n - left),
                self.buffer == old(self).buffer,
                n <= old(self)@.len() ==> old(self)@ == old(self)@.take(n as int) + old(self)@.skip(
                    n as int,
                ),
                n - left + flatten(self.queued()).len() == flatten(old(self).queued()).len(),
                pieces_after(self.queued(), left as int) == pieces_after(
                    old(self).queued(),
                    n as int,
                ),
            decreases left,
        {
            let ghost s0 = segment_views(self.segments@);
            let ghost all = self@;
            let ghost old_segments = self.segments@;
            let mut front = match self.segments.pop_front() {
                Some(b) => b,
                None => {
                    return;
                },
            };
            let size: usize = front.len();
            proof {
                assert(s0[0] == contents(front));
                assert(s0.skip(1) =~= segment_views(self.segments@));
                assert(contents(old_segments[0]).len() > 0);
                assert forall|i: int| 0 <= i < self.segments@.len() implies contents(
                    #[trigger] self.segments@[i],
                ).len() > 0 by {
                    assert(self.segments@[i] == old_segments[i + 1]);
                }
            }
            if left >= size {
                left = left - size;
                self.segment_bytes = self.segment_bytes - size;
                assert(self@ =~= all.skip(size as int));
            } else {
                let ghost rest = contents(front);
                buffers::bytes_advance(&mut front, left);
                self.segment_bytes = self.segment_bytes - left;
                let ghost tail = self.segments@;
                self.segments.push_front(front);
                proof {
                    let s1 = segment_views(self.segments@);
                    assert(s1[0] == contents(front));
                    assert(s1.skip(1) =~= segment_views(tail));
                    assert(s1 =~= s0.update(0, s0[0].skip(left as int)));
                    assert(self@ =~= all.skip(left as int));
                    assert forall|i: int| 0 <= i < self.segments@.len() implies contents(
                        #[trigger] self.segments@[i],
                    ).len() > 0 by {
                        if i > 0 {
                            assert(self.segments@[i] == tail[i - 1]);
                        }
                    }
                    assert(self@ =~= old(self)@.skip(n as int));
                }
                return;
            }
            assert(self@ =~= old(self)@.skip(n - left));
        }
        if left > 0 {
            let ghost all = self@;
            let have: usize = self.buffer.len();
            let take: usize = if left < have {
                left
            } else {
                have
            };
            assert(segment_views(self.segments@) =~= seq![]);
            buffers::buffer_advance(&mut self.buffer, take);
            assert(self@ =~= all.skip(take as int));
            proof {
                if n <= old(self)@.len() {
                    assert(self@ =~= old(self)@.skip(n as int));
                }
            }
        }
    }

    /// Takes out what the open buffer holds; queued segments stay.
    pub fn take_buffer(&mut self) -> (r: BytesMut)
        requires
            old(self).wf(),
        ensures
            final(self).wf(),
            buffered(r) == old(self).open_bytes(),
            final(self).open_bytes().len() == 0,
            final(self).queued() == old(self).queued(),
            final(self)@ == flatten(old(self).queued()),
            final(self).corked() == old(self).corked(),
            final(self).limit() == old(self).limit(),
            is_cork_step(final(self)@, CorkStep::Wrote(buffered(r)), old(self)@),
    {
        let mut fresh = BytesMut::with_capacity(self.max_size);
        core::mem::swap(&mut self.buffer, &mut fresh);
        assert(self@ =~= flatten(old(self).queued()));
        fresh
    }

    /// Drops everything that is pending.
    pub fn clear(&mut self)
        requires
            old(self).wf(),
        ensures
            final(self).wf(),
            final(self)@ == Seq::<u8>::empty(),
            final(self).corked() == old(self).corked(),
            final(self).limit() == old(self).limit(),
            is_cork_step(old(self)@, CorkStep::Consumed(old(self)@), final(self)@),
    {
        self.buffer.clear();
        self.segments.clear();
        self.segment_bytes = 0;
        assert(segment_views(self.segments@) =~= seq![]);
        assert(self@ =~= seq![]);
    }

    /// Makes room in the open buffer, with `BytesMut::reserve`. How much that is in
    /// all is the allocator's choice.
    pub fn reserve(&mut self, additional: usize)
        requires
            old(self).wf(),
            old(self).open_bytes().len() + additional <= isize::MAX,
        ensures
            final(self).wf(),
            final(self)@ == old(self)@,
            final(self).pieces() == old(self).pieces(),
            final(self).corked() == old(self).corked(),
            final(self).limit() == old(self).limit(),
            exists|b: &mut BytesMut|
                *b == old(self).open_buffer() && *final(b) == final(self).open_buffer()
                    && #[trigger] call_ensures(BytesMut::reserve, (b, additional), ()),
    {
        buffers::reserve_with(BytesMut::reserve, &mut self.buffer, additional);
    }

    /// Lends the open buffer, for frames to be encoded into it. What is appended
    /// goes out behind every segment queued so far.
    pub fn buffer_mut(&mut self) -> (r: &mut BytesMut)
        requires
            old(self).wf(),
        ensures
            buffered(*r) == old(self).open_bytes(),
            final(self)@ == flatten(old(self).queued()) + buffered(*final(r)),
            final(self).queued() == old(self).queued(),
            final(self).corked() == old(self).corked(),
            final(self).limit() == old(self).limit(),
            flatten(old(self).queued()).len() + buffered(*final(r)).len() <= usize::MAX ==> final(self).wf(),
    {
        &mut self.buffer
    }

    /// Lends the first piece of what is pending; it is empty only where nothing
    /// is.
    pub fn chunk(&self) -> (r: &[u8])
        requires
            self.wf(),
        ensures
            r@ == (if self@.len() == 0 {
                Seq::empty()
            } else {
                self.pieces()[0]
            }),
            r@.is_prefix_of(self@),
    {
        proof {
            let s = segment_views(self.segments@);
            assert forall|i: int| 0 <= i < s.len() implies (#[trigger] s[i]).len() > 0 by {
                assert(s[i] == contents(self.segments@[i]));
            }
            lemma_flatten_nonempty(s);
        }
        if self.segments.len() > 0 {
            let r = buffers::bytes_as_slice(&self.segments[0]);
            proof {
                assert(self.pieces()[0] == contents(self.segments@[0]));
                assert(self@.subrange(0, r@.len() as int) =~= r@);
            }
            r
        } else {
            let r = buffers::buffer_as_slice(&self.buffer);
            proof {
                assert(self@ =~= r@);
                assert(self@.subrange(0, r@.len() as int) =~= r@);
                if self@.len() == 0 {
                    assert(r@ =~= Seq::empty());
                }
            }
            r
        }
    }
}

impl Default for CorkBuffer {
    fn default() -> (r: Self)
        ensures
            r.wf(),
            r@ == Seq::<u8>::empty(),
            !r.corked(),
            r.limit() == CORK_BUFFER_SIZE,
    {
        CorkBuffer::new()
    }
}

/// The pieces in which the pending bytes go out, put together, are the pending
/// bytes.
pub proof fn law_pieces_are_pending(c: &CorkBuffer)
    ensures
        flatten(c.pieces()) == c@,
{
    if c.open_bytes().len() > 0 {
        lemma_flatten_push(c.queued(), c.open_bytes());
    } else {
        assert(flatten(c.queued()) + c.open_bytes() =~= flatten(c.queued()));
    }
}

/// What was written goes out in the order of the writes, however it is consumed:
/// consuming `n` bytes and then `m` is consuming `n + m`.
pub proof fn law_consuming_in_parts(pending: Seq<u8>, n: int, m: int)
    requires
        0 <= n,
        0 <= m,
        n + m <= pending.len(),
    ensures
        pending.skip(n).skip(m) == pending.skip(n + m),
        pending == pending.take(n) + pending.skip(n).take(m) + pending.skip(n + m),
{
    assert(pending.skip(n).skip(m) =~= pending.skip(n + m));
    assert(pending =~= pending.take(n) + pending.skip(n).take(m) + pending.skip(n + m));
}

/// Several frames written before a flush.
///
/// The buffer is corked while the writer lives. `finish`, or else the end of the
/// writer's life, gives it back its earlier state.
pub struct BatchWriter<'a> {
    /// The buffer that the batch is written to, until the batch is finished.
    pub cork: Option<&'a mut CorkBuffer>,
    /// Whether the buffer was corked before the batch.
    pub was_corked: bool,
}

impl<'a> BatchWriter<'a> {
    /// Starts a batch.
    pub fn new(cork: &'a mut CorkBuffer) -> (r: Self)
        requires
            old(cork).wf(),
        ensures
            r.cork is Some,
            r.cork->0.wf(),
            r.cork->0.corked(),
            r.cork->0@ == old(cork)@,
            r.cork->0.limit() == old(cork).limit(),
            r.was_corked == old(cork).corked(),
            *final(cork) == *final(r.cork->0),
            corked_after(r.was_corked, r.cork->0.corked()) == old(cork).corked(),
    {
        let was_corked = cork.is_corked();
        cork.cork();
        BatchWriter { cork: Some(cork), was_corked }
    }

    /// Adds data to the batch.
    pub fn write(&mut self, data: &[u8])
        requires
            old(self).cork is Some,
            old(self).cork->0.wf(),
            old(self).cork->0@.len() + data@.len() <= isize::MAX,
        ensures
            final(self).cork is Some,
            final(self).cork->0.wf(),
            final(self).cork->0@ == old(self).cork->0@ + data@,
            final(self).cork->0.corked() == old(self).cork->0.corked(),
            final(self).cork->0.limit() == old(self).cork->0.limit(),
            final(self).was_corked == old(self).was_corked,
            *final(final(self).cork->0) == *final(old(self).cork->0),
            is_cork_step(
                old(self).cork->0@,
                CorkStep::Wrote(data@),
                final(self).cork->0@,
            ),
    {
        if let Some(cork) = &mut self.cork {
            cork.write(data);
        }
    }

    /// Adds bytes to the batch.
    pub fn write_bytes(&mut self, data: Bytes)
        requires
            old(self).cork is Some,
            old(self).cork->0.wf(),
            old(self).cork->0@.len() + contents(data).len() <= isize::MAX,
        ensures
            final(self).cork is Some,
            final(self).cork->0.wf(),
            final(self).cork->0@ == old(self).cork->0@ + contents(data),
            final(self).cork->0.corked() == old(self).cork->0.corked(),
            final(self).cork->0.limit() == old(self).cork->0.limit(),
            final(self).was_corked == old(self).was_corked,
            *final(final(self).cork->0) == *final(old(self).cork->0),
            is_cork_step(
                old(self).cork->0@,
                CorkStep::Wrote(contents(data)),
                final(self).cork->0@,
            ),
    {
        if let Some(cork) = &mut self.cork {
            cork.write_bytes(data);
        }
    }

    /// Lends the open buffer, for frames to be encoded into it.
    pub fn buffer_mut(&mut self) -> (r: &mut BytesMut)
        requires
            old(self).cork is Some,
            old(self).cork->0.wf(),
        ensures
            buffered(*r) == old(self).cork->0.open_bytes(),
            final(self).cork is Some,
            final(self).cork->0@ == flatten(old(self).cork->0.queued()) + buffered(*final(r)),
            final(self).cork->0.queued() == old(self).cork->0.queued(),
            final(self).cork->0.corked() == old(self).cork->0.corked(),
            final(self).cork->0.limit() == old(self).cork->0.limit(),
            final(self).was_corked == old(self).was_corked,
            *final(final(self).cork->0) == *final(old(self).cork->0),
            flatten(old(self).cork->0.queued()).len() + buffered(*final(r)).len() <= usize::MAX
                ==> final(self).cork->0.wf(),
    {
        match &mut self.cork {
            Some(cork) => cork.buffer_mut(),
            None => vstd::pervasive::unreached(),
        }
    }

    /// Ends the batch: the buffer is uncorked unless it was corked before.
    pub fn finish(self)
        requires
            self.cork is Some,
            self.cork->0.wf(),
        ensures
            final(self.cork->0).wf(),
            final(self.cork->0)@ == self.cork->0@,
            final(self.cork->0).limit() == self.cork->0.limit(),
            final(self.cork->0).corked() == (self.was_corked && self.cork->0.corked()),
            final(self.cork->0).corked() == corked_after(self.was_corked, self.cork->0.corked()),
            is_cork_step(self.cork->0@, CorkStep::Other, final(self.cork->0)@),
    {
        let mut batch = self;
        if let Some(cork) = batch.cork.take() {
            if !batch.was_corked {
                cork.uncork();
            }
        }
    }
}

impl<'a> Drop for BatchWriter<'a> {
    fn drop(&mut self)
        ensures
            final(self).was_corked == old(self).was_corked,
            final(self).cork is Some == old(self).cork is Some,
            old(self).cork is Some ==> {
                &&& final(self).cork->0.corked() == (old(self).was_corked
                    && old(self).cork->0.corked())
                &&& final(self).cork->0.corked() == corked_after(
                    old(self).was_corked,
                    old(self).cork->0.corked(),
                )
                &&& final(self).cork->0@ == old(self).cork->0@
                &&& final(self).cork->0.queued() == old(self).cork->0.queued()
                &&& final(self).cork->0.limit() == old(self).cork->0.limit()
                &&& old(self).cork->0.wf() ==> final(self).cork->0.wf()
                &&& *final(final(self).cork->0) == *final(old(self).cork->0)
            },
        opens_invariants none
        no_unwind
    {
        if !self.was_corked {
            if let Some(cork) = &mut self.cork {
                cork.state = CorkState::Uncorked;
            }
        }
    }
}

/// Segments put together hold the bytes of each in order: those of two runs of
/// segments are those of the first followed by those of the second, and one segment
/// holds its own.
pub proof fn law_segments_hold_their_bytes(a: Seq<Seq<u8>>, b: Seq<Seq<u8>>, one: Seq<u8>)
    ensures
        flatten(a + b) == flatten(a) + flatten(b),
        flatten(seq![one]) == one,
        flatten(Seq::empty()).len() == 0,
    decreases a.len(),
{
    let single = seq![one];
    assert(single.skip(1) =~= Seq::<Seq<u8>>::empty());
    assert(flatten(single.skip(1)) =~= Seq::<u8>::empty());
    assert(flatten(single) =~= one);
    if a.len() == 0 {
        assert(a + b =~= b);
        assert(flatten(a) + flatten(b) =~= flatten(b));
    } else {
        law_segments_hold_their_bytes(a.skip(1), b, one);
        assert((a + b).skip(1) =~= a.skip(1) + b);
        assert((a + b)[0] == a[0]);
        assert(a[0] + (flatten(a.skip(1)) + flatten(b)) =~= a[0] + flatten(a.skip(1)) + flatten(b));
    }
}

/// What goes out and what stays are all there was: consuming `n` bytes takes the
/// first `n`, or all, and leaves the rest in order.
pub proof fn law_consuming_takes_the_front(bytes: Seq<u8>, n: int)
    ensures
        0 <= n <= bytes.len() ==> bytes.take(n) + bytes_after(bytes, n) == bytes,
        n >= bytes.len() ==> bytes_after(bytes, n).len() == 0,
{
    if 0 <= n <= bytes.len() {
        assert(bytes.take(n) + bytes_after(bytes, n) =~= bytes);
    }
}

/// Cutting bytes off the pieces cuts them off the bytes that they hold, and cuts no
/// piece but the first that is left.
pub proof fn law_cut_falls_in_one_piece(pieces: Seq<Seq<u8>>, n: int)
    requires
        n >= 0,
    ensures
        flatten(pieces_after(pieces, n)) == bytes_after(flatten(pieces), n),
        pieces_after(pieces, n).len() <= pieces.len(),
        forall|i: int|
            0 < i < pieces_after(pieces, n).len() ==> #[trigger] pieces_after(pieces, n)[i]
                == pieces[i + pieces.len() - pieces_after(pieces, n).len()],
    decreases pieces.len(),
{
    let all = flatten(pieces);
    let left = pieces_after(pieces, n);
    if n <= 0 || pieces.len() == 0 {
        assert(flatten(left) == all);
        assert(bytes_after(all, n) =~= all);
    } else if n < pieces[0].len() {
        assert(left.skip(1) =~= pieces.skip(1));
        assert(flatten(left) =~= all.skip(n));
    } else {
        let rest = pieces.skip(1);
        let m = n - pieces[0].len();
        law_cut_falls_in_one_piece(rest, m);
        assert(bytes_after(all, n) =~= bytes_after(flatten(rest), m));
        assert forall|i: int| 0 < i < left.len() implies #[trigger] left[i] == pieces[i
            + pieces.len() - left.len()] by {
            assert(left[i] == rest[i + rest.len() - left.len()]);
        }
    }
}

/// Whether `states` are the pending bytes between calls.
pub open spec fn is_corking(states: Seq<Seq<u8>>, steps: Seq<CorkStep>) -> bool {
    &&& states.len() == steps.len() + 1
    &&& forall|i: int|
        0 <= i < steps.len() ==> is_cork_step(states[i], #[trigger] steps[i], states[i + 1])
}

/// The bytes that were written, in order.
pub open spec fn written(steps: Seq<CorkStep>) -> Seq<u8>
    decreases steps.len(),
{
    if steps.len() == 0 {
        Seq::empty()
    } else {
        match steps.last() {
            CorkStep::Wrote(data) => written(steps.drop_last()) + data,
            _ => written(steps.drop_last()),
        }
    }
}

/// The bytes that went out, in order.
pub open spec fn consumed(steps: Seq<CorkStep>) -> Seq<u8>
    decreases steps.len(),
{
    if steps.len() == 0 {
        Seq::empty()
    } else {
        match steps.last() {
            CorkStep::Consumed(data) => consumed(steps.drop_last()) + data,
            _ => consumed(steps.drop_last()),
        }
    }
}

/// Every byte that is written goes out once, in order: what went out, followed by what
/// is pending, is what was pending at first, followed by what was written.
pub proof fn law_bytes_go_out_in_order(states: Seq<Seq<u8>>, steps: Seq<CorkStep>)
    requires
        is_corking(states, steps),
    ensures
        consumed(steps) + states.last() == states[0] + written(steps),
    decreases steps.len(),
{
    if steps.len() == 0 {
        assert(consumed(steps) + states.last() =~= states[0] + written(steps));
    } else {
        let k = steps.len() - 1;
        let earlier_steps = steps.drop_last();
        let earlier = states.drop_last();
        assert forall|i: int| 0 <= i < earlier_steps.len() implies is_cork_step(
            earlier[i],
            #[trigger] earlier_steps[i],
            earlier[i + 1],
        ) by {
            assert(earlier_steps[i] == steps[i]);
        }
        law_bytes_go_out_in_order(earlier, earlier_steps);
        assert(is_cork_step(states[k], steps[k], states[k + 1]));
        let (before, after) = (states[k], states[k + 1]);
        assert(earlier.last() == before);
        let (c, w) = (consumed(earlier_steps), written(earlier_steps));
        match steps[k] {
            CorkStep::Wrote(data) => {
                assert(c + (before + data) =~= (c + before) + data);
                assert((states[0] + w) + data =~= states[0] + (w + data));
            },
            CorkStep::Consumed(data) => {
                assert((c + data) + after =~= c + (data + after));
            },
            CorkStep::Other => {},
        }
    }
}

/// The pieces that are lent are what the slices hold, one by one.
pub proof fn law_slices_are_lent_one_by_one(slices: Seq<&[u8]>, i: int)
    requires
        0 <= i < slices.len(),
    ensures
        slice_views(slices).len() == slices.len(),
        slice_views(slices)[i] == slices[i]@,
{
}

/// A batch leaves a buffer as corked as it found it, unless it was uncorked meanwhile.
pub proof fn law_batch_restores_the_cork(was_corked: bool)
    ensures
        corked_after(was_corked, true) == was_corked,
        !corked_after(was_corked, false),
{
}

/// As many pieces are lent as there are and as there is room for.
pub proof fn law_pieces_are_lent_as_far_as_they_fit(pieces: nat, room: nat)
    ensures
        pieces_lent(pieces, room) <= pieces,
        pieces_lent(pieces, room) <= room,
        pieces_lent(pieces, room) == pieces || pieces_lent(pieces, room) == room,
{
}

/// A buffer is within its limit exactly where it holds no more bytes than that.
pub proof fn law_limit_of_the_open_buffer(open: nat, more: nat, limit: usize)
    ensures
        is_within(open, more, limit) <==> !(open + more > limit),
        is_within(open, more, limit) == is_within(open + more, 0, limit),
        is_within(limit as nat, 0, limit),
        !is_within(limit as nat, 1, limit),
{
}

} // verus!
