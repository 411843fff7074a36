//! Received bytes that wait for a reader with limited room.

use crate::buffers::{buffered, contents};
use crate::RECV_BUFFER_SIZE;
use bytes::{Bytes, BytesMut};
use vstd::prelude::*;

verus! {

/// Bytes that were received and not yet read.
pub struct ReceiveBuffer {
    buf: BytesMut,
    finished: bool,
}

impl View for ReceiveBuffer {
    type V = Seq<u8>;

    closed spec fn view(&self) -> Seq<u8> {
        buffered(self.buf)
    }
}

/// How many bytes a reader with some room takes of those that wait.
pub open spec fn taken(waiting: nat, room: nat) -> nat {
    if waiting <= room {
        waiting
    } else {
        room
    }
}

impl ReceiveBuffer {
    /// Whether the peer has sent everything.
    pub closed spec fn ended(&self) -> bool {
        self.finished
    }

    /// Creates an empty buffer.
    pub fn new() -> (r: Self)
        ensures
            r@ == Seq::<u8>::empty(),
            !r.ended(),
    {
        ReceiveBuffer { buf: BytesMut::with_capacity(RECV_BUFFER_SIZE), finished: false }
    }

    /// Whether nothing waits.
    pub fn is_empty(&self) -> (r: bool)
        ensures
            r == (self@.len() == 0),
    {
        self.buf.is_empty()
    }

    /// Whether the peer has sent everything.
    pub fn is_recv_finished(&self) -> (r: bool)
        ensures
            r == self.ended(),
    {
        self.finished
    }

    /// Notes that the peer has sent everything.
    pub fn finish(&mut self)
        ensures
            final(self)@ == old(self)@,
            final(self).ended(),
    {
        self.finished = true;
    }

    /// Takes in a piece that was received.
    pub fn accept(&mut self, piece: &[u8])
        requires
            old(self)@.len() + piece@.len() <= isize::MAX,
        ensures
            final(self)@ == old(self)@ + piece@,
            final(self).ended() == old(self).ended(),
            crate::cork::is_cork_step(
                old(self)@,
                crate::cork::CorkStep::Wrote(piece@),
                final(self)@,
            ),
    {
        self.buf.extend_from_slice(piece);
    }

    /// Hands out what fits the room of a reader, oldest bytes first.
    pub fn take(&mut self, room: usize) -> (r: Bytes)
        ensures
            contents(r) == old(self)@.take(taken(old(self)@.len(), room as nat) as int),
            final(self)@ == old(self)@.skip(taken(old(self)@.len(), room as nat) as int),
            final(self).ended() == old(self).ended(),
            crate::cork::is_cork_step(
                old(self)@,
                crate::cork::CorkStep::Consumed(contents(r)),
                final(self)@,
            ),
    {
        let waiting: usize = self.buf.len();
        let count: usize = if waiting <= room {
            waiting
        } else {
            room
        };
        assert(self@ =~= self@.take(count as int) + self@.skip(count as int));
        self.buf.split_to(count).freeze()
    }
}

/// Reading in two steps gives the bytes that one step with the room of both
/// would have given, and leaves the same.
pub proof fn law_reads_keep_order(waiting: Seq<u8>, first: nat, second: nat)
    ensures
        ({
            let a = taken(waiting.len(), first) as int;
            let rest = waiting.skip(a);
            let b = taken(rest.len(), second) as int;
            let both = taken(waiting.len(), first + second) as int;
            &&& waiting.take(a) + rest.take(b) == waiting.take(both)
            &&& rest.skip(b) == waiting.skip(both)
        }),
{
    let a = taken(waiting.len(), first) as int;
    let rest = waiting.skip(a);
    let b = taken(rest.len(), second) as int;
    let both = taken(waiting.len(), first + second) as int;
    assert(waiting.take(a) + rest.take(b) =~= waiting.take(both));
    assert(rest.skip(b) =~= waiting.skip(both));
}

/// As much is handed out as fits: never more than there is room for or than waits,
/// and as much as one of the two allows.
pub proof fn law_as_much_as_fits(waiting: nat, room: nat)
    ensures
        taken(waiting, room) <= waiting,
        taken(waiting, room) <= room,
        taken(waiting, room) == waiting || taken(waiting, room) == room,
{
}

} // verus!
