//! Read buffers between completion-based and poll-based input.

use vstd::prelude::*;

verus! {

/// The size of a read buffer (64 KiB).
pub const URING_BUFFER_SIZE: usize = 64 * 1024;

/// A buffer that a completed read fills and a reader consumes.
struct ReadState {
    buffer: Vec<u8>,
    data_len: usize,
    read_pos: usize,
}

impl ReadState {
    spec fn wf(&self) -> bool {
        self.read_pos <= self.data_len <= self.buffer@.len()
    }

    spec fn unread(&self) -> Seq<u8> {
        self.buffer@.subrange(self.read_pos as int, self.data_len as int)
    }

    fn new() -> (r: Self)
        ensures
            r.wf(),
            r.unread() == Seq::<u8>::empty(),
            r.buffer@.len() == URING_BUFFER_SIZE,
    {
        let r = ReadState { buffer: vec![0u8; URING_BUFFER_SIZE], data_len: 0, read_pos: 0 };
        assert(r.unread() =~= Seq::empty());
        r
    }

    fn load(&mut self, buffer: Vec<u8>, n: usize)
        requires
            n <= buffer@.len(),
        ensures
            final(self).wf(),
            final(self).unread() == buffer@.take(n as int),
    {
        self.buffer = buffer;
        self.data_len = n;
        self.read_pos = 0;
        assert(self.unread() =~= self.buffer@.take(n as int));
    }

    fn slice(&self) -> (r: &[u8])
        requires
            self.wf(),
        ensures
            r@ == self.unread(),
    {
        vstd::slice::slice_subrange(self.buffer.as_slice(), self.read_pos, self.data_len)
    }

    fn consume(&mut self, amt: usize)
        requires
            old(self).wf(),
        ensures
            final(self).wf(),
            final(self).unread() == drained(old(self).unread(), amt as nat),
    {
        let left: usize = self.data_len - self.read_pos;
        let ghost before = self.unread();
        if amt < left {
            self.read_pos = self.read_pos + amt;
        } else {
            self.read_pos = self.data_len;
        }
        assert(self.unread() =~= drained(before, amt as nat));
    }
}

/// What is left of some bytes after up to `amt` of them were consumed.
pub open spec fn drained(bytes: Seq<u8>, amt: nat) -> Seq<u8> {
    if amt < bytes.len() {
        bytes.skip(amt as int)
    } else {
        Seq::empty()
    }
}

/// A completion-based stream with its read buffer.
pub struct UringStream<S> {
    inner: S,
    read_state: ReadState,
}

impl<S> View for UringStream<S> {
    type V = Seq<u8>;

    /// The bytes that were read from the stream and not yet handed out.
    closed spec fn view(&self) -> Seq<u8> {
        self.read_state.unread()
    }
}

impl<S> UringStream<S> {
    /// The read buffer is well formed.
    pub closed spec fn wf(&self) -> bool {
        self.read_state.wf()
    }

    /// The stream.
    pub closed spec fn stream(&self) -> S {
        self.inner
    }

    /// Wraps a stream.
    pub fn new(stream: S) -> (r: Self)
        ensures
            r.wf(),
            r@ == Seq::<u8>::empty(),
            r.stream() == stream,
    {
        UringStream { inner: stream, read_state: ReadState::new() }
    }

    /// Lends the stream.
    pub fn get_ref(&self) -> (r: &S)
        ensures
            *r == self.stream(),
    {
        &self.inner
    }

    /// Whether bytes wait to be handed out.
    pub fn has_buffered_data(&self) -> (r: bool)
        requires
            self.wf(),
        ensures
            r == (self@.len() > 0),
    {
        self.read_state.read_pos < self.read_state.data_len
    }

    /// Reports a completed read of `n` bytes into a buffer.
    pub fn on_read(&mut self, buffer: Vec<u8>, n: usize)
        requires
            n <= buffer@.len(),
        ensures
            final(self).wf(),
            final(self)@ == buffer@.take(n as int),
            final(self).stream() == old(self).stream(),
    {
        self.read_state.load(buffer, n);
    }

    /// Hands out up to `room` bytes.
    pub fn take_buffered(&mut self, room: usize) -> (r: Vec<u8>)
        requires
            old(self).wf(),
        ensures
            final(self).wf(),
            final(self).stream() == old(self).stream(),
            final(self)@ == drained(old(self)@, room as nat),
            r@ == old(self)@.take(
                if room < old(self)@.len() {
                    room as int
                } else {
                    old(self)@.len() as int
                },
            ),
            crate::cork::is_cork_step(
                old(self)@,
                crate::cork::CorkStep::Consumed(r@),
                final(self)@,
            ),
    {
        let waiting = self.read_state.slice();
        let count: usize = if room < waiting.len() {
            room
        } else {
            waiting.len()
        };
        let part = vstd::slice::slice_subrange(waiting, 0, count);
        let r = vstd::slice::slice_to_vec(part);
        assert(r@ =~= waiting@.take(count as int));
        assert(waiting@ =~= waiting@.take(count as int) + waiting@.skip(count as int));
        self.read_state.consume(room);
        r
    }
}

/// A completion-based stream for protocols that expect poll-based input.
pub struct UringStreamAdapter<S> {
    stream: UringStream<S>,
    read_state: ReadState,
}

impl<S> View for UringStreamAdapter<S> {
    type V = Seq<u8>;

    /// The bytes that wait to be consumed.
    closed spec fn view(&self) -> Seq<u8> {
        self.read_state.unread()
    }
}

impl<S> UringStreamAdapter<S> {
    /// The read buffer is well formed.
    pub closed spec fn wf(&self) -> bool {
        self.read_state.wf()
    }

    /// The stream.
    pub closed spec fn inner(&self) -> UringStream<S> {
        self.stream
    }

    /// Wraps a stream.
    pub fn new(stream: UringStream<S>) -> (r: Self)
        ensures
            r.wf(),
            r@ == Seq::<u8>::empty(),
            r.inner() == stream,
    {
        UringStreamAdapter { stream, read_state: ReadState::new() }
    }

    /// Lends the bytes that wait to be consumed.
    pub fn buffered_data(&self) -> (r: &[u8])
        requires
            self.wf(),
        ensures
            r@ == self@,
    {
        self.read_state.slice()
    }

    /// Reports a completed read of `n` bytes into a buffer.
    pub fn on_read(&mut self, buffer: Vec<u8>, n: usize)
        requires
            n <= buffer@.len(),
        ensures
            final(self).wf(),
            final(self)@ == buffer@.take(n as int),
            final(self).inner() == old(self).inner(),
    {
        self.read_state.load(buffer, n);
    }

    /// Consumes up to `amt` of the bytes that wait.
    pub fn consume(&mut self, amt: usize)
        requires
            old(self).wf(),
        ensures
            final(self).wf(),
            final(self)@ == drained(old(self)@, amt as nat),
            final(self).inner() == old(self).inner(),
    {
        self.read_state.consume(amt);
    }
}

/// Consuming in two steps leaves what consuming both amounts at once would.
pub proof fn law_consuming_adds_up(bytes: Seq<u8>, a: nat, b: nat)
    ensures
        drained(drained(bytes, a), b) == drained(bytes, a + b),
{
    assert(drained(drained(bytes, a), b) =~= drained(bytes, a + b));
}

/// What was consumed, followed by what is left, is all there was; consuming more
/// than there is leaves nothing.
pub proof fn law_consuming_takes_the_front(bytes: Seq<u8>, n: nat)
    ensures
        n <= bytes.len() ==> bytes.take(n as int) + drained(bytes, n) == bytes,
        n >= bytes.len() ==> drained(bytes, n).len() == 0,
{
    if n <= bytes.len() {
        assert(bytes.take(n as int) + drained(bytes, n) =~= bytes);
    }
}

} // verus!
