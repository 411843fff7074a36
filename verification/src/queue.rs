//! Bounded first-in, first-out queues.
//!
//! Both queues are ring buffers of a fixed number of slots. A full queue gives
//! the item back; an empty one gives nothing.

use vstd::prelude::*;

verus! {

/// A ring of `N` slots.
struct Ring<T, const N: usize> {
    /// The slots; those in use hold an item.
    slots: Vec<Option<T>>,
    /// The slot of the oldest item.
    tail: usize,
    /// The number of items.
    count: usize,
}

/// The slot of the `k`-th item.
spec fn slot_of(tail: int, k: int, n: int) -> int {
    if tail + k < n {
        tail + k
    } else {
        tail + k - n
    }
}

impl<T, const N: usize> Ring<T, N> {
    /// The items, oldest first.
    spec fn items(&self) -> Seq<T> {
        Seq::new(
            self.count as nat,
            |k: int| self.slots@[slot_of(self.tail as int, k, N as int)]->0,
        )
    }

    /// There are `N` slots, and those of the items are filled.
    spec fn wf(&self) -> bool {
        &&& self.slots@.len() == N
        &&& self.count <= N
        &&& self.tail < N || N == 0
        &&& N == 0 ==> self.tail == 0
        &&& forall|k: int|
            0 <= k < self.count ==> self.slots@[#[trigger] slot_of(
                self.tail as int,
                k,
                N as int,
            )] is Some
    }

    fn new() -> (r: Self)
        ensures
            r.wf(),
            r.items() == Seq::<T>::empty(),
    {
        let mut slots: Vec<Option<T>> = Vec::new();
        let mut i: usize = 0;
        while i < N
            invariant
                i <= N,
                slots@.len() == i,
            decreases N - i,
        {
            slots.push(None);
            i = i + 1;
        }
        let r = Ring { slots, tail: 0, count: 0 };
        assert(r.items() =~= Seq::<T>::empty());
        r
    }

    fn try_push(&mut self, item: T) -> (r: Result<(), T>)
        requires
            old(self).wf(),
        ensures
            final(self).wf(),
            match r {
                Ok(_) => old(self).items().len() < N && final(self).items()
                    == old(self).items().push(item),
                Err(back) => old(self).items().len() == N && back == item && final(self).items()
                    == old(self).items(),
            },
    {
        if self.count >= N {
            return Err(item);
        }
        let free: usize = N - self.tail;
        let at: usize = if self.count < free {
            self.tail + self.count
        } else {
            self.count - free
        };
        let ghost before = self.slots@;
        self.slots[at] = Some(item);
        self.count = self.count + 1;
        proof {
            let n = N as int;
            let t = self.tail as int;
            assert(at == slot_of(t, self.count - 1, n));
            assert forall|k: int| 0 <= k < self.count implies self.slots@[#[trigger] slot_of(
                t,
                k,
                n,
            )] is Some by {
                if k < self.count - 1 {
                    assert(slot_of(t, k, n) != at);
                    assert(self.slots@[slot_of(t, k, n)] == before[slot_of(t, k, n)]);
                }
            }
            assert forall|k: int| 0 <= k < old(self).count implies #[trigger] self.items()[k]
                == old(self).items()[k] by {
                assert(slot_of(t, k, n) != at);
            }
            assert(self.items() =~= old(self).items().push(item));
        }
        Ok(())
    }

    fn try_pop(&mut self) -> (r: Option<T>)
        requires
            old(self).wf(),
        ensures
            final(self).wf(),
            match r {
                Some(item) => old(self).items().len() > 0 && item == old(self).items()[0]
                    && final(self).items() == old(self).items().skip(1),
                None => old(self).items().len() == 0 && final(self).items() == old(self).items(),
            },
    {
        if self.count == 0 {
            return None;
        }
        let ghost before = self.slots@;
        let ghost t = self.tail as int;
        let ghost n = N as int;
        assert(slot_of(t, 0, n) == t);
        let slot = self.slots[self.tail].take();
        self.tail = if self.tail + 1 < N {
            self.tail + 1
        } else {
            0
        };
        self.count = self.count - 1;
        proof {
            assert forall|k: int| 0 <= k < self.count implies self.slots@[#[trigger] slot_of(
                self.tail as int,
                k,
                n,
            )] == before[slot_of(t, k + 1, n)] && slot_of(self.tail as int, k, n) == slot_of(
                t,
                k + 1,
                n,
            ) by {}
            assert forall|k: int| 0 <= k < self.count implies self.slots@[#[trigger] slot_of(
                self.tail as int,
                k,
                n,
            )] is Some by {
                assert(before[slot_of(t, k + 1, n)] is Some);
            }
            assert(self.items() =~= old(self).items().skip(1));
            assert(old(self).items()[0] == before[t]->0);
        }
        slot
    }
}

/// What a push does to the items of a queue of `n` slots: the item goes to the end,
/// or comes back where the queue is full.
pub open spec fn pushed<T>(
    before: Seq<T>,
    n: nat,
    item: T,
    r: Result<(), T>,
    after: Seq<T>,
) -> bool {
    match r {
        Ok(_) => before.len() < n && after == before.push(item),
        Err(back) => before.len() == n && back == item && after == before,
    }
}

/// What a pop does to the items of a queue: the oldest comes out, or nothing where
/// there is none.
pub open spec fn popped<T>(before: Seq<T>, r: Option<T>, after: Seq<T>) -> bool {
    match r {
        Some(item) => before.len() > 0 && item == before[0] && after == before.skip(1),
        None => before.len() == 0 && after == before,
    }
}

/// A queue between one producer and one consumer.
pub struct SpscQueue<T, const N: usize> {
    ring: Ring<T, N>,
}

impl<T, const N: usize> View for SpscQueue<T, N> {
    type V = Seq<T>;

    /// The items, oldest first.
    closed spec fn view(&self) -> Seq<T> {
        self.ring.items()
    }
}

impl<T, const N: usize> SpscQueue<T, N> {
    /// The queue holds at most `N` items.
    pub closed spec fn wf(&self) -> bool {
        self.ring.wf()
    }

    /// Creates an empty queue.
    pub fn new() -> (r: Self)
        ensures
            r.wf(),
            r@ == Seq::<T>::empty(),
    {
        SpscQueue { ring: Ring::new() }
    }

    /// Adds an item at the end; a full queue gives it back.
    pub fn try_push(&mut self, item: T) -> (r: Result<(), T>)
        requires
            old(self).wf(),
        ensures
            final(self).wf(),
            pushed(old(self)@, N as nat, item, r, final(self)@),
    {
        self.ring.try_push(item)
    }

    /// Takes out the oldest item; an empty queue gives nothing.
    pub fn try_pop(&mut self) -> (r: Option<T>)
        requires
            old(self).wf(),
        ensures
            final(self).wf(),
            popped(old(self)@, r, final(self)@),
    {
        self.ring.try_pop()
    }

    /// Whether the queue holds no item.
    pub fn is_empty(&self) -> (r: bool)
        ensures
            r == (self@.len() == 0),
    {
        self.ring.count == 0
    }

    /// The number of items.
    pub fn len(&self) -> (r: usize)
        requires
            self.wf(),
        ensures
            r == self@.len(),
            r <= N,
    {
        self.ring.count
    }

    /// The number of slots.
    pub fn capacity(&self) -> (r: usize)
        ensures
            r == N,
    {
        N
    }
}

impl<T, const N: usize> Default for SpscQueue<T, N> {
    fn default() -> (r: Self)
        ensures
            r.wf(),
            r@ == Seq::<T>::empty(),
    {
        SpscQueue::new()
    }
}

/// A queue between any number of producers and consumers.
pub struct MpmcQueue<T, const N: usize> {
    ring: Ring<T, N>,
}

impl<T, const N: usize> View for MpmcQueue<T, N> {
    type V = Seq<T>;

    /// The items, oldest first.
    closed spec fn view(&self) -> Seq<T> {
        self.ring.items()
    }
}

impl<T, const N: usize> MpmcQueue<T, N> {
    /// The queue holds at most `N` items.
    pub closed spec fn wf(&self) -> bool {
        self.ring.wf()
    }

    /// Creates an empty queue.
    pub fn new() -> (r: Self)
        ensures
            r.wf(),
            r@ == Seq::<T>::empty(),
    {
        MpmcQueue { ring: Ring::new() }
    }

    /// Adds an item at the end; a full queue gives it back.
    pub fn try_push(&mut self, item: T) -> (r: Result<(), T>)
        requires
            old(self).wf(),
        ensures
            final(self).wf(),
            pushed(old(self)@, N as nat, item, r, final(self)@),
    {
        self.ring.try_push(item)
    }

    /// Takes out the oldest item; an empty queue gives nothing.
    pub fn try_pop(&mut self) -> (r: Option<T>)
        requires
            old(self).wf(),
        ensures
            final(self).wf(),
            popped(old(self)@, r, final(self)@),
    {
        self.ring.try_pop()
    }

    /// Whether the queue holds no item.
    pub fn is_empty(&self) -> (r: bool)
        ensures
            r == (self@.len() == 0),
    {
        self.ring.count == 0
    }

    /// The number of items.
    pub fn len(&self) -> (r: usize)
        requires
            self.wf(),
        ensures
            r == self@.len(),
            r <= N,
    {
        self.ring.count
    }
}

impl<T, const N: usize> Default for MpmcQueue<T, N> {
    fn default() -> (r: Self)
        ensures
            r.wf(),
            r@ == Seq::<T>::empty(),
    {
        MpmcQueue::new()
    }
}

/// A call on a queue, with what it gave.
pub enum QueueCall<T> {
    /// A push of an item.
    Push(T, Result<(), T>),
    /// A pop.
    Pop(Option<T>),
}

/// Whether a call takes the items of a queue of `n` slots from `before` to `after`.
pub open spec fn called<T>(before: Seq<T>, n: nat, call: QueueCall<T>, after: Seq<T>) -> bool {
    match call {
        QueueCall::Push(item, r) => pushed(before, n, item, r, after),
        QueueCall::Pop(r) => popped(before, r, after),
    }
}

/// Whether `states` are the items of a queue of `n` slots between the calls.
pub open spec fn is_use<T>(states: Seq<Seq<T>>, n: nat, calls: Seq<QueueCall<T>>) -> bool {
    &&& states.len() == calls.len() + 1
    &&& forall|i: int|
        0 <= i < calls.len() ==> called(states[i], n, #[trigger] calls[i], states[i + 1])
}

/// The items that were pushed and accepted, in order.
pub open spec fn taken_in<T>(calls: Seq<QueueCall<T>>) -> Seq<T>
    decreases calls.len(),
{
    if calls.len() == 0 {
        Seq::empty()
    } else {
        let earlier = taken_in(calls.drop_last());
        match calls.last() {
            QueueCall::Push(item, Ok(_)) => earlier.push(item),
            _ => earlier,
        }
    }
}

/// The items that were popped, in order.
pub open spec fn given_out<T>(calls: Seq<QueueCall<T>>) -> Seq<T>
    decreases calls.len(),
{
    if calls.len() == 0 {
        Seq::empty()
    } else {
        let earlier = given_out(calls.drop_last());
        match calls.last() {
            QueueCall::Pop(Some(item)) => earlier.push(item),
            _ => earlier,
        }
    }
}

/// Items come out in the order in which they went in, none twice and none lost,
/// whatever pushes and pops are made: what came out, followed by what the queue
/// holds, is what it held at first, followed by what it accepted.
pub proof fn law_first_in_first_out<T>(states: Seq<Seq<T>>, n: nat, calls: Seq<QueueCall<T>>)
    requires
        is_use(states, n, calls),
    ensures
        given_out(calls) + states.last() == states[0] + taken_in(calls),
        states[0].len() <= n ==> states.last().len() <= n,
    decreases calls.len(),
{
    if calls.len() == 0 {
        assert(given_out(calls) + states.last() =~= states[0] + taken_in(calls));
    } else {
        let k = calls.len() - 1;
        let earlier_calls = calls.drop_last();
        let earlier = states.drop_last();
        assert forall|i: int| 0 <= i < earlier_calls.len() implies called(
            earlier[i],
            n,
            #[trigger] earlier_calls[i],
            earlier[i + 1],
        ) by {
            assert(earlier_calls[i] == calls[i]);
        }
        law_first_in_first_out(earlier, n, earlier_calls);
        assert(called(states[k], n, calls[k], states[k + 1]));
        let (before, after) = (states[k], states[k + 1]);
        assert(earlier.last() == before);
        match calls[k] {
            QueueCall::Push(item, Ok(_)) => {
                assert(given_out(calls) + after =~= (given_out(earlier_calls) + before).push(item));
                assert(states[0] + taken_in(calls) =~= (states[0] + taken_in(earlier_calls)).push(
                    item,
                ));
            },
            QueueCall::Pop(Some(item)) => {
                assert(given_out(earlier_calls).push(item) + before.skip(1) =~= given_out(
                    earlier_calls,
                ) + before);
            },
            _ => {},
        }
    }
}

/// A push is refused exactly where the queue is full, and then hands the item back;
/// a pop gives nothing exactly where the queue is empty.
pub proof fn law_full_and_empty<T>(
    before: Seq<T>,
    n: nat,
    item: T,
    pushing: Result<(), T>,
    after_push: Seq<T>,
    popping: Option<T>,
    after_pop: Seq<T>,
)
    requires
        before.len() <= n,
        pushed(before, n, item, pushing, after_push),
        popped(before, popping, after_pop),
    ensures
        pushing is Ok <==> before.len() < n,
        pushing matches Err(back) ==> back == item && after_push == before,
        pushing is Ok ==> after_push.len() == before.len() + 1 && after_push.last() == item,
        popping is Some <==> before.len() > 0,
        popping matches Some(first) ==> before == seq![first] + after_pop,
{
    if let Some(first) = popping {
        assert(before =~= seq![first] + after_pop);
    }
}

} // verus!
