//! Memory pools: a slab of slots, a bump arena, and a pool of I/O buffers.

use vstd::arithmetic::power2::*;
use vstd::layout;
use vstd::prelude::*;
use vstd::slice::*;

use core::marker::PhantomData;

verus! {

/// What a slot of a slab holds.
enum Slot<T> {
    /// Nothing; the next free slot, or the number of slots, comes with it.
    Free(usize),
    /// Handed out, without a value yet.
    Reserved,
    /// A value.
    Used(T),
}

/// A slab of `N` slots for values of one type.
pub struct SlabPool<T, const N: usize> {
    /// The first free slot, or `N`.
    free_head: usize,
    /// The number of slots handed out.
    allocated: usize,
    /// The slots.
    slots: Vec<Slot<T>>,
    /// The free slots, in the order in which they will be handed out.
    free: Ghost<Seq<int>>,
}

/// A handle to a slot that was handed out.
#[derive(Debug)]
pub struct SlabHandle<T> {
    index: usize,
    marker: PhantomData<T>,
}

impl<T: Clone> Clone for SlabHandle<T> {
    fn clone(&self) -> (r: Self)
        ensures
            r.slot() == self.slot(),
    {
        SlabHandle { index: self.index, marker: PhantomData }
    }
}

impl<T: Copy> Copy for SlabHandle<T> {

}

impl<T> SlabHandle<T> {
    /// The number of the slot.
    pub closed spec fn slot(&self) -> int {
        self.index as int
    }

    /// The number of the slot.
    pub fn index(&self) -> (r: usize)
        ensures
            r == self.slot(),
    {
        self.index
    }
}

/// What a slab holds: the free slots in the order in which they will be handed
/// out, and the slots handed out with their values, where they have one.
pub struct SlabView<T> {
    pub free: Seq<int>,
    pub taken: Map<int, Option<T>>,
}

/// What a call does to a slab.
pub enum SlabStep<T> {
    /// A slot was handed out.
    Took(int),
    /// No slot was free.
    Refused,
    /// A slot was given a value.
    Stored(int, T),
    /// A slot was taken back.
    Freed(int),
}

/// Whether a call takes a slab from `before` to `after`.
pub open spec fn is_slab_step<T>(before: SlabView<T>, step: SlabStep<T>, after: SlabView<T>) -> bool {
    match step {
        SlabStep::Took(slot) => {
            &&& before.free == seq![slot] + after.free
            &&& after.taken == before.taken.insert(slot, None)
        },
        SlabStep::Refused => before.free.len() == 0 && after == before,
        SlabStep::Stored(slot, value) => {
            &&& before.taken.dom().contains(slot)
            &&& after.free == before.free
            &&& after.taken == before.taken.insert(slot, Some(value))
        },
        SlabStep::Freed(slot) => {
            &&& before.taken.dom().contains(slot)
            &&& after.free == seq![slot] + before.free
            &&& after.taken == before.taken.remove(slot)
        },
    }
}

/// Whether `r` is the least power of two that is not below `n`.
pub open spec fn is_power_above(n: nat, r: nat) -> bool {
    &&& exists|e: nat| r == #[trigger] pow2(e)
    &&& r >= n
    &&& n <= 1 ==> r == 1
    &&& n > 1 ==> r < 2 * n
}

/// Whether an arena was emptied.
pub open spec fn is_emptied(before: ArenaView, after: ArenaView) -> bool {
    after.used == 0 && after.size == before.size
}

/// What a call does to the buffers that are kept.
pub enum BufferStep {
    /// A buffer was given out.
    Got(Box<[u8]>),
    /// A buffer came back.
    Put(Box<[u8]>),
}

/// Whether a call takes the buffers that are kept from `before` to `after`, where at most
/// `most` of `size` bytes are.
pub open spec fn is_buffer_step(
    before: Seq<Box<[u8]>>,
    size: usize,
    most: usize,
    step: BufferStep,
    after: Seq<Box<[u8]>>,
) -> bool {
    match step {
        BufferStep::Got(buffer) => if before.len() > 0 {
            before == after.push(buffer)
        } else {
            &&& after == before
            &&& buffer@.len() == size
            &&& forall|i: int| 0 <= i < size ==> #[trigger] buffer@[i] == 0
        },
        BufferStep::Put(buffer) => after == (if before.len() < most && buffer@.len() == size {
            before.push(buffer)
        } else {
            before
        }),
    }
}

impl<T, const N: usize> View for SlabPool<T, N> {
    type V = SlabView<T>;

    closed spec fn view(&self) -> SlabView<T> {
        SlabView {
            free: self.free@,
            taken: Map::new(
                |i: int| 0 <= i < N && !(self.slots@[i] is Free),
                |i: int|
                    match self.slots@[i] {
                        Slot::Used(v) => Some(v),
                        _ => None,
                    },
            ),
        }
    }
}

impl<T, const N: usize> SlabPool<T, N> {
    /// The free slots form a list without repetitions, and every other slot is
    /// handed out.
    pub closed spec fn wf(&self) -> bool {
        &&& self.slots@.len() == N
        &&& self.free@.len() + self.allocated == N
        &&& self.free_head == (if self.free@.len() > 0 {
            self.free@[0]
        } else {
            N as int
        })
        &&& forall|i: int|
            0 <= i < self.free@.len() ==> 0 <= #[trigger] self.free@[i] < N && (
            self.slots@[self.free@[i]] matches Slot::Free(next) && next == (if i + 1
                < self.free@.len() {
                self.free@[i + 1]
            } else {
                N as int
            }))
        &&& forall|i: int, j: int|
            0 <= i < j < self.free@.len() ==> #[trigger] self.free@[i] != #[trigger] self.free@[j]
        &&& forall|k: int|
            0 <= k < N && #[trigger] self.slots@[k] is Free ==> self.free@.contains(k)
    }

    /// Creates a slab with all slots free.
    pub fn new() -> (r: Self)
        ensures
            r.wf(),
            r@.free == Seq::new(N as nat, |i: int| i),
            r@.taken == Map::<int, Option<T>>::empty(),
    {
        let mut slots: Vec<Slot<T>> = Vec::new();
        let mut i: usize = 0;
        while i < N
            invariant
                i <= N,
                slots@.len() == i,
                forall|k: int|
                    0 <= k < i ==> (#[trigger] slots@[k] matches Slot::Free(next) && next == k + 1),
            decreases N - i,
        {
            slots.push(Slot::Free(i + 1));
            i = i + 1;
        }
        let ghost order = Seq::new(N as nat, |i: int| i);
        let r = SlabPool { free_head: 0, allocated: 0, slots, free: Ghost(order) };
        proof {
            assert forall|k: int| 0 <= k < N && #[trigger] r.slots@[k] is Free implies r.free@.contains(
                k,
            ) by {
                assert(r.free@[k] == k);
            }
            assert(r@.taken =~= Map::<int, Option<T>>::empty());
        }
        r
    }

    /// Hands out the slot that was freed last, or the first one that was never
    /// used; nothing where none is free.
    pub fn allocate(&mut self) -> (r: Option<SlabHandle<T>>)
        requires
            old(self).wf(),
        ensures
            final(self).wf(),
            match r {
                Some(h) => {
                    &&& old(self)@.free.len() > 0
                    &&& 0 <= h.slot() < N
                    &&& h.slot() == old(self)@.free[0]
                    &&& !old(self)@.taken.dom().contains(h.slot())
                    &&& final(self)@.free == old(self)@.free.skip(1)
                    &&& final(self)@.taken == old(self)@.taken.insert(h.slot(), None)
                },
                None => old(self)@.free.len() == 0 && final(self)@ == old(self)@,
            },
            is_slab_step(
                old(self)@,
                match r {
                    Some(h) => SlabStep::Took(h.slot()),
                    None => SlabStep::Refused,
                },
                final(self)@,
            ),
    {
        if self.free_head >= N {
            return None;
        }
        let index: usize = self.free_head;
        let ghost before = self.slots@;
        let ghost order = self.free@;
        assert(order[0] == index);
        let next: usize = match &self.slots[index] {
            Slot::Free(next) => *next,
            _ => N,
        };
        self.slots[index] = Slot::Reserved;
        self.free_head = next;
        self.allocated = self.allocated + 1;
        self.free = Ghost(order.skip(1));
        proof {
            let now = self.free@;
            assert forall|i: int| 0 <= i < now.len() implies 0 <= #[trigger] now[i] < N && (
            self.slots@[now[i]] matches Slot::Free(next) && next == (if i + 1 < now.len() {
                now[i + 1]
            } else {
                N as int
            })) by {
                assert(now[i] == order[i + 1]);
                assert(order[0] != order[i + 1]);
                if i + 1 < now.len() {
                    assert(now[i + 1] == order[i + 2]);
                }
            }
            assert forall|i: int, j: int| 0 <= i < j < now.len() implies #[trigger] now[i]
                != #[trigger] now[j] by {
                assert(order[i + 1] != order[j + 1]);
            }
            assert forall|k: int| 0 <= k < N && #[trigger] self.slots@[k] is Free implies now.contains(
                k,
            ) by {
                assert(before[k] is Free);
                let i = choose|i: int| 0 <= i < order.len() && order[i] == k;
                assert(i > 0);
                assert(now[i - 1] == k);
            }
            assert(self@.taken =~= old(self)@.taken.insert(index as int, None));
            assert(order =~= seq![index as int] + now);
        }
        Some(SlabHandle { index, marker: PhantomData })
    }

    /// Gives a slot its value, and lends it.
    pub fn init(&mut self, handle: SlabHandle<T>, value: T) -> (r: &mut T)
        requires
            old(self).wf(),
            old(self)@.taken.dom().contains(handle.slot()),
        ensures
            *r == value,
            final(self).wf(),
            final(self)@.free == old(self)@.free,
            final(self)@.taken == old(self)@.taken.insert(handle.slot(), Some(*final(r))),
            is_slab_step(old(self)@, SlabStep::Stored(handle.slot(), *final(r)), final(self)@),
    {
        self.slots[handle.index] = Slot::Used(value);
        let ghost mid = *self;
        proof {
            assert(self.wf()) by {
                assert forall|i: int| 0 <= i < self.free@.len() implies 0 <= #[trigger] self.free@[i]
                    < N && (self.slots@[self.free@[i]] matches Slot::Free(next) && next == (if i
                    + 1 < self.free@.len() {
                    self.free@[i + 1]
                } else {
                    N as int
                })) by {
                    assert(old(self).slots@[self.free@[i]] is Free);
                }
            }
            assert(self@.taken =~= old(self)@.taken.insert(handle.slot(), Some(value)));
        }
        self.get_mut(handle)
    }

    /// Lends the value of a slot.
    pub fn get(&self, handle: SlabHandle<T>) -> (r: &T)
        requires
            self.wf(),
            self@.taken.dom().contains(handle.slot()),
            self@.taken[handle.slot()] is Some,
        ensures
            self@.taken[handle.slot()] == Some(*r),
    {
        match &self.slots[handle.index] {
            Slot::Used(v) => v,
            _ => unreached(),
        }
    }

    /// Lends the value of a slot for changing.
    pub fn get_mut(&mut self, handle: SlabHandle<T>) -> (r: &mut T)
        requires
            old(self).wf(),
            old(self)@.taken.dom().contains(handle.slot()),
            old(self)@.taken[handle.slot()] is Some,
        ensures
            old(self)@.taken[handle.slot()] == Some(*r),
            final(self).wf(),
            final(self)@.free == old(self)@.free,
            final(self)@.taken == old(self)@.taken.insert(handle.slot(), Some(*final(r))),
            is_slab_step(old(self)@, SlabStep::Stored(handle.slot(), *final(r)), final(self)@),
    {
        match &mut self.slots[handle.index] {
            Slot::Used(v) => v,
            _ => unreached(),
        }
    }

    /// Takes a slot back, and drops its value.
    pub fn free(&mut self, handle: SlabHandle<T>)
        requires
            old(self).wf(),
            old(self)@.taken.dom().contains(handle.slot()),
            old(self)@.taken[handle.slot()] is Some,
        ensures
            final(self).wf(),
            final(self)@.free == seq![handle.slot()] + old(self)@.free,
            final(self)@.taken == old(self)@.taken.remove(handle.slot()),
            is_slab_step(old(self)@, SlabStep::Freed(handle.slot()), final(self)@),
    {
        let ghost before = self.slots@;
        let ghost order = self.free@;
        proof {
            assert(self.allocated > 0) by {
                if self.allocated == 0 {
                    lemma_full_list(order, N as int, handle.slot());
                    let i = choose|i: int| 0 <= i < order.len() && order[i] == handle.slot();
                    assert(before[order[i]] is Free);
                }
            }
        }
        self.slots[handle.index] = Slot::Free(self.free_head);
        self.free_head = handle.index;
        self.allocated = self.allocated - 1;
        self.free = Ghost(seq![handle.slot()] + order);
        proof {
            let now = self.free@;
            assert forall|i: int| 0 <= i < order.len() implies #[trigger] order[i]
                != handle.slot() by {
                assert(before[order[i]] is Free);
            }
            assert forall|i: int| 0 <= i < now.len() implies 0 <= #[trigger] now[i] < N && (
            self.slots@[now[i]] matches Slot::Free(next) && next == (if i + 1 < now.len() {
                now[i + 1]
            } else {
                N as int
            })) by {
                if i > 0 {
                    assert(now[i] == order[i - 1]);
                }
                if i + 1 < now.len() {
                    assert(now[i + 1] == order[i]);
                }
            }
            assert forall|i: int, j: int| 0 <= i < j < now.len() implies #[trigger] now[i]
                != #[trigger] now[j] by {
                assert(now[j] == order[j - 1]);
                if i > 0 {
                    assert(now[i] == order[i - 1]);
                }
            }
            assert forall|k: int| 0 <= k < N && #[trigger] self.slots@[k] is Free implies now.contains(
                k,
            ) by {
                if k == handle.slot() {
                    assert(now[0] == k);
                } else {
                    assert(before[k] is Free);
                    let i = choose|i: int| 0 <= i < order.len() && order[i] == k;
                    assert(now[i + 1] == k);
                }
            }
            assert(self@.taken =~= old(self)@.taken.remove(handle.slot()));
        }
    }

    /// The number of slots handed out.
    pub fn allocated(&self) -> (r: usize)
        requires
            self.wf(),
        ensures
            r + self@.free.len() == N,
    {
        self.allocated
    }

    /// The number of free slots.
    pub fn available(&self) -> (r: usize)
        requires
            self.wf(),
        ensures
            r == self@.free.len(),
    {
        N - self.allocated
    }
}

impl<T, const N: usize> Default for SlabPool<T, N> {
    fn default() -> (r: Self)
        ensures
            r.wf(),
            r@.free == Seq::new(N as nat, |i: int| i),
            r@.taken == Map::<int, Option<T>>::empty(),
    {
        SlabPool::new()
    }
}

/// A list of `n` different numbers below `n` contains each of them.
proof fn lemma_full_list(s: Seq<int>, n: int, k: int)
    requires
        s.len() == n,
        0 <= k < n,
        forall|i: int| 0 <= i < s.len() ==> 0 <= #[trigger] s[i] < n,
        forall|i: int, j: int| 0 <= i < j < s.len() ==> #[trigger] s[i] != #[trigger] s[j],
    ensures
        s.contains(k),
{
    let all = vstd::set_lib::set_int_range(0, n);
    vstd::set_lib::lemma_int_range(0, n);
    s.unique_seq_to_set();
    let mine = s.to_set();
    assert(mine.subset_of(all));
    if !s.contains(k) {
        assert(mine.subset_of(all.remove(k)));
        vstd::set_lib::lemma_len_subset(mine, all.remove(k));
    }
}

/// `x` rounded up to a multiple of `align`.
pub open spec fn round_up(x: int, align: int) -> int {
    if x % align == 0 {
        x
    } else {
        x - x % align + align
    }
}

/// Rounding up gives the least multiple of `align` that is not below `x`.
proof fn lemma_round_up(x: int, align: int)
    requires
        align > 0,
        x >= 0,
    ensures
        x <= round_up(x, align) < x + align,
        round_up(x, align) % align == 0,
{
    let q = x / align;
    vstd::arithmetic::div_mod::lemma_fundamental_div_mod(x, align);
    vstd::arithmetic::div_mod::lemma_mod_bound(x, align);
    vstd::arithmetic::div_mod::lemma_mod_multiples_basic(q, align);
    vstd::arithmetic::div_mod::lemma_mod_multiples_basic(q + 1, align);
    vstd::arithmetic::mul::lemma_mul_is_commutative(q, align);
    vstd::arithmetic::mul::lemma_mul_is_distributive_add(align, q, 1);
    vstd::arithmetic::mul::lemma_mul_is_commutative(q + 1, align);
    assert(x - x % align == q * align);
    assert(x - x % align + align == (q + 1) * align);
}

/// The least power of two that is not below `n`.
pub fn next_power_of_two(n: usize) -> (r: usize)
    requires
        n <= isize::MAX / 2 + 1,
    ensures
        exists|e: nat| r == #[trigger] pow2(e),
        r >= n,
        n <= 1 ==> r == 1,
        n > 1 ==> r < 2 * n,
        r <= isize::MAX / 2 + 1,
        is_power_above(n as nat, r as nat),
{
    let mut r: usize = 1;
    let ghost mut e: nat = 0;
    proof {
        lemma2_to64();
    }
    while r < n
        invariant
            r == pow2(e),
            1 <= r,
            r == 1 || r < 2 * n,
            n <= isize::MAX / 2 + 1,
            r <= isize::MAX / 2 + 1,
        decreases 2 * n - r,
    {
        proof {
            lemma_half_range(e);
            lemma_pow2_unfold(e + 1);
            e = e + 1;
        }
        r = r * 2;
    }
    r
}

/// A power of two below half of the signed range can be doubled within it.
proof fn lemma_half_range(e: nat)
    requires
        pow2(e) < isize::MAX / 2 + 1,
    ensures
        2 * pow2(e) <= isize::MAX / 2 + 1,
{
    lemma2_to64();
    lemma2_to64_rest();
    lemma_pow2_unfold(e + 1);
    if usize::BITS == 32 {
        assert(isize::MAX / 2 + 1 == pow2(30)) by {
            assert(isize::MAX == 0x7fff_ffff);
        }
        if e >= 30 {
            if e > 30 {
                lemma_pow2_strictly_increases(30, e);
            }
        } else if e + 1 < 30 {
            lemma_pow2_strictly_increases(e + 1, 30);
        }
    } else {
        assert(isize::MAX / 2 + 1 == pow2(62)) by {
            assert(isize::MAX == 0x7fff_ffff_ffff_ffff);
        }
        if e >= 62 {
            if e > 62 {
                lemma_pow2_strictly_increases(62, e);
            }
        } else if e + 1 < 62 {
            lemma_pow2_strictly_increases(e + 1, 62);
        }
    }
}

/// A run of bytes that an arena handed out: the chunk, where it starts in it, and
/// its length.
#[derive(Debug, Clone, Copy, PartialEq, Eq, Structural)]
pub struct ArenaSpan {
    /// The number of the chunk.
    pub chunk: usize,
    /// Where the run starts.
    pub start: usize,
    /// How long it is.
    pub len: usize,
}

/// An arena: allocations are carved off the current chunk one after the other,
/// and all are given up together.
pub struct Arena {
    /// The earlier chunks.
    chunks: Vec<Vec<u8>>,
    /// The current chunk.
    current: Vec<u8>,
    /// How much of the current chunk is in use.
    ptr: usize,
}

/// The state of an arena: the sizes that matter for the next allocation.
pub struct ArenaView {
    /// The number of the current chunk.
    pub chunk: nat,
    /// The size of the current chunk.
    pub size: nat,
    /// How much of it is in use.
    pub used: nat,
}

impl View for Arena {
    type V = ArenaView;

    closed spec fn view(&self) -> ArenaView {
        ArenaView {
            chunk: self.chunks@.len(),
            size: self.current@.len(),
            used: self.ptr as nat,
        }
    }
}

/// Whether an allocation of `size` bytes fits the current chunk.
pub open spec fn fits(view: ArenaView, size: int, align: int) -> bool {
    round_up(view.used as int, align) + size <= view.size
}

/// Whether a chunk can be added for an allocation of `size` bytes: the chunk's size
/// is a power of two that an allocator can grant, and there is a number for it.
pub open spec fn can_grow(view: ArenaView, size: int, align: int) -> bool {
    &&& view.size <= isize::MAX / 2 + 1
    &&& size + align <= isize::MAX / 2 + 1
    &&& view.chunk + 1 < usize::MAX
}

/// Where an allocation of `size` bytes ends up, and what the arena is after it:
/// behind what is in use, or, where it does not fit, at the start of a new chunk
/// of `new_size` bytes.
pub open spec fn placed(
    before: ArenaView,
    size: int,
    align: int,
    span: ArenaSpan,
    after: ArenaView,
) -> bool {
    let start = round_up(before.used as int, align);
    &&& span.len == size
    &&& if fits(before, size, align) {
        &&& span.chunk == before.chunk
        &&& span.start == start
        &&& after == (ArenaView { used: (start + size) as nat, ..before })
    } else {
        &&& span.chunk == before.chunk + 1
        &&& span.start == 0
        &&& after.chunk == before.chunk + 1
        &&& after.used == size
        &&& is_grown(before.size as int, size, align, after.size as int)
    }
}

/// Whether `new_size` is the least power of two that is not below the size of the
/// old chunk and holds the allocation.
pub open spec fn is_grown(old_size: int, size: int, align: int, new_size: int) -> bool {
    let need = if old_size > size + align {
        old_size
    } else {
        size + align
    };
    &&& exists|e: nat| new_size == #[trigger] pow2(e)
    &&& new_size >= need
    &&& need <= 1 ==> new_size == 1
    &&& need > 1 ==> new_size < 2 * need
}

/// Whether two runs of bytes differ at most in the `len` bytes from `start` on.
pub open spec fn same_outside(a: Seq<u8>, b: Seq<u8>, start: int, len: int) -> bool {
    &&& a.len() == b.len()
    &&& forall|i: int| 0 <= i < a.len() && !(start <= i < start + len) ==> #[trigger] b[i] == a[i]
}

impl Arena {
    /// What a chunk holds.
    pub closed spec fn bytes_of(&self, chunk: int) -> Seq<u8> {
        if chunk == self.chunks@.len() {
            self.current@
        } else {
            self.chunks@[chunk]@
        }
    }

    /// What is in use is within the current chunk.
    pub closed spec fn wf(&self) -> bool {
        &&& self.ptr <= self.current@.len()
        &&& self.chunks@.len() < usize::MAX
    }

    /// Whether a span lies within one of the chunks.
    pub open spec fn holds(&self, span: ArenaSpan) -> bool {
        &&& span.chunk <= self@.chunk
        &&& span.start + span.len <= self.bytes_of(span.chunk as int).len()
    }

    /// Whether every chunk that was there before holds what it held, but for the
    /// bytes of a span.
    pub open spec fn keeps_outside(&self, before: &Self, span: ArenaSpan) -> bool {
        forall|c: int|
            0 <= c <= before@.chunk ==> same_outside(
                before.bytes_of(c),
                #[trigger] self.bytes_of(c),
                if c == span.chunk {
                    span.start as int
                } else {
                    0
                },
                if c == span.chunk {
                    span.len as int
                } else {
                    0
                },
            )
    }

    /// Creates an arena with one chunk of the given size.
    pub fn new(capacity: usize) -> (r: Self)
        requires
            capacity <= isize::MAX,
        ensures
            r.wf(),
            r@ == (ArenaView { chunk: 0, size: capacity as nat, used: 0 }),
    {
        Arena { chunks: Vec::new(), current: vec![0u8;capacity], ptr: 0 }
    }

    /// Carves off `size` bytes that start at a multiple of `align`.
    pub fn alloc_bytes(&mut self, size: usize, align: usize) -> (r: Option<ArenaSpan>)
        requires
            old(self).wf(),
            align > 0,
            fits(old(self)@, size as int, align as int) || can_grow(
                old(self)@,
                size as int,
                align as int,
            ),
        ensures
            final(self).wf(),
            r matches Some(span) && placed(
                old(self)@,
                size as int,
                align as int,
                span,
                final(self)@,
            ) && final(self).holds(span),
            forall|c: int|
                0 <= c <= old(self)@.chunk ==> #[trigger] final(self).bytes_of(c) == old(
                    self,
                ).bytes_of(c),
    {
        proof {
            lemma_round_up(self.ptr as int, align as int);
            vstd::arithmetic::div_mod::lemma_mod_decreases(self.ptr as nat, align as nat);
        }
        let over: usize = self.ptr % align;
        let skipped: usize = if over == 0 {
            0
        } else {
            align - over
        };
        let left: usize = self.current.len() - self.ptr;
        if skipped <= left && size <= left - skipped {
            let start: usize = self.ptr + skipped;
            self.ptr = start + size;
            Some(ArenaSpan { chunk: self.chunks.len(), start, len: size })
        } else {
            Some(self.grow(size, align))
        }
    }

    /// Starts a new chunk that holds the allocation.
    fn grow(&mut self, size: usize, align: usize) -> (r: ArenaSpan)
        requires
            old(self).wf(),
            align > 0,
            can_grow(old(self)@, size as int, align as int),
        ensures
            final(self).wf(),
            r == (ArenaSpan { chunk: (old(self)@.chunk + 1) as usize, start: 0, len: size }),
            final(self)@.chunk == old(self)@.chunk + 1,
            final(self)@.used == size,
            is_grown(
                old(self)@.size as int,
                size as int,
                align as int,
                final(self)@.size as int,
            ),
            final(self).holds(r),
            forall|c: int|
                0 <= c <= old(self)@.chunk ==> #[trigger] final(self).bytes_of(c) == old(
                    self,
                ).bytes_of(c),
    {
        let need: usize = if self.current.len() > size + align {
            self.current.len()
        } else {
            size + align
        };
        let new_size: usize = next_power_of_two(need);
        let mut chunk: Vec<u8> = vec![0u8;new_size];
        core::mem::swap(&mut self.current, &mut chunk);
        self.chunks.push(chunk);
        self.ptr = size;
        ArenaSpan { chunk: self.chunks.len(), start: 0, len: size }
    }

    /// Makes room for a value of type `T`.
    pub fn allocate<T>(&mut self) -> (r: Option<ArenaSpan>)
        requires
            old(self).wf(),
            fits(old(self)@, layout::size_of::<T>() as int, layout::align_of::<T>() as int)
                || can_grow(
                old(self)@,
                layout::size_of::<T>() as int,
                layout::align_of::<T>() as int,
            ),
        ensures
            final(self).wf(),
            r matches Some(span) && placed(
                old(self)@,
                layout::size_of::<T>() as int,
                layout::align_of::<T>() as int,
                span,
                final(self)@,
            ) && final(self).holds(span),
            forall|c: int|
                0 <= c <= old(self)@.chunk ==> #[trigger] final(self).bytes_of(c) == old(
                    self,
                ).bytes_of(c),
    {
        layout::layout_for_type_is_valid::<T>();
        let size: usize = core::mem::size_of::<T>();
        let align: usize = core::mem::align_of::<T>();
        self.alloc_bytes(size, align)
    }

    /// Makes room for `len` values of type `T`, one behind the other.
    pub fn alloc_slice<T>(&mut self, len: usize) -> (r: Option<ArenaSpan>)
        requires
            old(self).wf(),
            layout::size_of::<T>() * len <= usize::MAX,
            fits(old(self)@, layout::size_of::<T>() * len, layout::align_of::<T>() as int)
                || can_grow(
                old(self)@,
                layout::size_of::<T>() * len,
                layout::align_of::<T>() as int,
            ),
        ensures
            final(self).wf(),
            r matches Some(span) && placed(
                old(self)@,
                layout::size_of::<T>() * len,
                layout::align_of::<T>() as int,
                span,
                final(self)@,
            ) && final(self).holds(span),
            forall|c: int|
                0 <= c <= old(self)@.chunk ==> #[trigger] final(self).bytes_of(c) == old(
                    self,
                ).bytes_of(c),
    {
        layout::layout_for_type_is_valid::<T>();
        let size: usize = core::mem::size_of::<T>();
        let align: usize = core::mem::align_of::<T>();
        self.alloc_bytes(size * len, align)
    }

    /// Carves off room for the given bytes, and copies them there.
    pub fn alloc_slice_copy(&mut self, data: &[u8]) -> (r: Option<ArenaSpan>)
        requires
            old(self).wf(),
            fits(old(self)@, data@.len() as int, 1) || can_grow(old(self)@, data@.len() as int, 1),
        ensures
            final(self).wf(),
            r matches Some(span) && placed(
                old(self)@,
                data@.len() as int,
                1,
                span,
                final(self)@,
            ) && final(self).holds(span) && final(self).bytes_of(span.chunk as int).subrange(
                span.start as int,
                span.start + span.len,
            ) == data@ && final(self).keeps_outside(old(self), span),
    {
        let span = match self.alloc_bytes(data.len(), 1) {
            Some(s) => s,
            None => {
                return None;
            },
        };
        let ghost view = self@;
        let ghost mid = *self;
        let mut i: usize = 0;
        while i < data.len()
            invariant
                i <= data.len(),
                self.wf(),
                self@ == view,
                span.chunk == self.chunks@.len(),
                span.start + data@.len() <= self.current.len(),
                self.chunks == mid.chunks,
                same_outside(mid.current@, self.current@, span.start as int, data@.len() as int),
                forall|j: int|
                    0 <= j < i ==> self.current@[#[trigger] (span.start + j)] == data@[j],
            decreases data.len() - i,
        {
            let ghost before = self.current@;
            self.current[span.start + i] = data[i];
            assert forall|j: int| 0 <= j < i + 1 implies self.current@[#[trigger] (span.start + j)]
                == data@[j] by {
                if j < i {
                    assert(before[span.start + j] == data@[j]);
                }
            }
            i = i + 1;
        }
        proof {
            let part = self.current@.subrange(span.start as int, span.start + span.len);
            assert forall|j: int| 0 <= j < part.len() implies part[j] == data@[j] by {
                assert(self.current@[span.start + j] == data@[j]);
            }
            assert(part =~= data@);
            assert forall|c: int| 0 <= c <= old(self)@.chunk implies same_outside(
                old(self).bytes_of(c),
                #[trigger] self.bytes_of(c),
                if c == span.chunk {
                    span.start as int
                } else {
                    0
                },
                if c == span.chunk {
                    span.len as int
                } else {
                    0
                },
            ) by {
                assert(mid.bytes_of(c) == old(self).bytes_of(c));
            }
        }
        Some(span)
    }

    /// Lends the bytes of a span.
    pub fn bytes(&self, span: ArenaSpan) -> (r: &[u8])
        requires
            self.wf(),
            self.holds(span),
        ensures
            r@ == self.bytes_of(span.chunk as int).subrange(
                span.start as int,
                span.start + span.len,
            ),
    {
        let chunk = if span.chunk == self.chunks.len() {
            self.current.as_slice()
        } else {
            self.chunks[span.chunk].as_slice()
        };
        assert(chunk@.len() == chunk.len());
        slice_subrange(chunk, span.start, span.start + span.len)
    }

    /// Gives up all allocations of the current chunk; no memory is freed.
    pub fn reset(&mut self)
        requires
            old(self).wf(),
        ensures
            final(self).wf(),
            final(self)@ == (ArenaView { used: 0, ..old(self)@ }),
            is_emptied(old(self)@, final(self)@),
            final(self)@.chunk == old(self)@.chunk,
    {
        self.ptr = 0;
    }

    /// Gives up all allocations and frees the earlier chunks.
    pub fn clear(&mut self)
        requires
            old(self).wf(),
        ensures
            final(self).wf(),
            final(self)@ == (ArenaView { chunk: 0, size: old(self)@.size, used: 0 }),
            is_emptied(old(self)@, final(self)@),
            final(self)@.chunk == 0,
    {
        self.chunks.clear();
        self.ptr = 0;
    }

    /// The number of bytes in use in the current chunk.
    pub fn used(&self) -> (r: usize)
        ensures
            r == self@.used,
    {
        self.ptr
    }

    /// The number of bytes left in the current chunk.
    pub fn remaining(&self) -> (r: usize)
        requires
            self.wf(),
        ensures
            r == self@.size - self@.used,
    {
        self.current.len() - self.ptr
    }
}

/// Whether `views` are the states of an arena between allocations, which gave
/// `spans` one after the other.
pub open spec fn is_run(views: Seq<ArenaView>, spans: Seq<ArenaSpan>) -> bool {
    &&& views.len() == spans.len() + 1
    &&& forall|i: int| 0 <= i < spans.len() ==> is_allocation(views[i], #[trigger] spans[i], views[i + 1])
}

/// Whether `span` is what some allocation gave.
pub open spec fn is_allocation(before: ArenaView, span: ArenaSpan, after: ArenaView) -> bool {
    exists|align: int| align > 0 && #[trigger] placed(before, span.len as int, align, span, after)
}

/// What was handed out lies behind the frontier of the arena ever after.
proof fn lemma_frontier(views: Seq<ArenaView>, spans: Seq<ArenaSpan>, i: int, j: int)
    requires
        is_run(views, spans),
        0 <= i < j < views.len(),
    ensures
        views[j].chunk >= spans[i].chunk,
        views[j].chunk == spans[i].chunk ==> spans[i].start + spans[i].len <= views[j].used,
    decreases j,
{
    let before = views[j - 1];
    let span = spans[j - 1];
    let after = views[j];
    assert(is_allocation(before, span, after));
    let align = choose|align: int|
        align > 0 && #[trigger] placed(before, span.len as int, align, span, after);
    lemma_round_up(before.used as int, align);
    if i < j - 1 {
        lemma_frontier(views, spans, i, j - 1);
    }
}

/// No two of the allocations since an arena was last reset or cleared overlap,
/// however many lie between them: the later one lies in a later chunk, or behind
/// the earlier one.
pub proof fn law_allocations_are_disjoint(
    views: Seq<ArenaView>,
    spans: Seq<ArenaSpan>,
    i: int,
    j: int,
)
    requires
        is_run(views, spans),
        0 <= i < j < spans.len(),
    ensures
        spans[i].chunk <= spans[j].chunk,
        spans[i].chunk == spans[j].chunk ==> spans[i].start + spans[i].len <= spans[j].start,
{
    lemma_frontier(views, spans, i, j);
    let before = views[j];
    let span = spans[j];
    let after = views[j + 1];
    assert(is_allocation(before, span, after));
    let align = choose|align: int|
        align > 0 && #[trigger] placed(before, span.len as int, align, span, after);
    lemma_round_up(before.used as int, align);
}

/// An allocation for which enough is left, whatever its alignment costs, stays in
/// the chunk: what is used grows by its size and less than its alignment more,
/// and what is left shrinks by as much.
pub proof fn law_remaining_is_used_up(
    before: ArenaView,
    size: int,
    align: int,
    span: ArenaSpan,
    after: ArenaView,
)
    requires
        size >= 0,
        align > 0,
        size + align - 1 <= before.size - before.used,
        placed(before, size, align, span, after),
    ensures
        after.chunk == before.chunk,
        after.size == before.size,
        size <= after.used - before.used <= size + align - 1,
        before.used <= span.start,
        span.start + span.len == after.used,
{
    lemma_round_up(before.used as int, align);
}

/// An allocation starts at a multiple of its alignment.
pub proof fn law_allocations_are_aligned(
    before: ArenaView,
    size: int,
    align: int,
    span: ArenaSpan,
    after: ArenaView,
)
    requires
        align > 0,
        placed(before, size, align, span, after),
    ensures
        span.start as int % align == 0,
{
    lemma_round_up(before.used as int, align);
    vstd::arithmetic::div_mod::lemma_small_mod(0, align as nat);
}

/// A pool of I/O buffers of one size.
pub struct BufferPool {
    free_list: Vec<Box<[u8]>>,
    buffer_size: usize,
    max_cached: usize,
}

impl BufferPool {
    /// The buffers that are kept.
    pub closed spec fn kept(&self) -> Seq<Box<[u8]>> {
        self.free_list@
    }

    /// The size of each buffer.
    pub closed spec fn size(&self) -> usize {
        self.buffer_size
    }

    /// How many buffers are kept at most.
    pub closed spec fn most(&self) -> usize {
        self.max_cached
    }

    /// No more buffers are kept than allowed, and each has the right size.
    pub closed spec fn wf(&self) -> bool {
        &&& self.buffer_size <= isize::MAX
        &&& self.free_list@.len() <= self.max_cached
        &&& forall|i: int|
            0 <= i < self.free_list@.len() ==> (#[trigger] self.free_list@[i])@.len()
                == self.buffer_size
    }

    /// Creates a pool that keeps nothing yet.
    pub fn new(buffer_size: usize, max_cached: usize) -> (r: Self)
        requires
            buffer_size <= isize::MAX,
        ensures
            r.wf(),
            r.kept() == Seq::<Box<[u8]>>::empty(),
            r.size() == buffer_size,
            r.most() == max_cached,
    {
        BufferPool { free_list: Vec::new(), buffer_size, max_cached }
    }

    /// Gives out the buffer that came back last, or a new one.
    pub fn get(&mut self) -> (r: Box<[u8]>)
        requires
            old(self).wf(),
        ensures
            final(self).wf(),
            final(self).size() == old(self).size(),
            final(self).most() == old(self).most(),
            r@.len() == old(self).size(),
            if old(self).kept().len() > 0 {
                r == old(self).kept().last() && final(self).kept() == old(self).kept().drop_last()
            } else {
                r@ == Seq::new(old(self).size() as nat, |i: int| 0u8) && final(self).kept() == old(
                    self,
                ).kept()
            },
            is_buffer_step(
                old(self).kept(),
                old(self).size(),
                old(self).most(),
                BufferStep::Got(r),
                final(self).kept(),
            ),
    {
        match self.free_list.pop() {
            Some(b) => {
                assert(self.free_list@ =~= old(self).kept().drop_last());
                assert(old(self).kept() =~= self.free_list@.push(b));
                b
            },
            None => {
                let b = boxed(vec![0u8;self.buffer_size]);
                assert(b@ =~= Seq::new(old(self).size() as nat, |i: int| 0u8));
                b
            },
        }
    }

    /// Takes a buffer back; it is dropped where the pool is full or the buffer has
    /// another size.
    pub fn put(&mut self, buffer: Box<[u8]>)
        requires
            old(self).wf(),
        ensures
            final(self).wf(),
            final(self).size() == old(self).size(),
            final(self).most() == old(self).most(),
            final(self).kept() == (if old(self).kept().len() < old(self).most() && buffer@.len()
                == old(self).size() {
                old(self).kept().push(buffer)
            } else {
                old(self).kept()
            }),
            is_buffer_step(
                old(self).kept(),
                old(self).size(),
                old(self).most(),
                BufferStep::Put(buffer),
                final(self).kept(),
            ),
    {
        if self.free_list.len() < self.max_cached && buffer.len() == self.buffer_size {
            self.free_list.push(buffer);
        }
    }

    /// The number of buffers that are kept.
    pub fn cached(&self) -> (r: usize)
        requires
            self.wf(),
        ensures
            r == self.kept().len(),
            r <= self.most(),
    {
        self.free_list.len()
    }
}

impl Default for BufferPool {
    fn default() -> (r: Self)
        ensures
            r.wf(),
            r.kept() == Seq::<Box<[u8]>>::empty(),
            r.size() == 4096,
            r.most() == 64,
    {
        BufferPool::new(4096, 64)
    }
}

/// `Vec::into_boxed_slice` keeps the elements.
#[verifier::external_body]
fn boxed(v: Vec<u8>) -> (r: Box<[u8]>)
    ensures
        r@ == v@,
{
    v.into_boxed_slice()
}

/// Rounding up gives the least multiple of the alignment that is not below.
pub proof fn law_rounding_up_is_least(x: int, align: int, k: int)
    requires
        align > 0,
        x >= 0,
        k >= 0,
    ensures
        round_up(x, align) >= x,
        round_up(x, align) % align == 0,
        k * align >= x ==> round_up(x, align) <= k * align,
{
    lemma_round_up(x, align);
    if k * align >= x && round_up(x, align) > k * align {
        let q = round_up(x, align) / align;
        vstd::arithmetic::div_mod::lemma_fundamental_div_mod(round_up(x, align), align);
        assert(round_up(x, align) == align * q);
        assert(q > k) by (nonlinear_arith)
            requires
                align > 0,
                align * q > k * align,
        ;
        assert(align * q >= k * align + align) by (nonlinear_arith)
            requires
                align > 0,
                q >= k + 1,
        ;
    }
}

/// An allocation always fits the chunk it is placed in, and a new chunk is started
/// exactly where the old one has no room for it.
pub proof fn law_allocation_fits_its_chunk(
    before: ArenaView,
    size: int,
    align: int,
    span: ArenaSpan,
    after: ArenaView,
)
    requires
        size >= 0,
        align > 0,
        placed(before, size, align, span, after),
    ensures
        span.len == size,
        span.start + span.len <= after.size,
        span.chunk == after.chunk,
        span.start + span.len == after.used,
        after.chunk == before.chunk <==> round_up(before.used as int, align) + size <= before.size,
        after.chunk != before.chunk ==> after.chunk == before.chunk + 1 && after.size >= before.size
            && after.size >= size + align,
{
}

/// Whether each of `n` slots is either free or handed out, and free only once.
pub open spec fn is_partition<T>(v: SlabView<T>, n: int) -> bool {
    &&& v.free.no_duplicates()
    &&& forall|slot: int| #[trigger]
        v.free.contains(slot) ==> 0 <= slot < n && !v.taken.dom().contains(slot)
    &&& forall|slot: int|
        0 <= slot < n ==> v.free.contains(slot) || #[trigger] v.taken.dom().contains(slot)
    &&& forall|slot: int| #[trigger] v.taken.dom().contains(slot) ==> 0 <= slot < n
}

/// Whether `states` are a slab between calls.
pub open spec fn is_slab_run<T>(states: Seq<SlabView<T>>, steps: Seq<SlabStep<T>>) -> bool {
    &&& states.len() == steps.len() + 1
    &&& forall|i: int|
        0 <= i < steps.len() ==> is_slab_step(states[i], #[trigger] steps[i], states[i + 1])
}

/// Each slot of a slab is either free or handed out.
pub proof fn law_slots_are_free_or_taken<T, const N: usize>(slab: &SlabPool<T, N>)
    requires
        slab.wf(),
    ensures
        is_partition(slab@, N as int),
{
    let v = slab@;
    assert forall|slot: int| #[trigger] v.free.contains(slot) implies 0 <= slot < N
        && !v.taken.dom().contains(slot) by {
        let i = choose|i: int| 0 <= i < v.free.len() && v.free[i] == slot;
        assert(slab.slots@[slab.free@[i]] is Free);
    }
    assert forall|slot: int| 0 <= slot < N implies v.free.contains(slot)
        || #[trigger] v.taken.dom().contains(slot) by {
        if slab.slots@[slot] is Free {
            assert(slab.free@.contains(slot));
        }
    }
}

/// Slots stay either free or handed out, over any run of calls.
pub proof fn law_slots_stay_free_or_taken<T>(
    states: Seq<SlabView<T>>,
    steps: Seq<SlabStep<T>>,
    n: int,
    k: int,
)
    requires
        is_slab_run(states, steps),
        is_partition(states[0], n),
        0 <= k < states.len(),
    ensures
        is_partition(states[k], n),
    decreases k,
{
    if k > 0 {
        law_slots_stay_free_or_taken(states, steps, n, k - 1);
        let (before, after) = (states[k - 1], states[k - 1 + 1]);
        assert(is_slab_step(before, steps[k - 1], after));
        match steps[k - 1] {
            SlabStep::Took(slot) => {
                assert(before.free[0] == slot);
                assert(before.free.contains(slot));
                assert forall|s: int| #[trigger] after.free.contains(s) implies before.free.contains(s)
                    && s != slot by {
                    let i = choose|i: int| 0 <= i < after.free.len() && after.free[i] == s;
                    assert(before.free[i + 1] == s);
                }
                assert forall|s: int| #[trigger]
                    before.free.contains(s) && s != slot implies after.free.contains(s) by {
                    let i = choose|i: int| 0 <= i < before.free.len() && before.free[i] == s;
                    assert(after.free[i - 1] == s);
                }
                assert forall|i: int, j: int|
                    0 <= i < after.free.len() && 0 <= j < after.free.len() && i
                        != j implies after.free[i] != after.free[j] by {
                    assert(before.free[i + 1] == after.free[i]);
                    assert(before.free[j + 1] == after.free[j]);
                }
                assert forall|s: int| 0 <= s < n implies after.free.contains(s)
                    || #[trigger] after.taken.dom().contains(s) by {
                    assert(before.free.contains(s) || before.taken.dom().contains(s));
                }
            },
            SlabStep::Refused => {},
            SlabStep::Stored(slot, _) => {
                assert(after.taken.dom() =~= before.taken.dom());
            },
            SlabStep::Freed(slot) => {
                assert(!before.free.contains(slot));
                assert forall|s: int| #[trigger] after.free.contains(s) implies s == slot
                    || before.free.contains(s) by {
                    let i = choose|i: int| 0 <= i < after.free.len() && after.free[i] == s;
                    if i > 0 {
                        assert(before.free[i - 1] == s);
                    }
                }
                assert(after.free[0] == slot);
                assert forall|s: int| #[trigger] before.free.contains(s) implies after.free.contains(
                    s,
                ) by {
                    let i = choose|i: int| 0 <= i < before.free.len() && before.free[i] == s;
                    assert(after.free[i + 1] == s);
                }
                assert forall|i: int, j: int|
                    0 <= i < after.free.len() && 0 <= j < after.free.len() && i
                        != j implies after.free[i] != after.free[j] by {
                    if i > 0 {
                        assert(after.free[i] == before.free[i - 1]);
                        assert(before.free.contains(after.free[i]));
                    }
                    if j > 0 {
                        assert(after.free[j] == before.free[j - 1]);
                        assert(before.free.contains(after.free[j]));
                    }
                }
                assert forall|s: int| 0 <= s < n implies after.free.contains(s)
                    || #[trigger] after.taken.dom().contains(s) by {
                    assert(before.free.contains(s) || before.taken.dom().contains(s));
                }
            },
        }
    }
}

/// A slot that was handed out is handed out to nobody else until it is taken back.
pub proof fn law_slot_is_handed_out_once<T>(
    states: Seq<SlabView<T>>,
    steps: Seq<SlabStep<T>>,
    n: int,
    slot: int,
    i: int,
    j: int,
)
    requires
        is_slab_run(states, steps),
        is_partition(states[0], n),
        0 <= i < j < steps.len(),
        steps[i] == SlabStep::<T>::Took(slot),
        forall|k: int| i < k < j ==> #[trigger] steps[k] != SlabStep::<T>::Freed(slot),
    ensures
        states[j].taken.dom().contains(slot),
        steps[j] != SlabStep::<T>::Took(slot),
        0 <= slot < n,
    decreases j - i,
{
    law_slots_stay_free_or_taken(states, steps, n, j);
    law_slots_stay_free_or_taken(states, steps, n, i);
    assert(is_slab_step(states[i], steps[i], states[i + 1]));
    assert(states[i].free[0] == slot);
    assert(states[i].free.contains(slot));
    if i + 1 < j {
        law_slot_is_handed_out_once(states, steps, n, slot, i, j - 1);
        assert(is_slab_step(states[j - 1], steps[j - 1], states[j - 1 + 1]));
    }
    assert(is_slab_step(states[j], steps[j], states[j + 1]));
    if steps[j] == SlabStep::<T>::Took(slot) {
        assert(states[j].free[0] == slot);
        assert(states[j].free.contains(slot));
    }
}

/// A slot keeps its value until it is given another or is taken back.
pub proof fn law_value_stays<T>(
    states: Seq<SlabView<T>>,
    steps: Seq<SlabStep<T>>,
    n: int,
    slot: int,
    value: T,
    i: int,
    j: int,
)
    requires
        is_slab_run(states, steps),
        is_partition(states[0], n),
        0 <= i < j < states.len(),
        steps[i] == SlabStep::Stored(slot, value),
        forall|k: int|
            i < k < j ==> #[trigger] steps[k] != SlabStep::<T>::Freed(slot) && !(
            steps[k] matches SlabStep::Stored(other, _) && other == slot),
    ensures
        states[j].taken.dom().contains(slot),
        states[j].taken[slot] == Some(value),
    decreases j - i,
{
    assert(is_slab_step(states[i], steps[i], states[i + 1]));
    if i + 1 < j {
        law_value_stays(states, steps, n, slot, value, i, j - 1);
        law_slots_stay_free_or_taken(states, steps, n, j - 1);
        assert(is_slab_step(states[j - 1], steps[j - 1], states[j - 1 + 1]));
        if steps[j - 1] == SlabStep::<T>::Took(slot) {
            assert(states[j - 1].free[0] == slot);
            assert(states[j - 1].free.contains(slot));
        }
    }
}

/// A slot is refused only where all are handed out.
pub proof fn law_refused_only_where_full<T>(
    before: SlabView<T>,
    after: SlabView<T>,
    n: int,
    slot: int,
)
    requires
        is_partition(before, n),
        is_slab_step(before, SlabStep::Refused, after),
        0 <= slot < n,
    ensures
        before.taken.dom().contains(slot),
        after == before,
{
}

/// No power of two that is enough is smaller.
pub proof fn law_power_above_is_least(n: nat, r: nat, k: nat)
    requires
        is_power_above(n, r),
        pow2(k) >= n,
    ensures
        n <= r <= pow2(k),
{
    let e = choose|e: nat| r == #[trigger] pow2(e);
    lemma_pow2_pos(k);
    if pow2(k) < r {
        assert(k < e) by {
            if e < k {
                lemma_pow2_strictly_increases(e, k);
            }
        }
        if k < e - 1 {
            lemma_pow2_strictly_increases(k, (e - 1) as nat);
        }
        lemma_pow2_unfold(e);
    }
}

/// The buffer that came back last is given out next, where it was kept; it is kept where
/// it has the right size and there is room. No more are kept than allowed, and a new one
/// is zeroed.
pub proof fn law_buffers_are_used_again(
    before: Seq<Box<[u8]>>,
    size: usize,
    most: usize,
    buffer: Box<[u8]>,
    between: Seq<Box<[u8]>>,
    next: Box<[u8]>,
    after: Seq<Box<[u8]>>,
)
    requires
        before.len() <= most,
        is_buffer_step(before, size, most, BufferStep::Put(buffer), between),
        is_buffer_step(between, size, most, BufferStep::Got(next), after),
    ensures
        between.len() <= most,
        before.len() < most && buffer@.len() == size ==> next == buffer && after == before,
        buffer@.len() != size || before.len() == most ==> between == before,
        between.len() == 0 ==> next@.len() == size && (forall|i: int|
            0 <= i < size ==> #[trigger] next@[i] == 0),
{
    if before.len() < most && buffer@.len() == size {
        assert(between.last() == buffer);
        assert(after.push(next).last() == next);
        assert(after =~= after.push(next).drop_last());
        assert(before =~= between.drop_last());
    }
}

/// An arena that was emptied has the room of its last chunk again, and hands it out from
/// the start.
pub proof fn law_emptied_arena_starts_over(
    before: ArenaView,
    emptied: ArenaView,
    size: int,
    align: int,
    span: ArenaSpan,
    after: ArenaView,
)
    requires
        is_emptied(before, emptied),
        0 <= size <= before.size,
        align > 0,
        placed(emptied, size, align, span, after),
    ensures
        span.start == 0,
        span.chunk == emptied.chunk,
        after.used == size,
        after.size == before.size,
{
    law_rounding_up_is_least(0, align, 0);
    law_allocation_fits_its_chunk(emptied, size, align, span, after);
}

/// A new chunk is as large as the least power of two that is neither below the size of the
/// last chunk nor below what is asked for with its alignment.
pub proof fn law_chunks_are_powers_of_two(
    before: ArenaView,
    size: int,
    align: int,
    span: ArenaSpan,
    after: ArenaView,
    k: nat,
)
    requires
        size >= 0,
        align > 0,
        placed(before, size, align, span, after),
        after.chunk != before.chunk,
        pow2(k) >= before.size,
        pow2(k) >= size + align,
    ensures
        exists|e: nat| after.size == #[trigger] pow2(e),
        before.size <= after.size <= pow2(k),
        size + align <= after.size,
{
    let need: nat = if before.size > size + align {
        before.size
    } else {
        (size + align) as nat
    };
    assert(is_power_above(need, after.size));
    law_power_above_is_least(need, after.size, k);
}

/// Copying into a span changes nothing outside of it, in its chunk or in any other.
pub proof fn law_copying_keeps_the_rest(
    before: &Arena,
    after: &Arena,
    span: ArenaSpan,
    chunk: int,
    i: int,
)
    requires
        after.keeps_outside(before, span),
        0 <= chunk <= before@.chunk,
        0 <= i < before.bytes_of(chunk).len(),
        chunk != span.chunk || i < span.start || i >= span.start + span.len,
    ensures
        after.bytes_of(chunk).len() == before.bytes_of(chunk).len(),
        after.bytes_of(chunk)[i] == before.bytes_of(chunk)[i],
{
    let (a, b) = (before.bytes_of(chunk), after.bytes_of(chunk));
    assert(same_outside(
        a,
        b,
        if chunk == span.chunk {
            span.start as int
        } else {
            0
        },
        if chunk == span.chunk {
            span.len as int
        } else {
            0
        },
    ));
}

} // verus!
