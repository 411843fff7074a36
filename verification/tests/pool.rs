use sockudo_ws::pool::{next_power_of_two, Arena, BufferPool, SlabPool};

#[test]
fn test_slab_pool() {
    let mut pool: SlabPool<i32, 4> = SlabPool::new();

    let h1 = pool.allocate().unwrap();
    let h2 = pool.allocate().unwrap();

    pool.init(h1, 10);
    pool.init(h2, 20);

    assert_eq!(*pool.get(h1), 10);
    assert_eq!(*pool.get(h2), 20);

    pool.free(h1);

    let h3 = pool.allocate().unwrap();
    pool.init(h3, 30);
    assert_eq!(*pool.get(h3), 30);
}

#[test]
fn slab_is_exhausted_and_refilled() {
    let mut pool: SlabPool<u8, 2> = SlabPool::new();
    assert_eq!(pool.available(), 2);
    let a = pool.allocate().unwrap();
    let b = pool.allocate().unwrap();
    assert_eq!(pool.allocated(), 2);
    assert!(pool.allocate().is_none());
    pool.init(a, 1);
    pool.init(b, 2);
    *pool.get_mut(b) = 7;
    assert_eq!((*pool.get(a), *pool.get(b)), (1, 7));
    pool.free(b);
    assert_eq!(pool.available(), 1);
    let c = pool.allocate().unwrap();
    assert_eq!(c.index(), b.index());
    assert!(c.index() < 2);
    assert!(pool.allocate().is_none());
}

#[test]
fn a_default_slab_is_free() {
    let mut pool: SlabPool<u8, 3> = SlabPool::default();
    assert_eq!((pool.allocated(), pool.available()), (0, 3));
    let indices: Vec<usize> = (0..3).map(|_| pool.allocate().unwrap().index()).collect();
    assert_eq!(indices, vec![0, 1, 2]);
}

#[test]
fn test_arena() {
    let mut arena = Arena::new(1024);

    let x = arena.alloc_slice_copy(&42i32.to_ne_bytes()).unwrap();
    assert_eq!(arena.bytes(x), &42i32.to_ne_bytes());

    let slice = arena.alloc_slice_copy(&[1, 2, 3, 4, 5]).unwrap();
    assert_eq!(arena.bytes(slice), &[1, 2, 3, 4, 5]);

    arena.reset();
    assert_eq!(arena.used(), 0);
}

#[test]
fn arena_allocations_are_disjoint_and_aligned() {
    let mut arena = Arena::new(64);
    let a = arena.alloc_bytes(3, 1).unwrap();
    let b = arena.alloc_bytes(8, 8).unwrap();
    assert_eq!((a.chunk, a.start, a.len), (0, 0, 3));
    assert_eq!((b.chunk, b.start, b.len), (0, 8, 8));
    assert_eq!(arena.used(), 16);
    assert_eq!(arena.remaining(), 48);
    let c = arena.allocate::<u64>().unwrap();
    assert_eq!(c.start % 8, 0);
    assert!(c.start >= b.start + b.len);
}

#[test]
fn an_allocation_that_fits_uses_up_what_remains() {
    let mut arena = Arena::new(64);
    arena.alloc_bytes(5, 1).unwrap();
    let slice = arena.alloc_slice::<u32>(3).unwrap();
    assert_eq!((slice.chunk, slice.start, slice.len), (0, 8, 12));
    assert_eq!((arena.used(), arena.remaining()), (20, 44));
    let whole = arena.alloc_bytes(44, 1).unwrap();
    assert_eq!((whole.chunk, whole.start), (0, 20));
    assert_eq!(arena.remaining(), 0);
    let mut spans = vec![slice, whole];
    for size in [1, 7, 30, 90, 2] {
        spans.push(arena.alloc_bytes(size, 4).unwrap());
    }
    for (i, a) in spans.iter().enumerate() {
        for b in &spans[i + 1..] {
            assert!(a.chunk < b.chunk || a.chunk == b.chunk && a.start + a.len <= b.start);
        }
    }
}

#[test]
fn copies_leave_other_bytes_alone() {
    let mut arena = Arena::new(8);
    let a = arena.alloc_slice_copy(&[1, 2, 3]).unwrap();
    let b = arena.alloc_slice_copy(&[4, 5]).unwrap();
    let c = arena.alloc_slice_copy(&[6; 20]).unwrap();
    arena.allocate::<u64>().unwrap();
    assert_eq!(arena.bytes(a), &[1, 2, 3]);
    assert_eq!(arena.bytes(b), &[4, 5]);
    assert_eq!(arena.bytes(c), &[6; 20]);
}

#[test]
fn arena_grows_by_a_chunk() {
    let mut arena = Arena::new(16);
    let a = arena.alloc_bytes(10, 1).unwrap();
    let b = arena.alloc_slice_copy(&[9; 100]).unwrap();
    assert_eq!(a.chunk, 0);
    assert_eq!((b.chunk, b.start), (1, 0));
    assert_eq!(arena.bytes(b), &[9; 100]);
    arena.clear();
    assert_eq!(arena.used(), 0);
}

#[test]
fn powers_of_two() {
    assert_eq!(next_power_of_two(0), 1);
    assert_eq!(next_power_of_two(1), 1);
    assert_eq!(next_power_of_two(5), 8);
    assert_eq!(next_power_of_two(4096), 4096);
    assert_eq!(next_power_of_two(4097), 8192);
}

#[test]
fn test_buffer_pool() {
    let mut pool = BufferPool::new(1024, 4);

    let buf1 = pool.get();
    assert_eq!(buf1.len(), 1024);

    pool.put(buf1);
    assert_eq!(pool.cached(), 1);

    let buf2 = pool.get();
    assert_eq!(pool.cached(), 0);
    assert_eq!(buf2.len(), 1024);
}

#[test]
fn buffer_pool_refuses_other_sizes_and_keeps_its_limit() {
    let mut pool = BufferPool::new(8, 1);
    pool.put(vec![0u8; 9].into_boxed_slice());
    assert_eq!(pool.cached(), 0);
    pool.put(vec![1u8; 8].into_boxed_slice());
    pool.put(vec![2u8; 8].into_boxed_slice());
    assert_eq!(pool.cached(), 1);
    assert_eq!(&*pool.get(), &[1u8; 8]);
    assert_eq!(&*pool.get(), &[0u8; 8]);
}
