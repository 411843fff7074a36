use sockudo_ws::queue::{MpmcQueue, SpscQueue};

#[test]
fn test_spsc_basic() {
    let mut queue: SpscQueue<i32, 16> = SpscQueue::new();

    assert!(queue.is_empty());
    assert_eq!(queue.len(), 0);

    queue.try_push(1).unwrap();
    queue.try_push(2).unwrap();
    queue.try_push(3).unwrap();

    assert_eq!(queue.len(), 3);
    assert!(!queue.is_empty());

    assert_eq!(queue.try_pop(), Some(1));
    assert_eq!(queue.try_pop(), Some(2));
    assert_eq!(queue.try_pop(), Some(3));
    assert_eq!(queue.try_pop(), None);
}

#[test]
fn test_spsc_full() {
    let mut queue: SpscQueue<i32, 4> = SpscQueue::new();

    queue.try_push(1).unwrap();
    queue.try_push(2).unwrap();
    queue.try_push(3).unwrap();
    queue.try_push(4).unwrap();

    assert!(queue.try_push(5).is_err());
}

#[test]
fn test_mpmc_basic() {
    let mut queue: MpmcQueue<i32, 16> = MpmcQueue::new();

    queue.try_push(1).unwrap();
    queue.try_push(2).unwrap();

    assert_eq!(queue.try_pop(), Some(1));
    assert_eq!(queue.try_pop(), Some(2));
    assert_eq!(queue.try_pop(), None);
}

#[test]
fn test_spsc_wraparound() {
    let mut queue: SpscQueue<i32, 4> = SpscQueue::new();

    // Fill and drain multiple times to test wraparound
    for round in 0..10 {
        for i in 0..4 {
            queue.try_push(round * 4 + i).unwrap();
        }
        for i in 0..4 {
            assert_eq!(queue.try_pop(), Some(round * 4 + i));
        }
    }
}

#[test]
fn test_mpmc_wraparound() {
    let mut queue: MpmcQueue<i32, 4> = MpmcQueue::new();

    for round in 0..10 {
        for i in 0..4 {
            queue.try_push(round * 4 + i).unwrap();
        }
        for i in 0..4 {
            assert_eq!(queue.try_pop(), Some(round * 4 + i));
        }
    }
}

#[test]
fn a_refused_item_comes_back() {
    let mut spsc: SpscQueue<String, 1> = SpscQueue::default();
    spsc.try_push("a".to_string()).unwrap();
    assert_eq!(spsc.try_push("b".to_string()), Err("b".to_string()));
    assert_eq!(spsc.capacity(), 1);

    let mut mpmc: MpmcQueue<String, 1> = MpmcQueue::default();
    mpmc.try_push("a".to_string()).unwrap();
    assert_eq!(mpmc.try_push("b".to_string()), Err("b".to_string()));
    assert_eq!(mpmc.len(), 1);
    assert!(!mpmc.is_empty());
}

#[test]
fn first_in_is_first_out_across_the_seam() {
    let mut queue: SpscQueue<i32, 3> = SpscQueue::new();
    queue.try_push(1).unwrap();
    queue.try_push(2).unwrap();
    assert_eq!(queue.try_pop(), Some(1));
    queue.try_push(3).unwrap();
    queue.try_push(4).unwrap();
    assert!(queue.try_push(5).is_err());
    assert_eq!(queue.try_pop(), Some(2));
    assert_eq!(queue.try_pop(), Some(3));
    assert_eq!(queue.try_pop(), Some(4));
    assert!(queue.is_empty());
}
