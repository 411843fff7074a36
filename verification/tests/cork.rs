use bytes::Bytes;
use sockudo_ws::cork::{BatchWriter, CorkBuffer, ZERO_COPY_MIN};

#[test]
fn test_cork_basic() {
    let mut cork = CorkBuffer::with_capacity(1024);

    assert!(!cork.has_data());
    assert!(cork.write(b"hello"));
    assert!(cork.has_data());
    assert_eq!(cork.pending_bytes(), 5);

    cork.consume(5);
    assert!(!cork.has_data());
}

#[test]
fn test_cork_overflow() {
    let mut cork = CorkBuffer::with_capacity(16);

    // First write fits
    assert!(cork.write(b"hello"));

    // Second write grows past the soft limit; data is still one slice
    assert!(!cork.write(b"world! this is a longer message"));

    let slices = cork.get_write_slices();
    assert_eq!(slices.len(), 1);
    assert_eq!(cork.pending_bytes(), 5 + 31);
}

#[test]
fn test_cork_zero_copy_keeps_order() {
    let mut cork = CorkBuffer::with_capacity(1024);
    let big = Bytes::from(vec![0xAB; ZERO_COPY_MIN]);

    cork.write(b"header");
    cork.write_bytes(big.clone());
    cork.write(b"next frame");

    let slices = cork.get_write_slices();
    assert_eq!(slices.len(), 3);
    assert_eq!(&slices[0][..], b"header");
    assert_eq!(slices[1].len(), ZERO_COPY_MIN);
    assert_eq!(slices[1].as_ptr(), big.as_ptr());
    assert_eq!(&slices[2][..], b"next frame");
    assert_eq!(cork.pending_bytes(), 6 + ZERO_COPY_MIN + 10);

    // Partial consume inside the large segment, then the rest
    cork.consume(6 + 100);
    let slices = cork.get_write_slices();
    assert_eq!(slices.len(), 2);
    assert_eq!(slices[0].len(), ZERO_COPY_MIN - 100);
    cork.consume(ZERO_COPY_MIN - 100 + 10);
    assert!(!cork.has_data());
    assert_eq!(cork.pending_bytes(), 0);

    // Buffer is reusable after the segments are gone
    cork.write(b"again");
    assert_eq!(cork.get_write_slices().len(), 1);
}

#[test]
fn test_cork_state() {
    let mut cork = CorkBuffer::new();

    assert!(!cork.is_corked());
    cork.cork();
    assert!(cork.is_corked());
    cork.uncork();
    assert!(!cork.is_corked());
}

#[test]
fn test_batch_writer() {
    let mut cork = CorkBuffer::with_capacity(1024);

    {
        let mut batch = BatchWriter::new(&mut cork);
        batch.write(b"message1");
        batch.write(b"message2");
    }

    // Uncorked once the batch is gone
    assert!(!cork.is_corked());
    assert!(cork.has_data());
    assert_eq!(cork.pending_bytes(), 16);
}

#[test]
fn a_finished_batch_restores_the_cork() {
    let mut cork = CorkBuffer::with_capacity(1024);
    {
        let mut batch = BatchWriter::new(&mut cork);
        batch.write_bytes(Bytes::from_static(b"ab"));
        batch.buffer_mut().extend_from_slice(b"cd");
        batch.finish();
    }
    assert!(!cork.is_corked());
    assert_eq!(cork.get_write_slices(), vec![&b"abcd"[..]]);

    cork.cork();
    BatchWriter::new(&mut cork).write(b"e");
    assert!(cork.is_corked());
    BatchWriter::new(&mut cork).finish();
    assert!(cork.is_corked());
    assert_eq!(cork.pending_bytes(), 5);
}

#[test]
fn consuming_cuts_one_piece() {
    let mut cork = CorkBuffer::new();
    cork.write(b"ab");
    cork.push_segment(Bytes::from_static(b"cdef"));
    cork.push_segment(Bytes::from_static(b"gh"));
    cork.write(b"ij");
    cork.consume(4);
    assert_eq!(cork.get_write_slices(), vec![&b"ef"[..], &b"gh"[..], &b"ij"[..]]);
    cork.consume(5);
    assert_eq!(cork.get_write_slices(), vec![&b"j"[..]]);
    cork.consume(usize::MAX);
    assert!(!cork.has_data());
}

#[test]
fn test_consume_partial() {
    let mut cork = CorkBuffer::with_capacity(16);

    cork.write_bytes(Bytes::from_static(b"hello"));
    cork.write_bytes(Bytes::from_static(b"world"));

    cork.consume(7); // "hello" + "wo"
    assert_eq!(cork.pending_bytes(), 3); // "rld"
}

#[test]
fn pieces_are_what_is_pending() {
    let mut cork = CorkBuffer::new();
    cork.write(b"ab");
    cork.push_segment(Bytes::from_static(b"cd"));
    cork.write(b"ef");
    assert!(cork.has_segments());
    assert_eq!(cork.get_write_slices().concat(), b"abcdef");
    assert_eq!(cork.chunk(), b"ab");
    cork.consume(3);
    assert_eq!(cork.get_write_slices().concat(), b"def");
    assert_eq!(cork.chunk(), b"d");

    let mut out: [&[u8]; 1] = [&[]];
    assert_eq!(cork.fill_write_slices(&mut out), 1);
    assert_eq!(out[0], b"d");

    cork.consume(1000);
    assert!(!cork.has_data());
}

#[test]
fn consuming_in_parts_is_consuming_at_once() {
    let mut a = CorkBuffer::new();
    let mut b = CorkBuffer::new();
    for cork in [&mut a, &mut b] {
        cork.write(b"one");
        cork.push_segment(Bytes::from_static(b"two"));
        cork.write(b"three");
    }
    a.consume(2);
    a.consume(5);
    b.consume(7);
    assert_eq!(a.get_write_slices().concat(), b"hree");
    assert_eq!(a.get_write_slices().concat(), b.get_write_slices().concat());
}

#[test]
fn clearing_and_taking_leave_nothing() {
    let mut cork = CorkBuffer::new();
    cork.write(b"abc");
    assert_eq!(&cork.take_buffer()[..], b"abc");
    assert!(!cork.has_data());
    cork.write(b"def");
    cork.push_segment(Bytes::from_static(b"g"));
    cork.clear();
    assert_eq!(cork.pending_bytes(), 0);
    cork.reserve(16);
    cork.buffer_mut().extend_from_slice(b"xy");
    assert_eq!(cork.chunk(), b"xy");
}

#[test]
fn uncorking_tells_whether_data_waits() {
    let mut cork = CorkBuffer::default();
    cork.cork();
    assert!(!cork.uncork());
    cork.cork();
    cork.write(b"x");
    assert!(cork.uncork());
}
