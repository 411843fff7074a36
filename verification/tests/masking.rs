use sockudo_ws::mask;
use sockudo_ws::simd::{apply_mask, apply_mask_offset, encode_payload_masked_inline, generate_mask};

#[test]
fn copy_mask_preserves_destination_boundaries() {
    let mask = [0x37, 0xfa, 0x21, 0x3d];
    for len in 0..=129 {
        for offset in 0..16 {
            // The payload ends at the allocation boundary, without readable padding.
            let source: Box<[u8]> = (0..offset + len).map(|i| (i * 37 + 17) as u8).collect();
            let payload = &source[offset..];
            let mut destination = vec![0xa5u8; offset + len + 16];
            encode_payload_masked_inline(&mut destination[offset..offset + len], payload, mask);
            let expected: Vec<_> = payload
                .iter()
                .enumerate()
                .map(|(i, b)| b ^ mask[i & 3])
                .collect();
            assert_eq!(&destination[offset..offset + len], expected);
            assert!(destination[..offset].iter().all(|b| *b == 0xa5));
            assert!(destination[offset + len..].iter().all(|b| *b == 0xa5));
        }
    }
}

#[test]
fn copy_mask_initializes_exact_destination() {
    let mask = [0x37, 0xfa, 0x21, 0x3d];
    for len in 0..=129 {
        let source: Box<[u8]> = (0..len).map(|i| (i * 37 + 17) as u8).collect();
        let mut destination = vec![0u8; len].into_boxed_slice();
        encode_payload_masked_inline(&mut destination, &source, mask);
        let expected: Vec<_> = source
            .iter()
            .enumerate()
            .map(|(i, b)| b ^ mask[i & 3])
            .collect();
        assert_eq!(&*destination, expected);
    }
}

#[test]
fn test_apply_mask_basic() {
    let mask = [0x37, 0xfa, 0x21, 0x3d];
    let original = b"Hello, WebSocket!".to_vec();
    let mut data = original.clone();

    // Apply mask
    apply_mask(&mut data, mask);

    // Data should be different
    assert_ne!(data, original);

    // Apply mask again (XOR is self-inverse)
    apply_mask(&mut data, mask);

    // Should be back to original
    assert_eq!(data, original);
}

#[test]
fn test_apply_mask_empty() {
    let mask = [0x37, 0xfa, 0x21, 0x3d];
    let mut data: Vec<u8> = vec![];
    apply_mask(&mut data, mask);
    assert!(data.is_empty());
}

#[test]
fn test_apply_mask_short() {
    let mask = [0x37, 0xfa, 0x21, 0x3d];

    for len in 1..=15 {
        let original: Vec<u8> = (0..len).map(|i| i as u8).collect();
        let mut data = original.clone();

        apply_mask(&mut data, mask);
        apply_mask(&mut data, mask);

        assert_eq!(data, original, "Failed for length {}", len);
    }
}

#[test]
fn test_apply_mask_long() {
    let mask = [0x37, 0xfa, 0x21, 0x3d];
    let original: Vec<u8> = (0..1000).map(|i| (i % 256) as u8).collect();
    let mut data = original.clone();

    apply_mask(&mut data, mask);
    assert_ne!(data, original);

    apply_mask(&mut data, mask);
    assert_eq!(data, original);
}

#[test]
fn test_apply_mask_offset() {
    let mask = [0x01, 0x02, 0x03, 0x04];
    let mut data = vec![0x00; 8];

    apply_mask_offset(&mut data, mask, 1);

    // With offset 1, mask should be rotated: [0x02, 0x03, 0x04, 0x01]
    assert_eq!(data, vec![0x02, 0x03, 0x04, 0x01, 0x02, 0x03, 0x04, 0x01]);
}

#[test]
fn test_generate_mask() {
    let mask1 = generate_mask();
    let mask2 = generate_mask();

    // Masks should be different (fastrand maintains thread-local state)
    assert_ne!(mask1, mask2);
}

#[test]
fn masking_in_parts_is_masking_at_once() {
    let mask = [1, 2, 4, 8];
    let mut whole: Vec<u8> = (0..50).collect();
    let mut parts = whole.clone();
    apply_mask(&mut whole, mask);
    apply_mask(&mut parts[..17], mask);
    apply_mask_offset(&mut parts[17..], mask, 17);
    assert_eq!(whole, parts);
}

#[test]
fn an_offset_counts_up_to_a_multiple_of_four() {
    let mask = [9, 8, 7, 6];
    let mut a = vec![0u8; 6];
    let mut b = vec![0u8; 6];
    apply_mask_offset(&mut a, mask, 3);
    apply_mask_offset(&mut b, mask, 3 + 4 * 1000);
    assert_eq!(a, [6, 9, 8, 7, 6, 9]);
    assert_eq!(a, b);
    let mut c = vec![0u8; 2];
    apply_mask_offset(&mut c, mask, usize::MAX);
    assert_eq!(c, [6, 9]);
}

#[test]
fn random_masks_and_keys_vary() {
    let masks: Vec<_> = (0..8).map(|_| mask::generate_mask()).collect();
    assert!(masks.iter().any(|m| *m != masks[0]));
    assert_ne!(mask::generate_key_bytes(), mask::generate_key_bytes());
}

#[test]
fn draws_are_joined_in_order() {
    assert_eq!(
        mask::join_draws([1, 2, 3, 4], [5, 6, 7, 8], [9, 10, 11, 12], [13, 14, 15, 16]),
        [1, 2, 3, 4, 5, 6, 7, 8, 9, 10, 11, 12, 13, 14, 15, 16]
    );
}
