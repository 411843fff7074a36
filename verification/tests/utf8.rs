use sockudo_ws::utf8::{validate_utf8, validate_utf8_incomplete};

#[test]
fn test_valid_ascii() {
    assert!(validate_utf8(b"Hello, World!"));
    assert!(validate_utf8(b""));
    assert!(validate_utf8(b"0123456789"));
}

#[test]
fn test_valid_utf8() {
    assert!(validate_utf8("Hello, 世界!".as_bytes()));
    assert!(validate_utf8("émoji: 🎉".as_bytes()));
    assert!(validate_utf8("Ñoño".as_bytes()));
    assert!(validate_utf8("日本語".as_bytes()));
}

#[test]
fn test_invalid_utf8() {
    // Invalid continuation byte
    assert!(!validate_utf8(&[0xC0, 0x00]));

    // Overlong encoding
    assert!(!validate_utf8(&[0xC0, 0x80])); // Overlong NUL
    assert!(!validate_utf8(&[0xC1, 0xBF])); // Overlong

    // Invalid leading byte
    assert!(!validate_utf8(&[0xFF]));
    assert!(!validate_utf8(&[0xFE]));

    // Surrogate halves (invalid in UTF-8)
    assert!(!validate_utf8(&[0xED, 0xA0, 0x80])); // U+D800
    assert!(!validate_utf8(&[0xED, 0xBF, 0xBF])); // U+DFFF

    // Truncated sequences
    assert!(!validate_utf8(&[0xE0, 0x80])); // Missing byte
    assert!(!validate_utf8(&[0xF0, 0x80, 0x80])); // Missing byte

    // Invalid continuation
    assert!(!validate_utf8(&[0xE0, 0x80, 0x00]));
}

#[test]
fn test_validate_utf8_incomplete() {
    // Complete ASCII
    let (valid, incomplete) = validate_utf8_incomplete(b"hello");
    assert!(valid);
    assert_eq!(incomplete, 0);

    // Incomplete 2-byte sequence
    let (valid, incomplete) = validate_utf8_incomplete(&[0xC2]);
    assert!(valid);
    assert_eq!(incomplete, 1);

    // Incomplete 3-byte sequence
    let (valid, incomplete) = validate_utf8_incomplete(&[0xE4, 0xB8]);
    assert!(valid);
    assert_eq!(incomplete, 2);

    // Complete followed by incomplete
    let mut data = b"hi".to_vec();
    data.push(0xE4);
    data.push(0xB8);
    let (valid, incomplete) = validate_utf8_incomplete(&data);
    assert!(valid);
    assert_eq!(incomplete, 2);
}

#[test]
fn test_long_utf8() {
    // Test with longer strings to exercise SIMD paths
    let long_ascii = "a".repeat(1000);
    assert!(validate_utf8(long_ascii.as_bytes()));

    let long_unicode = "日本語".repeat(100);
    assert!(validate_utf8(long_unicode.as_bytes()));

    let mixed = format!("{}日本語{}", "a".repeat(100), "b".repeat(100));
    assert!(validate_utf8(mixed.as_bytes()));
}

#[test]
fn test_boundary_lengths() {
    // Test various lengths around SIMD boundaries (16, 32, 64 bytes)
    for len in [15, 16, 17, 31, 32, 33, 63, 64, 65, 127, 128, 129] {
        let ascii = "a".repeat(len);
        assert!(
            validate_utf8(ascii.as_bytes()),
            "Failed for ASCII length {}",
            len
        );

        // Mixed content
        if len >= 9 {
            let prefix_len = (len - 9) / 2;
            let suffix_len = len - 9 - prefix_len;
            let mixed = format!("{}日本語{}", "a".repeat(prefix_len), "b".repeat(suffix_len));
            assert!(
                validate_utf8(mixed.as_bytes()),
                "Failed for mixed length {}",
                len
            );
        }
    }
}

#[test]
fn an_invalid_fragment_is_refused() {
    assert_eq!(validate_utf8_incomplete(&[0xFF, 0xC2]), (false, 0));
    assert_eq!(validate_utf8_incomplete(&[b'a', 0x80]), (false, 0));
    assert_eq!(validate_utf8_incomplete(b""), (true, 0));
    assert_eq!(validate_utf8_incomplete(&[0xC0]), (false, 0));
    assert_eq!(validate_utf8_incomplete(&[0xC1]), (false, 0));
    assert_eq!(validate_utf8_incomplete(&[b'a', 0xC1]), (false, 0));
    assert_eq!(validate_utf8_incomplete(&[0xDF]), (true, 1));
    assert_eq!(validate_utf8_incomplete(&[0xE0, 0x9F]), (false, 0));
    assert_eq!(validate_utf8_incomplete(&[0xED, 0xA0]), (false, 0));
    assert_eq!(validate_utf8_incomplete(&[0xF4, 0x90]), (false, 0));
    assert_eq!(validate_utf8_incomplete(&[0xF5]), (false, 0));
    assert_eq!(validate_utf8_incomplete(&[0xF0, 0x9F, 0x8E]), (true, 3));
    assert_eq!(validate_utf8_incomplete("🎉".as_bytes()), (true, 0));
}

#[test]
fn fragments_compose() {
    let text = "Hello, 世界! 🎉".as_bytes();
    for cut in 0..=text.len() {
        let (valid, incomplete) = validate_utf8_incomplete(&text[..cut]);
        assert!(valid, "cut at {}", cut);
        assert!(incomplete < 4);
        assert!(validate_utf8(&text[..cut - incomplete]));
        assert!(validate_utf8(&text[cut - incomplete..]));
    }
}

#[test]
fn carrying_the_tail_on_leaves_as_much_over() {
    let text = "a\u{e9}\u{65e5}\u{1f389}z".as_bytes();
    for end in 0..=text.len() {
        let whole = validate_utf8_incomplete(&text[..end]);
        for cut in 0..=end {
            let (valid, left) = validate_utf8_incomplete(&text[..cut]);
            assert!(valid);
            assert_eq!(validate_utf8_incomplete(&text[cut - left..end]), whole);
        }
    }
}
