use flate2::{Compress, FlushCompress};
use sockudo_ws::axum_integration::negotiate_extensions;
use sockudo_ws::deflate::{
    finish_message, first_capacity, parse_deflate_offer, DeflateConfig, DeflateContext,
    DeflateDecoder, DeflateEncoder, DEFAULT_WINDOW_BITS,
};
use sockudo_ws::error::Error;
use sockudo_ws::Config;

/// Deterministic high-entropy bytes, standing in for already-compressed
/// payloads (audio, video, images) that deflate cannot shrink.
fn incompressible(n: usize) -> Vec<u8> {
    let mut s: u64 = 0x2545_F491_4F6C_DD1D;
    (0..n)
        .map(|_| {
            s ^= s << 13;
            s ^= s >> 7;
            s ^= s << 17;
            (s >> 24) as u8
        })
        .collect()
}

/// One message as the protocol layer sends and receives it: a compressed
/// result travels with RSV1 set and reaches the peer's inflater, while a
/// `None` result is sent verbatim with RSV1 clear and never reaches it.
fn round_trip(
    enc: &mut DeflateContext,
    dec: &mut DeflateContext,
    msg: &[u8],
) -> Result<Vec<u8>, Error> {
    match enc.compress(msg)? {
        Some(compressed) => dec.decompress(&compressed, 1 << 20).map(|b| b.to_vec()),
        None => Ok(msg.to_vec()),
    }
}

#[test]
fn test_undersized_compression_does_not_desync_context_takeover() {
    let config = DeflateConfig {
        server_no_context_takeover: false,
        client_no_context_takeover: false,
        compression_threshold: 16,
        ..Default::default()
    };
    let mut server = DeflateContext::server(config.clone());
    let mut client = DeflateContext::client(config);

    let text = b"{\"channel\":\"presence-room\",\"event\":\"client-typing\"}".repeat(8);

    // Warm both LZ77 windows with a message that does compress.
    let first = round_trip(&mut server, &mut client, &text).expect("first message");
    assert_eq!(first, text);

    // A message that does not shrink is sent verbatim, so the peer's window
    // never sees it. The encoder must not retain it either.
    let opaque = incompressible(4096);
    let second = round_trip(&mut server, &mut client, &opaque).expect("second message");
    assert_eq!(second, opaque);

    // Repeat the first message. With context takeover the encoder emits a
    // back-reference into its window; if that window still holds `opaque`,
    // the distance is wrong on the peer and the message decodes to garbage.
    let third = round_trip(&mut server, &mut client, &text).expect("third message decodes");
    assert_eq!(
        third, text,
        "window desynchronised after an uncompressed message"
    );
}

#[test]
fn test_compress_decompress() {
    let config = DeflateConfig::default();
    let mut ctx = DeflateContext::server(config);

    let original = b"Hello, World! This is a test message that should be compressed.";

    // Compress
    let compressed = ctx.compress(original).unwrap();
    assert!(compressed.is_some());
    let compressed = compressed.unwrap();
    assert!(compressed.len() < original.len());

    // Decompress
    let decompressed = ctx.decompress(&compressed, 1024).unwrap();
    assert_eq!(&decompressed[..], &original[..]);
}

#[test]
fn test_small_message_not_compressed() {
    let config = DeflateConfig {
        compression_threshold: 100,
        ..Default::default()
    };
    let mut ctx = DeflateContext::server(config);

    let small = b"tiny";
    let result = ctx.compress(small).unwrap();
    assert!(result.is_none());
}

#[test]
fn test_context_takeover() {
    let config = DeflateConfig {
        server_no_context_takeover: false,
        compression_threshold: 0,
        ..Default::default()
    };
    let mut ctx = DeflateContext::server(config);

    let msg = b"Hello, World! Hello, World! Hello, World!";

    // First compression
    let first = ctx.compress(msg).unwrap().unwrap();

    // Second compression should benefit from context
    let second = ctx.compress(msg).unwrap().unwrap();

    // With context takeover, second should be smaller or equal
    // (references previous data in LZ77 window)
    assert!(second.len() <= first.len());
}

#[test]
fn test_no_context_takeover() {
    let config = DeflateConfig {
        server_no_context_takeover: true,
        compression_threshold: 0,
        ..Default::default()
    };
    let mut ctx = DeflateContext::server(config);

    let msg = b"Hello, World! Hello, World! Hello, World!";

    // Both compressions should produce same output
    let first = ctx.compress(msg).unwrap().unwrap();
    let second = ctx.compress(msg).unwrap().unwrap();

    assert_eq!(first.len(), second.len());
}

#[test]
fn test_parse_deflate_offer() {
    // Simple offer
    let params = parse_deflate_offer("permessage-deflate").unwrap();
    assert!(params.is_empty());

    // With parameters
    let params = parse_deflate_offer(
        "permessage-deflate; server_no_context_takeover; server_max_window_bits=10",
    )
    .unwrap();
    assert_eq!(params.len(), 2);
    assert_eq!(params[0], ("server_no_context_takeover", None));
    assert_eq!(params[1], ("server_max_window_bits", Some("10")));

    // Not a deflate offer
    assert!(parse_deflate_offer("some-other-extension").is_none());
}

#[test]
fn test_config_from_params() {
    let params = vec![
        ("server_no_context_takeover", None),
        ("client_max_window_bits", Some("12")),
    ];

    let config = DeflateConfig::from_params(&params).unwrap();
    assert!(config.server_no_context_takeover);
    assert!(!config.client_no_context_takeover);
    assert_eq!(config.client_max_window_bits, 12);
    assert_eq!(config.server_max_window_bits, DEFAULT_WINDOW_BITS);
}

#[test]
fn test_response_header() {
    let config = DeflateConfig {
        server_no_context_takeover: true,
        server_max_window_bits: 12,
        ..Default::default()
    };

    let header = config.to_response_header();
    assert!(header.contains("permessage-deflate"));
    assert!(header.contains("server_no_context_takeover"));
    assert!(header.contains("server_max_window_bits=12"));
}

#[test]
fn test_deflate_negotiation_with_client_offer() {
    // Test that deflate negotiation works when client offers permessage-deflate
    let client_extension = "permessage-deflate; client_max_window_bits";

    // Parse the offer as the code does
    let params = parse_deflate_offer(client_extension);
    assert!(params.is_some());

    // Validate that we can create a config from the parsed params
    let params = params.unwrap();
    let client_config = DeflateConfig::from_params(&params);
    assert!(client_config.is_ok());

    // Generate response header using server's config (as in on_upgrade)
    let server_config = DeflateConfig::default();
    let response_header = server_config.to_response_header();

    // Verify response header contains permessage-deflate
    assert!(response_header.starts_with("permessage-deflate"));
}

#[test]
fn test_deflate_negotiation_with_parameters() {
    // Test negotiation with specific deflate parameters
    let client_extension =
        "permessage-deflate; server_no_context_takeover; client_max_window_bits=10";

    let params = parse_deflate_offer(client_extension);
    assert!(params.is_some());

    let params = params.unwrap();
    assert_eq!(params.len(), 2);
    assert_eq!(params[0], ("server_no_context_takeover", None));
    assert_eq!(params[1], ("client_max_window_bits", Some("10")));

    let config = DeflateConfig::from_params(&params);
    assert!(config.is_ok());
    let config = config.unwrap();

    // Verify parsed config has correct values
    assert!(config.server_no_context_takeover);
    assert_eq!(config.client_max_window_bits, 10);

    // Verify response header generation
    let response = config.to_response_header();
    assert!(response.contains("permessage-deflate"));
    assert!(response.contains("server_no_context_takeover"));
}

#[test]
fn test_deflate_negotiation_without_client_offer() {
    // Test that when client doesn't offer deflate, negotiation returns None
    let no_extension: Option<&str> = None;

    let result = no_extension.and_then(|ext| parse_deflate_offer(ext));
    assert!(result.is_none());
    assert!(negotiate_extensions(Some(DeflateConfig::default()), no_extension).is_none());
}

#[test]
fn test_deflate_negotiation_with_non_deflate_extension() {
    // Test that non-deflate extensions are ignored
    let other_extension = "some-other-extension";

    let params = parse_deflate_offer(other_extension);
    assert!(params.is_none());
}

#[test]
fn test_deflate_response_header_generation() {
    // Test default config response header
    let config = DeflateConfig::default();
    let header = config.to_response_header();
    assert_eq!(header, "permessage-deflate");

    // Test config with server_no_context_takeover
    let config = DeflateConfig {
        server_no_context_takeover: true,
        ..Default::default()
    };
    let header = config.to_response_header();
    assert!(header.contains("permessage-deflate"));
    assert!(header.contains("server_no_context_takeover"));

    // Test config with custom window bits
    let config = DeflateConfig {
        server_max_window_bits: 12,
        client_max_window_bits: 10,
        ..Default::default()
    };
    let header = config.to_response_header();
    assert!(header.contains("server_max_window_bits=12"));
    assert!(header.contains("client_max_window_bits=10"));
}

#[test]
fn test_deflate_config_enabled_vs_disabled() {
    // Test with deflate enabled
    let mut config = Config::default();
    config.deflate = Some(DeflateConfig::default());

    assert!(config.deflate.is_some());

    // Test with deflate disabled
    let config = Config::default();
    // By default, deflate should be None
    assert!(config.deflate.is_none());
}

#[test]
fn test_deflate_negotiation_logic_structure() {
    let extensions: Option<String> = Some("permessage-deflate".to_string());

    let config = Config::default();
    assert_eq!(config.max_message_size, 64 * 1024 * 1024);
    assert!(negotiate_extensions(config.deflate, extensions.as_deref()).is_none());

    let mut test_config = Config::default();
    test_config.deflate = Some(DeflateConfig::default());
    assert!(test_config.deflate.is_some());
    assert_eq!(
        negotiate_extensions(test_config.deflate, extensions.as_deref()),
        Some("permessage-deflate".to_string())
    );
}

#[test]
fn test_deflate_invalid_parameters() {
    // Test invalid window bits (too low)
    let params = vec![("server_max_window_bits", Some("7"))];
    let result = DeflateConfig::from_params(&params);
    assert!(result.is_err());

    // Test invalid window bits (too high)
    let params = vec![("server_max_window_bits", Some("16"))];
    let result = DeflateConfig::from_params(&params);
    assert!(result.is_err());

    // Test invalid parameter name
    let params = vec![("invalid_parameter", None)];
    let result = DeflateConfig::from_params(&params);
    assert!(result.is_err());
}

#[test]
fn test_deflate_full_negotiation_flow() {
    // Simulate the full flow in on_upgrade method
    let client_offer = "permessage-deflate; client_no_context_takeover; client_max_window_bits=12";
    let server_config = DeflateConfig::default();

    // Parse client offer
    let parsed_params = parse_deflate_offer(client_offer);
    assert!(parsed_params.is_some());

    let params = parsed_params.unwrap();

    // Validate params - this confirms client's offer is valid
    let validated_config = DeflateConfig::from_params(&params);
    assert!(validated_config.is_ok());

    // Generate response header using server's config (not client's)
    let response_header = server_config.to_response_header();
    assert!(response_header.starts_with("permessage-deflate"));

    // Verify the negotiation produces a valid extension header
    assert!(!response_header.is_empty());
    assert_eq!(
        negotiate_extensions(Some(server_config), Some(client_offer)),
        Some(response_header)
    );
}

#[test]
fn a_response_header_reads_back() {
    let config = DeflateConfig {
        server_no_context_takeover: true,
        client_no_context_takeover: true,
        server_max_window_bits: 11,
        client_max_window_bits: 9,
        ..Default::default()
    };
    let header = config.to_response_header();
    assert_eq!(
        header,
        "permessage-deflate; server_no_context_takeover; client_no_context_takeover; \
         server_max_window_bits=11; client_max_window_bits=9"
    );
    let params = parse_deflate_offer(&header).unwrap();
    assert_eq!(DeflateConfig::from_params(&params).unwrap(), config);
}

#[test]
fn presets() {
    let low = DeflateConfig::low_memory();
    assert_eq!(low.server_max_window_bits, 10);
    assert!(low.server_no_context_takeover);
    let best = DeflateConfig::best_compression();
    assert_eq!(best.compression_level, 9);
    assert_eq!(best.server_max_window_bits, 15);
}

#[test]
fn contexts_round_trip_many_messages() {
    for no_takeover in [false, true] {
        let config = DeflateConfig {
            server_no_context_takeover: no_takeover,
            client_no_context_takeover: no_takeover,
            server_max_window_bits: 9,
            client_max_window_bits: 8 + 2,
            compression_threshold: 0,
            ..Default::default()
        };
        let mut server = DeflateContext::server(config);
        let mut client = DeflateContext::client(config);
        for n in 1..60usize {
            let message = format!("message {} ", n).repeat(n).into_bytes();
            assert_eq!(round_trip(&mut server, &mut client, &message).unwrap(), message);
            assert_eq!(round_trip(&mut client, &mut server, &message).unwrap(), message);
        }
    }
}

#[test]
fn long_messages_grow_the_output() {
    let mut encoder = DeflateEncoder::new(15, true, 6, 0);
    let mut decoder = DeflateDecoder::new(15, true);
    let message = b"abcdefgh".repeat(50_000);
    let compressed = encoder.compress(&message).unwrap().unwrap();
    assert!(compressed.len() < message.len() / 10);
    assert_eq!(&decoder.decompress(&compressed, message.len()).unwrap()[..], &message[..]);
}

#[test]
fn an_oversized_message_is_refused() {
    let mut encoder = DeflateEncoder::new(15, true, 6, 0);
    let mut decoder = DeflateDecoder::new(15, true);
    let compressed = encoder.compress(&[b'a'; 5000]).unwrap().unwrap();
    assert!(matches!(decoder.decompress(&compressed, 4999), Err(Error::MessageTooLarge)));
    let mut decoder = DeflateDecoder::new(15, true);
    assert_eq!(decoder.decompress(&compressed, 5000).unwrap().len(), 5000);
}

#[test]
fn a_corrupt_message_is_an_error() {
    let mut decoder = DeflateDecoder::new(15, false);
    match decoder.decompress(&[0xFF, 0xFF, 0xFF, 0xFF], 1000) {
        Err(Error::Compression(text)) => assert_eq!(text, "inflate error: status code -3"),
        other => panic!("{:?}", other),
    }
}

#[test]
fn the_trailer_is_cut_off() {
    assert_eq!(
        finish_message(vec![1, 2, 0, 0, 0xff, 0xff], 10),
        Some(vec![1, 2])
    );
    assert_eq!(finish_message(vec![1, 2, 0, 0, 0xff, 0xff], 3), Some(vec![1, 2]));
    assert_eq!(finish_message(vec![1, 2, 0, 0, 0xff, 0xff], 2), None);
    assert_eq!(finish_message(vec![], 0), None);
}

#[test]
fn the_first_output_buffer_is_bounded() {
    assert_eq!(first_capacity(10, 100), 100);
    assert_eq!(first_capacity(10, 10_000), 1024);
    assert_eq!(first_capacity(1000, 10_000), 4000);
}

#[test]
fn a_window_of_eight_bits_is_read() {
    // Raw deflate data with a final stored block of three bytes.
    let data = [0x00, 0x03, 0x00, 0xFC, 0xFF, b'a', b'b', b'c'];
    let mut decoder = DeflateDecoder::new(8, true);
    assert_eq!(&decoder.decompress(&data, 100).unwrap()[..], b"abc");
    assert_eq!(&decoder.decompress(&data, 100).unwrap()[..], b"abc");
}

#[test]
fn a_small_window_reads_as_far_back_as_a_large_one() {
    let first = incompressible(400);
    let mut decoder = DeflateDecoder::new(8, false);
    let mut ended = raw_stream(b"", &first, false);
    ended.truncate(ended.len() - 4);
    assert_eq!(&decoder.decompress(&ended, 1000).unwrap()[..], &first[..]);
    // The next message refers back by 400 bytes.
    let mut next = raw_stream(&first, &first[..100], false);
    assert!(next.len() < 50);
    next.truncate(next.len() - 4);
    assert_eq!(&decoder.decompress(&next, 1000).unwrap()[..], &first[..100]);
}

#[test]
fn resetting_forgets_the_window() {
    let mut encoder = DeflateEncoder::new(15, false, 6, 0);
    let message = b"Hello, World! Hello, World! Hello, World!";
    let first = encoder.compress(message).unwrap().unwrap();
    let second = encoder.compress(message).unwrap().unwrap();
    assert_ne!(first, second);
    encoder.reset();
    assert_eq!(encoder.compress(message).unwrap().unwrap(), first);

    let mut decoder = DeflateDecoder::new(15, false);
    assert_eq!(&decoder.decompress(&first, 100).unwrap()[..], message);
    assert_eq!(&decoder.decompress(&second, 100).unwrap()[..], message);
    decoder.reset();
    assert_eq!(&decoder.decompress(&first, 100).unwrap()[..], message);
}

#[test]
fn messages_that_do_not_shrink_are_sent_as_they_are() {
    for no_takeover in [false, true] {
        let config = DeflateConfig {
            server_no_context_takeover: no_takeover,
            client_no_context_takeover: no_takeover,
            compression_threshold: 0,
            ..Default::default()
        };
        let mut server = DeflateContext::server(config);
        let mut client = DeflateContext::client(config);
        let text = b"{\"channel\":\"presence-room\"}".repeat(8);
        for n in [0, 1, 100, 4096, 70_000, 1 << 20, 3 << 20] {
            assert_eq!(round_trip(&mut server, &mut client, &text).unwrap(), text);
            assert_eq!(round_trip(&mut server, &mut client, &text).unwrap(), text);
            assert!(server.compress(&incompressible(n)).unwrap().is_none());
        }
        assert_eq!(round_trip(&mut server, &mut client, &text).unwrap(), text);
    }
}

#[test]
fn a_message_that_did_not_shrink_is_forgotten() {
    let text = b"{\"channel\":\"presence-room\"}".repeat(8);
    let mut encoder = DeflateEncoder::new(15, false, 6, 0);
    let first = encoder.compress(&text).unwrap().unwrap();
    let second = encoder.compress(&text).unwrap().unwrap();
    assert!(second.len() < first.len());
    assert!(encoder.compress(&incompressible(4096)).unwrap().is_none());
    assert_eq!(encoder.compress(&text).unwrap().unwrap(), first);

    // The peer reads on where it was.
    let mut decoder = DeflateDecoder::new(15, false);
    for packed in [&first, &second, &first, &second] {
        assert_eq!(&decoder.decompress(packed, 1000).unwrap()[..], &text[..]);
    }
}

#[test]
fn the_level_decides_how_much_a_message_shrinks() {
    let text: Vec<u8> = (0..3000u32).flat_map(|n| format!("{} ", n * 7 % 501).into_bytes()).collect();
    // At level 0 nothing is compressed, so no message shrinks.
    let mut encoder = DeflateEncoder::new(15, false, 0, 0);
    assert!(encoder.compress(&text).unwrap().is_none());
    let at = |level: u32| {
        DeflateEncoder::new(15, true, level, 0).compress(&text).unwrap().unwrap().len()
    };
    assert!(at(9) < at(1));
    // The level survives a reset.
    let mut encoder = DeflateEncoder::new(15, false, 9, 0);
    encoder.reset();
    assert_eq!(encoder.compress(&text).unwrap().unwrap().len(), at(9));
    let config = DeflateConfig { compression_level: 0, compression_threshold: 0, ..Default::default() };
    assert!(DeflateContext::server(config).compress(&text).unwrap().is_none());
    assert!(DeflateContext::client(config).compress(&text).unwrap().is_none());
}

#[test]
fn large_messages_survive() {
    let config = DeflateConfig { compression_threshold: 0, ..Default::default() };
    let mut server = DeflateContext::server(config);
    let mut client = DeflateContext::client(config);
    for n in [1usize << 20, (1 << 20) + 13, 3 << 20] {
        // Half of it does not shrink, half of it does.
        let mut message = incompressible(n);
        message.extend(vec![b'x'; n]);
        let packed = server.compress(&message).unwrap().unwrap();
        assert!(packed.len() < message.len());
        assert_eq!(&client.decompress(&packed, 2 * n).unwrap()[..], &message[..]);
    }
}

/// A raw DEFLATE stream, finished or flushed, with some history.
fn raw_stream(history: &[u8], data: &[u8], finish: bool) -> Vec<u8> {
    let mut compress = Compress::new(flate2::Compression::new(6), false);
    if !history.is_empty() {
        compress.set_dictionary(history).unwrap();
    }
    let flush = if finish { FlushCompress::Finish } else { FlushCompress::Sync };
    let mut out = vec![0u8; data.len() + 100];
    compress.compress(data, &mut out, flush).unwrap();
    out.truncate(compress.total_out() as usize);
    out
}

#[test]
fn a_final_block_ends_a_message_and_keeps_the_window() {
    let first = b"Hello, World! Hello, World!";
    let ended = raw_stream(b"", first, true);
    let mut decoder = DeflateDecoder::new(15, false);
    assert_eq!(&decoder.decompress(&ended, 100).unwrap()[..], first);
    // The next stream refers back to the message before it.
    let mut next = raw_stream(first, first, false);
    assert!(next.ends_with(&[0x00, 0x00, 0xff, 0xff]));
    next.truncate(next.len() - 4);
    assert_eq!(&decoder.decompress(&next, 100).unwrap()[..], first);

    // Without a kept context it may not.
    let mut decoder = DeflateDecoder::new(15, true);
    assert_eq!(&decoder.decompress(&ended, 100).unwrap()[..], first);
    assert!(matches!(decoder.decompress(&next, 100), Err(Error::Compression(_))));
}

#[test]
fn streams_that_follow_one_another_are_one_message() {
    let mut message = raw_stream(b"", b"one ", true);
    message.extend(raw_stream(b"one ", b"two", true));
    let mut decoder = DeflateDecoder::new(15, false);
    assert_eq!(&decoder.decompress(&message, 7).unwrap()[..], b"one two");
    let mut decoder = DeflateDecoder::new(15, false);
    assert!(matches!(decoder.decompress(&message, 6), Err(Error::MessageTooLarge)));
}
