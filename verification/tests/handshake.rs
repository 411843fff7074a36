use base64::Engine;
use bytes::BytesMut;
use sockudo_ws::axum_integration::{
    RequestParts, WebSocketUpgrade, WebSocketUpgradeRejection,
};
use sockudo_ws::deflate::DeflateConfig;
use sockudo_ws::error::Error;
use sockudo_ws::handshake::{
    build_request, build_request_with_headers, build_response, check_server_reply, client_result,
    generate_accept_key, generate_key, key_from_bytes, parse_request, parse_response,
    parse_server_request_target, read_allowance, server_reply, server_result, take_leftover,
    validate_accept_key, validate_client_handshake_inputs, HandshakeSelection, MAX_HEADER_SIZE,
};
use sockudo_ws::headers::{
    contains_header_token, is_valid_extension_list, is_valid_host, is_valid_protocol_list,
    is_valid_request_target, is_valid_websocket_key, is_zero_content_length, select_subprotocol,
    validate_selected_extensions, validate_selected_protocol, validate_supported_protocols,
};
use sockudo_ws::opening::{ClientHandshake, ServerHandshake};
use sockudo_ws::Config;

const KEY: &str = "dGhlIHNhbXBsZSBub25jZQ==";
const ACCEPT: &str = "s3pPLMBiTxaQ9kYGzzhZRbK+xOo=";

#[test]
fn test_accept_key() {
    // RFC 6455 test vector
    let key = "dGhlIHNhbXBsZSBub25jZQ==";
    let accept = generate_accept_key(key);
    assert_eq!(accept, "s3pPLMBiTxaQ9kYGzzhZRbK+xOo=");
}

#[test]
fn generated_key_decodes_to_sixteen_bytes() {
    let key = generate_key();
    assert_eq!(
        base64::engine::general_purpose::STANDARD
            .decode(key)
            .unwrap()
            .len(),
        16
    );
}

#[test]
fn test_generate_accept_key() {
    // Test vector from RFC 6455
    let key = "dGhlIHNhbXBsZSBub25jZQ==";
    let accept = generate_accept_key(key);
    assert_eq!(accept, "s3pPLMBiTxaQ9kYGzzhZRbK+xOo=");
}

#[test]
fn test_generate_key_contains_16_bytes() {
    let key = generate_key();
    let decoded = base64::engine::general_purpose::STANDARD
        .decode(key)
        .unwrap();

    assert_eq!(decoded.len(), 16);
}

#[test]
fn test_parse_request() {
    let request = b"GET /chat HTTP/1.1\r\n\
            Host: server.example.com\r\n\
            Upgrade: websocket\r\n\
            Connection: Upgrade\r\n\
            Sec-WebSocket-Key: dGhlIHNhbXBsZSBub25jZQ==\r\n\
            Sec-WebSocket-Version: 13\r\n\
            \r\n";

    let (req, len) = parse_request(request).unwrap().unwrap();
    assert_eq!(req.path, "/chat");
    assert_eq!(req.key, "dGhlIHNhbXBsZSBub25jZQ==");
    assert_eq!(req.version, "13");
    assert_eq!(len, request.len());
}

#[test]
fn test_parse_request_partial() {
    let request = b"GET /chat HTTP/1.1\r\n\
            Host: server.example.com\r\n";

    assert!(parse_request(request).unwrap().is_none());
}

#[test]
fn test_build_response() {
    let accept = "s3pPLMBiTxaQ9kYGzzhZRbK+xOo=";
    let response = build_response(accept, None, None).unwrap();

    let response_str = std::str::from_utf8(&response).unwrap();
    assert!(response_str.contains("101 Switching Protocols"));
    assert!(response_str.contains("Upgrade: websocket"));
    assert!(response_str.contains("Sec-WebSocket-Accept: s3pPLMBiTxaQ9kYGzzhZRbK+xOo="));
}

#[test]
fn test_validate_accept_key() {
    let key = "dGhlIHNhbXBsZSBub25jZQ==";
    let accept = "s3pPLMBiTxaQ9kYGzzhZRbK+xOo=";
    assert!(validate_accept_key(key, accept));
    assert!(!validate_accept_key(key, "invalid"));
}

/// A request head with the given lines behind the request line.
fn request(lines: &[&str]) -> Vec<u8> {
    let mut head = "GET /chat HTTP/1.1\r\n".to_string();
    for line in lines {
        head.push_str(line);
        head.push_str("\r\n");
    }
    head.push_str("\r\n");
    head.into_bytes()
}

const HOST: &str = "Host: example.com";
const UPGRADE: &str = "Upgrade: websocket";
const CONNECTION: &str = "Connection: keep-alive, Upgrade";
const SENT_KEY: &str = "Sec-WebSocket-Key: dGhlIHNhbXBsZSBub25jZQ==";
const VERSION: &str = "Sec-WebSocket-Version: 13";

fn refusal(head: &[u8]) -> Error {
    match parse_request(head) {
        Err(e) => e,
        Ok(_) => panic!("accepted"),
    }
}

#[test]
fn requests_with_a_missing_line_are_refused() {
    let all = [HOST, UPGRADE, CONNECTION, SENT_KEY, VERSION];
    assert!(parse_request(&request(&all)).unwrap().is_some());
    for left_out in 0..all.len() {
        let lines: Vec<&str> = (0..all.len()).filter(|i| *i != left_out).map(|i| all[i]).collect();
        assert!(parse_request(&request(&lines)).is_err(), "without {}", all[left_out]);
    }
}

#[test]
fn requests_with_wrong_lines_are_refused() {
    for (bad, at) in [
        ("Host: a b", 0),
        ("Upgrade: h2c", 1),
        ("Connection: close", 2),
        ("Sec-WebSocket-Key: c2hvcnQ=", 3),
        ("Sec-WebSocket-Version: 12", 4),
    ] {
        let mut lines = [HOST, UPGRADE, CONNECTION, SENT_KEY, VERSION];
        lines[at] = bad;
        refusal(&request(&lines));
    }
    let twice = [HOST, HOST, UPGRADE, CONNECTION, SENT_KEY, VERSION];
    refusal(&request(&twice));
    let body = [HOST, UPGRADE, CONNECTION, SENT_KEY, VERSION, "Content-Length: 5"];
    refusal(&request(&body));
}

#[test]
fn request_lists_are_joined() {
    let head = request(&[
        HOST,
        UPGRADE,
        CONNECTION,
        SENT_KEY,
        VERSION,
        "Sec-WebSocket-Protocol: chat",
        "Origin: http://example.com",
        "Sec-WebSocket-Protocol: superchat",
    ]);
    let (parsed, _) = parse_request(&head).unwrap().unwrap();
    assert_eq!(parsed.protocol.as_deref(), Some("chat, superchat"));
    assert_eq!(parsed.origin, Some("http://example.com"));
    assert_eq!(parsed.host, Some("example.com"));
}

#[test]
fn header_values_must_be_utf8() {
    let mut head = request(&[HOST, UPGRADE, CONNECTION, SENT_KEY, VERSION]);
    head.truncate(head.len() - 2);
    head.extend_from_slice(b"X-Name: \xff\xfe\r\n\r\n");
    assert!(matches!(refusal(&head), Error::InvalidHttp("invalid header value")));
}

#[test]
fn a_garbled_head_is_invalid_http() {
    assert!(matches!(refusal(b"GET\x00 / HTTP/1.1\r\n\r\n"), Error::InvalidHttp(_)));
}

#[test]
fn absolute_targets_name_the_host() {
    let (path, host) = parse_server_request_target("http://example.com/a?b", "example.com").unwrap();
    assert_eq!(path, "/a?b");
    assert_eq!(host, "example.com");
    let (path, host) = parse_server_request_target("/plain", "example.com").unwrap();
    assert_eq!(path, "/plain");
    assert_eq!(host, "example.com");
    assert!(parse_server_request_target("no-slash", "example.com").is_none());
    let (path, _) = parse_server_request_target("http://example.com", "x").unwrap();
    assert_eq!(path, "/");
    let (path, _) = parse_server_request_target("http://example.com?q", "x").unwrap();
    assert_eq!(path, "/?q");
    assert!(parse_server_request_target("http://example.com#f", "x").is_none());
    assert!(parse_server_request_target("http://u@example.com/", "x").is_none());
}

#[test]
fn what_follows_a_head_makes_no_difference() {
    let head = build_request("example.com", "/ws", KEY, Some("chat"), None).unwrap();
    for tail in [&b""[..], b"\r\n\r\n", b" x: y\r\n", &[0xff; 9000]] {
        let mut buf = head.to_vec();
        buf.extend_from_slice(tail);
        let (parsed, n) = parse_request(&buf).unwrap().unwrap();
        assert_eq!(n, head.len());
        assert_eq!((&*parsed.path, parsed.host, parsed.key), ("/ws", Some("example.com"), KEY));
    }
    let head = build_response(ACCEPT, None, None).unwrap();
    for tail in [&b""[..], b"\x81\x05hello", &[0; 9000]] {
        let mut buf = head.to_vec();
        buf.extend_from_slice(tail);
        let (parsed, n) = parse_response(&buf).unwrap().unwrap();
        assert_eq!((n, parsed.accept), (head.len(), Some(ACCEPT)));
    }
}

#[test]
fn a_built_request_is_accepted() {
    let request = build_request("example.com", "/ws?x=1", KEY, Some("chat"), None).unwrap();
    let text = std::str::from_utf8(&request).unwrap();
    assert!(text.starts_with("GET /ws?x=1 HTTP/1.1\r\nHost: example.com\r\n"));
    assert!(text.ends_with("\r\n\r\n"));
    let (parsed, len) = parse_request(&request).unwrap().unwrap();
    assert_eq!(len, request.len());
    assert_eq!(parsed.path, "/ws?x=1");
    assert_eq!(parsed.host, Some("example.com"));
    assert_eq!(parsed.key, KEY);
    assert_eq!(parsed.protocol.as_deref(), Some("chat"));
    assert!(parsed.extensions.is_none());
}

#[test]
fn extra_headers_are_sent_and_reserved_ones_refused() {
    let extra = [("X-Token".to_string(), "abc".to_string())];
    let request =
        build_request_with_headers("example.com", "/", KEY, None, None, Some(&extra)).unwrap();
    assert!(std::str::from_utf8(&request).unwrap().contains("X-Token: abc\r\n"));
    assert!(parse_request(&request).unwrap().is_some());

    let extra = [
        ("Origin".to_string(), "http://a".to_string()),
        ("Cookie".to_string(), "b=c".to_string()),
    ];
    let request =
        build_request_with_headers("example.com", "/x", KEY, Some("p"), None, Some(&extra)).unwrap();
    let (parsed, len) = parse_request(&request).unwrap().unwrap();
    assert_eq!(len, request.len());
    assert_eq!(parsed.origin, Some("http://a"));
    assert_eq!(parsed.path, "/x");
    assert_eq!(parsed.protocol.as_deref(), Some("p"));

    let twice = [extra[0].clone(), extra[0].clone()];
    let request =
        build_request_with_headers("example.com", "/", KEY, None, None, Some(&twice)).unwrap();
    assert!(parse_request(&request).is_err());

    for (name, value) in [
        ("Sec-WebSocket-Key", "x"),
        ("host", "x"),
        ("Bad Name", "x"),
        ("X-Token", "a\r\nb"),
    ] {
        let extra = [(name.to_string(), value.to_string())];
        assert!(
            build_request_with_headers("example.com", "/", KEY, None, None, Some(&extra)).is_err(),
            "{}",
            name
        );
    }
}

#[test]
fn bad_request_parts_are_refused() {
    assert!(build_request("bad host", "/", KEY, None, None).is_err());
    assert!(build_request("example.com", "no-slash", KEY, None, None).is_err());
    assert!(build_request("example.com", "/", "short", None, None).is_err());
    assert!(build_request("example.com", "/", KEY, Some("a b"), None).is_err());
    assert!(build_request("example.com", "/", KEY, None, Some("=")).is_err());
}

#[test]
fn client_inputs_are_checked_before_anything_is_sent() {
    assert!(validate_client_handshake_inputs("example.com", "/", Some("chat"), None).is_ok());
    assert!(validate_client_handshake_inputs("a b", "/", None, None).is_err());
    assert!(validate_client_handshake_inputs("example.com", "x", None, None).is_err());
    assert!(validate_client_handshake_inputs("example.com", "/", Some(""), None).is_err());
    let extra = [("Connection".to_string(), "close".to_string())];
    assert!(validate_client_handshake_inputs("example.com", "/", None, Some(&extra)).is_err());
}

#[test]
fn a_built_response_is_accepted() {
    let response = build_response(ACCEPT, Some("chat"), Some("permessage-deflate")).unwrap();
    let (parsed, len) = parse_response(&response).unwrap().unwrap();
    assert_eq!(len, response.len());
    assert_eq!(parsed.status, 101);
    assert_eq!(parsed.accept, Some(ACCEPT));
    assert_eq!(parsed.protocol, Some("chat"));
    assert_eq!(parsed.extensions, Some("permessage-deflate"));
    assert!(parse_response(&response[..20]).unwrap().is_none());
}

#[test]
fn other_responses_are_refused() {
    assert!(parse_response(b"HTTP/1.1 200 OK\r\n\r\n").is_err());
    assert!(parse_response(
        b"HTTP/1.1 101 Switching Protocols\r\nUpgrade: websocket\r\nConnection: Upgrade\r\n\r\n"
    )
    .map(|r| check_server_reply(KEY, None, &r.unwrap().0))
    .map_or(true, |r| r.is_err()));
}

#[test]
fn server_and_client_agree() {
    let key = key_from_bytes(&[7; 16]);
    assert!(is_valid_websocket_key(&key));
    let request = build_request("example.com", "/ws", &key, Some("a, b"), None).unwrap();
    let (parsed, _) = parse_request(&request).unwrap().unwrap();
    let selection = HandshakeSelection { protocol: Some("b".to_string()), extensions: None };
    let reply = server_reply(&parsed, &selection).unwrap();
    let (response, _) = parse_response(&reply).unwrap().unwrap();
    assert!(check_server_reply(&key, Some("a, b"), &response).is_ok());
    let done = client_result("/ws", &response, None);
    assert_eq!(done.path, "/ws");
    assert_eq!(done.protocol.as_deref(), Some("b"));

    let served = server_result(&parsed, selection, None);
    assert_eq!(served.path, "/ws");
    assert_eq!(served.protocol.as_deref(), Some("b"));
    assert!(served.leftover.is_none());

    let other = key_from_bytes(&[8; 16]);
    assert!(matches!(
        check_server_reply(&other, Some("a, b"), &response),
        Err(Error::HandshakeFailed(_))
    ));
    assert!(check_server_reply(&key, Some("a"), &response).is_err());
}

#[test]
fn what_was_not_offered_is_not_selected() {
    let request = build_request("example.com", "/", KEY, Some("a"), None).unwrap();
    let (parsed, _) = parse_request(&request).unwrap().unwrap();
    let selection = HandshakeSelection { protocol: Some("b".to_string()), extensions: None };
    assert!(server_reply(&parsed, &selection).is_err());
    let selection = HandshakeSelection {
        protocol: None,
        extensions: Some("permessage-deflate".to_string()),
    };
    assert!(server_reply(&parsed, &selection).is_err());
    assert!(validate_selected_protocol(Some("a, b"), Some("b")).is_ok());
    assert!(validate_selected_protocol(None, Some("b")).is_err());
    assert!(validate_selected_extensions(Some("permessage-deflate; x"), Some("permessage-deflate")).is_ok());
    assert!(validate_selected_extensions(None, Some("permessage-deflate")).is_err());
}

#[test]
fn leftovers_are_split_off() {
    let mut buf = BytesMut::from(&b"headrest"[..]);
    let rest = take_leftover(&mut buf, 4).unwrap();
    assert_eq!(&rest[..], b"rest");
    assert_eq!(&buf[..], b"head");
    assert!(take_leftover(&mut buf, 4).is_none());
}

#[test]
fn heads_are_bounded() {
    assert_eq!(read_allowance(0, "request too large").unwrap(), MAX_HEADER_SIZE + 1);
    assert_eq!(read_allowance(MAX_HEADER_SIZE, "request too large").unwrap(), 1);
    assert!(matches!(
        read_allowance(MAX_HEADER_SIZE + 1, "request too large"),
        Err(Error::InvalidHttp("request too large"))
    ));
}

#[test]
fn header_syntax() {
    assert!(contains_header_token("keep-alive, Upgrade", "upgrade"));
    assert!(!contains_header_token("upgraded", "upgrade"));
    assert!(is_valid_protocol_list("a, b"));
    assert!(is_valid_protocol_list("a,,b"));
    assert!(!is_valid_protocol_list(","));
    assert!(!is_valid_protocol_list("a, a"));
    assert!(is_valid_extension_list("x; a=1; b=\"q\", y"));
    assert!(!is_valid_extension_list("x; =1"));
    assert!(is_valid_host("example.com:8080"));
    assert!(!is_valid_host("a b"));
    assert!(is_valid_request_target("/a?b=c"));
    assert!(!is_valid_request_target("a"));
    assert!(is_zero_content_length("0"));
    assert!(!is_zero_content_length("1"));
    assert!(is_valid_websocket_key(KEY));
    assert!(!is_valid_websocket_key("AAAA"));
}

#[test]
fn subprotocols_are_selected_in_the_order_of_the_server() {
    let supported = ["b".to_string(), "a".to_string()];
    assert!(validate_supported_protocols(&supported).is_ok());
    assert_eq!(select_subprotocol(Some("a, b"), &supported), Some("b"));
    assert_eq!(select_subprotocol(Some("c, a"), &supported), Some("a"));
    assert_eq!(select_subprotocol(Some("c, b"), &supported), Some("b"));
    assert_eq!(select_subprotocol(Some("c"), &supported), None);
    assert_eq!(select_subprotocol(None, &supported), None);
    assert!(validate_supported_protocols(&["a b".to_string()]).is_err());
}

fn upgrade_parts() -> RequestParts<'static> {
    RequestParts {
        method: "GET",
        upgrade: Some("WebSocket"),
        connection: Some("keep-alive, upgrade"),
        key: Some(KEY),
        version: Some("13"),
        protocol: Some("chat, superchat"),
        extensions: Some("permessage-deflate; client_max_window_bits"),
        can_upgrade: true,
    }
}

#[test]
fn an_upgrade_is_answered() {
    let config = Config { deflate: Some(DeflateConfig::default()), ..Config::default() };
    let upgrade = WebSocketUpgrade::from_request_parts(&upgrade_parts())
        .unwrap()
        .config(config)
        .max_message_size(1)
        .max_frame_size(2)
        .write_buffer_size(3);
    let response = upgrade.on_upgrade();
    assert_eq!(response.accept_key, ACCEPT);
    assert_eq!(response.protocol.as_deref(), Some("chat"));
    assert_eq!(response.extensions.as_deref(), Some("permessage-deflate"));
    assert_eq!(response.config.max_message_size, 1);
    assert_eq!(response.config.max_frame_size, 2);
    assert_eq!(response.config.write_buffer_size, 3);

    let plain = WebSocketUpgrade::from_request_parts(&upgrade_parts()).unwrap().on_upgrade();
    assert!(plain.extensions.is_none());
}

#[test]
fn every_rejection_has_its_cause() {
    let reject = |parts: RequestParts<'static>, status: u16, message: &str| {
        let e = match WebSocketUpgrade::from_request_parts(&parts) {
            Err(e) => e,
            Ok(_) => panic!("accepted"),
        };
        assert_eq!(e.status(), status);
        assert_eq!(e.message(), message);
        e
    };
    let p = upgrade_parts();
    assert_eq!(
        reject(RequestParts { method: "POST", ..p }, 405, "Method must be GET"),
        WebSocketUpgradeRejection::MethodNotGet
    );
    reject(RequestParts { upgrade: None, ..p }, 400, "Missing Upgrade header");
    reject(RequestParts { upgrade: Some("h2c"), ..p }, 400, "Invalid Upgrade header");
    reject(RequestParts { connection: None, ..p }, 400, "Missing Connection header");
    reject(RequestParts { connection: Some("close"), ..p }, 400, "Invalid Connection header");
    reject(RequestParts { key: None, ..p }, 400, "Missing Sec-WebSocket-Key");
    reject(RequestParts { version: None, ..p }, 400, "Missing Sec-WebSocket-Version");
    reject(RequestParts { version: Some("8"), ..p }, 400, "Unsupported WebSocket version");
    reject(RequestParts { can_upgrade: false, ..p }, 400, "Missing upgrade in request extensions");
}

#[test]
fn a_handshake_completes_byte_by_byte() {
    let (mut client, request) =
        ClientHandshake::start("example.com", "/ws", KEY.to_string(), Some("a, b"), None).unwrap();
    let mut sent = request.to_vec();
    sent.extend_from_slice(b"early");

    let mut server = ServerHandshake::new();
    assert_eq!(server.allowance().unwrap(), MAX_HEADER_SIZE + 1);
    let last = request.len() - 1;
    for byte in &sent[..last] {
        assert!(!server.on_read(&[*byte]).unwrap());
        assert!(server.request().is_none());
    }
    assert_eq!(server.allowance().unwrap(), MAX_HEADER_SIZE + 1 - last);
    assert!(server.on_read(&sent[last..]).unwrap());
    assert_eq!(server.request().unwrap().path, "/ws");
    let selection = HandshakeSelection { protocol: Some("b".to_string()), extensions: None };
    let (reply, served) = server.accept(selection).unwrap().unwrap();
    assert_eq!(served.path, "/ws");
    assert_eq!(served.protocol.as_deref(), Some("b"));
    assert_eq!(&served.leftover.unwrap()[..], b"early");

    let last = reply.len() - 1;
    for byte in &reply[..last] {
        assert!(client.on_read(&[*byte]).unwrap().is_none());
    }
    let done = client.on_read(&reply[last..]).unwrap().unwrap();
    assert_eq!(done.path, "/ws");
    assert_eq!(done.protocol.as_deref(), Some("b"));
    assert!(done.leftover.is_none());
}

#[test]
fn an_answer_with_an_extension_is_refused() {
    let offer = Some("permessage-deflate");
    let request = build_request("example.com", "/", KEY, None, offer).unwrap();
    let mut server = ServerHandshake::new();
    assert!(server.on_read(&request).unwrap());
    let selection =
        HandshakeSelection { protocol: None, extensions: Some("permessage-deflate".to_string()) };
    let (reply, _) = server.accept(selection).unwrap().unwrap();
    let (mut client, _) =
        ClientHandshake::start("example.com", "/", KEY.to_string(), None, None).unwrap();
    assert!(matches!(
        client.on_read(&reply),
        Err(Error::HandshakeFailed("server returned an unoffered extension"))
    ));
}

#[test]
fn a_handshake_that_breaks_off_fails() {
    let (mut client, _) =
        ClientHandshake::start("example.com", "/", KEY.to_string(), None, None).unwrap();
    assert!(matches!(client.on_read(b""), Err(Error::ConnectionClosed)));
    assert!(matches!(client.on_read(b"nonsense\r\n\r\n"), Err(Error::InvalidHttp(_))));
    assert!(ClientHandshake::start("example.com", "x", KEY.to_string(), None, None).is_err());

    let mut server = ServerHandshake::new();
    assert!(matches!(server.on_read(b""), Err(Error::ConnectionClosed)));
    assert!(server.accept(HandshakeSelection::default()).is_none());

    let mut server = ServerHandshake::new();
    let mut endless = b"GET / HTTP/1.1\r\nX: ".to_vec();
    endless.resize(MAX_HEADER_SIZE + 1, b'a');
    assert!(matches!(server.on_read(&endless), Err(Error::InvalidHttp("request too large"))));
    assert!(matches!(server.allowance(), Err(Error::InvalidHttp("request too large"))));

    let request = build_request("example.com", "/", KEY, Some("a"), None).unwrap();
    let mut server = ServerHandshake::new();
    assert!(server.on_read(&request).unwrap());
    let unoffered = HandshakeSelection { protocol: Some("z".to_string()), extensions: None };
    assert!(matches!(server.accept(unoffered), Some(Err(Error::HandshakeFailed(_)))));
}
