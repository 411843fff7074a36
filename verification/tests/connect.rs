use http::StatusCode;
use sockudo_ws::error::Error;
use sockudo_ws::extended_connect::{target_for_uri, ConnectParts};
use sockudo_ws::http2::{
    answer_h2_request, build_h2_error_response, build_h2_response, check_h2_status,
    h2_request_fields, H2HandshakeRequest, H2HandshakeResponse, H2WebSocketClient,
    H2WebSocketServer,
};
use sockudo_ws::http3::{
    answer_filtered_h3_request, answer_h3_request, build_h3_response,
    build_not_implemented_response, check_h3_status, h3_connect_uri, h3_request_fields,
    stream_protocol, H3HandshakeRequest, H3WebSocketClient,
};
use sockudo_ws::Config;

#[test]
fn test_build_h2_response() {
    let response = build_h2_response(None, None);
    assert_eq!(response.status(), StatusCode::OK);
}

#[test]
fn test_build_h2_response_with_protocol() {
    let response = build_h2_response(Some("graphql-ws"), None);
    assert_eq!(response.status(), StatusCode::OK);
    assert_eq!(
        response.headers().get("sec-websocket-protocol").unwrap(),
        "graphql-ws"
    );
}

#[test]
fn test_h2_handshake_request_protocols() {
    let req = H2HandshakeRequest {
        path: "/ws".to_string(),
        authority: "example.com".to_string(),
        scheme: "https".to_string(),
        protocol: Some("graphql-ws, subscriptions-transport-ws".to_string()),
        extensions: None,
        origin: None,
        version: Some("13".to_string()),
    };

    assert!(req.has_protocol("graphql-ws"));
    assert!(req.has_protocol("subscriptions-transport-ws"));
    assert!(!req.has_protocol("unknown"));

    let protocols = req.protocols();
    assert_eq!(protocols.len(), 2);
}

#[test]
fn test_build_h3_response() {
    let response = build_h3_response(None, None);
    assert_eq!(response.status(), StatusCode::OK);
}

#[test]
fn test_build_h3_response_with_subprotocol() {
    let response = build_h3_response(Some("graphql-ws"), None);
    assert_eq!(response.status(), StatusCode::OK);
    assert_eq!(
        response.headers().get("sec-websocket-protocol").unwrap(),
        "graphql-ws"
    );
}

#[test]
fn test_h3_handshake_request_new() {
    let req = H3HandshakeRequest::new("wss://example.com/ws", Some("graphql-ws")).unwrap();
    assert_eq!(req.path, "/ws");
    assert_eq!(req.authority, "example.com");
    assert_eq!(req.scheme, "https");
    assert!(req.is_websocket());
    assert!(req.has_subprotocol("graphql-ws"));
}

#[test]
fn test_h3_handshake_validation() {
    let mut req = H3HandshakeRequest::new("wss://example.com/ws", None).unwrap();
    assert!(req.validate().is_ok());

    // Test with wrong protocol
    req.protocol = Some("unknown".to_string());
    assert_eq!(req.validate(), Err(StatusCode::NOT_IMPLEMENTED));

    // Test with missing protocol
    req.protocol = None;
    assert_eq!(req.validate(), Err(StatusCode::NOT_IMPLEMENTED));
}

#[test]
fn test_build_not_implemented() {
    let response = build_not_implemented_response("unknown-protocol");
    assert_eq!(response.status(), StatusCode::NOT_IMPLEMENTED);
}

#[test]
fn test_subprotocol_list() {
    let mut req = H3HandshakeRequest::new("wss://example.com/ws", None).unwrap();
    req.subprotocols = Some("graphql-ws, json, binary".to_string());

    let protos = req.subprotocol_list();
    assert_eq!(protos, vec!["graphql-ws", "json", "binary"]);
    assert!(req.has_subprotocol("json"));
    assert!(req.has_subprotocol("GRAPHQL-WS")); // case insensitive
    assert!(!req.has_subprotocol("xml"));
}

fn connect_parts() -> ConnectParts<'static> {
    ConnectParts {
        method: "CONNECT",
        path_and_query: Some("/ws?x"),
        authority: Some("example.com"),
        scheme: Some("https"),
        host: None,
        protocol: Some("websocket"),
        subprotocols: Some("a, b"),
        extensions: Some("x, y"),
        origin: None,
        version: Some("13"),
    }
}

#[test]
fn h2_requests_are_read_and_answered() {
    let request = H2HandshakeRequest::from_request(&connect_parts()).unwrap();
    assert_eq!(request.path, "/ws?x");
    assert_eq!(request.authority, "example.com");
    assert_eq!(request.scheme, "https");
    assert_eq!(request.extensions_list(), vec!["x", "y"]);

    let accepted = answer_h2_request(Some(&request), true);
    assert_eq!(accepted.status(), 200);
    assert_eq!(accepted.headers().get("sec-websocket-protocol").unwrap(), "a, b");
    assert_eq!(answer_h2_request(Some(&request), false).status(), 403);

    let none = |parts: ConnectParts<'_>| H2HandshakeRequest::from_request(&parts).is_none();
    assert!(none(ConnectParts { method: "GET", ..connect_parts() }));
    assert!(none(ConnectParts { protocol: Some("connect-udp"), ..connect_parts() }));
    assert!(none(ConnectParts { protocol: None, ..connect_parts() }));
    assert!(none(ConnectParts { path_and_query: None, ..connect_parts() }));
    assert!(none(ConnectParts { scheme: None, ..connect_parts() }));
    assert!(none(ConnectParts { authority: None, ..connect_parts() }));
    let host = ConnectParts { authority: None, host: Some("h"), ..connect_parts() };
    assert_eq!(H2HandshakeRequest::from_request(&host).unwrap().authority, "h");
    assert_eq!(answer_h2_request(None, true).status(), 400);
}

#[test]
fn h2_responses() {
    assert_eq!(H2HandshakeResponse::ok().status, 200);
    let named = H2HandshakeResponse::ok_with_protocol("chat");
    assert_eq!(named.protocol.as_deref(), Some("chat"));
    let copy = named.clone();
    assert_eq!((copy.status, copy.protocol, copy.extensions), (named.status, named.protocol, None));
    assert_eq!(H2HandshakeResponse::error(StatusCode::FORBIDDEN).status, 403);
    let refused = build_h2_error_response(StatusCode::FORBIDDEN, Some("no"));
    assert_eq!(refused.status(), 403);
    assert!(refused.headers().iter().any(|(_, v)| v == "no"));
    assert!(check_h2_status(200).is_ok());
    assert!(matches!(check_h2_status(404), Err(Error::HandshakeFailed(_))));
}

#[test]
fn h2_request_fields_carry_the_extra_headers() {
    let extra = [("x-token".to_string(), "1".to_string())];
    let fields = h2_request_fields(Some("chat"), Some(&extra));
    assert!(fields.contains(&("sec-websocket-version".to_string(), "13".to_string())));
    assert!(fields.contains(&("sec-websocket-protocol".to_string(), "chat".to_string())));
    assert_eq!(fields.last(), Some(&extra[0]));
}

#[test]
fn targets_of_uris() {
    assert_eq!(target_for_uri("https://example.com:1/a?b").unwrap(), "https://example.com:1/a?b");
    assert!(matches!(target_for_uri("http://[bad"), Err(Error::HandshakeFailed(_))));
    assert!(matches!(target_for_uri("/only/path"), Err(Error::HandshakeFailed(_))));
}

#[test]
fn h3_requests_are_answered() {
    let request = H3HandshakeRequest::from_request(&connect_parts()).unwrap();
    assert_eq!(request.url(), "wss://example.com/ws?x");
    assert_eq!(answer_h3_request(Some(&request)).status(), 200);
    assert_eq!(answer_h3_request(None).status(), 405);

    let other = ConnectParts { protocol: Some("webtransport"), ..connect_parts() };
    let other = H3HandshakeRequest::from_request(&other).unwrap();
    assert_eq!(answer_h3_request(Some(&other)).status(), 501);

    let old = ConnectParts { version: Some("8"), ..connect_parts() };
    let old = H3HandshakeRequest::from_request(&old).unwrap();
    assert_eq!(answer_h3_request(Some(&old)).status(), 400);

    assert_eq!(answer_filtered_h3_request(Some(&request), true).status(), 200);
    assert_eq!(answer_filtered_h3_request(Some(&request), false).status(), 403);
    assert_eq!(answer_filtered_h3_request(None, true).status(), 405);
}

#[test]
fn h3_protocol_of_the_stream_fills_in() {
    let none = ConnectParts { protocol: None, ..connect_parts() };
    let request = H3HandshakeRequest::from_request(&none).unwrap();
    assert_eq!(request.validate(), Err(StatusCode::NOT_IMPLEMENTED));
    assert_eq!(stream_protocol("connect-udp"), "connect-udp");
    let request = request.with_stream_protocol(Some(stream_protocol("webtransport")));
    assert!(request.validate().is_ok());
}

#[test]
fn h3_request_parts() {
    assert_eq!(h3_connect_uri("example.com", 4433, "/ws"), "https://example.com:4433/ws");
    let fields = h3_request_fields(Some("chat"), Some("http://o"));
    assert!(fields.contains(&("sec-websocket-protocol".to_string(), "chat".to_string())));
    assert!(fields.contains(&("origin".to_string(), "http://o".to_string())));
    assert!(check_h3_status(200).is_ok());
    assert!(check_h3_status(500).is_err());
    assert!(H3HandshakeRequest::new("::not a uri::", None).is_none());
}

#[test]
fn clients_and_servers_keep_their_configuration() {
    let config = Config::builder().max_frame_size(9).build();
    assert_eq!(H2WebSocketClient::new(config).config().max_frame_size, 9);
    assert_eq!(H2WebSocketServer::new(config).config().max_frame_size, 9);
    assert_eq!(H3WebSocketClient::new(config).config().max_frame_size, 9);
    assert_eq!(*H2WebSocketClient::default_config().config(), Config::default());
}
