use http::protocol::headers::HeaderMap;
use http::protocol::request::{HttpMethod, HttpRequest};
use http::websocket::frame::WebSocketFrame;
use http::websocket::handshake::{generate_accept_key, is_websocket_request};

fn upgrade_request(upgrade: &str, connection: &str) -> HttpRequest {
    let mut headers = HeaderMap::new();
    headers.insert("upgrade", upgrade.to_string());
    headers.insert("connection", connection.to_string());
    headers.insert("sec-websocket-key", "test-key".to_string());
    headers.insert("sec-websocket-version", "13".to_string());

    HttpRequest {
        method: HttpMethod::Get,
        path: "/".to_string(),
        version: "HTTP/1.1".to_string(),
        headers,
        body: Vec::new(),
    }
}

#[test]
fn test_websocket_detection() {
    let request = upgrade_request("websocket", "Upgrade");
    assert!(is_websocket_request(&request).is_some());
}

#[test]
fn test_is_websocket_request_valid() {
    let mut headers = HeaderMap::new();
    headers.insert("upgrade", "websocket".to_string());
    headers.insert("connection", "Upgrade".to_string());

    let key = "test-key".to_string();
    headers.insert("sec-websocket-key", key.clone());
    headers.insert("sec-websocket-version", "13".to_string());

    let request = HttpRequest {
        method: HttpMethod::Get,
        path: "/".to_string(),
        version: "HTTP/1.1".to_string(),
        headers,
        body: Vec::new(),
    };

    assert_eq!(is_websocket_request(&request), Some(&key));
}

#[test]
fn test_is_websocket_request_invalid() {
    let mut headers = HeaderMap::new();
    headers.insert("upgrade", "http/1.1".to_string());
    headers.insert("connection", "keep-alive".to_string());
    headers.insert("sec-websocket-key", "test-key".to_string());
    headers.insert("sec-websocket-version", "13".to_string());

    let request = HttpRequest {
        method: HttpMethod::Get,
        path: "/".to_string(),
        version: "HTTP/1.1".to_string(),
        headers,
        body: Vec::new(),
    };

    assert_eq!(is_websocket_request(&request), None);
}

#[test]
fn test_websocket_key_generation() {
    // Test vector from RFC 6455
    let key = "dGhlIHNhbXBsZSBub25jZQ==";
    let expected = "s3pPLMBiTxaQ9kYGzzhZRbK+xOo=";
    assert_eq!(generate_accept_key(key), expected);
}

#[test]
fn test_frame_serialization() {
    let text_frame = WebSocketFrame::text("Hello");
    let bytes = text_frame.to_bytes();

    // Should start with 0x81 (FIN + TEXT opcode)
    assert_eq!(bytes[0], 0x81);
    // Length should be 5
    assert_eq!(bytes[1], 5);
    // Payload should be "Hello"
    assert_eq!(&bytes[2..], b"Hello");
}

#[test]
fn test_close_frame() {
    let close_frame = WebSocketFrame::close();
    let bytes = close_frame.to_bytes();

    // Should start with 0x88 (FIN + CLOSE opcode)
    assert_eq!(bytes[0], 0x88);
    // Length should be 0
    assert_eq!(bytes[1], 0);
}

#[test]
fn test_close_frame_with_code() {
    let close_frame = WebSocketFrame::close_with_code(1000, "Normal closure");
    let bytes = close_frame.to_bytes();

    // Should start with 0x88 (FIN + CLOSE opcode)
    assert_eq!(bytes[0], 0x88);
    // Payload should contain code and reason
    assert!(bytes.len() > 2);
}

#[test]
fn test_websocket_frame_text_serialization() {
    let text_frame = WebSocketFrame::Text("Hello, WebSocket!".to_string());
    let bytes = text_frame.to_bytes();

    // Should start with 0x81 (FIN + TEXT opcode)
    assert_eq!(bytes[0], 0x81);
    // Server frames are not masked
    assert_eq!(bytes[1] & 0x80, 0);
}

#[test]
fn test_websocket_frame_text_parsing() {
    // Create a masked client-to-server text frame manually
    let text = "Hello";
    let mut frame = vec![
        0x81,     // FIN + TEXT
        0x80 | 5, // MASK + length 5
        0x01,
        0x02,
        0x03,
        0x04, // Mask key
    ];

    // Mask the payload
    let mask = [0x01, 0x02, 0x03, 0x04];
    for (i, byte) in text.bytes().enumerate() {
        frame.push(byte ^ mask[i % 4]);
    }

    let (parsed_frame, consumed) = WebSocketFrame::parse(&frame).unwrap();
    assert_eq!(consumed, frame.len());

    if let WebSocketFrame::Text(parsed_text) = parsed_frame {
        assert_eq!(parsed_text, "Hello");
    } else {
        panic!("Expected text frame");
    }
}

#[test]
fn test_websocket_frame_close() {
    let close_frame = WebSocketFrame::close();
    let bytes = close_frame.to_bytes();

    // Should start with 0x88 (FIN + CLOSE opcode)
    assert_eq!(bytes[0], 0x88);
    // Length should be 0
    assert_eq!(bytes[1], 0);
}

#[test]
fn test_websocket_frame_close_with_code() {
    let close_frame = WebSocketFrame::close_with_code(1000, "Normal");
    let bytes = close_frame.to_bytes();

    // Should start with 0x88 (FIN + CLOSE opcode)
    assert_eq!(bytes[0], 0x88);
    // Should have payload
    assert!(bytes.len() > 2);
}

#[test]
fn test_websocket_frame_ping_pong() {
    let ping_data = b"ping data".to_vec();
    let ping_frame = WebSocketFrame::Ping(ping_data.clone());
    let bytes = ping_frame.to_bytes();

    // Should start with 0x89 (FIN + PING opcode)
    assert_eq!(bytes[0], 0x89);

    // Create a masked version for parsing
    let mut masked_frame = vec![
        0x89,     // FIN + PING
        0x80 | 9, // MASK + length 9
        0x01,
        0x02,
        0x03,
        0x04, // Mask key
    ];

    let mask = [0x01, 0x02, 0x03, 0x04];
    for (i, &byte) in ping_data.iter().enumerate() {
        masked_frame.push(byte ^ mask[i % 4]);
    }

    let (parsed_frame, _) = WebSocketFrame::parse(&masked_frame).unwrap();
    if let WebSocketFrame::Ping(parsed_data) = parsed_frame {
        assert_eq!(parsed_data, ping_data);
    } else {
        panic!("Expected ping frame");
    }
}
