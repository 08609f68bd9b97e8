//! Concrete checks of the session state machine and the upgrade flow:
//! ping/pong supervision, echoes, the accept response, and the
//! end-to-end upgrade-then-echo scenario.

use http::protocol::request::HttpRequest;
use http::protocol::response::HttpResponse;
use http::websocket::frame::WebSocketFrame;
use http::websocket::handshake::{generate_accept, is_websocket_request};
use http::websocket::session::{next_frame, WsAction, WsSession};

fn masked_text(text: &str) -> Vec<u8> {
    let key = [0x11u8, 0x22, 0x33, 0x44];
    let payload = text.as_bytes();
    assert!(payload.len() < 126);
    let mut frame = vec![0x81, 0x80 | payload.len() as u8];
    frame.extend_from_slice(&key);
    for (i, &b) in payload.iter().enumerate() {
        frame.push(b ^ key[i % 4]);
    }
    frame
}

#[test]
fn test_session_ping_timer() {
    let mut session = WsSession::new();
    assert!(!session.awaiting_pong);

    // First tick: a fresh empty ping goes out.
    match session.on_tick() {
        WsAction::Send(WebSocketFrame::Ping(data)) => assert!(data.is_empty()),
        _ => panic!("expected a ping"),
    }
    assert!(session.awaiting_pong);

    // Second tick with no pong in between: escalate to a 1002 close.
    match session.on_tick() {
        WsAction::SendAndClose(WebSocketFrame::Close(Some((code, reason)))) => {
            assert_eq!(code, 1002);
            assert_eq!(reason, "Ping timeout");
        }
        _ => panic!("expected the ping-timeout close"),
    }
}

#[test]
fn test_session_pong_clears_waiting() {
    let mut session = WsSession::new();
    session.on_tick();
    assert!(session.awaiting_pong);
    match session.on_frame(WebSocketFrame::Pong(Vec::new())) {
        WsAction::Idle => {}
        _ => panic!("a pong calls for no reply"),
    }
    assert!(!session.awaiting_pong);
}

#[test]
fn test_session_echoes() {
    let mut session = WsSession::new();

    match session.on_frame(WebSocketFrame::text("Hi")) {
        WsAction::Send(WebSocketFrame::Text(reply)) => assert_eq!(reply, "Echo: Hi"),
        _ => panic!("expected a text echo"),
    }
    match session.on_frame(WebSocketFrame::binary(vec![1, 2, 3])) {
        WsAction::Send(WebSocketFrame::Binary(reply)) => assert_eq!(reply, vec![1, 2, 3]),
        _ => panic!("expected a binary echo"),
    }
    match session.on_frame(WebSocketFrame::ping(b"abc".to_vec())) {
        WsAction::Send(WebSocketFrame::Pong(reply)) => assert_eq!(reply, b"abc".to_vec()),
        _ => panic!("expected a pong"),
    }
    match session.on_frame(WebSocketFrame::close()) {
        WsAction::SendAndClose(WebSocketFrame::Close(None)) => {}
        _ => panic!("expected the closing reply"),
    }
}

#[test]
fn test_next_frame_buffering() {
    let whole = masked_text("Hello");

    // Half a frame: no frame yet, buffer kept.
    let mut buffer = whole[..4].to_vec();
    assert!(next_frame(&mut buffer).unwrap().is_none());
    assert_eq!(buffer, whole[..4].to_vec());

    // The rest arrives, plus the start of the next frame.
    buffer.extend_from_slice(&whole[4..]);
    buffer.push(0x81);
    match next_frame(&mut buffer).unwrap() {
        Some(WebSocketFrame::Text(text)) => assert_eq!(text, "Hello"),
        _ => panic!("expected the text frame"),
    }
    assert_eq!(buffer, vec![0x81]);
}

#[test]
fn test_next_frame_surfaces_errors() {
    let mut buffer = vec![0x81, 0x05];
    let err = next_frame(&mut buffer).unwrap_err();
    assert_eq!(err.message(), "WebSocket frame error: unmasked client frame");
}

#[test]
fn test_upgrade_then_echo() {
    // A valid upgrade request is recognized and answered.
    let request = HttpRequest::from_buffer_sync(
        b"GET /chat HTTP/1.1\r\nHost: localhost:8080\r\nUpgrade: websocket\r\nConnection: Upgrade\r\nSec-WebSocket-Key: dGhlIHNhbXBsZSBub25jZQ==\r\nSec-WebSocket-Version: 13\r\n\r\n",
    )
    .unwrap();
    let key = is_websocket_request(&request).expect("a websocket upgrade");
    let key = key.clone();
    let response = generate_accept(key.as_str()).unwrap();
    let response_str = String::from_utf8_lossy(&response);
    assert!(response_str.starts_with("HTTP/1.1 101 Switching Protocols"));
    assert!(response_str.contains("upgrade: websocket"));
    assert!(response_str.contains("connection: Upgrade"));
    assert!(response_str.contains("sec-websocket-accept: s3pPLMBiTxaQ9kYGzzhZRbK+xOo="));
    assert!(response_str.contains("date: "));

    // A masked text frame then earns the echoing reply.
    let mut session = WsSession::new();
    let mut buffer = masked_text("Hello");
    let frame = next_frame(&mut buffer).unwrap().expect("one whole frame");
    assert!(buffer.is_empty());
    match session.on_frame(frame) {
        WsAction::Send(reply) => {
            match &reply {
                WebSocketFrame::Text(text) => assert_eq!(text, "Echo: Hello"),
                _ => panic!("expected a text reply"),
            }
            // The reply's wire form is an unmasked server text frame.
            let bytes = reply.to_bytes();
            assert_eq!(bytes[0], 0x81);
            assert_eq!(bytes[1], 11);
            assert_eq!(&bytes[2..], b"Echo: Hello");
        }
        _ => panic!("expected an echo"),
    }
}

#[test]
fn test_response_date_and_connection_defaults() {
    let bytes = HttpResponse::ok().with_text("x").to_bytes();
    let s = String::from_utf8_lossy(&bytes);
    assert!(s.contains("date: "));
    assert!(s.contains("server: http-rs/0.1.0"));
    assert!(s.contains("connection: keep-alive"));
    assert!(s.contains("keep-alive: timeout=5, max=100"));
    assert!(s.contains("content-length: 1"));

    let closed = HttpResponse::ok().with_text("x").close_connection().to_bytes();
    let s = String::from_utf8_lossy(&closed);
    assert!(s.contains("connection: close"));

    let failed = HttpResponse::not_found().with_text("missing").to_bytes();
    let s = String::from_utf8_lossy(&failed);
    assert!(s.contains("connection: close"));
}
