//! Concrete checks of the HTTP side: chunked bodies, header folding,
//! body framing decisions, the orchestration scans, content types, and
//! error messages.

use http::error::ServerError;
use http::protocol::body::{decode_chunked, ChunkedResult};
use http::protocol::conn::{find_header_end, scan_header_buffer, wants_close, HeaderScan};
use http::protocol::handler::get_content_type;
use http::protocol::request::{body_plan, BodyPlan, HttpRequest};

#[test]
fn test_chunked_body_reconstruction() {
    let data = b"4\r\nWiki\r\n5\r\npedia\r\n0\r\n\r\n";
    match decode_chunked(data).unwrap() {
        ChunkedResult::Complete(body, consumed) => {
            assert_eq!(body, b"Wikipedia".to_vec());
            assert_eq!(consumed, data.len());
        }
        ChunkedResult::NeedMore => panic!("expected a complete body"),
    }
}

#[test]
fn test_chunked_body_incremental() {
    // A prefix of valid framing asks for more bytes at every cut.
    let data = b"4\r\nWiki\r\n5\r\npedia\r\n0\r\n\r\n";
    for cut in 0..data.len() {
        match decode_chunked(&data[..cut]).unwrap() {
            ChunkedResult::NeedMore => {}
            ChunkedResult::Complete(_, _) => panic!("complete before all bytes arrived"),
        }
    }
}

#[test]
fn test_chunked_body_extensions_and_case() {
    // Chunk extensions are dropped; hex size digits may be upper case.
    let data = b"4;name=value\r\nWiki\r\nA\r\n0123456789\r\n0\r\n\r\n";
    match decode_chunked(data).unwrap() {
        ChunkedResult::Complete(body, _) => assert_eq!(body, b"Wiki0123456789".to_vec()),
        ChunkedResult::NeedMore => panic!("expected a complete body"),
    }
}

#[test]
fn test_chunked_body_invalid_size() {
    let err = decode_chunked(b"zz\r\nWiki\r\n").unwrap_err();
    assert!(matches!(err, ServerError::InvalidHttpRequest("Invalid chunk size")));

    // A size line that exceeds its cap before any CRLF arrives.
    let err = decode_chunked(b"111111111111111111111111111").unwrap_err();
    assert!(matches!(err, ServerError::InvalidHttpRequest("Invalid chunk size")));
}

#[test]
fn test_chunked_body_too_large() {
    // 0xA00001 bytes exceed the ten-megabyte cap; rejected before the
    // payload needs to arrive.
    let err = decode_chunked(b"A00001\r\n").unwrap_err();
    assert!(matches!(err, ServerError::InvalidHttpRequest("Chunked body too large")));
}

#[test]
fn test_header_case_insensitivity() {
    let upper = HttpRequest::from_buffer_sync(b"GET / HTTP/1.1\r\nHost: example.com\r\n\r\n")
        .unwrap();
    let lower = HttpRequest::from_buffer_sync(b"GET / HTTP/1.1\r\nhost: example.com\r\n\r\n")
        .unwrap();
    assert_eq!(upper.get_header("host"), Some(&"example.com".to_string()));
    assert_eq!(lower.get_header("host"), Some(&"example.com".to_string()));
    assert_eq!(upper.get_header("host"), lower.get_header("host"));
    assert_eq!(upper.get_header("HOST"), Some(&"example.com".to_string()));
}

#[test]
fn test_header_last_occurrence_wins() {
    let request = HttpRequest::from_buffer_sync(
        b"GET / HTTP/1.1\r\nX-Tag: one\r\nx-tag: two\r\n\r\n",
    )
    .unwrap();
    assert_eq!(request.get_header("x-tag"), Some(&"two".to_string()));
}

#[test]
fn test_request_parse_errors() {
    let err = HttpRequest::from_buffer_sync(b"").unwrap_err();
    assert!(matches!(err, ServerError::InvalidHttpRequest("Empty request")));

    let err = HttpRequest::from_buffer_sync(b"GET /\r\n\r\n").unwrap_err();
    assert!(matches!(err, ServerError::InvalidHttpRequest("Invalid request line")));

    let err = HttpRequest::from_buffer_sync(b"BREW /pot HTTP/1.1\r\n\r\n").unwrap_err();
    assert!(matches!(err, ServerError::InvalidHttpRequest("Unsupported HTTP method")));
}

#[test]
fn test_body_plan_decisions() {
    let sized = HttpRequest::from_buffer_sync(
        b"POST /x HTTP/1.1\r\nContent-Length: 12\r\n\r\n",
    )
    .unwrap();
    assert_eq!(body_plan(&sized.headers).unwrap(), BodyPlan::Sized(12));

    let chunked = HttpRequest::from_buffer_sync(
        b"POST /x HTTP/1.1\r\nTransfer-Encoding: Chunked\r\n\r\n",
    )
    .unwrap();
    assert_eq!(body_plan(&chunked.headers).unwrap(), BodyPlan::Chunked);

    let other_te = HttpRequest::from_buffer_sync(
        b"POST /x HTTP/1.1\r\nTransfer-Encoding: gzip\r\n\r\n",
    )
    .unwrap();
    assert_eq!(body_plan(&other_te.headers).unwrap(), BodyPlan::Empty);

    let bare = HttpRequest::from_buffer_sync(b"GET / HTTP/1.1\r\n\r\n").unwrap();
    assert_eq!(body_plan(&bare.headers).unwrap(), BodyPlan::Empty);
}

#[test]
fn test_body_plan_errors() {
    let bad = HttpRequest::from_buffer_sync(
        b"POST /x HTTP/1.1\r\nContent-Length: twelve\r\n\r\n",
    )
    .unwrap();
    let err = body_plan(&bad.headers).unwrap_err();
    assert!(matches!(err, ServerError::InvalidHttpRequest("Invalid Content-Length")));

    let big = HttpRequest::from_buffer_sync(
        b"POST /x HTTP/1.1\r\nContent-Length: 10485761\r\n\r\n",
    )
    .unwrap();
    let err = body_plan(&big.headers).unwrap_err();
    assert!(matches!(err, ServerError::InvalidHttpRequest("Body too large")));

    let edge = HttpRequest::from_buffer_sync(
        b"POST /x HTTP/1.1\r\nContent-Length: 10485760\r\n\r\n",
    )
    .unwrap();
    assert_eq!(body_plan(&edge.headers).unwrap(), BodyPlan::Sized(10485760));
}

#[test]
fn test_keep_alive_scenario() {
    // A keep-alive request parses and does not ask the connection closed.
    let buffer = b"GET /index.html HTTP/1.1\r\nHost: localhost:8080\r\nConnection: keep-alive\r\n\r\n";
    match scan_header_buffer(buffer) {
        HeaderScan::Complete(end) => assert_eq!(end, buffer.len()),
        _ => panic!("expected a complete header block"),
    }
    let request = HttpRequest::from_buffer_sync(buffer).unwrap();
    assert_eq!(request.path, "/index.html");
    assert_eq!(request.version, "HTTP/1.1");
    assert!(!wants_close(&request));
    assert_eq!(body_plan(&request.headers).unwrap(), BodyPlan::Empty);

    let closing = HttpRequest::from_buffer_sync(
        b"GET / HTTP/1.1\r\nConnection: Close\r\n\r\n",
    )
    .unwrap();
    assert!(wants_close(&closing));
}

#[test]
fn test_find_header_end_positions() {
    assert_eq!(find_header_end(b"GET / HTTP/1.1\r\n\r\nrest"), Some(18));
    assert_eq!(find_header_end(b"\r\n\r\n"), Some(4));
    assert_eq!(find_header_end(b"GET / HTTP/1.1\r\n"), None);
    assert_eq!(find_header_end(b""), None);
}

#[test]
fn test_header_buffer_cap() {
    let huge = vec![b'a'; 16385];
    assert_eq!(scan_header_buffer(&huge), HeaderScan::TooLarge);
    let still_ok = vec![b'a'; 16384];
    assert_eq!(scan_header_buffer(&still_ok), HeaderScan::NeedMore);
}

#[test]
fn test_content_types() {
    assert_eq!(get_content_type("/srv/index.html"), "text/html; charset=utf-8");
    assert_eq!(get_content_type("style.css"), "text/css; charset=utf-8");
    assert_eq!(get_content_type("app.js"), "application/javascript; charset=utf-8");
    assert_eq!(get_content_type("data.json"), "application/json; charset=utf-8");
    assert_eq!(get_content_type("pic.jpeg"), "image/jpeg");
    assert_eq!(get_content_type("notes.txt"), "text/plain; charset=utf-8");
    assert_eq!(get_content_type("archive.bin"), "application/octet-stream");
    assert_eq!(get_content_type("no_extension"), "application/octet-stream");
    // A hidden file's leading dot names no extension.
    assert_eq!(get_content_type("/srv/.html"), "application/octet-stream");
    // The extension comes from the file name, not an earlier component.
    assert_eq!(get_content_type("/srv.d/readme"), "application/octet-stream");
}

#[test]
fn test_error_messages() {
    assert_eq!(
        ServerError::InvalidHttpRequest("Empty request").message(),
        "Invalid HTTP request: Empty request"
    );
    assert_eq!(ServerError::Io("broken pipe".to_string()).message(), "I/O error: broken pipe");
    assert_eq!(
        ServerError::WebSocketFrameError("unmasked client frame").message(),
        "WebSocket frame error: unmasked client frame"
    );
    assert_eq!(
        ServerError::WebSocketHandshakeFailed("no key".to_string()).message(),
        "WebSocket handshake failed: no key"
    );
    assert_eq!(
        ServerError::FileNotFound("./static".to_string()).message(),
        "Static file not found: ./static"
    );
}
