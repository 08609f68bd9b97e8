//! Concrete checks of the frame codec: round trips through the client
//! masking convention, the length-field thresholds, close-code
//! validation, control-frame size limits, and the unmasked-frame rule.

use http::websocket::frame::{is_valid_close_code, OpCode, ParseError, WebSocketFrame};

/// Apply the client-side masking convention to a server-encoded frame:
/// set the mask bit, insert the key, mask the payload.
fn client_mask(encoded: &[u8], key: [u8; 4]) -> Vec<u8> {
    let len7 = encoded[1] & 0x7F;
    let header_end = if len7 == 126 {
        4
    } else if len7 == 127 {
        10
    } else {
        2
    };
    let mut out = Vec::new();
    out.push(encoded[0]);
    out.push(encoded[1] | 0x80);
    out.extend_from_slice(&encoded[2..header_end]);
    out.extend_from_slice(&key);
    for (i, &b) in encoded[header_end..].iter().enumerate() {
        out.push(b ^ key[i % 4]);
    }
    out
}

fn round_trips(frame: WebSocketFrame) {
    let encoded = frame.to_bytes();
    let masked = client_mask(&encoded, [0x37, 0xFA, 0x21, 0x3D]);
    let (parsed, consumed) = WebSocketFrame::parse(&masked).unwrap();
    assert_eq!(consumed, masked.len());
    assert_eq!(masked.len(), encoded.len() + 4);
    match (frame, parsed) {
        (WebSocketFrame::Text(a), WebSocketFrame::Text(b)) => assert_eq!(a, b),
        (WebSocketFrame::Binary(a), WebSocketFrame::Binary(b)) => assert_eq!(a, b),
        (WebSocketFrame::Ping(a), WebSocketFrame::Ping(b)) => assert_eq!(a, b),
        (WebSocketFrame::Pong(a), WebSocketFrame::Pong(b)) => assert_eq!(a, b),
        _ => panic!("frame kind changed in the round trip"),
    }
}

#[test]
fn test_round_trip_data_frames() {
    round_trips(WebSocketFrame::text("Hello"));
    round_trips(WebSocketFrame::text(""));
    round_trips(WebSocketFrame::text("naïve — héllo ✓"));
    round_trips(WebSocketFrame::binary(vec![0, 1, 2, 253, 254, 255]));
    round_trips(WebSocketFrame::ping(b"ping data".to_vec()));
    round_trips(WebSocketFrame::pong(Vec::new()));
}

#[test]
fn test_round_trip_length_thresholds() {
    // 125 and 126 straddle the 1-byte/2-byte extended-length boundary.
    let b125 = WebSocketFrame::binary(vec![7u8; 125]);
    assert_eq!(b125.to_bytes().len(), 2 + 125);
    round_trips(b125);

    let b126 = WebSocketFrame::binary(vec![7u8; 126]);
    assert_eq!(b126.to_bytes().len(), 2 + 2 + 126);
    round_trips(b126);

    // 65535 and 65536 straddle the 2-byte/8-byte boundary.
    let b65535 = WebSocketFrame::binary(vec![7u8; 65535]);
    assert_eq!(b65535.to_bytes().len(), 2 + 2 + 65535);
    round_trips(b65535);

    let b65536 = WebSocketFrame::binary(vec![7u8; 65536]);
    assert_eq!(b65536.to_bytes().len(), 2 + 8 + 65536);
    round_trips(b65536);
}

#[test]
fn test_masking_symmetry() {
    // Masked payloads of length 0, 1, 4 and beyond one key cycle come
    // back byte for byte.
    for len in [0usize, 1, 4, 9, 17] {
        let data: Vec<u8> = (0..len as u8).collect();
        round_trips(WebSocketFrame::binary(data));
    }
}

#[test]
fn test_close_code_validation() {
    assert!(is_valid_close_code(1000));
    assert!(is_valid_close_code(1011));
    assert!(is_valid_close_code(3000));
    assert!(is_valid_close_code(4999));
    assert!(!is_valid_close_code(1004));
    assert!(!is_valid_close_code(1015));
    assert!(!is_valid_close_code(2999));
    assert!(!is_valid_close_code(5000));
}

fn masked_close_with_code(code: u16) -> Vec<u8> {
    let payload = code.to_be_bytes();
    let key = [9u8, 8, 7, 6];
    let mut frame = vec![0x88, 0x80 | 2];
    frame.extend_from_slice(&key);
    for (i, &b) in payload.iter().enumerate() {
        frame.push(b ^ key[i % 4]);
    }
    frame
}

#[test]
fn test_close_code_validation_on_the_wire() {
    for code in [1000u16, 1011, 3000, 4999] {
        let (frame, _) = WebSocketFrame::parse(&masked_close_with_code(code)).unwrap();
        match frame {
            WebSocketFrame::Close(Some((c, reason))) => {
                assert_eq!(c, code);
                assert_eq!(reason, "");
            }
            _ => panic!("expected a close frame with a code"),
        }
    }
    for code in [1004u16, 1015, 2999, 5000] {
        let err = WebSocketFrame::parse(&masked_close_with_code(code)).unwrap_err();
        assert!(matches!(err, ParseError::InvalidCloseCode));
    }
}

fn masked_control(opcode_byte: u8, payload_len: usize) -> Vec<u8> {
    let key = [1u8, 2, 3, 4];
    let mut frame = vec![opcode_byte];
    if payload_len < 126 {
        frame.push(0x80 | payload_len as u8);
    } else {
        frame.push(0x80 | 126);
        frame.extend_from_slice(&(payload_len as u16).to_be_bytes());
    }
    frame.extend_from_slice(&key);
    for i in 0..payload_len {
        frame.push(0u8 ^ key[i % 4]);
    }
    frame
}

#[test]
fn test_control_frame_size_limit() {
    // Payload length 126 is rejected for each control opcode.
    for op in [0x88u8, 0x89, 0x8A] {
        let err = WebSocketFrame::parse(&masked_control(op, 126)).unwrap_err();
        assert!(matches!(err, ParseError::ControlFrameTooLarge));
    }
    // Length 125 is accepted.
    let (frame, _) = WebSocketFrame::parse(&masked_control(0x89, 125)).unwrap();
    assert!(matches!(frame, WebSocketFrame::Ping(_)));
}

#[test]
fn test_unmasked_client_frame_rejected() {
    // The mask bit is clear: rejected whatever the opcode.
    for op in [0x81u8, 0x82, 0x88, 0x89, 0x8A, 0x80] {
        let frame = vec![op, 0x01, 0x41];
        let err = WebSocketFrame::parse(&frame).unwrap_err();
        assert!(matches!(err, ParseError::UnmaskedClientFrame));
    }
}

#[test]
fn test_invalid_utf8_text_frame() {
    let key = [0u8, 0, 0, 0];
    let mut frame = vec![0x81, 0x80 | 2];
    frame.extend_from_slice(&key);
    frame.push(0xFF);
    frame.push(0xFE);
    let err = WebSocketFrame::parse(&frame).unwrap_err();
    assert!(matches!(err, ParseError::InvalidUtf8));
}

#[test]
fn test_incomplete_frames() {
    assert!(matches!(
        WebSocketFrame::parse(&[0x81]).unwrap_err(),
        ParseError::Incomplete
    ));
    // Announces 5 payload bytes, delivers none.
    assert!(matches!(
        WebSocketFrame::parse(&[0x81, 0x85]).unwrap_err(),
        ParseError::Incomplete
    ));
    // A continuation frame is reported as incomplete: no reassembly.
    let key = [1u8, 2, 3, 4];
    let mut cont = vec![0x00, 0x80 | 1];
    cont.extend_from_slice(&key);
    cont.push(b'x' ^ 1);
    assert!(matches!(
        WebSocketFrame::parse(&cont).unwrap_err(),
        ParseError::Incomplete
    ));
}

#[test]
fn test_close_frame_reason_lossy() {
    // A close reason that is not UTF-8 decodes with replacement.
    let key = [0u8, 0, 0, 0];
    let mut frame = vec![0x88, 0x80 | 3];
    frame.extend_from_slice(&key);
    frame.extend_from_slice(&[0x03, 0xE8, 0xFF]);
    let (parsed, _) = WebSocketFrame::parse(&frame).unwrap();
    match parsed {
        WebSocketFrame::Close(Some((code, reason))) => {
            assert_eq!(code, 1000);
            assert_eq!(reason, "\u{FFFD}");
        }
        _ => panic!("expected a close frame with a code"),
    }
}

#[test]
fn test_opcode_classification() {
    assert!(OpCode::Close.is_control());
    assert!(OpCode::Ping.is_control());
    assert!(OpCode::Pong.is_control());
    assert!(!OpCode::Text.is_control());
    assert!(!OpCode::Binary.is_control());
    assert!(!OpCode::Continuation.is_control());
}
