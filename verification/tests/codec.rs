use base64::Engine;
use ssh_bridge::codec::{decode, encode, DecodeError, FrameKind};
use ssh_bridge::control::{connect_payload, parse_control, parse_u16, resize_payload, u16_text, ControlMessage};

fn round_trip(kind: FrameKind, payload: &[u8]) {
    let frame = encode(kind, payload);
    let back = decode(frame.as_slice()).expect("an encoded frame must decode");
    assert_eq!(back.kind, kind);
    assert_eq!(back.payload, payload.to_vec());
}

#[test]
fn round_trip_every_kind() {
    let kinds = [
        FrameKind::Stdout,
        FrameKind::Stderr,
        FrameKind::Stdin,
        FrameKind::Connect,
        FrameKind::Resize,
        FrameKind::Disconnect,
        FrameKind::Error,
    ];
    for kind in kinds {
        round_trip(kind, b"echo hi\n");
    }
}

#[test]
fn round_trip_empty_payload() {
    round_trip(FrameKind::Stdin, b"");
}

#[test]
fn round_trip_non_text_payload() {
    let bytes: Vec<u8> = vec![0, 255, 34, 92, 10, 128, 1, 2, 3];
    round_trip(FrameKind::Stdout, &bytes);
    let all: Vec<u8> = (0..=255u8).collect();
    round_trip(FrameKind::Stderr, &all);
}

#[test]
fn frame_shape_is_the_documented_json() {
    let frame = encode(FrameKind::Stdin, b"hi");
    let text = String::from_utf8(frame).expect("a frame is ASCII");
    assert_eq!(text, "{\"type\":\"stdin\",\"data\":\"aGk=\"}");
}

#[test]
fn frame_base64_matches_the_engine() {
    let payload = b"some terminal output \x1b[0m";
    let frame = encode(FrameKind::Stdout, payload);
    let text = String::from_utf8(frame).unwrap();
    let expected = format!(
        "{{\"type\":\"stdout\",\"data\":\"{}\"}}",
        base64::engine::general_purpose::STANDARD.encode(payload)
    );
    assert_eq!(text, expected);
}

#[test]
fn unknown_type_is_a_typed_error() {
    let r = decode(b"{\"type\":\"bogus\",\"data\":\"aGk=\"}");
    assert_eq!(r.unwrap_err(), DecodeError::UnknownKind);
}

#[test]
fn malformed_text_is_a_typed_error() {
    assert_eq!(decode(b"").unwrap_err(), DecodeError::Malformed);
    assert_eq!(decode(b"not json at all").unwrap_err(), DecodeError::Malformed);
    assert_eq!(decode(b"{\"type\":\"stdin\"}").unwrap_err(), DecodeError::Malformed);
    assert_eq!(decode(b"{\"type\":\"stdin\",\"data\":\"aGk=\"").unwrap_err(), DecodeError::Malformed);
    assert_eq!(decode(b"[1,2,3]").unwrap_err(), DecodeError::Malformed);
}

#[test]
fn bad_base64_is_a_typed_error() {
    let r = decode(b"{\"type\":\"stdin\",\"data\":\"!!!\"}");
    assert_eq!(r.unwrap_err(), DecodeError::BadPayload);
    // non-canonical padding is rejected rather than guessed at
    let r = decode(b"{\"type\":\"stdin\",\"data\":\"aGk\"}");
    assert_eq!(r.unwrap_err(), DecodeError::BadPayload);
}

#[test]
fn u16_text_round_trips() {
    for v in [0u16, 1, 22, 80, 24, 9999, 65535] {
        let text = u16_text(v);
        assert_eq!(parse_u16(text.as_slice()), Some(v));
    }
    assert_eq!(u16_text(22), b"00022".to_vec());
}

#[test]
fn parse_u16_rejects_what_is_no_port() {
    assert_eq!(parse_u16(b""), None);
    assert_eq!(parse_u16(b"1a"), None);
    assert_eq!(parse_u16(b"65536"), None);
    assert_eq!(parse_u16(b"99999999"), None);
    assert_eq!(parse_u16(b"-1"), None);
    assert_eq!(parse_u16(b"65535"), Some(65535));
}

#[test]
fn connect_payload_parses_back() {
    let payload = connect_payload(b"example.org", 2222, b"steven", b"pw\nwith newline");
    match parse_control(FrameKind::Connect, payload.as_slice()).unwrap() {
        ControlMessage::Connect { host, port, username, secret } => {
            assert_eq!(host, b"example.org".to_vec());
            assert_eq!(port, 2222);
            assert_eq!(username, b"steven".to_vec());
            assert_eq!(secret, b"pw\nwith newline".to_vec());
        }
        other => panic!("expected a connect message, got {:?}", other),
    }
}

#[test]
fn resize_payload_parses_back() {
    let payload = resize_payload(120, 40);
    match parse_control(FrameKind::Resize, payload.as_slice()).unwrap() {
        ControlMessage::Resize { cols, rows } => {
            assert_eq!((cols, rows), (120, 40));
        }
        other => panic!("expected a resize message, got {:?}", other),
    }
}

#[test]
fn control_parsing_rejects_broken_payloads() {
    let r = parse_control(FrameKind::Connect, b"no separators");
    assert_eq!(r.unwrap_err(), DecodeError::BadPayload);
    let r = parse_control(FrameKind::Connect, b"host\nnotaport\nuser\npw");
    assert_eq!(r.unwrap_err(), DecodeError::BadPayload);
    let r = parse_control(FrameKind::Resize, b"80x24");
    assert_eq!(r.unwrap_err(), DecodeError::BadPayload);
    let r = parse_control(FrameKind::Stdout, b"");
    assert_eq!(r.unwrap_err(), DecodeError::UnknownKind);
}

#[test]
fn stdin_and_disconnect_payloads() {
    match parse_control(FrameKind::Stdin, b"ls -l\n").unwrap() {
        ControlMessage::Stdin { data } => assert_eq!(data, b"ls -l\n".to_vec()),
        other => panic!("expected stdin, got {:?}", other),
    }
    assert!(matches!(
        parse_control(FrameKind::Disconnect, b"").unwrap(),
        ControlMessage::Disconnect
    ));
}
