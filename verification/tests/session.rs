use ssh_bridge::codec::{decode, encode, FrameKind};
use ssh_bridge::PtySize;
use ssh_bridge::control::connect_payload;
use ssh_bridge::session::{Session, SessionState};
use ssh_bridge::transport::{ScriptedRead, ScriptedTransport, StreamKind};

const HOST: &[u8] = b"host.example";
const USER: &[u8] = b"steven";
const SECRET: &[u8] = b"letmein";

fn transport_with(script: Vec<ScriptedRead>) -> ScriptedTransport {
    ScriptedTransport::new(true, USER.to_vec(), SECRET.to_vec(), script)
}

fn connect_frame(secret: &[u8]) -> Vec<u8> {
    let payload = connect_payload(HOST, 22, USER, secret);
    encode(FrameKind::Connect, payload.as_slice())
}

fn drain(session: &mut Session<ScriptedTransport>) -> Vec<(FrameKind, Vec<u8>)> {
    session
        .out
        .take_frames()
        .iter()
        .map(|f| {
            let frame = decode(f.as_slice()).expect("the bridge only queues well-formed frames");
            (frame.kind, frame.payload)
        })
        .collect()
}

#[test]
fn connect_with_valid_credentials_goes_interactive() {
    let mut session = Session::new(transport_with(vec![]));
    assert_eq!(session.state, SessionState::Uninitialized);
    session.handle_frame(connect_frame(SECRET).as_slice()).unwrap();
    assert_eq!(session.state, SessionState::Interactive);
    assert!(drain(&mut session).is_empty());
    assert!(!session.out.closed);
    // exactly the message's fields were handed to the transport
    assert_eq!(session.transport.connect_log, vec![(HOST.to_vec(), 22)]);
    assert_eq!(session.transport.auth_log, vec![(USER.to_vec(), SECRET.to_vec())]);
    assert_eq!(session.transport.pty_log, vec![PtySize { cols: 80, rows: 24 }]);
}

#[test]
fn stdin_reaches_the_transport_and_output_comes_back() {
    // a scripted remote that answers with the echoed line
    let script = vec![ScriptedRead::Output {
        stream: StreamKind::Stdout,
        bytes: b"hi\r\n".to_vec(),
    }];
    let mut session = Session::new(transport_with(script));
    session.handle_frame(connect_frame(SECRET).as_slice()).unwrap();
    let stdin = encode(FrameKind::Stdin, b"echo hi\n");
    session.handle_frame(stdin.as_slice()).unwrap();
    assert_eq!(session.transport.received().as_slice(), b"echo hi\n");
    session.poll_ssh();
    let frames = drain(&mut session);
    assert_eq!(frames.len(), 1);
    assert_eq!(frames[0].0, FrameKind::Stdout);
    let text = String::from_utf8(frames[0].1.clone()).unwrap();
    assert!(text.contains("hi"));
    assert_eq!(session.state, SessionState::Interactive);
}

#[test]
fn stdin_bytes_arrive_in_order_without_loss() {
    let mut session = Session::new(transport_with(vec![]));
    session.handle_frame(connect_frame(SECRET).as_slice()).unwrap();
    for chunk in [&b"ab"[..], b"", b"cd", b"\x00\xff"] {
        let frame = encode(FrameKind::Stdin, chunk);
        session.handle_frame(frame.as_slice()).unwrap();
    }
    assert_eq!(session.transport.received().as_slice(), b"abcd\x00\xff");
}

#[test]
fn resizes_apply_in_order_between_stdin() {
    let mut session = Session::new(transport_with(vec![]));
    session.handle_frame(connect_frame(SECRET).as_slice()).unwrap();
    let resize_a = encode(
        FrameKind::Resize,
        ssh_bridge::control::resize_payload(100, 40).as_slice(),
    );
    let stdin = encode(FrameKind::Stdin, b"ls\n");
    let resize_b = encode(
        FrameKind::Resize,
        ssh_bridge::control::resize_payload(80, 24).as_slice(),
    );
    session.handle_frame(resize_a.as_slice()).unwrap();
    session.handle_frame(stdin.as_slice()).unwrap();
    session.handle_frame(resize_b.as_slice()).unwrap();
    let sizes = session.transport.applied_sizes();
    assert_eq!(sizes.len(), 2);
    assert_eq!((sizes[0].cols, sizes[0].rows), (100, 40));
    assert_eq!((sizes[1].cols, sizes[1].rows), (80, 24));
}

#[test]
fn invalid_credentials_emit_one_error_then_close() {
    let mut session = Session::new(transport_with(vec![]));
    session.handle_frame(connect_frame(b"wrong").as_slice()).unwrap();
    assert_eq!(session.state, SessionState::Closed);
    assert!(session.out.closed);
    assert!(!session.transport.is_connected);
    assert_eq!(session.transport.auth_log, vec![(USER.to_vec(), b"wrong".to_vec())]);
    let frames = drain(&mut session);
    assert_eq!(frames.len(), 1);
    assert_eq!(frames[0].0, FrameKind::Error);
    // nothing follows: later traffic leaves the closed session untouched
    let stdin = encode(FrameKind::Stdin, b"anything");
    session.handle_frame(stdin.as_slice()).unwrap();
    session.poll_ssh();
    assert!(drain(&mut session).is_empty());
    assert_eq!(session.state, SessionState::Closed);
}

#[test]
fn unreachable_host_emits_one_error_then_closes() {
    let mut session = Session::new(ScriptedTransport::new(
        false,
        USER.to_vec(),
        SECRET.to_vec(),
        vec![],
    ));
    session.handle_frame(connect_frame(SECRET).as_slice()).unwrap();
    assert_eq!(session.state, SessionState::Closed);
    let frames = drain(&mut session);
    assert_eq!(frames.len(), 1);
    assert_eq!(frames[0].0, FrameKind::Error);
    assert_eq!(frames[0].1, b"connect failed".to_vec());
}

#[test]
fn disconnect_walks_closing_then_closed() {
    let mut session = Session::new(transport_with(vec![]));
    session.handle_frame(connect_frame(SECRET).as_slice()).unwrap();
    assert_eq!(session.state, SessionState::Interactive);
    let disconnect = encode(FrameKind::Disconnect, b"");
    session.handle_frame(disconnect.as_slice()).unwrap();
    assert_eq!(session.state, SessionState::Closing);
    assert!(!session.out.closed);
    session.finish();
    assert_eq!(session.state, SessionState::Closed);
    assert!(session.out.closed);
    assert!(drain(&mut session).is_empty());
    // performing the teardown really closed the SSH transport
    assert!(!session.transport.is_connected);
    assert!(!session.transport.is_authenticated);
    assert!(!session.transport.is_pty_open);
}

#[test]
fn eof_stops_output_and_seals_the_queue() {
    let script = vec![
        ScriptedRead::Output { stream: StreamKind::Stderr, bytes: b"warning\n".to_vec() },
        ScriptedRead::End,
    ];
    let mut session = Session::new(transport_with(script));
    session.handle_frame(connect_frame(SECRET).as_slice()).unwrap();
    session.poll_ssh();
    let frames = drain(&mut session);
    assert_eq!(frames.len(), 1);
    assert_eq!(frames[0].0, FrameKind::Stderr);
    assert_eq!(frames[0].1, b"warning\n".to_vec());
    session.poll_ssh();
    assert_eq!(session.state, SessionState::Closing);
    session.finish();
    assert_eq!(session.state, SessionState::Closed);
    assert!(session.out.closed);
    // after end-of-stream, polling produces nothing further
    session.poll_ssh();
    session.poll_ssh();
    assert!(drain(&mut session).is_empty());
}

#[test]
fn mid_session_failure_reports_io_error_and_closes() {
    let script = vec![ScriptedRead::Break];
    let mut session = Session::new(transport_with(script));
    session.handle_frame(connect_frame(SECRET).as_slice()).unwrap();
    session.poll_ssh();
    assert_eq!(session.state, SessionState::Closing);
    let frames = drain(&mut session);
    assert_eq!(frames.len(), 1);
    assert_eq!(frames[0].0, FrameKind::Error);
    assert_eq!(frames[0].1, b"io error".to_vec());
    session.finish();
    assert!(session.out.closed);
}

#[test]
fn malformed_frames_are_dropped_and_the_session_lives_on() {
    let mut session = Session::new(transport_with(vec![]));
    session.handle_frame(connect_frame(SECRET).as_slice()).unwrap();
    assert!(session.handle_frame(b"garbage").is_err());
    assert!(session.handle_frame(b"{\"type\":\"nope\",\"data\":\"\"}").is_err());
    assert_eq!(session.state, SessionState::Interactive);
    assert!(drain(&mut session).is_empty());
    // and the session still works
    let stdin = encode(FrameKind::Stdin, b"pwd\n");
    session.handle_frame(stdin.as_slice()).unwrap();
    assert_eq!(session.transport.received().as_slice(), b"pwd\n");
}

#[test]
fn traffic_before_connect_is_ignored() {
    let mut session = Session::new(transport_with(vec![]));
    let stdin = encode(FrameKind::Stdin, b"too early");
    session.handle_frame(stdin.as_slice()).unwrap();
    assert_eq!(session.state, SessionState::Uninitialized);
    assert!(session.transport.received().is_empty());
    assert!(drain(&mut session).is_empty());
}

#[test]
fn hangup_tears_down_silently() {
    let mut session = Session::new(transport_with(vec![]));
    session.handle_frame(connect_frame(SECRET).as_slice()).unwrap();
    session.hangup();
    assert_eq!(session.state, SessionState::Closed);
    assert!(session.out.closed);
    assert!(drain(&mut session).is_empty());
    // the silent teardown still closed the SSH transport
    assert!(!session.transport.is_connected);
    assert!(!session.transport.is_pty_open);
}

#[test]
fn second_connect_is_ignored() {
    let mut session = Session::new(transport_with(vec![]));
    session.handle_frame(connect_frame(SECRET).as_slice()).unwrap();
    assert_eq!(session.state, SessionState::Interactive);
    session.handle_frame(connect_frame(SECRET).as_slice()).unwrap();
    assert_eq!(session.state, SessionState::Interactive);
    assert!(drain(&mut session).is_empty());
}
