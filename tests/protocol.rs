use telemetry_link::engine::{encode_all, Session, SessionState};
use telemetry_link::supervisor::{Action, LinkEvent, SessionEnd, Supervisor};
use telemetry_link::wire::{
    decode_record, decode_request, decode_response, encode_record, encode_request,
    encode_response, DecodeError, LogMessage, Request, Response,
};

fn f(v: f32) -> u32 {
    v.to_bits()
}

fn accel(x: f32, y: f32, z: f32) -> LogMessage {
    LogMessage::Accel { x: f(x), y: f(y), z: f(z) }
}

fn batt(v: f32, a: f32) -> LogMessage {
    LogMessage::Batt { v: f(v), a: f(a) }
}

fn all_kinds() -> Vec<LogMessage> {
    vec![
        accel(123.3, 123.4, 123.68),
        LogMessage::Gyro { x: f(13.123), y: f(15.341), z: f(56.543) },
        LogMessage::Mag { x: f(-1.5), y: f(0.0), z: f(f32::MAX) },
        LogMessage::Motors { m1: f(0.25), m2: f(0.5), m3: f(0.75), m4: f(1.0) },
        batt(16.4, 52.6),
    ]
}

/// Sends each request through a session and collects every response.
fn converse(session: &mut Session, reqs: &[Request], buf: &[LogMessage]) -> Vec<Response> {
    let mut out = Vec::new();
    for r in reqs {
        out.extend(session.respond(*r, buf));
    }
    out
}

fn frames(action: Action) -> Vec<Vec<u8>> {
    match action {
        Action::Write(fs) => fs,
        Action::Close(e) => panic!("session closed: {:?}", e),
    }
}

#[test]
fn record_round_trip_every_kind() {
    for m in all_kinds() {
        assert_eq!(decode_record(&encode_record(&m)), Ok(m));
    }
}

#[test]
fn request_round_trip() {
    for r in [Request::StartSending, Request::GetMessage, Request::SendingCompleted] {
        assert_eq!(decode_request(&encode_request(&r)), Ok(r));
    }
}

#[test]
fn response_round_trip() {
    let mut all = vec![Response::SendingStarted, Response::Message(None)];
    for m in all_kinds() {
        all.push(Response::Message(Some(m)));
    }
    for r in all {
        let bytes = encode_response(&r);
        assert!(bytes.len() <= 64);
        assert_eq!(decode_response(&bytes), Ok(r));
    }
}

#[test]
fn record_layout_is_tag_then_little_endian_floats() {
    let bytes = encode_record(&batt(1.0, -2.0));
    let mut expected = vec![4u8];
    expected.extend_from_slice(&1.0f32.to_le_bytes());
    expected.extend_from_slice(&(-2.0f32).to_le_bytes());
    assert_eq!(bytes, expected);
    assert_eq!(bytes, vec![4, 0, 0, 0x80, 0x3f, 0, 0, 0, 0xc0]);
}

#[test]
fn response_layout_exact_bytes() {
    assert_eq!(encode_response(&Response::SendingStarted), vec![0]);
    assert_eq!(encode_response(&Response::Message(None)), vec![1, 0]);
    let m = LogMessage::Motors { m1: 1, m2: 0x0403_0201, m3: 0, m4: 0xffff_ffff };
    assert_eq!(
        encode_response(&Response::Message(Some(m))),
        vec![1, 1, 3, 1, 0, 0, 0, 1, 2, 3, 4, 0, 0, 0, 0, 0xff, 0xff, 0xff, 0xff]
    );
    assert_eq!(encode_request(&Request::SendingCompleted), vec![2]);
}

#[test]
fn layout_matches_postcard() {
    let m = accel(1.0, 2.0, 3.0);
    let expected = postcard::to_allocvec(&(1u8, Some((0u8, 1.0f32, 2.0f32, 3.0f32)))).unwrap();
    assert_eq!(encode_response(&Response::Message(Some(m))), expected);
    let none: Option<(u8, f32)> = None;
    assert_eq!(encode_response(&Response::Message(None)), postcard::to_allocvec(&(1u8, none)).unwrap());
    let batt_bytes = postcard::to_allocvec(&(4u8, 16.4f32, 52.6f32)).unwrap();
    assert_eq!(encode_record(&batt(16.4, 52.6)), batt_bytes);
}

#[test]
fn decode_errors() {
    assert_eq!(decode_request(&[]), Err(DecodeError::Truncated));
    assert_eq!(decode_request(&[3]), Err(DecodeError::UnknownTag));
    assert_eq!(decode_request(&[0xff, 0]), Err(DecodeError::UnknownTag));
    assert_eq!(decode_request(&[1, 9, 9]), Ok(Request::GetMessage));
    assert_eq!(decode_response(&[]), Err(DecodeError::Truncated));
    assert_eq!(decode_response(&[2]), Err(DecodeError::UnknownTag));
    assert_eq!(decode_response(&[1]), Err(DecodeError::Truncated));
    assert_eq!(decode_response(&[1, 2]), Err(DecodeError::BadFlag));
    assert_eq!(decode_response(&[1, 1, 5, 0, 0, 0, 0]), Err(DecodeError::UnknownTag));
    assert_eq!(decode_response(&[1, 1, 4, 0, 0, 0, 0, 0, 0, 0]), Err(DecodeError::Truncated));
    assert_eq!(decode_record(&[]), Err(DecodeError::Truncated));
    assert_eq!(decode_record(&[0, 1, 2, 3, 4, 5, 6, 7, 8, 9, 10, 11]), Err(DecodeError::Truncated));
    assert_eq!(
        decode_record(&[4, 1, 0, 0, 0, 2, 0, 0, 0]),
        Ok(LogMessage::Batt { v: 1, a: 2 })
    );
}

#[test]
fn concrete_scenario() {
    let buf = [accel(1.0, 2.0, 3.0), batt(4.0, 5.0)];
    let mut s = Session::new();
    let reqs = [
        Request::StartSending,
        Request::GetMessage,
        Request::GetMessage,
        Request::GetMessage,
    ];
    let out = converse(&mut s, &reqs, &buf);
    assert_eq!(
        out,
        vec![
            Response::SendingStarted,
            Response::Message(Some(accel(1.0, 2.0, 3.0))),
            Response::Message(Some(batt(4.0, 5.0))),
            Response::Message(None),
        ]
    );
    assert_eq!(s.state(), SessionState::AwaitStart);
}

#[test]
fn full_stream_in_buffer_order() {
    let buf = all_kinds();
    let n = buf.len();
    let mut s = Session::new();
    let mut reqs = vec![Request::StartSending];
    reqs.extend(std::iter::repeat(Request::GetMessage).take(n - 1));
    let out = converse(&mut s, &reqs, &buf);
    let mut expected = vec![Response::SendingStarted];
    expected.extend(buf.iter().map(|m| Response::Message(Some(*m))));
    assert_eq!(out, expected);
    assert_eq!(s.state(), SessionState::Sending { cursor: n - 1 });
    assert_eq!(s.respond(Request::GetMessage, &buf), vec![Response::Message(None)]);
    assert_eq!(s.state(), SessionState::AwaitStart);
    let again = s.respond(Request::StartSending, &buf);
    assert_eq!(again, vec![Response::SendingStarted, Response::Message(Some(buf[0]))]);
}

#[test]
fn empty_buffer() {
    let mut s = Session::new();
    let out = s.respond(Request::StartSending, &[]);
    assert_eq!(out, vec![Response::SendingStarted, Response::Message(None)]);
    assert_eq!(s.state(), SessionState::AwaitStart);
}

#[test]
fn unexpected_requests_are_ignored() {
    let buf = [batt(1.0, 2.0), batt(3.0, 4.0)];
    let mut s = Session::new();
    assert!(s.respond(Request::GetMessage, &buf).is_empty());
    assert!(s.respond(Request::SendingCompleted, &buf).is_empty());
    assert_eq!(s.state(), SessionState::AwaitStart);
    s.respond(Request::StartSending, &buf);
    assert!(s.respond(Request::StartSending, &buf).is_empty());
    assert!(s.respond(Request::SendingCompleted, &buf).is_empty());
    assert_eq!(s.state(), SessionState::Sending { cursor: 0 });
}

#[test]
fn packet_answers_are_frames() {
    let buf = [batt(1.0, 2.0)];
    let mut s = Session::new();
    let fs = s.handle_packet(&[0], &buf).unwrap();
    let rs = vec![Response::SendingStarted, Response::Message(Some(batt(1.0, 2.0)))];
    assert_eq!(fs, encode_all(&rs));
    assert_eq!(fs[0], vec![0]);
    assert_eq!(s.handle_packet(&[7], &buf), Err(DecodeError::UnknownTag));
    assert_eq!(s.state(), SessionState::Sending { cursor: 0 });
}

#[test]
fn malformed_input_ends_session_only() {
    let buf = [batt(1.0, 2.0), batt(3.0, 4.0)];
    let mut sup = Supervisor::new();
    frames(sup.step(&LinkEvent::Connected, &buf));
    let first = frames(sup.step(&LinkEvent::Packet(vec![0]), &buf));
    match sup.step(&LinkEvent::Packet(vec![9]), &buf) {
        Action::Close(e) => assert_eq!(e, SessionEnd::Malformed(DecodeError::UnknownTag)),
        Action::Write(_) => panic!("malformed packet answered"),
    }
    assert_eq!(sup.session_state(), None);
    assert!(frames(sup.step(&LinkEvent::Packet(vec![1]), &buf)).is_empty());
    frames(sup.step(&LinkEvent::Connected, &buf));
    assert_eq!(sup.session_state(), Some(SessionState::AwaitStart));
    let second = frames(sup.step(&LinkEvent::Packet(vec![0]), &buf));
    assert_eq!(first, second);
    match sup.step(&LinkEvent::Packet(vec![]), &buf) {
        Action::Close(e) => assert_eq!(e, SessionEnd::Malformed(DecodeError::Truncated)),
        Action::Write(_) => panic!("empty packet answered"),
    }
}

#[test]
fn disconnect_mid_stream_resets_cursor() {
    let buf = [batt(1.0, 2.0), batt(3.0, 4.0), batt(5.0, 6.0)];
    let mut sup = Supervisor::new();
    frames(sup.step(&LinkEvent::Connected, &buf));
    frames(sup.step(&LinkEvent::Packet(vec![0]), &buf));
    frames(sup.step(&LinkEvent::Packet(vec![1]), &buf));
    assert_eq!(sup.session_state(), Some(SessionState::Sending { cursor: 1 }));
    match sup.step(&LinkEvent::Disconnected, &buf) {
        Action::Close(e) => assert_eq!(e, SessionEnd::Disconnected),
        Action::Write(_) => panic!("disconnect not reported"),
    }
    assert_eq!(sup.session_state(), None);
    frames(sup.step(&LinkEvent::Connected, &buf));
    assert_eq!(sup.session_state(), Some(SessionState::AwaitStart));
    let out = frames(sup.step(&LinkEvent::Packet(vec![0]), &buf));
    assert_eq!(out[1], encode_response(&Response::Message(Some(buf[0]))));
}

#[test]
fn overflow_ends_session() {
    let buf = [batt(1.0, 2.0)];
    let mut sup = Supervisor::new();
    assert!(frames(sup.step(&LinkEvent::Overflow, &buf)).is_empty());
    frames(sup.step(&LinkEvent::Connected, &buf));
    match sup.step(&LinkEvent::Overflow, &buf) {
        Action::Close(e) => assert_eq!(e, SessionEnd::Overflow),
        Action::Write(_) => panic!("overflow not reported"),
    }
    assert_eq!(sup.session_state(), None);
}
