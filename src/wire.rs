use vstd::prelude::*;

verus! {

/// One telemetry record. Each field is the bit pattern of a little-endian
/// IEEE-754 single-precision float (`f32::to_bits`), so equality of records
/// is equality of their encodings.
#[derive(Clone, Copy, Debug, PartialEq, Eq, Structural)]
pub enum LogMessage {
    Accel { x: u32, y: u32, z: u32 },
    Gyro { x: u32, y: u32, z: u32 },
    Mag { x: u32, y: u32, z: u32 },
    Motors { m1: u32, m2: u32, m3: u32, m4: u32 },
    Batt { v: u32, a: u32 },
}

/// A command issued by the host.
#[derive(Clone, Copy, Debug, PartialEq, Eq, Structural)]
pub enum Request {
    StartSending,
    GetMessage,
    SendingCompleted,
}

/// An answer of the device. `Message(None)` marks the end of the stream.
#[derive(Clone, Copy, Debug, PartialEq, Eq, Structural)]
pub enum Response {
    SendingStarted,
    Message(Option<LogMessage>),
}

/// Why a byte sequence is not a frame.
#[derive(Clone, Copy, Debug, PartialEq, Eq, Structural)]
pub enum DecodeError {
    /// The input ends before the frame does.
    Truncated,
    /// A tag byte names no variant.
    UnknownTag,
    /// The presence flag of an optional record is neither 0 nor 1.
    BadFlag,
}

/// Largest packet the link carries; every frame fits in one.
pub const MTU: usize = 64;

/// The four bytes of `v`, least significant first.
pub open spec fn le32(v: u32) -> Seq<u8> {
    seq![v as u8, (v >> 8u32) as u8, (v >> 16u32) as u8, (v >> 24u32) as u8]
}

/// The `u32` whose little-endian bytes start at `at` in `s`.
pub open spec fn read32(s: Seq<u8>, at: int) -> u32 {
    (s[at] as u32) | ((s[at + 1] as u32) << 8u32) | ((s[at + 2] as u32) << 16u32) | ((s[at + 3]
        as u32) << 24u32)
}

/// Tag byte of each record variant.
pub open spec fn record_tag(m: LogMessage) -> u8 {
    match m {
        LogMessage::Accel { .. } => 0,
        LogMessage::Gyro { .. } => 1,
        LogMessage::Mag { .. } => 2,
        LogMessage::Motors { .. } => 3,
        LogMessage::Batt { .. } => 4,
    }
}

/// Number of float fields of a record variant, by tag.
pub open spec fn field_count(tag: u8) -> int {
    if tag <= 2 {
        3
    } else if tag == 3 {
        4
    } else {
        2
    }
}

/// Frame of a record: its tag, then each field as four little-endian bytes.
pub open spec fn record_bytes(m: LogMessage) -> Seq<u8> {
    match m {
        LogMessage::Accel { x, y, z } => seq![0u8] + le32(x) + le32(y) + le32(z),
        LogMessage::Gyro { x, y, z } => seq![1u8] + le32(x) + le32(y) + le32(z),
        LogMessage::Mag { x, y, z } => seq![2u8] + le32(x) + le32(y) + le32(z),
        LogMessage::Motors { m1, m2, m3, m4 } => seq![3u8] + le32(m1) + le32(m2) + le32(m3) + le32(
            m4,
        ),
        LogMessage::Batt { v, a } => seq![4u8] + le32(v) + le32(a),
    }
}

/// Frame of a request: its tag alone.
pub open spec fn request_bytes(r: Request) -> Seq<u8> {
    match r {
        Request::StartSending => seq![0u8],
        Request::GetMessage => seq![1u8],
        Request::SendingCompleted => seq![2u8],
    }
}

/// Frame of a response: its tag, then for `Message` a presence flag and the
/// record if there is one.
pub open spec fn response_bytes(r: Response) -> Seq<u8> {
    match r {
        Response::SendingStarted => seq![0u8],
        Response::Message(None) => seq![1u8, 0u8],
        Response::Message(Some(m)) => seq![1u8, 1u8] + record_bytes(m),
    }
}

/// The record whose frame starts at `at` in `s`; bytes after it are not read.
pub open spec fn parse_record_at(s: Seq<u8>, at: int) -> Result<LogMessage, DecodeError> {
    if at >= s.len() {
        Err(DecodeError::Truncated)
    } else if s[at] > 4 {
        Err(DecodeError::UnknownTag)
    } else if s.len() < at + 1 + 4 * field_count(s[at]) {
        Err(DecodeError::Truncated)
    } else {
        let f0 = read32(s, at + 1);
        let f1 = read32(s, at + 5);
        let f2 = read32(s, at + 9);
        let f3 = read32(s, at + 13);
        Ok(
            if s[at] == 0 {
                LogMessage::Accel { x: f0, y: f1, z: f2 }
            } else if s[at] == 1 {
                LogMessage::Gyro { x: f0, y: f1, z: f2 }
            } else if s[at] == 2 {
                LogMessage::Mag { x: f0, y: f1, z: f2 }
            } else if s[at] == 3 {
                LogMessage::Motors { m1: f0, m2: f1, m3: f2, m4: f3 }
            } else {
                LogMessage::Batt { v: f0, a: f1 }
            },
        )
    }
}

/// The request framed at the start of `s`; bytes after it are not read.
pub open spec fn parse_request(s: Seq<u8>) -> Result<Request, DecodeError> {
    if s.len() == 0 {
        Err(DecodeError::Truncated)
    } else if s[0] == 0 {
        Ok(Request::StartSending)
    } else if s[0] == 1 {
        Ok(Request::GetMessage)
    } else if s[0] == 2 {
        Ok(Request::SendingCompleted)
    } else {
        Err(DecodeError::UnknownTag)
    }
}

/// The response framed at the start of `s`; bytes after it are not read.
pub open spec fn parse_response(s: Seq<u8>) -> Result<Response, DecodeError> {
    if s.len() == 0 {
        Err(DecodeError::Truncated)
    } else if s[0] == 0 {
        Ok(Response::SendingStarted)
    } else if s[0] != 1 {
        Err(DecodeError::UnknownTag)
    } else if s.len() < 2 {
        Err(DecodeError::Truncated)
    } else if s[1] == 0 {
        Ok(Response::Message(None))
    } else if s[1] != 1 {
        Err(DecodeError::BadFlag)
    } else {
        match parse_record_at(s, 2) {
            Ok(m) => Ok(Response::Message(Some(m))),
            Err(e) => Err(e),
        }
    }
}

proof fn lemma_le32_bits(v: u32)
    by (bit_vector)
    ensures
        ((v as u8) as u32) | ((((v >> 8u32) as u8) as u32) << 8u32) | ((((v >> 16u32) as u8) as u32)
            << 16u32) | ((((v >> 24u32) as u8) as u32) << 24u32) == v,
{
}

/// Four bytes written by `le32` read back as the same value, wherever they stand.
pub proof fn lemma_read_le32(s: Seq<u8>, at: int, v: u32)
    requires
        0 <= at,
        at + 4 <= s.len(),
        s.subrange(at, at + 4) == le32(v),
    ensures
        read32(s, at) == v,
{
    assert(s[at] == s.subrange(at, at + 4)[0]);
    assert(s[at + 1] == s.subrange(at, at + 4)[1]);
    assert(s[at + 2] == s.subrange(at, at + 4)[2]);
    assert(s[at + 3] == s.subrange(at, at + 4)[3]);
    lemma_le32_bits(v);
}


proof fn lemma_field(s: Seq<u8>, at: int, t: Seq<u8>, off: int, v: u32)
    requires
        0 <= at,
        0 <= off,
        off + 4 <= t.len(),
        at + t.len() <= s.len(),
        forall|k: int| 0 <= k < t.len() ==> s[at + k] == #[trigger] t[k],
        t.subrange(off, off + 4) == le32(v),
    ensures
        read32(s, at + off) == v,
{
    assert(s.subrange(at + off, at + off + 4) =~= le32(v)) by {
        assert forall|i: int| 0 <= i < 4 implies s[at + off + i] == le32(v)[i] by {
            assert(t[off + i] == t.subrange(off, off + 4)[i]);
        }
    }
    lemma_read_le32(s, at + off, v);
}

/// A record frame read back where it was written gives the same record.
pub proof fn lemma_record_round_trip(s: Seq<u8>, at: int, m: LogMessage)
    requires
        0 <= at,
        at + record_bytes(m).len() <= s.len(),
        s.subrange(at, at + record_bytes(m).len()) == record_bytes(m),
    ensures
        parse_record_at(s, at) == Ok::<LogMessage, DecodeError>(m),
{
    let t = record_bytes(m);
    assert forall|k: int| 0 <= k < t.len() implies s[at + k] == #[trigger] t[k] by {
        assert(s.subrange(at, at + t.len())[k] == s[at + k]);
    }
    assert(s[at] == t[0]);
    match m {
        LogMessage::Accel { x, y, z } | LogMessage::Gyro { x, y, z } | LogMessage::Mag { x, y, z } => {
            assert(t.subrange(1, 5) =~= le32(x));
            assert(t.subrange(5, 9) =~= le32(y));
            assert(t.subrange(9, 13) =~= le32(z));
            lemma_field(s, at, t, 1, x);
            lemma_field(s, at, t, 5, y);
            lemma_field(s, at, t, 9, z);
        },
        LogMessage::Motors { m1, m2, m3, m4 } => {
            assert(t.subrange(1, 5) =~= le32(m1));
            assert(t.subrange(5, 9) =~= le32(m2));
            assert(t.subrange(9, 13) =~= le32(m3));
            assert(t.subrange(13, 17) =~= le32(m4));
            lemma_field(s, at, t, 1, m1);
            lemma_field(s, at, t, 5, m2);
            lemma_field(s, at, t, 9, m3);
            lemma_field(s, at, t, 13, m4);
        },
        LogMessage::Batt { v, a } => {
            assert(t.subrange(1, 5) =~= le32(v));
            assert(t.subrange(5, 9) =~= le32(a));
            lemma_field(s, at, t, 1, v);
            lemma_field(s, at, t, 5, a);
        },
    }
}

/// Decoding the frame of any request gives that request back.
pub proof fn lemma_request_round_trip(r: Request)
    ensures
        parse_request(request_bytes(r)) == Ok::<Request, DecodeError>(r),
{
}

/// Decoding the frame of any record gives that record back.
pub proof fn lemma_record_frame_round_trip(m: LogMessage)
    ensures
        parse_record_at(record_bytes(m), 0) == Ok::<LogMessage, DecodeError>(m),
{
    let t = record_bytes(m);
    assert(t.subrange(0, t.len() as int) =~= t);
    lemma_record_round_trip(t, 0, m);
}

/// Decoding the frame of any response gives that response back.
pub proof fn lemma_response_round_trip(r: Response)
    ensures
        parse_response(response_bytes(r)) == Ok::<Response, DecodeError>(r),
{
    if let Response::Message(Some(m)) = r {
        let s = response_bytes(r);
        let t = record_bytes(m);
        assert(s.subrange(2, 2 + t.len() as int) =~= t);
        lemma_record_round_trip(s, 2, m);
    }
}


/// Appends the four little-endian bytes of `v`.
fn push_u32(out: &mut Vec<u8>, v: u32)
    ensures
        final(out)@ == old(out)@ + le32(v),
{
    out.push(v as u8);
    out.push((v >> 8u32) as u8);
    out.push((v >> 16u32) as u8);
    out.push((v >> 24u32) as u8);
    assert(final(out)@ =~= old(out)@ + le32(v));
}

/// Appends the frame of `m`.
fn push_record(out: &mut Vec<u8>, m: &LogMessage)
    ensures
        final(out)@ == old(out)@ + record_bytes(*m),
{
    let ghost start = out@;
    match *m {
        LogMessage::Accel { x, y, z } => {
            out.push(0u8);
            push_u32(out, x);
            push_u32(out, y);
            push_u32(out, z);
        },
        LogMessage::Gyro { x, y, z } => {
            out.push(1u8);
            push_u32(out, x);
            push_u32(out, y);
            push_u32(out, z);
        },
        LogMessage::Mag { x, y, z } => {
            out.push(2u8);
            push_u32(out, x);
            push_u32(out, y);
            push_u32(out, z);
        },
        LogMessage::Motors { m1, m2, m3, m4 } => {
            out.push(3u8);
            push_u32(out, m1);
            push_u32(out, m2);
            push_u32(out, m3);
            push_u32(out, m4);
        },
        LogMessage::Batt { v, a } => {
            out.push(4u8);
            push_u32(out, v);
            push_u32(out, a);
        },
    }
    assert(out@ =~= start + record_bytes(*m));
}

/// The frame of a record.
pub fn encode_record(m: &LogMessage) -> (r: Vec<u8>)
    ensures
        r@ == record_bytes(*m),
        r@.len() <= MTU,
{
    let mut out: Vec<u8> = Vec::new();
    push_record(&mut out, m);
    assert(out@ =~= record_bytes(*m));
    out
}

/// The frame of a request.
pub fn encode_request(r: &Request) -> (out: Vec<u8>)
    ensures
        out@ == request_bytes(*r),
{
    let tag: u8 = match *r {
        Request::StartSending => 0,
        Request::GetMessage => 1,
        Request::SendingCompleted => 2,
    };
    let out = vec![tag];
    assert(out@ =~= request_bytes(*r));
    out
}

/// The frame of a response; it always fits in one packet.
pub fn encode_response(r: &Response) -> (out: Vec<u8>)
    ensures
        out@ == response_bytes(*r),
        out@.len() <= MTU,
{
    let mut out: Vec<u8> = Vec::new();
    match *r {
        Response::SendingStarted => {
            out.push(0u8);
        },
        Response::Message(None) => {
            out.push(1u8);
            out.push(0u8);
        },
        Response::Message(Some(m)) => {
            out.push(1u8);
            out.push(1u8);
            push_record(&mut out, &m);
        },
    }
    assert(out@ =~= response_bytes(*r));
    out
}

/// The `u32` stored little-endian at `at`.
fn read_u32(b: &[u8], at: usize) -> (r: u32)
    requires
        at + 4 <= b@.len(),
    ensures
        r == read32(b@, at as int),
{
    (b[at] as u32) | ((b[at + 1] as u32) << 8u32) | ((b[at + 2] as u32) << 16u32) | ((b[at + 3]
        as u32) << 24u32)
}

/// The record framed at `at`; bytes after it are not read.
fn decode_record_at(b: &[u8], at: usize) -> (r: Result<LogMessage, DecodeError>)
    ensures
        r == parse_record_at(b@, at as int),
{
    if at >= b.len() {
        return Err(DecodeError::Truncated);
    }
    let tag = b[at];
    if tag > 4 {
        return Err(DecodeError::UnknownTag);
    }
    let fields: usize = if tag <= 2 {
        3
    } else if tag == 3 {
        4
    } else {
        2
    };
    if b.len() - at < 1 + 4 * fields {
        return Err(DecodeError::Truncated);
    }
    let f0 = read_u32(b, at + 1);
    let f1 = read_u32(b, at + 5);
    let m = if tag == 0 {
        LogMessage::Accel { x: f0, y: f1, z: read_u32(b, at + 9) }
    } else if tag == 1 {
        LogMessage::Gyro { x: f0, y: f1, z: read_u32(b, at + 9) }
    } else if tag == 2 {
        LogMessage::Mag { x: f0, y: f1, z: read_u32(b, at + 9) }
    } else if tag == 3 {
        LogMessage::Motors { m1: f0, m2: f1, m3: read_u32(b, at + 9), m4: read_u32(b, at + 13) }
    } else {
        LogMessage::Batt { v: f0, a: f1 }
    };
    Ok(m)
}

/// The record framed at the start of `bytes`.
pub fn decode_record(bytes: &[u8]) -> (r: Result<LogMessage, DecodeError>)
    ensures
        r == parse_record_at(bytes@, 0),
{
    decode_record_at(bytes, 0)
}

/// The request framed at the start of `bytes`.
pub fn decode_request(bytes: &[u8]) -> (r: Result<Request, DecodeError>)
    ensures
        r == parse_request(bytes@),
{
    if bytes.len() == 0 {
        Err(DecodeError::Truncated)
    } else if bytes[0] == 0 {
        Ok(Request::StartSending)
    } else if bytes[0] == 1 {
        Ok(Request::GetMessage)
    } else if bytes[0] == 2 {
        Ok(Request::SendingCompleted)
    } else {
        Err(DecodeError::UnknownTag)
    }
}

/// The response framed at the start of `bytes`.
pub fn decode_response(bytes: &[u8]) -> (r: Result<Response, DecodeError>)
    ensures
        r == parse_response(bytes@),
{
    if bytes.len() == 0 {
        Err(DecodeError::Truncated)
    } else if bytes[0] == 0 {
        Ok(Response::SendingStarted)
    } else if bytes[0] != 1 {
        Err(DecodeError::UnknownTag)
    } else if bytes.len() < 2 {
        Err(DecodeError::Truncated)
    } else if bytes[1] == 0 {
        Ok(Response::Message(None))
    } else if bytes[1] != 1 {
        Err(DecodeError::BadFlag)
    } else {
        match decode_record_at(bytes, 2) {
            Ok(m) => Ok(Response::Message(Some(m))),
            Err(e) => Err(e),
        }
    }
}

} // verus!
