use vstd::prelude::*;

use crate::wire::{
    decode_request, encode_response, parse_request, response_bytes, DecodeError, LogMessage,
    Request, Response,
};

verus! {

/// Where a session stands in the message sequence.
#[derive(Clone, Copy, Debug, PartialEq, Eq, Structural)]
pub enum SessionState {
    /// Waiting for the host to ask for the stream.
    AwaitStart,
    /// The record at `cursor` has been sent; the host acknowledges it with
    /// `GetMessage`.
    Sending { cursor: usize },
}

/// Entering position `i`: send the record there, or end the stream.
pub open spec fn enter(i: int, buf: Seq<LogMessage>) -> (SessionState, Seq<Response>) {
    if 0 <= i < buf.len() {
        (SessionState::Sending { cursor: i as usize }, seq![Response::Message(Some(buf[i]))])
    } else {
        (SessionState::AwaitStart, seq![Response::Message(None)])
    }
}

/// The next state, and the responses sent in order, on one request.
pub open spec fn transition(st: SessionState, req: Request, buf: Seq<LogMessage>) -> (
    SessionState,
    Seq<Response>,
) {
    match (st, req) {
        (SessionState::AwaitStart, Request::StartSending) => {
            let (next, out) = enter(0, buf);
            (next, seq![Response::SendingStarted] + out)
        },
        (SessionState::Sending { cursor }, Request::GetMessage) => enter(cursor + 1, buf),
        _ => (st, Seq::empty()),
    }
}

/// Runs a whole sequence of requests from `st`: the state reached, and every
/// response sent, in order.
pub open spec fn run(st: SessionState, reqs: Seq<Request>, buf: Seq<LogMessage>) -> (
    SessionState,
    Seq<Response>,
)
    decreases reqs.len(),
{
    if reqs.len() == 0 {
        (st, Seq::empty())
    } else {
        let (mid, before) = run(st, reqs.drop_last(), buf);
        let (next, after) = transition(mid, reqs.last(), buf);
        (next, before + after)
    }
}

/// Every record of `buf` as a `Message`, in order.
pub open spec fn stream(buf: Seq<LogMessage>) -> Seq<Response> {
    buf.map(|i: int, m: LogMessage| Response::Message(Some(m)))
}

/// `n` acknowledgements in a row.
pub open spec fn acks(n: nat) -> Seq<Request> {
    Seq::new(n, |i: int| Request::GetMessage)
}

/// The frames of `rs`, one per response.
pub open spec fn frames_of(frames: Seq<Vec<u8>>, rs: Seq<Response>) -> bool {
    &&& frames.len() == rs.len()
    &&& forall|i: int| 0 <= i < rs.len() ==> #[trigger] frames[i]@ == response_bytes(rs[i])
}

/// One session of the protocol: answers requests about a read-only sequence
/// of records that the caller supplies with each request.
pub struct Session {
    state: SessionState,
}

impl Session {
    /// The state the session is in.
    pub closed spec fn view_state(&self) -> SessionState {
        self.state
    }

    /// A fresh session, waiting for `StartSending`.
    pub fn new() -> (s: Session)
        ensures
            s.view_state() == SessionState::AwaitStart,
    {
        Session { state: SessionState::AwaitStart }
    }

    /// The state the session is in.
    pub fn state(&self) -> (st: SessionState)
        ensures
            st == self.view_state(),
    {
        self.state
    }

    /// Moves to position `i` and returns what entering it sends.
    fn enter_at(&mut self, i: usize, messages: &[LogMessage], out: &mut Vec<Response>)
        ensures
            final(self).view_state() == enter(i as int, messages@).0,
            final(out)@ == old(out)@ + enter(i as int, messages@).1,
    {
        if i < messages.len() {
            self.state = SessionState::Sending { cursor: i };
            out.push(Response::Message(Some(messages[i])));
        } else {
            self.state = SessionState::AwaitStart;
            out.push(Response::Message(None));
        }
    }

    /// Answers one request: the responses to send, in order. Requests that
    /// the current state does not expect are ignored.
    pub fn respond(&mut self, req: Request, messages: &[LogMessage]) -> (out: Vec<Response>)
        ensures
            (final(self).view_state(), out@) == transition(old(self).view_state(), req, messages@),
    {
        let mut out: Vec<Response> = Vec::new();
        match (self.state, req) {
            (SessionState::AwaitStart, Request::StartSending) => {
                out.push(Response::SendingStarted);
                self.enter_at(0, messages, &mut out);
            },
            (SessionState::Sending { cursor }, Request::GetMessage) => {
                if cursor < messages.len() {
                    self.enter_at(cursor + 1, messages, &mut out);
                } else {
                    self.state = SessionState::AwaitStart;
                    out.push(Response::Message(None));
                }
            },
            _ => {},
        }
        assert(out@ =~= transition(old(self).view_state(), req, messages@).1);
        out
    }

    /// Decodes one request packet and answers it with the frames to write,
    /// in order. A packet that is no request is an error, and the state is
    /// kept.
    pub fn handle_packet(&mut self, packet: &[u8], messages: &[LogMessage]) -> (r: Result<
        Vec<Vec<u8>>,
        DecodeError,
    >)
        ensures
            match parse_request(packet@) {
                Ok(req) => {
                    let (next, rs) = transition(old(self).view_state(), req, messages@);
                    &&& final(self).view_state() == next
                    &&& r is Ok
                    &&& frames_of(r->Ok_0@, rs)
                },
                Err(e) => {
                    &&& final(self).view_state() == old(self).view_state()
                    &&& r == Err::<Vec<Vec<u8>>, DecodeError>(e)
                },
            },
    {
        match decode_request(packet) {
            Err(e) => Err(e),
            Ok(req) => {
                let rs = self.respond(req, messages);
                Ok(encode_all(&rs))
            },
        }
    }
}

/// The frames of several responses, in order.
pub fn encode_all(rs: &Vec<Response>) -> (frames: Vec<Vec<u8>>)
    ensures
        frames_of(frames@, rs@),
{
    let mut frames: Vec<Vec<u8>> = Vec::new();
    let mut i: usize = 0;
    while i < rs.len()
        invariant
            i <= rs@.len(),
            frames_of(frames@, rs@.subrange(0, i as int)),
        decreases rs@.len() - i,
    {
        frames.push(encode_response(&rs[i]));
        i = i + 1;
    }
    assert(rs@.subrange(0, i as int) =~= rs@);
    frames
}


proof fn lemma_stream_prefix(buf: Seq<LogMessage>, k: nat)
    requires
        k < buf.len(),
        buf.len() <= usize::MAX,
    ensures
        run(SessionState::AwaitStart, seq![Request::StartSending] + acks(k), buf) == (
            SessionState::Sending { cursor: k as usize },
            seq![Response::SendingStarted] + stream(buf.take(k as int + 1)),
        ),
    decreases k,
{
    let reqs = seq![Request::StartSending] + acks(k);
    if k == 0 {
        assert(reqs.drop_last() =~= Seq::<Request>::empty());
        assert(run(SessionState::AwaitStart, reqs.drop_last(), buf) == (
            SessionState::AwaitStart,
            Seq::<Response>::empty(),
        ));
        assert(reqs.last() == Request::StartSending);
        assert(stream(buf.take(1)) =~= seq![Response::Message(Some(buf[0]))]);
        assert(seq![Response::SendingStarted] + seq![Response::Message(Some(buf[0]))] =~= seq![
            Response::SendingStarted,
        ] + stream(buf.take(1)));
        assert(Seq::<Response>::empty() + (seq![Response::SendingStarted] + stream(buf.take(1)))
            =~= seq![Response::SendingStarted] + stream(buf.take(1)));
    } else {
        let j = (k - 1) as nat;
        lemma_stream_prefix(buf, j);
        assert(reqs.drop_last() =~= seq![Request::StartSending] + acks(j));
        assert(reqs.last() == Request::GetMessage);
        assert(stream(buf.take(k as int + 1)) =~= stream(buf.take(k as int)) + seq![
            Response::Message(Some(buf[k as int])),
        ]);
        assert(seq![Response::SendingStarted] + stream(buf.take(k as int)) + seq![
            Response::Message(Some(buf[k as int])),
        ] =~= seq![Response::SendingStarted] + stream(buf.take(k as int + 1)));
    }
}

/// Streaming a buffer of `n` records: `StartSending` and `n - 1`
/// acknowledgements bring `SendingStarted` and all `n` records in buffer
/// order, the session resting on the last one; one more acknowledgement
/// ends the stream with a single `Message(None)` and returns the session to
/// `AwaitStart`, where a new `StartSending` is taken up again.
pub proof fn lemma_full_stream(buf: Seq<LogMessage>)
    requires
        buf.len() <= usize::MAX,
    ensures
        buf.len() > 0 ==> run(
            SessionState::AwaitStart,
            seq![Request::StartSending] + acks((buf.len() - 1) as nat),
            buf,
        ) == (
            SessionState::Sending { cursor: (buf.len() - 1) as usize },
            seq![Response::SendingStarted] + stream(buf),
        ),
        run(SessionState::AwaitStart, seq![Request::StartSending] + acks(buf.len()), buf) == (
            SessionState::AwaitStart,
            seq![Response::SendingStarted] + stream(buf) + seq![Response::Message(None)],
        ),
        transition(SessionState::AwaitStart, Request::StartSending, buf).1[0]
            == Response::SendingStarted,
{
    let n = buf.len();
    let reqs = seq![Request::StartSending] + acks(n);
    if n == 0 {
        assert(reqs.drop_last() =~= Seq::<Request>::empty());
        assert(run(SessionState::AwaitStart, reqs.drop_last(), buf) == (
            SessionState::AwaitStart,
            Seq::<Response>::empty(),
        ));
        assert(reqs.last() == Request::StartSending);
        assert(stream(buf) =~= Seq::<Response>::empty());
        assert(Seq::<Response>::empty() + seq![Response::SendingStarted, Response::Message(None)]
            =~= seq![Response::SendingStarted] + stream(buf) + seq![Response::Message(None)]);
    } else {
        let j = (n - 1) as nat;
        lemma_stream_prefix(buf, j);
        assert(buf.take(n as int) =~= buf);
        assert(reqs.drop_last() =~= seq![Request::StartSending] + acks(j));
        assert(reqs.last() == Request::GetMessage);
    }
}

/// With no records, `StartSending` is answered by `SendingStarted` and at
/// once `Message(None)`, and the session waits for the next `StartSending`.
pub proof fn lemma_empty_buffer(buf: Seq<LogMessage>)
    requires
        buf.len() == 0,
    ensures
        transition(SessionState::AwaitStart, Request::StartSending, buf) == (
            SessionState::AwaitStart,
            seq![Response::SendingStarted, Response::Message(None)],
        ),
{
    assert(seq![Response::SendingStarted] + seq![Response::Message(None)] =~= seq![
        Response::SendingStarted,
        Response::Message(None),
    ]);
}

} // verus!
