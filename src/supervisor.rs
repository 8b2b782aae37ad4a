use vstd::prelude::*;

use crate::engine::{frames_of, transition, Session, SessionState};
use crate::wire::{parse_request, DecodeError, LogMessage, Response};

verus! {

/// What the link reports to the service loop.
pub enum LinkEvent {
    /// A host connected.
    Connected,
    /// One packet arrived from the host.
    Packet(Vec<u8>),
    /// The link was disabled or the host went away.
    Disconnected,
    /// A packet did not fit the link's buffer.
    Overflow,
}

/// Why a session ended.
#[derive(Clone, Copy, Debug, PartialEq, Eq, Structural)]
pub enum SessionEnd {
    Disconnected,
    Overflow,
    Malformed(DecodeError),
}

/// What the service loop does next.
pub enum Action {
    /// Write these frames, one packet each and in order, then wait for the
    /// next event.
    Write(Vec<Vec<u8>>),
    /// Drop the session, report why, and wait for the next connection.
    Close(SessionEnd),
}

/// The meaning of an `Action`.
pub enum Reaction {
    Reply(Seq<Response>),
    Close(SessionEnd),
}

/// The decision on one event: the session that is open afterwards, if any,
/// and what is done.
pub open spec fn supervise(link: Option<SessionState>, ev: LinkEvent, buf: Seq<LogMessage>) -> (
    Option<SessionState>,
    Reaction,
) {
    match ev {
        LinkEvent::Connected => (Some(SessionState::AwaitStart), Reaction::Reply(Seq::empty())),
        LinkEvent::Packet(p) => match link {
            None => (None, Reaction::Reply(Seq::empty())),
            Some(st) => match parse_request(p@) {
                Ok(req) => (Some(transition(st, req, buf).0), Reaction::Reply(
                    transition(st, req, buf).1,
                )),
                Err(e) => (None, Reaction::Close(SessionEnd::Malformed(e))),
            },
        },
        LinkEvent::Disconnected => match link {
            None => (None, Reaction::Reply(Seq::empty())),
            Some(_) => (None, Reaction::Close(SessionEnd::Disconnected)),
        },
        LinkEvent::Overflow => match link {
            None => (None, Reaction::Reply(Seq::empty())),
            Some(_) => (None, Reaction::Close(SessionEnd::Overflow)),
        },
    }
}

/// `a` carries out `r`.
pub open spec fn performs(a: Action, r: Reaction) -> bool {
    match r {
        Reaction::Reply(rs) => a is Write && frames_of(a->Write_0@, rs),
        Reaction::Close(e) => a is Close && a->Close_0 == e,
    }
}

/// The service loop's state: at most one open session at a time.
pub struct Supervisor {
    session: Option<Session>,
}

impl Supervisor {
    /// The state of the open session, if one is open.
    pub closed spec fn link(&self) -> Option<SessionState> {
        match self.session {
            Some(s) => Some(s.view_state()),
            None => None,
        }
    }

    /// A loop waiting for its first connection.
    pub fn new() -> (s: Supervisor)
        ensures
            s.link() == None::<SessionState>,
    {
        Supervisor { session: None }
    }

    /// The state of the open session, if one is open.
    pub fn session_state(&self) -> (r: Option<SessionState>)
        ensures
            r == self.link(),
    {
        match &self.session {
            Some(s) => Some(s.state()),
            None => None,
        }
    }

    /// Decides on one event. Every failure of a session ends that session
    /// only; the loop itself always goes on.
    pub fn step(&mut self, event: &LinkEvent, messages: &[LogMessage]) -> (a: Action)
        ensures
            final(self).link() == supervise(old(self).link(), *event, messages@).0,
            performs(a, supervise(old(self).link(), *event, messages@).1),
    {
        match event {
            LinkEvent::Connected => {
                self.session = Some(Session::new());
                Action::Write(Vec::new())
            },
            LinkEvent::Packet(p) => {
                match self.session.take() {
                    None => Action::Write(Vec::new()),
                    Some(mut s) => match s.handle_packet(p.as_slice(), messages) {
                        Ok(frames) => {
                            self.session = Some(s);
                            Action::Write(frames)
                        },
                        Err(e) => Action::Close(SessionEnd::Malformed(e)),
                    },
                }
            },
            LinkEvent::Disconnected => match self.session.take() {
                None => Action::Write(Vec::new()),
                Some(_) => Action::Close(SessionEnd::Disconnected),
            },
            LinkEvent::Overflow => match self.session.take() {
                None => Action::Write(Vec::new()),
                Some(_) => Action::Close(SessionEnd::Overflow),
            },
        }
    }
}


/// A packet that is no request, while a session is open, closes that session
/// with the decoding error and leaves the loop exactly as it was before its
/// first connection; the next connection then opens a session at
/// `AwaitStart`, as the first one did.
pub proof fn lemma_malformed_input(link: Option<SessionState>, ev: LinkEvent, buf: Seq<LogMessage>)
    requires
        link is Some,
        ev is Packet,
        parse_request(ev->Packet_0@) is Err,
    ensures
        supervise(link, ev, buf).0 == None::<SessionState>,
        supervise(link, ev, buf).1 == Reaction::Close(
            SessionEnd::Malformed(parse_request(ev->Packet_0@)->Err_0),
        ),
        supervise(supervise(link, ev, buf).0, LinkEvent::Connected, buf).0 == Some(
            SessionState::AwaitStart,
        ),
{
}

/// A disconnect in the middle of a stream, at any position, closes the
/// session; the next connection starts at `AwaitStart` and never resumes
/// the old position.
pub proof fn lemma_disconnect_mid_stream(cursor: usize, buf: Seq<LogMessage>)
    ensures
        supervise(Some(SessionState::Sending { cursor }), LinkEvent::Disconnected, buf).0 == None::<
            SessionState,
        >,
        supervise(Some(SessionState::Sending { cursor }), LinkEvent::Disconnected, buf).1
            == Reaction::Close(SessionEnd::Disconnected),
        supervise(None, LinkEvent::Connected, buf).0 == Some(SessionState::AwaitStart),
        forall|link: Option<SessionState>|
            #[trigger] supervise(link, LinkEvent::Connected, buf).0 == Some(
                SessionState::AwaitStart,
            ),
{
}

} // verus!
