//! What a session does with one inbound frame: answer on its own socket,
//! relay to the match, or hand a reveal to the arbiter.

use vstd::prelude::*;
use crate::arbiter::{idle, quiet, MatchState, MatchView, Step, StepView};
use crate::text::texts;
use crate::match_id::{echo_match_id, echo_match_id_spec};
use crate::moves::{label_pick, label_pick_spec, role_label, role_label_spec, Role};
use crate::wire::{
    code_message, code_text, error_frame, Assign, ClientToServer, ErrorCode, Peer, RtcConfig,
    ServerToClient, ServerView,
};

verus! {

/// One frame as it comes from a socket.
#[derive(Debug)]
pub enum Inbound {
    /// A text frame that reads as a known message.
    Message(ClientToServer),
    /// A text frame that does not.
    Unreadable,
    /// A binary frame.
    Binary,
}

/// What handling one frame asks of the session.
#[derive(Debug)]
pub struct Handled {
    /// A message for the session's own socket.
    pub reply: Option<ServerToClient>,
    /// The endpoints to which the frame is forwarded as it came.
    pub relay_to: Vec<u64>,
    /// What the arbiter asks for.
    pub step: Step,
}

/// What a `Handled` is, with texts as sequences of characters.
pub struct HandledView {
    pub reply: Option<ServerView>,
    pub relay_to: Seq<u64>,
    pub step: StepView,
}

/// The view of an optional message.
pub open spec fn opt_message(m: Option<ServerToClient>) -> Option<ServerView> {
    match m {
        Some(m) => Some(m@),
        None => None,
    }
}

impl View for Handled {
    type V = HandledView;

    open spec fn view(&self) -> HandledView {
        HandledView {
            reply: opt_message(self.reply),
            relay_to: self.relay_to@,
            step: self.step@,
        }
    }
}

/// The identifier of the opponent named in the echo of a request for a round.
pub open spec fn echo_peer_did() -> Seq<char> {
    "did:plc:peer"@
}

/// The handle of the opponent named in the echo of a request for a round.
pub open spec fn echo_peer_handle() -> Seq<char> {
    "opponent.example"@
}

/// The assignment echoed to a session that asks for a round by itself: the
/// first seat of the match named after tournament and round, against a
/// placeholder opponent.
pub open spec fn echo_spec(tid: Seq<char>, round: u32) -> ServerView {
    ServerView::Assign {
        match_id: echo_match_id_spec(tid, round),
        role: role_label_spec(Role::P1),
        peer_did: echo_peer_did(),
        peer_handle: echo_peer_handle(),
        turns: Seq::empty(),
    }
}

/// Writes the assignment echoed to a session that asks for a round by itself.
pub fn echo_assignment(tid: &str, round: u32) -> (m: ServerToClient)
    ensures
        m@ == echo_spec(tid@, round),
{
    let turns: Vec<String> = Vec::new();
    assert(texts(turns@) =~= Seq::<Seq<char>>::empty());
    ServerToClient::Assign(
        Assign {
            match_id: echo_match_id(tid, round),
            role: role_label(Role::P1),
            peer: Peer { did: "did:plc:peer".to_owned(), handle: "opponent.example".to_owned() },
            rtc: RtcConfig { turns },
        },
    )
}

/// The error frame for a code, as a view.
pub open spec fn error_view(code: ErrorCode) -> ServerView {
    ServerView::Error { code: code_text(code), msg: code_message(code) }
}

/// The state of the match after a session has handled a frame: a request for
/// a round starts the match if it has not started, a reveal goes to the
/// arbiter, and every other frame leaves the match as it is.
pub open spec fn after_frame(
    v: MatchView,
    who: Seq<char>,
    frame: Inbound,
    now_ms: u64,
    delay_ms: u64,
) -> MatchView {
    match frame {
        Inbound::Message(ClientToServer::ReadyForRound(_)) => v.after_start(now_ms, delay_ms),
        Inbound::Message(ClientToServer::Reveal(r)) => v.after_label(
            who,
            r.turn,
            r.move_@,
            now_ms,
            delay_ms,
        ),
        _ => v,
    }
}

/// What handling a frame asks for. A heartbeat is acknowledged; a request for
/// a round is answered with the echoed assignment and starts the match if it
/// has not started; offers, answers and candidates are relayed to every
/// endpoint of the match; a reveal goes to the arbiter, and is answered with
/// an error if its move is not R, P or S; commitments have no handler; text
/// that cannot be read and binary frames are answered with an error.
pub open spec fn frame_result(
    v: MatchView,
    who: Seq<char>,
    frame: Inbound,
    now_ms: u64,
    delay_ms: u64,
) -> HandledView {
    match frame {
        Inbound::Message(ClientToServer::Heartbeat(_)) => HandledView {
            reply: Some(error_view(ErrorCode::Acknowledged)),
            relay_to: Seq::empty(),
            step: idle(),
        },
        Inbound::Message(ClientToServer::ReadyForRound(r)) => HandledView {
            reply: Some(echo_spec(r.tid@, r.round)),
            relay_to: Seq::empty(),
            step: v.start_step(now_ms, delay_ms),
        },
        Inbound::Message(ClientToServer::SdpOffer(_)) => HandledView {
            reply: None,
            relay_to: v.endpoints,
            step: idle(),
        },
        Inbound::Message(ClientToServer::SdpAnswer(_)) => HandledView {
            reply: None,
            relay_to: v.endpoints,
            step: idle(),
        },
        Inbound::Message(ClientToServer::Ice(_)) => HandledView {
            reply: None,
            relay_to: v.endpoints,
            step: idle(),
        },
        Inbound::Message(ClientToServer::CommitHashes(_)) => HandledView {
            reply: Some(error_view(ErrorCode::Unimplemented)),
            relay_to: Seq::empty(),
            step: idle(),
        },
        Inbound::Message(ClientToServer::Reveal(r)) => HandledView {
            reply: if label_pick_spec(r.move_@) is Some {
                None
            } else {
                Some(error_view(ErrorCode::BadRequest))
            },
            relay_to: Seq::empty(),
            step: v.label_step(who, r.turn, r.move_@, now_ms, delay_ms),
        },
        Inbound::Unreadable => HandledView {
            reply: Some(error_view(ErrorCode::BadRequest)),
            relay_to: Seq::empty(),
            step: idle(),
        },
        Inbound::Binary => HandledView {
            reply: Some(error_view(ErrorCode::Unsupported)),
            relay_to: Seq::empty(),
            step: idle(),
        },
    }
}

fn answer(m: ServerToClient) -> (h: Handled)
    ensures
        h@ == (HandledView { reply: Some(m@), relay_to: Seq::empty(), step: idle() }),
{
    let h = Handled { reply: Some(m), relay_to: Vec::new(), step: quiet() };
    assert(h@.relay_to =~= Seq::<u64>::empty());
    h
}

fn forward(m: &MatchState) -> (h: Handled)
    ensures
        h@ == (HandledView { reply: None, relay_to: m@.endpoints, step: idle() }),
{
    Handled { reply: None, relay_to: m.endpoints(), step: quiet() }
}

/// Handles one frame that the session of `who` received for its match.
pub fn handle_frame(m: &mut MatchState, who: &str, frame: &Inbound, now_ms: u64, delay_ms: u64) -> (h:
    Handled)
    requires
        old(m).wf(),
        old(m)@.current_turn < u32::MAX,
    ensures
        final(m).wf(),
        final(m)@ == after_frame(old(m)@, who@, *frame, now_ms, delay_ms),
        h@ == frame_result(old(m)@, who@, *frame, now_ms, delay_ms),
{
    match frame {
        Inbound::Message(ClientToServer::Heartbeat(_)) => answer(
            error_frame(ErrorCode::Acknowledged),
        ),
        Inbound::Message(ClientToServer::ReadyForRound(r)) => {
            let reply = echo_assignment(r.tid.as_str(), r.round);
            let step = m.start(now_ms, delay_ms);
            let h = Handled { reply: Some(reply), relay_to: Vec::new(), step };
            assert(h@.relay_to =~= Seq::<u64>::empty());
            h
        },
        Inbound::Message(ClientToServer::SdpOffer(_)) => forward(m),
        Inbound::Message(ClientToServer::SdpAnswer(_)) => forward(m),
        Inbound::Message(ClientToServer::Ice(_)) => forward(m),
        Inbound::Message(ClientToServer::CommitHashes(_)) => answer(
            error_frame(ErrorCode::Unimplemented),
        ),
        Inbound::Message(ClientToServer::Reveal(r)) => {
            let reply = if label_pick(r.move_.as_str()).is_some() {
                None
            } else {
                Some(error_frame(ErrorCode::BadRequest))
            };
            let step = m.on_reveal(who, r.turn, r.move_.as_str(), now_ms, delay_ms);
            let h = Handled { reply, relay_to: Vec::new(), step };
            assert(h@.relay_to =~= Seq::<u64>::empty());
            h
        },
        Inbound::Unreadable => answer(error_frame(ErrorCode::BadRequest)),
        Inbound::Binary => answer(error_frame(ErrorCode::Unsupported)),
    }
}

} // verus!
