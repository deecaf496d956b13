//! The values that travel between a client and the server, and how the
//! arbiter's events are written as such values.

use vstd::prelude::*;
use vstd::string::*;
use crate::arbiter::{Event, EventView};
use crate::text::texts;
use crate::moves::{
    outcome_label, outcome_label_spec, pick_text, role_label, role_label_spec,
};

verus! {

/// The bundle handed to a participant after pairing, as it is echoed on a socket.
#[derive(Debug, Clone)]
pub struct Assign {
    pub match_id: String,
    pub role: String,
    pub peer: Peer,
    pub rtc: RtcConfig,
}

/// The opponent: identifier and display handle.
#[derive(Debug, Clone)]
pub struct Peer {
    pub did: String,
    pub handle: String,
}

/// Relay servers offered for the peer-to-peer connection.
#[derive(Debug, Clone)]
pub struct RtcConfig {
    pub turns: Vec<String>,
}

/// A turn begins: its deadline and the server's clock, in milliseconds since
/// the epoch, so that a client can compute its clock offset.
#[derive(Debug, Clone)]
pub struct TurnStart {
    pub match_id: String,
    pub turn: u32,
    pub deadline_ms_epoch: i64,
    pub now_ms_epoch: i64,
}

/// The one result of a turn.
#[derive(Debug, Clone)]
pub struct TurnResult {
    pub match_id: String,
    pub turn: u32,
    /// `P1`, `P2` or `DRAW`.
    pub result: String,
    /// Whether any pick was substituted.
    pub ai: Option<bool>,
    /// The participants whose pick was substituted.
    pub ai_for_dids: Option<Vec<String>>,
    pub p1_move: Option<String>,
    pub p2_move: Option<String>,
}

/// The match is won by the seat named.
#[derive(Debug, Clone)]
pub struct MatchResult {
    pub match_id: String,
    pub winner: String,
}

/// Fewer than two participants remain in the match.
#[derive(Debug, Clone)]
pub struct OpponentLeft {
    pub match_id: String,
}

/// A structured error, or the acknowledgement of a heartbeat.
#[derive(Debug, Clone)]
pub struct ErrorMsg {
    pub code: String,
    pub msg: String,
}

/// What the server sends.
#[derive(Debug, Clone)]
pub enum ServerToClient {
    Assign(Assign),
    TurnStart(TurnStart),
    TurnResult(TurnResult),
    MatchResult(MatchResult),
    OpponentLeft(OpponentLeft),
    Error(ErrorMsg),
}

/// A session asks for a round by itself.
#[derive(Debug, Clone)]
pub struct ReadyForRound {
    pub tid: String,
    pub round: u32,
}

/// A sign of life.
#[derive(Debug, Clone)]
pub struct Heartbeat {}

/// A session description offered to the peer.
#[derive(Debug, Clone)]
pub struct SdpOffer {
    pub match_id: String,
    pub sdp: String,
}

/// A session description in answer to the peer.
#[derive(Debug, Clone)]
pub struct SdpAnswer {
    pub match_id: String,
    pub sdp: String,
}

/// A connectivity candidate for the peer.
#[derive(Debug, Clone)]
pub struct Ice {
    pub match_id: String,
    pub candidate: String,
}

/// The commitments of a participant to the picks of a match.
#[derive(Debug, Clone)]
pub struct CommitHashes {
    pub match_id: String,
    pub hashes: [String; 32],
}

/// A participant discloses the pick for a turn.
#[derive(Debug, Clone)]
pub struct Reveal {
    pub match_id: String,
    pub turn: u32,
    pub move_: String,
    pub nonce: String,
}

/// What a client sends.
#[derive(Debug, Clone)]
pub enum ClientToServer {
    ReadyForRound(ReadyForRound),
    Heartbeat(Heartbeat),
    SdpOffer(SdpOffer),
    SdpAnswer(SdpAnswer),
    Ice(Ice),
    CommitHashes(CommitHashes),
    Reveal(Reveal),
}

/// What a `ServerToClient` is, with texts as sequences of characters.
pub enum ServerView {
    Assign {
        match_id: Seq<char>,
        role: Seq<char>,
        peer_did: Seq<char>,
        peer_handle: Seq<char>,
        turns: Seq<Seq<char>>,
    },
    TurnStart { match_id: Seq<char>, turn: u32, deadline_ms_epoch: i64, now_ms_epoch: i64 },
    TurnResult {
        match_id: Seq<char>,
        turn: u32,
        result: Seq<char>,
        ai: Option<bool>,
        ai_for_dids: Option<Seq<Seq<char>>>,
        p1_move: Option<Seq<char>>,
        p2_move: Option<Seq<char>>,
    },
    MatchResult { match_id: Seq<char>, winner: Seq<char> },
    OpponentLeft { match_id: Seq<char> },
    Error { code: Seq<char>, msg: Seq<char> },
}

/// The text of an optional string.
pub open spec fn opt_text(s: Option<String>) -> Option<Seq<char>> {
    match s {
        Some(t) => Some(t@),
        None => None,
    }
}

/// The texts of an optional list of strings.
pub open spec fn opt_texts(s: Option<Vec<String>>) -> Option<Seq<Seq<char>>> {
    match s {
        Some(v) => Some(texts(v@)),
        None => None,
    }
}

impl View for ServerToClient {
    type V = ServerView;

    open spec fn view(&self) -> ServerView {
        match *self {
            ServerToClient::Assign(a) => ServerView::Assign {
                match_id: a.match_id@,
                role: a.role@,
                peer_did: a.peer.did@,
                peer_handle: a.peer.handle@,
                turns: texts(a.rtc.turns@),
            },
            ServerToClient::TurnStart(t) => ServerView::TurnStart {
                match_id: t.match_id@,
                turn: t.turn,
                deadline_ms_epoch: t.deadline_ms_epoch,
                now_ms_epoch: t.now_ms_epoch,
            },
            ServerToClient::TurnResult(t) => ServerView::TurnResult {
                match_id: t.match_id@,
                turn: t.turn,
                result: t.result@,
                ai: t.ai,
                ai_for_dids: opt_texts(t.ai_for_dids),
                p1_move: opt_text(t.p1_move),
                p2_move: opt_text(t.p2_move),
            },
            ServerToClient::MatchResult(m) => ServerView::MatchResult {
                match_id: m.match_id@,
                winner: m.winner@,
            },
            ServerToClient::OpponentLeft(o) => ServerView::OpponentLeft { match_id: o.match_id@ },
            ServerToClient::Error(e) => ServerView::Error { code: e.code@, msg: e.msg@ },
        }
    }
}

/// Milliseconds since the epoch as they are written on the wire: as they are
/// while they fit, else the largest that can be written.
pub open spec fn wire_millis(ms: u64) -> i64 {
    if ms <= i64::MAX {
        ms as i64
    } else {
        i64::MAX
    }
}

/// Writes milliseconds since the epoch for the wire.
pub fn millis_to_wire(ms: u64) -> (r: i64)
    ensures
        r == wire_millis(ms),
{
    if ms <= 0x7fff_ffff_ffff_ffffu64 {
        ms as i64
    } else {
        0x7fff_ffff_ffff_ffffi64
    }
}

/// An event of a match as it is written on the wire.
pub open spec fn wire_of(match_id: Seq<char>, e: EventView) -> ServerView {
    match e {
        EventView::TurnStart { turn, deadline_ms, now_ms } => ServerView::TurnStart {
            match_id,
            turn,
            deadline_ms_epoch: wire_millis(deadline_ms),
            now_ms_epoch: wire_millis(now_ms),
        },
        EventView::TurnResult { turn, outcome, p1_pick, p2_pick, substituted } => {
            ServerView::TurnResult {
                match_id,
                turn,
                result: outcome_label_spec(outcome),
                ai: Some(substituted.len() > 0),
                ai_for_dids: Some(substituted),
                p1_move: Some(seq![p1_pick]),
                p2_move: Some(seq![p2_pick]),
            }
        },
        EventView::MatchResult { winner } => ServerView::MatchResult {
            match_id,
            winner: role_label_spec(winner),
        },
        EventView::OpponentLeft => ServerView::OpponentLeft { match_id },
    }
}

/// A copy of a list of strings.
pub fn copy_texts(list: &Vec<String>) -> (out: Vec<String>)
    ensures
        texts(out@) == texts(list@),
{
    let mut out: Vec<String> = Vec::new();
    let mut i: usize = 0;
    while i < list.len()
        invariant
            i <= list.len(),
            out@.len() == i,
            forall|j: int| 0 <= j < i ==> out@[j]@ == list@[j]@,
        decreases list.len() - i,
    {
        out.push(list[i].clone());
        i += 1;
    }
    assert(texts(out@) =~= texts(list@));
    out
}

/// Writes an event of a match as the message that carries it: the outcome and
/// the winner as labels, each pick as one letter, the substituted participants
/// with the flag that says whether there are any, and the instants clamped to
/// what the wire can hold.
pub fn event_to_wire(match_id: &str, e: &Event) -> (m: ServerToClient)
    ensures
        m@ == wire_of(match_id@, e@),
{
    match e {
        Event::TurnStart { turn, deadline_ms, now_ms } => ServerToClient::TurnStart(
            TurnStart {
                match_id: match_id.to_owned(),
                turn: *turn,
                deadline_ms_epoch: millis_to_wire(*deadline_ms),
                now_ms_epoch: millis_to_wire(*now_ms),
            },
        ),
        Event::TurnResult { turn, outcome, p1_pick, p2_pick, substituted } => {
            ServerToClient::TurnResult(
                TurnResult {
                    match_id: match_id.to_owned(),
                    turn: *turn,
                    result: outcome_label(*outcome),
                    ai: Some(substituted.len() > 0),
                    ai_for_dids: Some(copy_texts(substituted)),
                    p1_move: Some(pick_text(*p1_pick)),
                    p2_move: Some(pick_text(*p2_pick)),
                },
            )
        },
        Event::MatchResult { winner } => ServerToClient::MatchResult(
            MatchResult { match_id: match_id.to_owned(), winner: role_label(*winner) },
        ),
        Event::OpponentLeft => ServerToClient::OpponentLeft(
            OpponentLeft { match_id: match_id.to_owned() },
        ),
    }
}

/// The codes of structured errors.
#[derive(Clone, Copy, Debug, PartialEq, Eq, Structural)]
pub enum ErrorCode {
    /// The benign acknowledgement of a heartbeat, written `OK`.
    Acknowledged,
    /// A frame could not be read as a known message.
    BadRequest,
    /// A binary frame came where text is required.
    Unsupported,
    /// A known message has no handler.
    Unimplemented,
    /// A reveal does not match its commitment.
    InvalidReveal,
}

/// The stable text of an error code.
pub open spec fn code_text(code: ErrorCode) -> Seq<char> {
    match code {
        ErrorCode::Acknowledged => "OK"@,
        ErrorCode::BadRequest => "BAD_REQUEST"@,
        ErrorCode::Unsupported => "UNSUPPORTED"@,
        ErrorCode::Unimplemented => "UNIMPLEMENTED"@,
        ErrorCode::InvalidReveal => "INVALID_REVEAL"@,
    }
}

/// The message that goes with an error code.
pub open spec fn code_message(code: ErrorCode) -> Seq<char> {
    match code {
        ErrorCode::Acknowledged => "pong"@,
        ErrorCode::BadRequest => "invalid message"@,
        ErrorCode::Unsupported => "binary not supported"@,
        ErrorCode::Unimplemented => "not yet implemented"@,
        ErrorCode::InvalidReveal => "reveal does not match commit"@,
    }
}

/// The error frame for a code.
pub fn error_frame(code: ErrorCode) -> (m: ServerToClient)
    ensures
        m@ == (ServerView::Error { code: code_text(code), msg: code_message(code) }),
{
    let (c, t) = match code {
        ErrorCode::Acknowledged => ("OK", "pong"),
        ErrorCode::BadRequest => ("BAD_REQUEST", "invalid message"),
        ErrorCode::Unsupported => ("UNSUPPORTED", "binary not supported"),
        ErrorCode::Unimplemented => ("UNIMPLEMENTED", "not yet implemented"),
        ErrorCode::InvalidReveal => ("INVALID_REVEAL", "reveal does not match commit"),
    };
    ServerToClient::Error(ErrorMsg { code: c.to_owned(), msg: t.to_owned() })
}

} // verus!
