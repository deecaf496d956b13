//! The scripted client: what a simulated player sends and expects while it
//! plays a planned sequence of turns. The session layer feeds it what it saw
//! on the socket and performs what it asks for.

use vstd::prelude::*;
use vstd::string::*;
use vstd::utf8::encode_utf8;
use crate::moves::{
    expected_winner, expected_winner_spec, outcome_label_spec, parse_role, role_label_spec, Outcome,
    Role,
};
use crate::text::{append_chars, append_decimal, decimal_spec, from_chars, same_text, to_chars};
use crate::wire::Reveal;

verus! {

/// Milliseconds for which a player asks the queue for a seat.
pub const QUEUE_WINDOW_MS: u64 = 20_000;

/// Milliseconds between two requests to the queue.
pub const QUEUE_PAUSE_MS: u64 = 200;

/// Milliseconds for which a player waits for the next message of a turn.
pub const PHASE_TIMEOUT_MS: u64 = 12_000;

/// What a player holds once it has a seat.
#[derive(Debug)]
pub struct AssignInfo {
    pub match_id: String,
    pub ticket: String,
    pub role: Role,
}

/// Why a simulated player gives up.
#[derive(Clone, Copy, Debug, PartialEq, Eq, Structural)]
pub enum SimError {
    /// An assignment names no role.
    MissingRole,
    /// No seat came from the queue in time.
    QueueTimeout,
    /// A turn did not end as the script expects.
    Unexpected { turn: u32, expected: Outcome },
    /// The opponent left before a turn was resolved.
    OpponentLeft { turn: u32 },
}

/// May a player that has asked for `elapsed_ms` ask the queue again?
pub fn may_ask(elapsed_ms: u64) -> (r: bool)
    ensures
        r == (elapsed_ms < QUEUE_WINDOW_MS),
{
    elapsed_ms < QUEUE_WINDOW_MS
}

/// The prefix of the identifier of a simulated participant.
pub open spec fn did_prefix() -> Seq<char> {
    seq!['d', 'i', 'd', ':', 'p', 'l', 'c', ':']
}

/// The identifier of the simulated participant of a name.
pub fn participant_id(name: &str) -> (r: String)
    ensures
        r@ == did_prefix() + name@,
{
    let mut out: Vec<char> = Vec::new();
    out.push('d');
    out.push('i');
    out.push('d');
    out.push(':');
    out.push('p');
    out.push('l');
    out.push('c');
    out.push(':');
    append_chars(&mut out, &to_chars(name));
    assert(out@ =~= did_prefix() + name@);
    from_chars(&out)
}

/// What an assignment from the queue gives a player: no role where the label
/// names none, a timeout where the ticket is empty, else the seat.
pub open spec fn assign_info_spec(
    match_id: Seq<char>,
    ticket: Seq<char>,
    role: Seq<char>,
) -> Result<(Seq<char>, Seq<char>, Role), SimError> {
    if role == role_label_spec(Role::P1) || role == role_label_spec(Role::P2) {
        if ticket.len() == 0 {
            Err(SimError::QueueTimeout)
        } else if role == role_label_spec(Role::P1) {
            Ok((match_id, ticket, Role::P1))
        } else {
            Ok((match_id, ticket, Role::P2))
        }
    } else {
        Err(SimError::MissingRole)
    }
}

/// The view of a seat or an error.
pub open spec fn info_view(r: Result<AssignInfo, SimError>) -> Result<
    (Seq<char>, Seq<char>, Role),
    SimError,
> {
    match r {
        Ok(a) => Ok((a.match_id@, a.ticket@, a.role)),
        Err(e) => Err(e),
    }
}

/// Reads an assignment from the queue.
pub fn assign_info(match_id: &str, ticket: &str, role: &str) -> (r: Result<AssignInfo, SimError>)
    ensures
        info_view(r) == assign_info_spec(match_id@, ticket@, role@),
{
    proof {
        assert(role_label_spec(Role::P1) != role_label_spec(Role::P2)) by {
            assert(role_label_spec(Role::P1)[1] == '1');
            assert(role_label_spec(Role::P2)[1] == '2');
        }
    }
    let seat = match parse_role(role) {
        Some(r) => r,
        None => { return Err(SimError::MissingRole); },
    };
    if ticket.unicode_len() == 0 {
        return Err(SimError::QueueTimeout);
    }
    Ok(AssignInfo { match_id: match_id.to_owned(), ticket: ticket.to_owned(), role: seat })
}

/// Is a byte written as it is in a percent-encoded text? Letters, digits,
/// and hyphen, full stop, underscore and tilde are.
pub open spec fn is_unreserved(b: u8) -> bool {
    (0x30 <= b <= 0x39) || (0x41 <= b <= 0x5a) || (0x61 <= b <= 0x7a) || b == 0x2d || b == 0x2e
        || b == 0x5f || b == 0x7e
}

/// The upper-case character of a hexadecimal digit.
pub open spec fn upper_hex(d: int) -> char {
    if d < 10 {
        crate::text::digit_char(d)
    } else if d == 10 {
        'A'
    } else if d == 11 {
        'B'
    } else if d == 12 {
        'C'
    } else if d == 13 {
        'D'
    } else if d == 14 {
        'E'
    } else {
        'F'
    }
}

/// One byte percent-encoded: itself if it is unreserved, else a percent sign
/// and its two upper-case hexadecimal digits.
pub open spec fn percent_byte(b: u8) -> Seq<char> {
    if is_unreserved(b) {
        seq![b as char]
    } else {
        seq!['%', upper_hex(b as int / 16), upper_hex(b as int % 16)]
    }
}

/// Bytes percent-encoded, one after the other.
pub open spec fn percent_encoded(bytes: Seq<u8>) -> Seq<char>
    decreases bytes.len(),
{
    if bytes.len() == 0 {
        Seq::empty()
    } else {
        percent_encoded(bytes.drop_last()) + percent_byte(bytes.last())
    }
}

/// Percent-encodes a text for use in a query.
///
/// Trusted: this is `urlencoding::encode`, whose documentation says that it
/// percent-encodes every byte of the text's UTF-8 form except letters,
/// digits, hyphen, underscore, full stop and tilde; its source writes the two
/// hexadecimal digits in upper case. The contract claims exactly that.
#[verifier::external_body]
pub(crate) fn url_encode(text: &str) -> (r: String)
    ensures
        r@ == percent_encoded(encode_utf8(text@)),
{
    urlencoding::encode(text).into_owned()
}

/// The text that introduces the ticket in the address of a socket.
pub open spec fn ticket_query() -> Seq<char> {
    seq!['?', 't', 'i', 'c', 'k', 'e', 't', '=']
}

/// The address at which a player opens its socket: the server's address with
/// the ticket, percent-encoded, as its query.
pub fn socket_url(signal_ws: &str, ticket: &str) -> (r: String)
    ensures
        r@ == signal_ws@ + ticket_query() + percent_encoded(encode_utf8(ticket@)),
{
    let mut out = to_chars(signal_ws);
    out.push('?');
    out.push('t');
    out.push('i');
    out.push('c');
    out.push('k');
    out.push('e');
    out.push('t');
    out.push('=');
    let encoded = url_encode(ticket);
    append_chars(&mut out, &to_chars(encoded.as_str()));
    assert(out@ =~= signal_ws@ + ticket_query() + percent_encoded(encode_utf8(ticket@)));
    from_chars(&out)
}

/// The nonce of a reveal: the letter n, the player's name, the turn.
pub open spec fn nonce_spec(name: Seq<char>, turn: u32) -> Seq<char> {
    seq!['n'] + name + decimal_spec(turn as nat)
}

/// Writes the nonce of a reveal.
pub fn reveal_nonce(name: &str, turn: u32) -> (r: String)
    ensures
        r@ == nonce_spec(name@, turn),
{
    let mut out: Vec<char> = Vec::new();
    out.push('n');
    append_chars(&mut out, &to_chars(name));
    append_decimal(&mut out, turn);
    assert(out@ =~= nonce_spec(name@, turn));
    from_chars(&out)
}

/// One planned turn: what the first and what the second seat play.
#[derive(Debug)]
pub struct PlannedTurn {
    pub p1: String,
    pub p2: String,
}

/// What a `PlannedTurn` is, with texts as sequences of characters.
pub struct PlannedView {
    pub p1: Seq<char>,
    pub p2: Seq<char>,
}

impl View for PlannedTurn {
    type V = PlannedView;

    open spec fn view(&self) -> PlannedView {
        PlannedView { p1: self.p1@, p2: self.p2@ }
    }
}

/// The views of a script.
pub open spec fn script_view(s: Seq<PlannedTurn>) -> Seq<PlannedView> {
    Seq::new(s.len(), |i: int| s[i]@)
}

impl PlannedView {
    /// What the seat plays in this turn.
    pub open spec fn pick_of(self, role: Role) -> Seq<char> {
        match role {
            Role::P1 => self.p1,
            Role::P2 => self.p2,
        }
    }

    /// How the turn is expected to end.
    pub open spec fn expected(self) -> Outcome {
        match expected_winner_spec(self.p1, self.p2) {
            Some(Role::P1) => Outcome::P1,
            Some(Role::P2) => Outcome::P2,
            None => Outcome::Draw,
        }
    }
}

/// The script of the demonstration: three turns, each won by the first seat.
pub fn demo_script() -> (s: Vec<PlannedTurn>)
    ensures
        script_view(s@) == seq![
            PlannedView { p1: seq!['R'], p2: seq!['S'] },
            PlannedView { p1: seq!['P'], p2: seq!['R'] },
            PlannedView { p1: seq!['S'], p2: seq!['P'] },
        ],
        forall|i: int| 0 <= i < 3 ==> (#[trigger] script_view(s@)[i]).expected() == Outcome::P1,
{
    proof {
        reveal_strlit("R");
        reveal_strlit("P");
        reveal_strlit("S");
    }
    let mut s: Vec<PlannedTurn> = Vec::new();
    s.push(PlannedTurn { p1: "R".to_owned(), p2: "S".to_owned() });
    s.push(PlannedTurn { p1: "P".to_owned(), p2: "R".to_owned() });
    s.push(PlannedTurn { p1: "S".to_owned(), p2: "P".to_owned() });
    proof {
        assert("R"@ =~= seq!['R']);
        assert("P"@ =~= seq!['P']);
        assert("S"@ =~= seq!['S']);
        assert(script_view(s@) =~= seq![
            PlannedView { p1: seq!['R'], p2: seq!['S'] },
            PlannedView { p1: seq!['P'], p2: seq!['R'] },
            PlannedView { p1: seq!['S'], p2: seq!['P'] },
        ]);
    }
    s
}

/// What a player saw on its socket.
#[derive(Debug)]
pub enum Seen {
    /// A turn begins.
    TurnStart { turn: u32 },
    /// A turn is resolved, with the label of its outcome.
    TurnResult { turn: u32, result: String },
    /// The opponent left.
    OpponentLeft,
    /// Anything else.
    Other,
}

/// What a `Seen` is, with texts as sequences of characters.
pub enum SeenView {
    TurnStart { turn: u32 },
    TurnResult { turn: u32, result: Seq<char> },
    OpponentLeft,
    Other,
}

impl View for Seen {
    type V = SeenView;

    open spec fn view(&self) -> SeenView {
        match *self {
            Seen::TurnStart { turn } => SeenView::TurnStart { turn },
            Seen::TurnResult { turn, result } => SeenView::TurnResult { turn, result: result@ },
            Seen::OpponentLeft => SeenView::OpponentLeft,
            Seen::Other => SeenView::Other,
        }
    }
}

/// What a player does next.
#[derive(Debug)]
pub enum PlayerAction {
    /// Keep listening.
    Listen,
    /// Send this reveal, then keep listening.
    Send(Reveal),
    /// The script is played: close the socket.
    Finish,
    /// Give up.
    Fail(SimError),
}

/// What a `PlayerAction` is, with texts as sequences of characters.
pub enum ActionView {
    Listen,
    Send { match_id: Seq<char>, turn: u32, move_: Seq<char>, nonce: Seq<char> },
    Finish,
    Fail(SimError),
}

impl View for PlayerAction {
    type V = ActionView;

    open spec fn view(&self) -> ActionView {
        match *self {
            PlayerAction::Listen => ActionView::Listen,
            PlayerAction::Send(r) => ActionView::Send {
                match_id: r.match_id@,
                turn: r.turn,
                move_: r.move_@,
                nonce: r.nonce@,
            },
            PlayerAction::Finish => ActionView::Finish,
            PlayerAction::Fail(e) => ActionView::Fail(e),
        }
    }
}

/// The mathematical state of a player.
pub struct PlayerView {
    pub name: Seq<char>,
    pub match_id: Seq<char>,
    pub role: Role,
    pub script: Seq<PlannedView>,
    /// How many turns of the script are played.
    pub played: nat,
    /// The turn whose result is awaited, once its start has been seen.
    pub awaiting: Option<u32>,
}

impl PlayerView {
    /// A player is never further than its script.
    pub open spec fn wf(self) -> bool {
        self.played <= self.script.len()
    }

    /// Is the script played?
    pub open spec fn done(self) -> bool {
        self.played >= self.script.len()
    }

    /// The state after the player has seen something. The start of a turn,
    /// seen while none is awaited, makes that turn the awaited one. The
    /// result of the awaited turn, if it is as the script expects, completes
    /// a turn of the script. Nothing else changes anything.
    pub open spec fn after(self, seen: SeenView) -> PlayerView {
        if self.done() {
            self
        } else {
            match (self.awaiting, seen) {
                (None, SeenView::TurnStart { turn }) => PlayerView { awaiting: Some(turn), ..self },
                (Some(t), SeenView::TurnResult { turn, result }) => if turn == t && result
                    == outcome_label_spec(self.script[self.played as int].expected()) {
                    PlayerView { played: self.played + 1, awaiting: None, ..self }
                } else {
                    self
                },
                _ => self,
            }
        }
    }

    /// What the player does after it has seen something. At the start of a
    /// turn, seen while none is awaited, it reveals what its seat plays in
    /// the next turn of the script, for the turn that started. At the result
    /// of the awaited turn it goes on if the result is as the script expects,
    /// finishing after the last turn, and gives up if it is not. It gives up
    /// if the opponent leaves while a result is awaited. Everything else it
    /// lets pass.
    pub open spec fn action(self, seen: SeenView) -> ActionView {
        if self.done() {
            ActionView::Finish
        } else {
            match (self.awaiting, seen) {
                (None, SeenView::TurnStart { turn }) => ActionView::Send {
                    match_id: self.match_id,
                    turn,
                    move_: self.script[self.played as int].pick_of(self.role),
                    nonce: nonce_spec(self.name, turn),
                },
                (Some(t), SeenView::TurnResult { turn, result }) => if turn != t {
                    ActionView::Listen
                } else if result == outcome_label_spec(
                    self.script[self.played as int].expected(),
                ) {
                    if self.played + 1 >= self.script.len() {
                        ActionView::Finish
                    } else {
                        ActionView::Listen
                    }
                } else {
                    ActionView::Fail(
                        SimError::Unexpected {
                            turn: t,
                            expected: self.script[self.played as int].expected(),
                        },
                    )
                },
                (Some(t), SeenView::OpponentLeft) => ActionView::Fail(
                    SimError::OpponentLeft { turn: t },
                ),
                _ => ActionView::Listen,
            }
        }
    }
}

/// A simulated player that plays a script from one seat.
#[derive(Debug)]
pub struct Player {
    name: String,
    match_id: String,
    role: Role,
    script: Vec<PlannedTurn>,
    played: usize,
    awaiting: Option<u32>,
}

impl View for Player {
    type V = PlayerView;

    closed spec fn view(&self) -> PlayerView {
        PlayerView {
            name: self.name@,
            match_id: self.match_id@,
            role: self.role,
            script: script_view(self.script@),
            played: self.played as nat,
            awaiting: self.awaiting,
        }
    }
}

/// Does a result carry the label of the outcome that a planned turn expects?
pub fn is_expected(planned: &PlannedTurn, result: &str) -> (r: bool)
    ensures
        r == (result@ == outcome_label_spec(planned@.expected())),
{
    let expected = match expected_winner(planned.p1.as_str(), planned.p2.as_str()) {
        Some(Role::P1) => Outcome::P1,
        Some(Role::P2) => Outcome::P2,
        None => Outcome::Draw,
    };
    let label = crate::moves::outcome_label(expected);
    same_text(result, label.as_str())
}

/// The outcome that a planned turn expects.
pub fn expected_outcome(planned: &PlannedTurn) -> (o: Outcome)
    ensures
        o == planned@.expected(),
{
    match expected_winner(planned.p1.as_str(), planned.p2.as_str()) {
        Some(Role::P1) => Outcome::P1,
        Some(Role::P2) => Outcome::P2,
        None => Outcome::Draw,
    }
}

impl Player {
    /// A player at the beginning of its script.
    pub fn new(name: &str, seat: AssignInfo, script: Vec<PlannedTurn>) -> (p: Player)
        ensures
            p@.wf(),
            p@ == (PlayerView {
                name: name@,
                match_id: seat.match_id@,
                role: seat.role,
                script: script_view(script@),
                played: 0,
                awaiting: None,
            }),
    {
        Player {
            name: name.to_owned(),
            match_id: seat.match_id,
            role: seat.role,
            script,
            played: 0,
            awaiting: None,
        }
    }

    /// How many turns of the script are played.
    pub fn played(&self) -> (n: usize)
        ensures
            n == self@.played,
    {
        self.played
    }

    /// Is the script played?
    pub fn is_done(&self) -> (r: bool)
        ensures
            r == self@.done(),
    {
        self.played >= self.script.len()
    }

    /// Takes what the player saw on its socket and says what it does next.
    pub fn on_seen(&mut self, seen: &Seen) -> (a: PlayerAction)
        ensures
            old(self)@.wf() ==> final(self)@.wf(),
            final(self)@ == old(self)@.after(seen@),
            a@ == old(self)@.action(seen@),
    {
        if self.played >= self.script.len() {
            return PlayerAction::Finish;
        }
        let planned = &self.script[self.played];
        assert(script_view(self.script@)[self.played as int] == planned@);
        match (self.awaiting, seen) {
            (None, Seen::TurnStart { turn }) => {
                let pick = match self.role {
                    Role::P1 => planned.p1.clone(),
                    Role::P2 => planned.p2.clone(),
                };
                let reveal = Reveal {
                    match_id: self.match_id.clone(),
                    turn: *turn,
                    move_: pick,
                    nonce: reveal_nonce(self.name.as_str(), *turn),
                };
                self.awaiting = Some(*turn);
                PlayerAction::Send(reveal)
            },
            (Some(t), Seen::TurnResult { turn, result }) => {
                if *turn != t {
                    PlayerAction::Listen
                } else if is_expected(planned, result.as_str()) {
                    self.played = self.played + 1;
                    self.awaiting = None;
                    if self.played >= self.script.len() {
                        PlayerAction::Finish
                    } else {
                        PlayerAction::Listen
                    }
                } else {
                    PlayerAction::Fail(
                        SimError::Unexpected { turn: t, expected: expected_outcome(planned) },
                    )
                }
            },
            (Some(t), Seen::OpponentLeft) => PlayerAction::Fail(SimError::OpponentLeft { turn: t }),
            _ => PlayerAction::Listen,
        }
    }
}

} // verus!
