//! The state of one match and the arbiter that advances it: sessions attach
//! and detach, reveals come in, deadlines fire, and every turn is resolved
//! exactly once. Each transition takes the clock as a value and hands back
//! what has to be broadcast, which timer to arm and whether sessions may close.

use vstd::prelude::*;
use crate::match_id::{seats_of, seats_spec};
use crate::moves::{
    is_pick, judge, judge_spec, label_pick, label_pick_spec, substitute_pick, substitute_spec,
    Outcome, Role, SALT_P1, SALT_P2,
};
use crate::text::{lex_less, same_text, text_less, texts};

verus! {

/// Wins that end a match.
pub const WINS_NEEDED: u32 = 5;

/// An authoritative event of a match, as the arbiter produces it.
#[derive(Debug)]
pub enum Event {
    /// A turn begins: its number, its deadline and the clock, both in
    /// milliseconds since the epoch.
    TurnStart { turn: u32, deadline_ms: u64, now_ms: u64 },
    /// A turn is resolved: the outcome, both picks by seat, and the
    /// participants whose pick was substituted.
    TurnResult { turn: u32, outcome: Outcome, p1_pick: char, p2_pick: char, substituted: Vec<String> },
    /// The match is won.
    MatchResult { winner: Role },
    /// Fewer than two participants remain.
    OpponentLeft,
}

/// What an `Event` is, with texts as sequences of characters.
pub enum EventView {
    TurnStart { turn: u32, deadline_ms: u64, now_ms: u64 },
    TurnResult {
        turn: u32,
        outcome: Outcome,
        p1_pick: char,
        p2_pick: char,
        substituted: Seq<Seq<char>>,
    },
    MatchResult { winner: Role },
    OpponentLeft,
}

impl View for Event {
    type V = EventView;

    open spec fn view(&self) -> EventView {
        match *self {
            Event::TurnStart { turn, deadline_ms, now_ms } => EventView::TurnStart {
                turn,
                deadline_ms,
                now_ms,
            },
            Event::TurnResult { turn, outcome, p1_pick, p2_pick, substituted } => {
                EventView::TurnResult {
                    turn,
                    outcome,
                    p1_pick,
                    p2_pick,
                    substituted: texts(substituted@),
                }
            },
            Event::MatchResult { winner } => EventView::MatchResult { winner },
            Event::OpponentLeft => EventView::OpponentLeft,
        }
    }
}

/// The views of a list of events.
pub open spec fn event_views(v: Seq<Event>) -> Seq<EventView> {
    Seq::new(v.len(), |i: int| v[i]@)
}

/// A deadline timer to arm: after `delay_ms` the deadline of `turn` fires.
#[derive(Clone, Copy, Debug, PartialEq, Eq, Structural)]
pub struct Timer {
    pub turn: u32,
    pub delay_ms: u64,
}

/// What one transition asks of the session layer.
#[derive(Debug)]
pub struct Step {
    /// Events to deliver, in this order, one copy of each to every recipient.
    pub events: Vec<Event>,
    /// The endpoints that receive the events.
    pub recipients: Vec<u64>,
    /// The deadline timer to arm, if the transition began a turn.
    pub timer: Option<Timer>,
    /// Whether the match is over and its sessions may close.
    pub close: bool,
}

/// What a `Step` is, with texts as sequences of characters.
pub struct StepView {
    pub events: Seq<EventView>,
    pub recipients: Seq<u64>,
    pub timer: Option<Timer>,
    pub close: bool,
}

impl View for Step {
    type V = StepView;

    open spec fn view(&self) -> StepView {
        StepView {
            events: event_views(self.events@),
            recipients: self.recipients@,
            timer: self.timer,
            close: self.close,
        }
    }
}

/// The step that asks for nothing.
pub open spec fn idle() -> StepView {
    StepView { events: Seq::empty(), recipients: Seq::empty(), timer: None, close: false }
}

/// When a turn that begins at `now_ms` ends: `delay_ms` later, or at once if
/// that instant cannot be written.
pub open spec fn deadline_spec(now_ms: u64, delay_ms: u64) -> u64 {
    if now_ms + delay_ms <= u64::MAX {
        (now_ms + delay_ms) as u64
    } else {
        now_ms
    }
}

/// Computes the deadline of a turn that begins now.
pub fn deadline_after(now_ms: u64, delay_ms: u64) -> (r: u64)
    ensures
        r == deadline_spec(now_ms, delay_ms),
{
    match now_ms.checked_add(delay_ms) {
        Some(t) => t,
        None => now_ms,
    }
}

/// A sequence without `x`, where `x` occurs at most once.
pub open spec fn without<T>(s: Seq<T>, x: T) -> Seq<T> {
    if s.contains(x) {
        s.remove(s.index_of(x))
    } else {
        s
    }
}

/// A sequence with `x` in it: as it is if it holds `x`, else with `x` at the end.
pub open spec fn with<T>(s: Seq<T>, x: T) -> Seq<T> {
    if s.contains(x) {
        s
    } else {
        s.push(x)
    }
}

/// The turns from 1 up to `highest`.
pub open spec fn turns_through(highest: int) -> Set<nat> {
    Set::new(|t: nat| 1 <= t <= highest)
}

/// The two of at most two participants in the order of strings; an empty text
/// stands for a missing one.
pub open spec fn sorted_pair(ps: Seq<Seq<char>>) -> (Seq<char>, Seq<char>) {
    if ps.len() == 0 {
        (Seq::empty(), Seq::empty())
    } else if ps.len() == 1 {
        (ps[0], Seq::empty())
    } else if lex_less(ps[1], ps[0]) {
        (ps[1], ps[0])
    } else {
        (ps[0], ps[1])
    }
}

/// The mathematical state of a match.
pub struct MatchView {
    pub match_id: Seq<char>,
    /// The canonical seats, where the identifier names them.
    pub seats: Option<(Seq<char>, Seq<char>)>,
    /// The participants attached, each once.
    pub participants: Seq<Seq<char>>,
    /// The fan-out endpoints attached, each once.
    pub endpoints: Seq<u64>,
    pub current_turn: nat,
    pub deadline_ms: u64,
    /// The reveal table: at most one pick for a turn and a participant.
    pub reveals: Map<(nat, Seq<char>), char>,
    /// The turns already finalised.
    pub resolved: Set<nat>,
    pub p1_score: nat,
    pub p2_score: nat,
    /// Turn 1 has been announced.
    pub started: bool,
    /// A participant has reached five wins.
    pub ended: bool,
    /// A deadline found fewer than two participants and closed the match.
    pub abandoned: bool,
}

/// The state of a match that nobody has joined yet.
pub open spec fn fresh(match_id: Seq<char>) -> MatchView {
    MatchView {
        match_id,
        seats: seats_spec(match_id),
        participants: Seq::empty(),
        endpoints: Seq::empty(),
        current_turn: 1,
        deadline_ms: 0,
        reveals: Map::empty(),
        resolved: Set::empty(),
        p1_score: 0,
        p2_score: 0,
        started: false,
        ended: false,
        abandoned: false,
    }
}

impl MatchView {
    /// The highest turn that is resolved, 0 when none is.
    pub open spec fn highest_resolved(self) -> int {
        if self.ended {
            self.current_turn as int
        } else {
            self.current_turn - 1
        }
    }

    /// The invariants of a match.
    pub open spec fn wf(self) -> bool {
        &&& 1 <= self.current_turn <= u32::MAX
        &&& self.seats == seats_spec(self.match_id)
        &&& self.participants.no_duplicates()
        &&& self.participants.len() <= 2
        &&& self.endpoints.no_duplicates()
        &&& forall|k: (nat, Seq<char>)| self.reveals.contains_key(k) ==> 1 <= k.0 <= u32::MAX
        &&& forall|k: (nat, Seq<char>)| self.reveals.contains_key(k) ==> is_pick(#[trigger] self.reveals[k])
        &&& self.resolved == turns_through(self.highest_resolved())
        &&& self.p1_score <= 5
        &&& self.p2_score <= 5
        &&& self.p1_score + self.p2_score <= 9
        &&& self.p1_score + self.p2_score <= self.highest_resolved()
        &&& self.ended <==> (self.p1_score >= 5 || self.p2_score >= 5)
        &&& self.ended ==> !self.abandoned
        &&& !self.started ==> self.current_turn == 1 && !self.ended && !self.abandoned
            && self.participants.len() == 0 && self.endpoints.len() == 0
    }

    /// A match takes reveals and deadlines from its first announcement until
    /// it is won or abandoned.
    pub open spec fn is_open(self) -> bool {
        self.started && !self.ended && !self.abandoned
    }

    /// The canonical (first seat, second seat): read from the identifier
    /// where it names them, else the attached participants in the order of
    /// strings.
    pub open spec fn canonical(self) -> (Seq<char>, Seq<char>) {
        match self.seats {
            Some(pair) => pair,
            None => sorted_pair(self.participants),
        }
    }
}

impl MatchView {
    /// The state once turn 1 is announced at `now_ms`.
    pub open spec fn begun(self, now_ms: u64, delay_ms: u64) -> MatchView {
        MatchView { started: true, deadline_ms: deadline_spec(now_ms, delay_ms), ..self }
    }

    /// What announcing turn 1 asks for: a turn start for every endpoint and
    /// the timer of turn 1.
    pub open spec fn begin_step(self, now_ms: u64, delay_ms: u64) -> StepView {
        StepView {
            events: seq![
                EventView::TurnStart {
                    turn: 1,
                    deadline_ms: deadline_spec(now_ms, delay_ms),
                    now_ms,
                },
            ],
            recipients: self.endpoints,
            timer: Some(Timer { turn: 1, delay_ms }),
            close: false,
        }
    }

    /// The state after a request to start: unchanged once the match has started.
    pub open spec fn after_start(self, now_ms: u64, delay_ms: u64) -> MatchView {
        if self.started {
            self
        } else {
            self.begun(now_ms, delay_ms)
        }
    }

    /// What a request to start asks for: nothing once the match has started.
    pub open spec fn start_step(self, now_ms: u64, delay_ms: u64) -> StepView {
        if self.started {
            idle()
        } else {
            self.begin_step(now_ms, delay_ms)
        }
    }

    /// A session is refused when its participant is new and both seats are taken.
    pub open spec fn attach_refused(self, who: Seq<char>) -> bool {
        !self.participants.contains(who) && self.participants.len() >= 2
    }

    /// The state with a participant and an endpoint registered.
    pub open spec fn joined(self, who: Seq<char>, endpoint: u64) -> MatchView {
        MatchView {
            participants: with(self.participants, who),
            endpoints: with(self.endpoints, endpoint),
            ..self
        }
    }

    /// The state after a session is attached: participant and endpoint are
    /// registered, and the match is started if it was not.
    pub open spec fn after_attach(
        self,
        who: Seq<char>,
        endpoint: u64,
        now_ms: u64,
        delay_ms: u64,
    ) -> MatchView {
        self.joined(who, endpoint).after_start(now_ms, delay_ms)
    }

    /// What attaching a session asks for: the announcement of turn 1 to every
    /// endpoint if this starts the match; the running turn, to the new endpoint
    /// alone, if the match is under way and the endpoint is new; else nothing.
    pub open spec fn attach_step(
        self,
        who: Seq<char>,
        endpoint: u64,
        now_ms: u64,
        delay_ms: u64,
    ) -> StepView {
        if !self.started {
            self.joined(who, endpoint).begin_step(now_ms, delay_ms)
        } else if self.is_open() && !self.endpoints.contains(endpoint) {
            StepView {
                events: seq![
                    EventView::TurnStart {
                        turn: self.current_turn as u32,
                        deadline_ms: self.deadline_ms,
                        now_ms,
                    },
                ],
                recipients: seq![endpoint],
                timer: None,
                close: false,
            }
        } else {
            idle()
        }
    }

    /// The state after a session is detached: its endpoint and its
    /// participant are gone.
    pub open spec fn after_detach(self, who: Seq<char>, endpoint: u64) -> MatchView {
        MatchView {
            participants: without(self.participants, who),
            endpoints: without(self.endpoints, endpoint),
            ..self
        }
    }

    /// What detaching a session asks for: word that the opponent left, to the
    /// endpoints that remain, if fewer than two participants remain.
    pub open spec fn detach_step(self, who: Seq<char>, endpoint: u64) -> StepView {
        let after = self.after_detach(who, endpoint);
        if after.participants.len() < 2 {
            StepView {
                events: seq![EventView::OpponentLeft],
                recipients: after.endpoints,
                timer: None,
                close: false,
            }
        } else {
            idle()
        }
    }

    /// Has the participant revealed for the current turn?
    pub open spec fn has_revealed(self, who: Seq<char>) -> bool {
        self.reveals.contains_key((self.current_turn, who))
    }

    /// Have both canonical participants revealed for the current turn?
    pub open spec fn both_revealed(self) -> bool {
        self.has_revealed(self.canonical().0) && self.has_revealed(self.canonical().1)
    }

    /// The authoritative pick of a participant for the current turn: the one
    /// revealed, or the substitute drawn from the clock and the seat's salt.
    pub open spec fn pick_of(self, who: Seq<char>, now_ms: u64, salt: u64) -> char {
        if self.has_revealed(who) {
            self.reveals[(self.current_turn, who)]
        } else {
            substitute_spec(now_ms, salt)
        }
    }

    /// The canonical participants whose pick for the current turn is
    /// substituted, first seat first.
    pub open spec fn substituted(self) -> Seq<Seq<char>> {
        let first: Seq<Seq<char>> = if self.has_revealed(self.canonical().0) {
            Seq::empty()
        } else {
            seq![self.canonical().0]
        };
        if self.has_revealed(self.canonical().1) {
            first
        } else {
            first.push(self.canonical().1)
        }
    }

    /// The outcome of the current turn, resolved at `now_ms`.
    pub open spec fn outcome(self, now_ms: u64) -> Outcome {
        judge_spec(
            self.pick_of(self.canonical().0, now_ms, SALT_P1),
            self.pick_of(self.canonical().1, now_ms, SALT_P2),
        )
    }

    /// The first seat's score once the current turn is resolved.
    pub open spec fn p1_after(self, now_ms: u64) -> nat {
        if self.outcome(now_ms) == Outcome::P1 {
            self.p1_score + 1
        } else {
            self.p1_score
        }
    }

    /// The second seat's score once the current turn is resolved.
    pub open spec fn p2_after(self, now_ms: u64) -> nat {
        if self.outcome(now_ms) == Outcome::P2 {
            self.p2_score + 1
        } else {
            self.p2_score
        }
    }

    /// Does resolving the current turn win the match?
    pub open spec fn wins(self, now_ms: u64) -> bool {
        self.p1_after(now_ms) >= 5 || self.p2_after(now_ms) >= 5
    }

    /// The one result of the current turn.
    pub open spec fn turn_result(self, now_ms: u64) -> EventView {
        EventView::TurnResult {
            turn: self.current_turn as u32,
            outcome: self.outcome(now_ms),
            p1_pick: self.pick_of(self.canonical().0, now_ms, SALT_P1),
            p2_pick: self.pick_of(self.canonical().1, now_ms, SALT_P2),
            substituted: self.substituted(),
        }
    }

    /// The state once the current turn is resolved at `now_ms`: the score of
    /// the winner goes up, the turn is marked, and either the match is won or
    /// the next turn begins.
    pub open spec fn after_resolve(self, now_ms: u64, delay_ms: u64) -> MatchView {
        if self.wins(now_ms) {
            MatchView {
                p1_score: self.p1_after(now_ms),
                p2_score: self.p2_after(now_ms),
                resolved: self.resolved.insert(self.current_turn),
                ended: true,
                ..self
            }
        } else {
            MatchView {
                p1_score: self.p1_after(now_ms),
                p2_score: self.p2_after(now_ms),
                resolved: self.resolved.insert(self.current_turn),
                current_turn: self.current_turn + 1,
                deadline_ms: deadline_spec(now_ms, delay_ms),
                ..self
            }
        }
    }

    /// What resolving the current turn asks for: its one result for every
    /// endpoint, followed by the match result if the match is won, else by
    /// the start of the next turn, whose timer is to be armed.
    pub open spec fn resolve_step(self, now_ms: u64, delay_ms: u64) -> StepView {
        if self.wins(now_ms) {
            StepView {
                events: seq![
                    self.turn_result(now_ms),
                    EventView::MatchResult {
                        winner: if self.p1_after(now_ms) >= 5 {
                            Role::P1
                        } else {
                            Role::P2
                        },
                    },
                ],
                recipients: self.endpoints,
                timer: None,
                close: true,
            }
        } else {
            StepView {
                events: seq![
                    self.turn_result(now_ms),
                    EventView::TurnStart {
                        turn: (self.current_turn + 1) as u32,
                        deadline_ms: deadline_spec(now_ms, delay_ms),
                        now_ms,
                    },
                ],
                recipients: self.endpoints,
                timer: Some(Timer { turn: (self.current_turn + 1) as u32, delay_ms }),
                close: false,
            }
        }
    }

    /// The turn a reveal is for: the one it names, or the current one when it
    /// names none.
    pub open spec fn reveal_turn(self, turn: u32) -> nat {
        if turn == 0 {
            self.current_turn
        } else {
            turn as nat
        }
    }

    /// A reveal is taken if it shows a pick, while the match is open and its
    /// turn is not resolved.
    pub open spec fn takes_reveal(self, turn: u32, pick: char) -> bool {
        is_pick(pick) && self.is_open() && !self.resolved.contains(self.reveal_turn(turn))
    }

    /// The state with a pick written into the reveal table.
    pub open spec fn recorded(self, who: Seq<char>, turn: u32, pick: char) -> MatchView {
        MatchView { reveals: self.reveals.insert((self.reveal_turn(turn), who), pick), ..self }
    }

    /// Does a reveal complete the current turn?
    pub open spec fn reveal_resolves(self, who: Seq<char>, turn: u32, pick: char) -> bool {
        &&& self.takes_reveal(turn, pick)
        &&& self.reveal_turn(turn) == self.current_turn
        &&& self.recorded(who, turn, pick).both_revealed()
    }

    /// The state after a reveal: unchanged if it is not taken; else the pick
    /// is recorded, and the current turn resolved if that completes it.
    pub open spec fn after_reveal(
        self,
        who: Seq<char>,
        turn: u32,
        pick: char,
        now_ms: u64,
        delay_ms: u64,
    ) -> MatchView {
        if !self.takes_reveal(turn, pick) {
            self
        } else if self.reveal_resolves(who, turn, pick) {
            self.recorded(who, turn, pick).after_resolve(now_ms, delay_ms)
        } else {
            self.recorded(who, turn, pick)
        }
    }

    /// The state after a reveal with a label: that after the reveal of the
    /// pick it stands for, and unchanged if it stands for none.
    pub open spec fn after_label(
        self,
        who: Seq<char>,
        turn: u32,
        label: Seq<char>,
        now_ms: u64,
        delay_ms: u64,
    ) -> MatchView {
        match label_pick_spec(label) {
            Some(pick) => self.after_reveal(who, turn, pick, now_ms, delay_ms),
            None => self,
        }
    }

    /// What a reveal with a label asks for: what the reveal of the pick it
    /// stands for asks for, and nothing if it stands for none.
    pub open spec fn label_step(
        self,
        who: Seq<char>,
        turn: u32,
        label: Seq<char>,
        now_ms: u64,
        delay_ms: u64,
    ) -> StepView {
        match label_pick_spec(label) {
            Some(pick) => self.reveal_step(who, turn, pick, now_ms, delay_ms),
            None => idle(),
        }
    }

    /// What a reveal asks for: the resolution of the current turn if it
    /// completes it, else nothing.
    pub open spec fn reveal_step(
        self,
        who: Seq<char>,
        turn: u32,
        pick: char,
        now_ms: u64,
        delay_ms: u64,
    ) -> StepView {
        if self.reveal_resolves(who, turn, pick) {
            self.recorded(who, turn, pick).resolve_step(now_ms, delay_ms)
        } else {
            idle()
        }
    }

    /// A deadline counts while the match is open and the turn it was armed
    /// for is still the current one.
    pub open spec fn deadline_counts(self, expected_turn: u32) -> bool {
        self.is_open() && self.current_turn == expected_turn
    }

    /// The state after a deadline fires: unchanged if it does not count;
    /// abandoned if fewer than two participants are attached; else the
    /// current turn is resolved.
    pub open spec fn after_deadline(self, expected_turn: u32, now_ms: u64, delay_ms: u64) -> MatchView {
        if !self.deadline_counts(expected_turn) {
            self
        } else if self.participants.len() < 2 {
            MatchView { abandoned: true, ..self }
        } else {
            self.after_resolve(now_ms, delay_ms)
        }
    }

    /// What a deadline asks for: nothing if it does not count; word that the
    /// opponent left and leave to close if fewer than two participants are
    /// attached; else the resolution of the current turn.
    pub open spec fn deadline_step(self, expected_turn: u32, now_ms: u64, delay_ms: u64) -> StepView {
        if !self.deadline_counts(expected_turn) {
            idle()
        } else if self.participants.len() < 2 {
            StepView {
                events: seq![EventView::OpponentLeft],
                recipients: self.endpoints,
                timer: None,
                close: true,
            }
        } else {
            self.resolve_step(now_ms, delay_ms)
        }
    }
}

/// That a session could not be attached.
#[derive(Clone, Copy, Debug, PartialEq, Eq, Structural)]
pub enum AttachError {
    /// Two other participants already hold the seats.
    MatchFull,
}

/// One row of the reveal table.
#[derive(Debug)]
pub struct RevealEntry {
    turn: u32,
    participant: String,
    pick: char,
}

/// The state of one match, owned by the registry.
#[derive(Debug)]
pub struct MatchState {
    match_id: String,
    seats: Option<(String, String)>,
    participants: Vec<String>,
    endpoints: Vec<u64>,
    current_turn: u32,
    deadline_ms: u64,
    reveals: Vec<RevealEntry>,
    p1_score: u32,
    p2_score: u32,
    started: bool,
    ended: bool,
    abandoned: bool,
}

spec fn key_at(es: Seq<RevealEntry>, i: int) -> (nat, Seq<char>) {
    (es[i].turn as nat, es[i].participant@)
}

spec fn has_key(es: Seq<RevealEntry>, k: (nat, Seq<char>)) -> bool {
    exists|i: int| 0 <= i < es.len() && key_at(es, i) == k
}

spec fn row_of(es: Seq<RevealEntry>, k: (nat, Seq<char>)) -> int {
    choose|i: int| 0 <= i < es.len() && key_at(es, i) == k
}

spec fn table(es: Seq<RevealEntry>) -> Map<(nat, Seq<char>), char> {
    Map::new(|k: (nat, Seq<char>)| has_key(es, k), |k: (nat, Seq<char>)| es[row_of(es, k)].pick)
}

spec fn unique_keys(es: Seq<RevealEntry>) -> bool {
    forall|i: int, j: int| 0 <= i < j < es.len() ==> key_at(es, i) != key_at(es, j)
}

spec fn seats_view(s: Option<(String, String)>) -> Option<(Seq<char>, Seq<char>)> {
    match s {
        Some((a, b)) => Some((a@, b@)),
        None => None,
    }
}

impl View for MatchState {
    type V = MatchView;

    closed spec fn view(&self) -> MatchView {
        MatchView {
            match_id: self.match_id@,
            seats: seats_view(self.seats),
            participants: texts(self.participants@),
            endpoints: self.endpoints@,
            current_turn: self.current_turn as nat,
            deadline_ms: self.deadline_ms,
            reveals: table(self.reveals@),
            resolved: turns_through(
                if self.ended {
                    self.current_turn as int
                } else {
                    self.current_turn - 1
                },
            ),
            p1_score: self.p1_score as nat,
            p2_score: self.p2_score as nat,
            started: self.started,
            ended: self.ended,
            abandoned: self.abandoned,
        }
    }
}

/// Finds a text in a list of strings: the first place that holds it.
pub fn position_of(list: &Vec<String>, s: &str) -> (r: Option<usize>)
    ensures
        match r {
            Some(i) => i < list.len() && list[i as int]@ == s@ && forall|j: int|
                0 <= j < i ==> list[j]@ != s@,
            None => !texts(list@).contains(s@),
        },
{
    let mut i: usize = 0;
    while i < list.len()
        invariant
            i <= list.len(),
            forall|j: int| 0 <= j < i ==> list[j]@ != s@,
        decreases list.len() - i,
    {
        if same_text(list[i].as_str(), s) {
            return Some(i);
        }
        i += 1;
    }
    assert forall|j: int| 0 <= j < texts(list@).len() implies texts(list@)[j] != s@ by {
        assert(texts(list@)[j] == list[j]@);
    }
    None
}

/// Finds a handle in a list of endpoints: the first place that holds it.
pub fn endpoint_position(list: &Vec<u64>, h: u64) -> (r: Option<usize>)
    ensures
        match r {
            Some(i) => i < list.len() && list[i as int] == h && forall|j: int|
                0 <= j < i ==> list[j] != h,
            None => !list@.contains(h),
        },
{
    let mut i: usize = 0;
    while i < list.len()
        invariant
            i <= list.len(),
            forall|j: int| 0 <= j < i ==> list[j] != h,
        decreases list.len() - i,
    {
        if list[i] == h {
            return Some(i);
        }
        i += 1;
    }
    None
}

/// In a list without repeats, the place where a value stands is the one that
/// `index_of` names.
pub proof fn lemma_index_of_unique<T>(s: Seq<T>, x: T, i: int)
    requires
        s.no_duplicates(),
        0 <= i < s.len(),
        s[i] == x,
    ensures
        s.contains(x),
        s.index_of(x) == i,
{
    assert(s.contains(x));
    let j = s.index_of(x);
    assert(0 <= j < s.len() && s[j] == x);
}

/// Taking a value out of a list without repeats leaves a list without
/// repeats that no longer holds it.
pub proof fn lemma_without<T>(s: Seq<T>, x: T)
    requires
        s.no_duplicates(),
    ensures
        without(s, x).no_duplicates(),
        !without(s, x).contains(x),
        without(s, x).len() == if s.contains(x) {
            s.len() - 1
        } else {
            s.len() as int
        },
        forall|y: T| y != x ==> (without(s, x).contains(y) <==> s.contains(y)),
{
    if s.contains(x) {
        let i = s.index_of(x);
        let r = s.remove(i);
        assert forall|a: int, b: int| 0 <= a < r.len() && 0 <= b < r.len() && a != b implies r[a]
            != r[b] by {
            let a2 = if a < i { a } else { a + 1 };
            let b2 = if b < i { b } else { b + 1 };
            assert(r[a] == s[a2] && r[b] == s[b2]);
        }
        assert forall|a: int| 0 <= a < r.len() implies r[a] != x by {
            let a2 = if a < i { a } else { a + 1 };
            assert(r[a] == s[a2]);
        }
        assert forall|y: T| y != x implies (r.contains(y) <==> s.contains(y)) by {
            if r.contains(y) {
                let a = choose|a: int| 0 <= a < r.len() && r[a] == y;
                let a2 = if a < i { a } else { a + 1 };
                assert(s[a2] == y);
            }
            if s.contains(y) {
                let b = choose|b: int| 0 <= b < s.len() && s[b] == y;
                let b2 = if b < i { b } else { b - 1 };
                assert(r[b2] == y);
            }
        }
    }
}

/// Putting a value into a list without repeats leaves a list without repeats
/// that holds it.
pub proof fn lemma_with<T>(s: Seq<T>, x: T)
    requires
        s.no_duplicates(),
    ensures
        with(s, x).no_duplicates(),
        with(s, x).contains(x),
        forall|y: T| s.contains(y) ==> with(s, x).contains(y),
{
    if !s.contains(x) {
        let r = s.push(x);
        assert(r[s.len() as int] == x);
        assert forall|y: T| s.contains(y) implies r.contains(y) by {
            let a = choose|a: int| 0 <= a < s.len() && s[a] == y;
            assert(r[a] == y);
        }
    }
}

impl MatchState {
    /// The invariants of the representation; they imply those of the view.
    pub closed spec fn wf(&self) -> bool {
        &&& self@.wf()
        &&& unique_keys(self.reveals@)
    }

    /// The invariants of a match hold of every state that this type's
    /// functions hand out.
    pub proof fn law_invariants_hold(&self)
        requires
            self.wf(),
        ensures
            self@.wf(),
    {
    }

    /// A match that nobody has joined yet: turn 1 is not announced, the
    /// scores are zero, and the seats are those its identifier names.
    pub fn new(match_id: &str) -> (m: MatchState)
        ensures
            m.wf(),
            m@ == fresh(match_id@),
    {
        let seats = seats_of(match_id);
        let m = MatchState {
            match_id: match_id.to_owned(),
            seats,
            participants: Vec::new(),
            endpoints: Vec::new(),
            current_turn: 1,
            deadline_ms: 0,
            reveals: Vec::new(),
            p1_score: 0,
            p2_score: 0,
            started: false,
            ended: false,
            abandoned: false,
        };
        proof {
            assert(texts(m.participants@) =~= Seq::<Seq<char>>::empty());
            assert(m.endpoints@ =~= Seq::<u64>::empty());
            assert(table(m.reveals@) =~= Map::<(nat, Seq<char>), char>::empty());
            assert(turns_through(0) =~= Set::<nat>::empty());
        }
        m
    }

    /// The identifier of the match.
    pub fn match_id(&self) -> (r: &str)
        ensures
            r@ == self@.match_id,
    {
        self.match_id.as_str()
    }

    /// The turn that is running, or the last one of a match that is over.
    pub fn current_turn(&self) -> (r: u32)
        ensures
            r == self@.current_turn,
    {
        self.current_turn
    }

    /// The deadline of the running turn, in milliseconds since the epoch.
    pub fn deadline_ms(&self) -> (r: u64)
        ensures
            r == self@.deadline_ms,
    {
        self.deadline_ms
    }

    /// The wins of the first and of the second seat.
    pub fn scores(&self) -> (r: (u32, u32))
        ensures
            r.0 == self@.p1_score,
            r.1 == self@.p2_score,
    {
        (self.p1_score, self.p2_score)
    }

    /// Has turn 1 been announced?
    pub fn is_started(&self) -> (r: bool)
        ensures
            r == self@.started,
    {
        self.started
    }

    /// Has a participant reached five wins?
    pub fn is_ended(&self) -> (r: bool)
        ensures
            r == self@.ended,
    {
        self.ended
    }

    /// Was the match closed by a deadline that found an opponent gone?
    pub fn is_abandoned(&self) -> (r: bool)
        ensures
            r == self@.abandoned,
    {
        self.abandoned
    }

    /// Is the given turn already finalised?
    pub fn is_resolved(&self, turn: u32) -> (r: bool)
        ensures
            r == self@.resolved.contains(turn as nat),
    {
        if self.ended {
            1 <= turn && turn <= self.current_turn
        } else {
            1 <= turn && turn < self.current_turn
        }
    }

    /// How many participants are attached.
    pub fn participant_count(&self) -> (r: usize)
        ensures
            r == self@.participants.len(),
    {
        self.participants.len()
    }

    /// The endpoints attached, in the order in which they came.
    pub fn endpoints(&self) -> (r: Vec<u64>)
        ensures
            r@ == self@.endpoints,
    {
        copy_handles(&self.endpoints)
    }

    fn begin(&mut self, now_ms: u64, delay_ms: u64) -> (step: Step)
        requires
            old(self).wf(),
            !old(self)@.started,
        ensures
            final(self).wf(),
            final(self)@ == old(self)@.begun(now_ms, delay_ms),
            step@ == old(self)@.begin_step(now_ms, delay_ms),
    {
        let deadline = deadline_after(now_ms, delay_ms);
        self.started = true;
        self.deadline_ms = deadline;
        let mut events: Vec<Event> = Vec::new();
        events.push(Event::TurnStart { turn: 1, deadline_ms: deadline, now_ms });
        let step = Step {
            events,
            recipients: copy_handles(&self.endpoints),
            timer: Some(Timer { turn: 1, delay_ms }),
            close: false,
        };
        assert(step@.events =~= old(self)@.begin_step(now_ms, delay_ms).events);
        step
    }

    /// Starts the match unless it has started: turn 1 is announced to every
    /// endpoint, with its deadline, and its timer is to be armed.
    pub fn start(&mut self, now_ms: u64, delay_ms: u64) -> (step: Step)
        requires
            old(self).wf(),
        ensures
            final(self).wf(),
            final(self)@ == old(self)@.after_start(now_ms, delay_ms),
            step@ == old(self)@.start_step(now_ms, delay_ms),
    {
        if self.started {
            quiet()
        } else {
            self.begin(now_ms, delay_ms)
        }
    }

    /// Attaches a session: registers its endpoint and its participant, and
    /// starts the match if this is its first session. A session under way is
    /// told the running turn. Refused, with nothing changed, exactly when the
    /// participant is new and two others are attached.
    pub fn attach(&mut self, who: &str, endpoint: u64, now_ms: u64, delay_ms: u64) -> (r: Result<
        Step,
        AttachError,
    >)
        requires
            old(self).wf(),
        ensures
            final(self).wf(),
            old(self)@.attach_refused(who@) ==> r == Err::<Step, AttachError>(AttachError::MatchFull)
                && final(self)@ == old(self)@,
            !old(self)@.attach_refused(who@) ==> r is Ok && final(self)@ == old(self)@.after_attach(
                who@,
                endpoint,
                now_ms,
                delay_ms,
            ) && r->Ok_0@ == old(self)@.attach_step(who@, endpoint, now_ms, delay_ms),
    {
        let known = position_of(&self.participants, who);
        if known.is_none() && self.participants.len() >= 2 {
            return Err(AttachError::MatchFull);
        }
        let ghost before = self@;
        proof {
            lemma_with(before.participants, who@);
            lemma_with(before.endpoints, endpoint);
        }
        let opens = !self.started;
        if opens {
            self.started = true;
            self.deadline_ms = deadline_after(now_ms, delay_ms);
        }
        if known.is_none() {
            self.participants.push(who.to_owned());
            assert(texts(self.participants@) =~= before.participants.push(who@));
        } else {
            assert(texts(self.participants@)[known.unwrap() as int] == who@);
        }
        let fresh = endpoint_position(&self.endpoints, endpoint).is_none();
        if fresh {
            self.endpoints.push(endpoint);
        }
        assert(self@ == before.after_attach(who@, endpoint, now_ms, delay_ms));
        if opens {
            let mut events: Vec<Event> = Vec::new();
            events.push(Event::TurnStart { turn: 1, deadline_ms: self.deadline_ms, now_ms });
            let step = Step {
                events,
                recipients: copy_handles(&self.endpoints),
                timer: Some(Timer { turn: 1, delay_ms }),
                close: false,
            };
            assert(step@.events =~= before.attach_step(who@, endpoint, now_ms, delay_ms).events);
            Ok(step)
        } else if fresh && !self.ended && !self.abandoned {
            let mut events: Vec<Event> = Vec::new();
            events.push(
                Event::TurnStart { turn: self.current_turn, deadline_ms: self.deadline_ms, now_ms },
            );
            let mut recipients: Vec<u64> = Vec::new();
            recipients.push(endpoint);
            let step = Step { events, recipients, timer: None, close: false };
            assert(step@.events =~= before.attach_step(who@, endpoint, now_ms, delay_ms).events);
            assert(step@.recipients =~= seq![endpoint]);
            Ok(step)
        } else {
            Ok(quiet())
        }
    }

    /// Detaches a session: its endpoint and its participant are removed, and
    /// the endpoints that remain are told that the opponent left if fewer
    /// than two participants remain.
    pub fn detach(&mut self, who: &str, endpoint: u64) -> (step: Step)
        requires
            old(self).wf(),
        ensures
            final(self).wf(),
            final(self)@ == old(self)@.after_detach(who@, endpoint),
            step@ == old(self)@.detach_step(who@, endpoint),
    {
        let ghost before = self@;
        proof {
            lemma_without(before.participants, who@);
            lemma_without(before.endpoints, endpoint);
        }
        match position_of(&self.participants, who) {
            Some(i) => {
                proof {
                    assert(before.participants[i as int] == who@);
                    lemma_index_of_unique(before.participants, who@, i as int);
                }
                self.participants.remove(i);
                assert(texts(self.participants@) =~= before.participants.remove(i as int));
            },
            None => {},
        }
        match endpoint_position(&self.endpoints, endpoint) {
            Some(i) => {
                proof {
                    lemma_index_of_unique(before.endpoints, endpoint, i as int);
                }
                self.endpoints.remove(i);
            },
            None => {},
        }
        assert(self@ == before.after_detach(who@, endpoint));
        if self.participants.len() < 2 {
            let mut events: Vec<Event> = Vec::new();
            events.push(Event::OpponentLeft);
            let step = Step {
                events,
                recipients: copy_handles(&self.endpoints),
                timer: None,
                close: false,
            };
            assert(step@.events =~= seq![EventView::OpponentLeft]);
            step
        } else {
            quiet()
        }
    }
}

proof fn lemma_table_row(es: Seq<RevealEntry>, i: int)
    requires
        unique_keys(es),
        0 <= i < es.len(),
    ensures
        table(es).contains_key(key_at(es, i)),
        table(es)[key_at(es, i)] == es[i].pick,
{
    let k = key_at(es, i);
    assert(has_key(es, k));
    let j = row_of(es, k);
    assert(0 <= j < es.len() && key_at(es, j) == k);
    if j < i {
        assert(key_at(es, j) != key_at(es, i));
    } else if i < j {
        assert(key_at(es, i) != key_at(es, j));
    }
}

proof fn lemma_table_push(es: Seq<RevealEntry>, e: RevealEntry)
    requires
        unique_keys(es),
        !has_key(es, (e.turn as nat, e.participant@)),
    ensures
        unique_keys(es.push(e)),
        table(es.push(e)) == table(es).insert((e.turn as nat, e.participant@), e.pick),
{
    let k = (e.turn as nat, e.participant@);
    let fs = es.push(e);
    assert forall|i: int, j: int| 0 <= i < j < fs.len() implies key_at(fs, i) != key_at(fs, j) by {
        assert(key_at(fs, i) == key_at(es, i));
        if j < es.len() {
            assert(key_at(fs, j) == key_at(es, j));
        } else {
            assert(key_at(fs, j) == k);
        }
    }
    assert(key_at(fs, es.len() as int) == k);
    lemma_table_row(fs, es.len() as int);
    let want = table(es).insert(k, e.pick);
    assert forall|q: (nat, Seq<char>)| table(fs).contains_key(q) <==> want.contains_key(q) by {
        if has_key(fs, q) {
            let i = row_of(fs, q);
            if i < es.len() {
                assert(key_at(es, i) == q);
            }
        }
        if has_key(es, q) {
            let i = row_of(es, q);
            assert(key_at(fs, i) == q);
        }
    }
    assert forall|q: (nat, Seq<char>)| table(fs).contains_key(q) implies table(fs)[q] == want[q] by {
        if q != k {
            let a = row_of(fs, q);
            assert(0 <= a < fs.len() && key_at(fs, a) == q);
            assert(a < es.len());
            assert(key_at(es, a) == q);
            lemma_table_row(es, a);
            lemma_table_row(fs, a);
        }
    }
    assert(table(fs) =~= want);
}

proof fn lemma_table_set(es: Seq<RevealEntry>, i: int, e: RevealEntry)
    requires
        unique_keys(es),
        0 <= i < es.len(),
        key_at(es, i) == (e.turn as nat, e.participant@),
    ensures
        unique_keys(es.update(i, e)),
        table(es.update(i, e)) == table(es).insert((e.turn as nat, e.participant@), e.pick),
{
    let k = (e.turn as nat, e.participant@);
    let fs = es.update(i, e);
    assert forall|a: int| 0 <= a < fs.len() implies key_at(fs, a) == key_at(es, a) by {}
    assert forall|a: int, b: int| 0 <= a < b < fs.len() implies key_at(fs, a) != key_at(fs, b) by {
        assert(key_at(fs, a) == key_at(es, a));
        assert(key_at(fs, b) == key_at(es, b));
    }
    lemma_table_row(fs, i);
    let want = table(es).insert(k, e.pick);
    assert forall|q: (nat, Seq<char>)| table(fs).contains_key(q) <==> want.contains_key(q) by {
        if has_key(fs, q) {
            let a = row_of(fs, q);
            assert(key_at(es, a) == q);
        }
        if has_key(es, q) {
            let a = row_of(es, q);
            assert(key_at(fs, a) == q);
        }
        if q == k {
            assert(key_at(es, i) == q);
            assert(key_at(fs, i) == q);
        }
    }
    assert forall|q: (nat, Seq<char>)| table(fs).contains_key(q) implies table(fs)[q] == want[q] by {
        if q != k {
            let a = row_of(fs, q);
            assert(0 <= a < fs.len() && key_at(fs, a) == q);
            assert(key_at(es, a) == q);
            assert(a != i);
            lemma_table_row(es, a);
            lemma_table_row(fs, a);
        }
    }
    assert(table(fs) =~= want);
}

impl MatchState {
    fn find_reveal(&self, turn: u32, who: &str) -> (r: Option<usize>)
        ensures
            match r {
                Some(i) => i < self.reveals.len() && key_at(self.reveals@, i as int) == (
                    turn as nat,
                    who@,
                ),
                None => !has_key(self.reveals@, (turn as nat, who@)),
            },
    {
        let mut i: usize = 0;
        while i < self.reveals.len()
            invariant
                i <= self.reveals.len(),
                forall|j: int| 0 <= j < i ==> key_at(self.reveals@, j) != (turn as nat, who@),
            decreases self.reveals.len() - i,
        {
            if self.reveals[i].turn == turn && same_text(self.reveals[i].participant.as_str(), who) {
                return Some(i);
            }
            i += 1;
        }
        None
    }

    /// The pick that a participant has revealed for the current turn, if any.
    pub fn revealed_pick(&self, who: &str) -> (r: Option<char>)
        requires
            self.wf(),
        ensures
            r is Some <==> self@.has_revealed(who@),
            r matches Some(c) ==> c == self@.reveals[(self@.current_turn, who@)],
    {
        match self.find_reveal(self.current_turn, who) {
            Some(i) => {
                proof {
                    lemma_table_row(self.reveals@, i as int);
                }
                Some(self.reveals[i].pick)
            },
            None => None,
        }
    }

    /// The canonical (first seat, second seat) of the match.
    pub fn canonical(&self) -> (r: (String, String))
        requires
            self.wf(),
        ensures
            (r.0@, r.1@) == self@.canonical(),
    {
        match &self.seats {
            Some((a, b)) => (a.clone(), b.clone()),
            None => {
                let n = self.participants.len();
                if n == 0 {
                    (String::new(), String::new())
                } else if n == 1 {
                    (self.participants[0].clone(), String::new())
                } else if text_less(self.participants[1].as_str(), self.participants[0].as_str()) {
                    (self.participants[1].clone(), self.participants[0].clone())
                } else {
                    (self.participants[0].clone(), self.participants[1].clone())
                }
            },
        }
    }

    fn record(&mut self, who: &str, turn: u32, pick: char)
        requires
            old(self).wf(),
            turn >= 1,
            is_pick(pick),
        ensures
            final(self).wf(),
            final(self)@ == (MatchView {
                reveals: old(self)@.reveals.insert((turn as nat, who@), pick),
                ..old(self)@
            }),
    {
        let entry = RevealEntry { turn, participant: who.to_owned(), pick };
        let ghost before = self.reveals@;
        match self.find_reveal(turn, who) {
            Some(i) => {
                proof {
                    lemma_table_set(before, i as int, entry);
                }
                self.reveals.set(i, entry);
            },
            None => {
                proof {
                    lemma_table_push(before, entry);
                }
                self.reveals.push(entry);
            },
        }
    }

    fn resolve(&mut self, now_ms: u64, delay_ms: u64) -> (step: Step)
        requires
            old(self).wf(),
            old(self)@.is_open(),
            old(self)@.current_turn < u32::MAX,
        ensures
            final(self).wf(),
            final(self)@ == old(self)@.after_resolve(now_ms, delay_ms),
            step@ == old(self)@.resolve_step(now_ms, delay_ms),
    {
        let ghost before = self@;
        let turn = self.current_turn;
        let (first, second) = self.canonical();
        let mut substituted: Vec<String> = Vec::new();
        let p1_pick = match self.revealed_pick(first.as_str()) {
            Some(c) => c,
            None => {
                substituted.push(first);
                substitute_pick(now_ms, SALT_P1)
            },
        };
        let p2_pick = match self.revealed_pick(second.as_str()) {
            Some(c) => c,
            None => {
                substituted.push(second);
                substitute_pick(now_ms, SALT_P2)
            },
        };
        assert(texts(substituted@) =~= before.substituted());
        let outcome = judge(p1_pick, p2_pick);
        match outcome {
            Outcome::P1 => {
                self.p1_score = self.p1_score + 1;
            },
            Outcome::P2 => {
                self.p2_score = self.p2_score + 1;
            },
            Outcome::Draw => {},
        }
        let mut events: Vec<Event> = Vec::new();
        events.push(Event::TurnResult { turn, outcome, p1_pick, p2_pick, substituted });
        let recipients = copy_handles(&self.endpoints);
        if self.p1_score >= WINS_NEEDED || self.p2_score >= WINS_NEEDED {
            let winner = if self.p1_score >= WINS_NEEDED {
                Role::P1
            } else {
                Role::P2
            };
            events.push(Event::MatchResult { winner });
            self.ended = true;
            let step = Step { events, recipients, timer: None, close: true };
            proof {
                assert(turns_through(turn as int) =~= before.resolved.insert(turn as nat));
                assert(step@.events =~= before.resolve_step(now_ms, delay_ms).events);
            }
            step
        } else {
            let deadline = deadline_after(now_ms, delay_ms);
            self.current_turn = turn + 1;
            self.deadline_ms = deadline;
            events.push(Event::TurnStart { turn: turn + 1, deadline_ms: deadline, now_ms });
            let step = Step {
                events,
                recipients,
                timer: Some(Timer { turn: turn + 1, delay_ms }),
                close: false,
            };
            proof {
                assert(turns_through(turn as int) =~= before.resolved.insert(turn as nat));
                assert(step@.events =~= before.resolve_step(now_ms, delay_ms).events);
            }
            step
        }
    }

    /// Takes a reveal of `who` for `turn` (0 stands for the current turn),
    /// whose pick is the one that `label` stands for. A reveal whose label is
    /// not R, P or S, a reveal for a resolved turn, and a reveal for a match
    /// that is not open are discarded. Else the pick is written into the
    /// reveal table, over an earlier one if there is one, and if both
    /// canonical participants have then revealed for the current turn, that
    /// turn is resolved.
    pub fn on_reveal(&mut self, who: &str, turn: u32, label: &str, now_ms: u64, delay_ms: u64) -> (step:
        Step)
        requires
            old(self).wf(),
            old(self)@.current_turn < u32::MAX,
        ensures
            final(self).wf(),
            final(self)@ == old(self)@.after_label(who@, turn, label@, now_ms, delay_ms),
            step@ == old(self)@.label_step(who@, turn, label@, now_ms, delay_ms),
    {
        let pick = match label_pick(label) {
            Some(pick) => pick,
            None => { return quiet(); },
        };
        if !self.started || self.ended || self.abandoned {
            return quiet();
        }
        let key: u32 = if turn == 0 {
            self.current_turn
        } else {
            turn
        };
        if self.is_resolved(key) {
            return quiet();
        }
        self.record(who, key, pick);
        if key != self.current_turn {
            return quiet();
        }
        let (first, second) = self.canonical();
        let complete = self.revealed_pick(first.as_str()).is_some() && self.revealed_pick(
            second.as_str(),
        ).is_some();
        if complete {
            self.resolve(now_ms, delay_ms)
        } else {
            quiet()
        }
    }

    /// Takes the firing of the deadline armed for `expected_turn`. It is
    /// ignored unless the match is open and that turn is still the current
    /// one. With fewer than two participants attached the endpoints are told
    /// that the opponent left and the match is closed as abandoned. Else the
    /// current turn is resolved, a substitute standing in for each missing
    /// reveal.
    pub fn on_deadline(&mut self, expected_turn: u32, now_ms: u64, delay_ms: u64) -> (step: Step)
        requires
            old(self).wf(),
            old(self)@.current_turn < u32::MAX,
        ensures
            final(self).wf(),
            final(self)@ == old(self)@.after_deadline(expected_turn, now_ms, delay_ms),
            step@ == old(self)@.deadline_step(expected_turn, now_ms, delay_ms),
    {
        if !self.started || self.ended || self.abandoned || self.current_turn != expected_turn {
            return quiet();
        }
        if self.participants.len() < 2 {
            self.abandoned = true;
            let mut events: Vec<Event> = Vec::new();
            events.push(Event::OpponentLeft);
            let step = Step {
                events,
                recipients: copy_handles(&self.endpoints),
                timer: None,
                close: true,
            };
            assert(step@.events =~= seq![EventView::OpponentLeft]);
            return step;
        }
        self.resolve(now_ms, delay_ms)
    }
}

/// A copy of a list of endpoints.
pub fn copy_handles(list: &Vec<u64>) -> (out: Vec<u64>)
    ensures
        out@ == list@,
{
    let mut out: Vec<u64> = Vec::new();
    let mut i: usize = 0;
    while i < list.len()
        invariant
            i <= list.len(),
            out@.len() == i,
            forall|j: int| 0 <= j < i ==> out@[j] == list@[j],
        decreases list.len() - i,
    {
        out.push(list[i]);
        i += 1;
    }
    assert(out@ =~= list@);
    out
}

/// The step that asks for nothing.
pub fn quiet() -> (step: Step)
    ensures
        step@ == idle(),
{
    let step = Step { events: Vec::new(), recipients: Vec::new(), timer: None, close: false };
    assert(step@.events =~= idle().events);
    assert(step@.recipients =~= idle().recipients);
    step
}

} // verus!
