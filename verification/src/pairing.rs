//! The pairing layer: a drop-in queue with one waiting slot, rosters of
//! registered entrants paired round by round, and the assignments prepared
//! for participants to collect.

use vstd::prelude::*;
use crate::arbiter::{lemma_with, position_of, with};
use crate::dict::Dict;
use crate::match_id::{
    bye_match_id, bye_match_id_spec, queue_match_id, queue_match_id_spec, round_match_id,
    round_match_id_spec, solo_match_id, solo_match_id_spec,
};
use crate::moves::Role;
use crate::text::{
    in_order, lemma_in_order, lex_less, same_text, sort_texts, sorted_texts, text_less, texts,
};
use crate::ticket::{issue, ticket_spec, TICKET_LIFETIME_S};
use crate::wire::{copy_texts, opt_text, Peer};

verus! {

/// What a participant needs to take a seat: the match, the role, the
/// opponent, and the ticket that opens the socket.
#[derive(Debug)]
pub struct Assignment {
    pub match_id: String,
    pub role: Role,
    pub peer: Peer,
    pub ticket: String,
}

/// What an `Assignment` is, with texts as sequences of characters.
pub struct AssignmentView {
    pub match_id: Seq<char>,
    pub role: Role,
    pub peer_did: Seq<char>,
    pub peer_handle: Seq<char>,
    pub ticket: Seq<char>,
}

impl View for Assignment {
    type V = AssignmentView;

    open spec fn view(&self) -> AssignmentView {
        AssignmentView {
            match_id: self.match_id@,
            role: self.role,
            peer_did: self.peer.did@,
            peer_handle: self.peer.handle@,
            ticket: self.ticket@,
        }
    }
}

/// The answer to a participant who asks for a seat.
#[derive(Debug)]
pub enum QueueReply {
    /// No opponent yet: ask again.
    Wait,
    /// A seat is ready.
    Assign(Assignment),
}

/// What a `QueueReply` is, with texts as sequences of characters.
pub enum QueueReplyView {
    Wait,
    Assign(AssignmentView),
}

impl View for QueueReply {
    type V = QueueReplyView;

    open spec fn view(&self) -> QueueReplyView {
        match *self {
            QueueReply::Wait => QueueReplyView::Wait,
            QueueReply::Assign(a) => QueueReplyView::Assign(a@),
        }
    }
}

/// The entrants registered for a tournament, in the order in which they came.
#[derive(Debug)]
pub struct Roster {
    tid: String,
    entrants: Vec<String>,
}

/// What a `Roster` is, with texts as sequences of characters.
pub struct RosterView {
    pub tid: Seq<char>,
    pub entrants: Seq<Seq<char>>,
}

impl View for Roster {
    type V = RosterView;

    closed spec fn view(&self) -> RosterView {
        RosterView { tid: self.tid@, entrants: texts(self.entrants@) }
    }
}

/// The mathematical state of the pairing layer.
pub struct PairingView {
    /// The participant in the waiting slot.
    pub waiting: Option<Seq<char>>,
    /// The assignments prepared, by participant.
    pub assignments: Map<Seq<char>, AssignmentView>,
    /// The display handles known, by participant.
    pub handles: Map<Seq<char>, Seq<char>>,
    /// The rosters, one for a tournament.
    pub rosters: Seq<RosterView>,
}

/// The handle shown for a participant of whom none is known.
pub open spec fn unknown_handle() -> Seq<char> {
    "unknown"@
}

/// The identifier of the synthetic opponent.
pub open spec fn synthetic_did() -> Seq<char> {
    "AI"@
}

/// The handle of the synthetic opponent.
pub open spec fn synthetic_handle() -> Seq<char> {
    "AI_BYE"@
}

/// Does a tournament have a roster?
pub open spec fn has_roster(rs: Seq<RosterView>, tid: Seq<char>) -> bool {
    exists|i: int| 0 <= i < rs.len() && (#[trigger] rs[i]).tid == tid
}

/// Where the roster of a tournament stands.
pub open spec fn roster_place(rs: Seq<RosterView>, tid: Seq<char>) -> int {
    choose|i: int| 0 <= i < rs.len() && (#[trigger] rs[i]).tid == tid
}

/// The entrants of a tournament, none where it has no roster.
pub open spec fn entrants_of(rs: Seq<RosterView>, tid: Seq<char>) -> Seq<Seq<char>> {
    if has_roster(rs, tid) {
        rs[roster_place(rs, tid)].entrants
    } else {
        Seq::empty()
    }
}

/// The rosters without that of a tournament.
pub open spec fn without_roster(rs: Seq<RosterView>, tid: Seq<char>) -> Seq<RosterView> {
    if has_roster(rs, tid) {
        rs.remove(roster_place(rs, tid))
    } else {
        rs
    }
}

/// The rosters with an entrant registered for a tournament: added to its
/// roster unless it is there, on a new roster where the tournament has none.
pub open spec fn with_entrant(rs: Seq<RosterView>, tid: Seq<char>, did: Seq<char>) -> Seq<RosterView> {
    if has_roster(rs, tid) {
        rs.update(
            roster_place(rs, tid),
            RosterView { tid, entrants: with(rs[roster_place(rs, tid)].entrants, did) },
        )
    } else {
        rs.push(RosterView { tid, entrants: seq![did] })
    }
}

/// The entrants over all rosters.
pub open spec fn total_entrants(rs: Seq<RosterView>) -> nat
    decreases rs.len(),
{
    if rs.len() == 0 {
        0
    } else {
        total_entrants(rs.drop_last()) + rs.last().entrants.len()
    }
}

/// The handles with one more recorded, if one is given.
pub open spec fn with_handle(
    handles: Map<Seq<char>, Seq<char>>,
    did: Seq<char>,
    handle: Option<Seq<char>>,
) -> Map<Seq<char>, Seq<char>> {
    match handle {
        Some(h) => handles.insert(did, h),
        None => handles,
    }
}

impl PairingView {
    /// The invariants of the pairing layer: one roster for a tournament, and
    /// no entrant twice on a roster.
    pub open spec fn wf(self) -> bool {
        &&& forall|i: int, j: int|
            0 <= i < j < self.rosters.len() ==> (#[trigger] self.rosters[i]).tid != (
            #[trigger] self.rosters[j]).tid
        &&& forall|i: int|
            0 <= i < self.rosters.len() ==> (#[trigger] self.rosters[i]).entrants.no_duplicates()
    }

    /// The handle shown for a participant.
    pub open spec fn handle_of(self, did: Seq<char>) -> Seq<char> {
        if self.handles.contains_key(did) {
            self.handles[did]
        } else {
            unknown_handle()
        }
    }

    /// The state with a handle recorded, if one is given.
    pub open spec fn noting(self, did: Seq<char>, handle: Option<Seq<char>>) -> PairingView {
        PairingView { handles: with_handle(self.handles, did, handle), ..self }
    }

    /// The state after a participant has collected what is prepared for it.
    pub open spec fn after_poll(self, did: Seq<char>) -> PairingView {
        PairingView { assignments: self.assignments.remove(did), ..self }
    }

    /// What a participant finds prepared: its assignment, or word to wait.
    pub open spec fn poll_reply(self, did: Seq<char>) -> QueueReplyView {
        if self.assignments.contains_key(did) {
            QueueReplyView::Assign(self.assignments[did])
        } else {
            QueueReplyView::Wait
        }
    }

    /// The state after a participant cancels: it leaves the waiting slot if
    /// it is in it, and what is prepared for it is discarded.
    pub open spec fn after_cancel(self, did: Seq<char>) -> PairingView {
        PairingView {
            waiting: if self.waiting == Some(did) {
                None
            } else {
                self.waiting
            },
            assignments: self.assignments.remove(did),
            ..self
        }
    }

    /// The state after an entrant registers for a tournament.
    pub open spec fn after_register(
        self,
        tid: Seq<char>,
        did: Seq<char>,
        handle: Option<Seq<char>>,
    ) -> PairingView {
        PairingView {
            rosters: with_entrant(self.rosters, tid, did),
            handles: with_handle(self.handles, did, handle),
            ..self
        }
    }
}

/// Two participants in the order of strings: the first is the first seat.
pub open spec fn ordered(a: Seq<char>, b: Seq<char>) -> (Seq<char>, Seq<char>) {
    if lex_less(a, b) {
        (a, b)
    } else {
        (b, a)
    }
}

impl PairingView {
    /// The participant that an arrival is paired with: the one that waits,
    /// unless a seat is prepared for the arrival or it is the arrival itself
    /// that waits.
    pub open spec fn partner_of(self, did: Seq<char>) -> Option<Seq<char>> {
        if self.assignments.contains_key(did) {
            None
        } else {
            match self.waiting {
                Some(other) => if other == did {
                    None
                } else {
                    Some(other)
                },
                None => None,
            }
        }
    }

    /// The identifier of the match that pairs the participant that waited
    /// with the one that arrived.
    pub open spec fn queue_match(tid: Seq<char>, waited: Seq<char>, arrived: Seq<char>) -> Seq<char> {
        queue_match_id_spec(tid, ordered(waited, arrived).0, ordered(waited, arrived).1)
    }

    /// The seat of `who`, one of the two, in their match: the first seat if
    /// it is the first of them in the order of strings, against the other,
    /// with the ticket given.
    pub open spec fn queue_seat(
        self,
        tid: Seq<char>,
        waited: Seq<char>,
        arrived: Seq<char>,
        who: Seq<char>,
        ticket: Seq<char>,
    ) -> AssignmentView {
        AssignmentView {
            match_id: Self::queue_match(tid, waited, arrived),
            role: if who == ordered(waited, arrived).0 {
                Role::P1
            } else {
                Role::P2
            },
            peer_did: if who == waited {
                arrived
            } else {
                waited
            },
            peer_handle: if who == waited {
                self.handle_of(arrived)
            } else {
                self.handle_of(waited)
            },
            ticket,
        }
    }

    /// The answer to an arrival at the queue: what is prepared for the
    /// participant, if anything; else its seat in the match with its partner,
    /// carrying the ticket given, if it has one; else word to wait.
    pub open spec fn arrival_reply(self, tid: Seq<char>, did: Seq<char>, own_ticket: Seq<char>) -> QueueReplyView {
        if self.assignments.contains_key(did) {
            QueueReplyView::Assign(self.assignments[did])
        } else {
            match self.partner_of(did) {
                Some(other) => QueueReplyView::Assign(
                    self.queue_seat(tid, other, did, did, own_ticket),
                ),
                None => QueueReplyView::Wait,
            }
        }
    }

    /// The state after an arrival at the queue: what was prepared for the
    /// participant is consumed; else, if it has a partner, the slot is emptied
    /// and the partner's seat is prepared for it, carrying the ticket given;
    /// else the participant takes the slot, in which it may already wait.
    pub open spec fn after_arrival(self, tid: Seq<char>, did: Seq<char>, partner_ticket: Seq<char>) -> PairingView {
        if self.assignments.contains_key(did) {
            self.after_poll(did)
        } else {
            match self.partner_of(did) {
                Some(other) => PairingView {
                    waiting: None,
                    assignments: self.assignments.insert(
                        other,
                        self.queue_seat(tid, other, did, other, partner_ticket),
                    ),
                    ..self
                },
                None => PairingView { waiting: Some(did), ..self },
            }
        }
    }

    /// The ticket issued at `now_s` to `who` for the match of the two.
    pub open spec fn queue_ticket(
        tid: Seq<char>,
        waited: Seq<char>,
        arrived: Seq<char>,
        who: Seq<char>,
        now_s: u64,
        secret: Seq<u8>,
    ) -> Seq<char> {
        ticket_spec(who, Self::queue_match(tid, waited, arrived), now_s, secret)
    }

    /// The ticket that an arrival is handed: the one issued to it for the
    /// match with its partner; no text where it has no partner.
    pub open spec fn own_ticket(self, tid: Seq<char>, did: Seq<char>, now_s: u64, secret: Seq<u8>) -> Seq<char> {
        match self.partner_of(did) {
            Some(other) => Self::queue_ticket(tid, other, did, did, now_s, secret),
            None => Seq::empty(),
        }
    }

    /// The ticket that is prepared for the partner of an arrival; no text
    /// where it has no partner.
    pub open spec fn partner_ticket(self, tid: Seq<char>, did: Seq<char>, now_s: u64, secret: Seq<u8>) -> Seq<char> {
        match self.partner_of(did) {
            Some(other) => Self::queue_ticket(tid, other, did, other, now_s, secret),
            None => Seq::empty(),
        }
    }

    /// The identifier of the match of the entrant at place `k` of a roster in
    /// order: with the next entrant if `k` is even and there is one, with the
    /// one before if `k` is odd, else against the synthetic opponent.
    pub open spec fn round_match(tid: Seq<char>, round: u32, order: Seq<Seq<char>>, k: int) -> Seq<
        char,
    > {
        if k % 2 == 1 {
            round_match_id_spec(tid, round, order[k - 1], order[k])
        } else if k + 1 < order.len() {
            round_match_id_spec(tid, round, order[k], order[k + 1])
        } else {
            bye_match_id_spec(tid, round, order[k])
        }
    }

    /// The seat of the entrant at place `k`, with the ticket given: an even
    /// place is the first seat, an odd place the second.
    pub open spec fn round_seat(
        self,
        tid: Seq<char>,
        round: u32,
        order: Seq<Seq<char>>,
        k: int,
        ticket: Seq<char>,
    ) -> AssignmentView {
        AssignmentView {
            match_id: Self::round_match(tid, round, order, k),
            role: if k % 2 == 1 {
                Role::P2
            } else {
                Role::P1
            },
            peer_did: if k % 2 == 1 {
                order[k - 1]
            } else if k + 1 < order.len() {
                order[k + 1]
            } else {
                synthetic_did()
            },
            peer_handle: if k % 2 == 1 {
                self.handle_of(order[k - 1])
            } else if k + 1 < order.len() {
                self.handle_of(order[k + 1])
            } else {
                synthetic_handle()
            },
            ticket,
        }
    }

    /// The assignments with the seats of the first `n` entrants prepared, each
    /// with the ticket at its place.
    pub open spec fn with_round(
        self,
        tid: Seq<char>,
        round: u32,
        order: Seq<Seq<char>>,
        tickets: Seq<Seq<char>>,
        n: int,
    ) -> Map<Seq<char>, AssignmentView>
        decreases n,
    {
        if n <= 0 {
            self.assignments
        } else {
            self.with_round(tid, round, order, tickets, n - 1).insert(
                order[n - 1],
                self.round_seat(tid, round, order, n - 1, tickets[n - 1]),
            )
        }
    }

    /// The state after a round is paired from a roster in order: the roster
    /// of the tournament is consumed and a seat is prepared for every entrant.
    pub open spec fn after_round(
        self,
        tid: Seq<char>,
        round: u32,
        order: Seq<Seq<char>>,
        tickets: Seq<Seq<char>>,
    ) -> PairingView {
        PairingView {
            rosters: without_roster(self.rosters, tid),
            assignments: self.with_round(tid, round, order, tickets, order.len() as int),
            ..self
        }
    }

    /// The tickets issued at `now_s` to the entrants of a round, each for its
    /// own match.
    pub open spec fn round_tickets(
        tid: Seq<char>,
        round: u32,
        order: Seq<Seq<char>>,
        now_s: u64,
        secret: Seq<u8>,
    ) -> Seq<Seq<char>> {
        Seq::new(
            order.len(),
            |k: int| ticket_spec(order[k], Self::round_match(tid, round, order, k), now_s, secret),
        )
    }

    /// The state after a reset: of one tournament, its roster is dropped with
    /// the handles and the prepared assignments of its entrants, and the
    /// waiting slot is emptied if one of them is in it; without a tournament,
    /// everything is dropped.
    pub open spec fn after_reset(self, tid: Option<Seq<char>>) -> PairingView {
        match tid {
            Some(t) => PairingView {
                waiting: if self.waiting is Some && entrants_of(self.rosters, t).contains(
                    self.waiting->0,
                ) {
                    None
                } else {
                    self.waiting
                },
                assignments: self.assignments.remove_keys(entrants_of(self.rosters, t).to_set()),
                handles: self.handles.remove_keys(entrants_of(self.rosters, t).to_set()),
                rosters: without_roster(self.rosters, t),
            },
            None => PairingView {
                waiting: None,
                assignments: Map::empty(),
                handles: Map::empty(),
                rosters: Seq::empty(),
            },
        }
    }
}

/// Pairing from the queue seats two participants in one match: both
/// assignments name the same match, each names the other as its opponent,
/// one holds the first seat and the other the second, the holder of the
/// first seat does not come after the other in the order of strings, and the
/// identifier of the match is written for the first seat first.
pub proof fn law_queue_pairs_two(
    v: PairingView,
    tid: Seq<char>,
    waited: Seq<char>,
    arrived: Seq<char>,
    waited_ticket: Seq<char>,
    arrived_ticket: Seq<char>,
)
    requires
        waited != arrived,
    ensures
        v.queue_seat(tid, waited, arrived, waited, waited_ticket).match_id == v.queue_seat(
            tid,
            waited,
            arrived,
            arrived,
            arrived_ticket,
        ).match_id,
        v.queue_seat(tid, waited, arrived, waited, waited_ticket).peer_did == arrived,
        v.queue_seat(tid, waited, arrived, arrived, arrived_ticket).peer_did == waited,
        v.queue_seat(tid, waited, arrived, waited, waited_ticket).role != v.queue_seat(
            tid,
            waited,
            arrived,
            arrived,
            arrived_ticket,
        ).role,
        v.queue_seat(tid, waited, arrived, waited, waited_ticket).role == Role::P1 <==> lex_less(
            waited,
            arrived,
        ),
        !lex_less(ordered(waited, arrived).1, ordered(waited, arrived).0),
        PairingView::queue_match(tid, waited, arrived) == queue_match_id_spec(
            tid,
            ordered(waited, arrived).0,
            ordered(waited, arrived).1,
        ),
{
    if lex_less(waited, arrived) {
        crate::text::law_order_is_asymmetric(waited, arrived);
    }
}

/// Pairing a round seats the entrants two by two: the entrants at an even
/// place and at the place after it share a match, the earlier in the first
/// seat and the later in the second, each named as the other's opponent; an
/// entrant left over at the end holds the first seat against the synthetic
/// opponent.
pub proof fn law_round_pairs_neighbours(
    v: PairingView,
    tid: Seq<char>,
    round: u32,
    order: Seq<Seq<char>>,
    k: int,
    ticket: Seq<char>,
    next_ticket: Seq<char>,
)
    requires
        0 <= k < order.len(),
        k % 2 == 0,
    ensures
        k + 1 < order.len() ==> {
            &&& v.round_seat(tid, round, order, k, ticket).match_id == v.round_seat(
                tid,
                round,
                order,
                k + 1,
                next_ticket,
            ).match_id
            &&& v.round_seat(tid, round, order, k, ticket).match_id == round_match_id_spec(
                tid,
                round,
                order[k],
                order[k + 1],
            )
            &&& v.round_seat(tid, round, order, k, ticket).role == Role::P1
            &&& v.round_seat(tid, round, order, k + 1, next_ticket).role == Role::P2
            &&& v.round_seat(tid, round, order, k, ticket).peer_did == order[k + 1]
            &&& v.round_seat(tid, round, order, k + 1, next_ticket).peer_did == order[k]
        },
        k + 1 == order.len() ==> {
            &&& v.round_seat(tid, round, order, k, ticket).match_id == bye_match_id_spec(
                tid,
                round,
                order[k],
            )
            &&& v.round_seat(tid, round, order, k, ticket).role == Role::P1
            &&& v.round_seat(tid, round, order, k, ticket).peer_did == synthetic_did()
            &&& v.round_seat(tid, round, order, k, ticket).peer_handle == synthetic_handle()
        },
{
}

/// What a reset cleared.
#[derive(Clone, Copy, Debug, PartialEq, Eq, Structural)]
pub struct ResetCounts {
    /// Entrants of the tournament that was reset; 0 when everything was
    /// reset, which is not counted.
    pub cleared_dids: usize,
    /// Half of them, rounded down.
    pub cleared_pairs: usize,
}

/// Counts of what the pairing layer holds.
#[derive(Clone, Copy, Debug, PartialEq, Eq, Structural)]
pub struct PairingCounts {
    /// Tournaments with a roster.
    pub entrants_tids: usize,
    /// Entrants over all rosters.
    pub total_entrants: usize,
    /// Whether a participant is in the waiting slot.
    pub waiting_present: bool,
    /// Assignments prepared.
    pub assignments: usize,
    /// Handles known.
    pub handles: usize,
}

/// The notification of a round boundary for the external anchor sink.
#[derive(Debug)]
pub struct RoundAnchor {
    pub tid: String,
    pub round: u32,
    pub alive_root: String,
    pub pairing_seed: String,
    pub merkle_root: String,
    pub posted_at: String,
}

/// The placeholder written into the opaque fields of an anchor.
pub open spec fn anchor_placeholder() -> Seq<char> {
    "0x00"@
}

/// Writes the notification of a round boundary: tournament, round, the
/// opaque fields as placeholders, and the timestamp as it is given.
pub fn round_anchor(tid: &str, round: u32, posted_at: &str) -> (a: RoundAnchor)
    ensures
        a.tid@ == tid@,
        a.round == round,
        a.alive_root@ == anchor_placeholder(),
        a.pairing_seed@ == anchor_placeholder(),
        a.merkle_root@ == anchor_placeholder(),
        a.posted_at@ == posted_at@,
{
    RoundAnchor {
        tid: tid.to_owned(),
        round,
        alive_root: "0x00".to_owned(),
        pairing_seed: "0x00".to_owned(),
        merkle_root: "0x00".to_owned(),
        posted_at: posted_at.to_owned(),
    }
}

/// The assignment handed out without pairing: the first seat of a match of
/// the participant's own, against the synthetic opponent, with the ticket
/// given.
pub open spec fn solo_seat_spec(tid: Seq<char>, round: u32, did: Seq<char>, ticket: Seq<char>) -> AssignmentView {
    AssignmentView {
        match_id: solo_match_id_spec(tid, round, did),
        role: Role::P1,
        peer_did: synthetic_did(),
        peer_handle: synthetic_handle(),
        ticket,
    }
}

/// Writes the assignment handed out without pairing, around a ticket.
pub fn solo_seat(tid: &str, round: u32, did: &str, ticket: String) -> (r: Assignment)
    ensures
        r@ == solo_seat_spec(tid@, round, did@, ticket@),
{
    Assignment {
        match_id: solo_match_id(tid, round, did),
        role: Role::P1,
        peer: Peer { did: "AI".to_owned(), handle: "AI_BYE".to_owned() },
        ticket,
    }
}

/// Hands out an assignment without pairing: a ticket is issued to the
/// participant for a match of its own.
pub fn solo_assignment(tid: &str, round: u32, did: &str, now_s: u64, secret: &[u8]) -> (r: Assignment)
    requires
        now_s + TICKET_LIFETIME_S <= u64::MAX,
    ensures
        r@ == solo_seat_spec(
            tid@,
            round,
            did@,
            ticket_spec(did@, solo_match_id_spec(tid@, round, did@), now_s, secret@),
        ),
{
    let match_id = solo_match_id(tid, round, did);
    let ticket = issue(did, match_id.as_str(), now_s, secret);
    solo_seat(tid, round, did, ticket)
}

/// An entrant of a round with the ticket issued to it.
#[derive(Debug)]
pub struct Ticketed {
    pub did: String,
    pub ticket: String,
}

/// The entrants of a list of ticketed entrants, in order.
pub open spec fn ticketed_dids(s: Seq<Ticketed>) -> Seq<Seq<char>> {
    Seq::new(s.len(), |i: int| s[i].did@)
}

/// The tickets of a list of ticketed entrants, in order.
pub open spec fn ticketed_tickets(s: Seq<Ticketed>) -> Seq<Seq<char>> {
    Seq::new(s.len(), |i: int| s[i].ticket@)
}

/// Writes the identifier of the match that pairs the participant that waited
/// with the one that arrived: the first of the two in the order of strings is
/// written first.
pub fn queue_match(tid: &str, waited: &str, arrived: &str) -> (r: String)
    ensures
        r@ == PairingView::queue_match(tid@, waited@, arrived@),
{
    if text_less(waited, arrived) {
        queue_match_id(tid, waited, arrived)
    } else {
        queue_match_id(tid, arrived, waited)
    }
}

/// Writes the identifier of the match of the entrant at place `k` of a
/// roster in order.
pub fn round_match_at(tid: &str, round: u32, order: &Vec<String>, k: usize) -> (r: String)
    requires
        k < order.len(),
    ensures
        r@ == PairingView::round_match(tid@, round, texts(order@), k as int),
{
    let ghost o = texts(order@);
    assert(o[k as int] == order[k as int]@);
    if k % 2 == 1 {
        assert(o[k as int - 1] == order[k as int - 1]@);
        round_match_id(tid, round, order[k - 1].as_str(), order[k].as_str())
    } else if k + 1 < order.len() {
        assert(o[k as int + 1] == order[k as int + 1]@);
        round_match_id(tid, round, order[k].as_str(), order[k + 1].as_str())
    } else {
        bye_match_id(tid, round, order[k].as_str())
    }
}

/// The state of the pairing layer.
#[derive(Debug)]
pub struct Pairing {
    waiting: Option<String>,
    assignments: Dict<Assignment>,
    handles: Dict<String>,
    rosters: Vec<Roster>,
}

spec fn roster_views(rs: Seq<Roster>) -> Seq<RosterView> {
    Seq::new(rs.len(), |i: int| rs[i]@)
}

spec fn waiting_view(w: Option<String>) -> Option<Seq<char>> {
    match w {
        Some(s) => Some(s@),
        None => None,
    }
}

impl View for Pairing {
    type V = PairingView;

    closed spec fn view(&self) -> PairingView {
        PairingView {
            waiting: waiting_view(self.waiting),
            assignments: self.assignments@.map_values(|a: Assignment| a@),
            handles: self.handles@.map_values(|s: String| s@),
            rosters: roster_views(self.rosters@),
        }
    }
}

/// The view of an optional handle.
pub open spec fn handle_view(h: Option<&str>) -> Option<Seq<char>> {
    match h {
        Some(s) => Some(s@),
        None => None,
    }
}

proof fn lemma_roster_place(rs: Seq<RosterView>, tid: Seq<char>, i: int)
    requires
        forall|a: int, b: int| 0 <= a < b < rs.len() ==> (#[trigger] rs[a]).tid != (#[trigger] rs[b]).tid,
        0 <= i < rs.len(),
        rs[i].tid == tid,
    ensures
        has_roster(rs, tid),
        roster_place(rs, tid) == i,
{
    let j = roster_place(rs, tid);
    assert(0 <= j < rs.len() && rs[j].tid == tid);
    if i < j {
        assert(rs[i].tid != rs[j].tid);
    } else if j < i {
        assert(rs[j].tid != rs[i].tid);
    }
}

impl Pairing {
    /// The invariants of the representation.
    pub closed spec fn wf(&self) -> bool {
        &&& self@.wf()
        &&& self.assignments.wf()
        &&& self.handles.wf()
    }

    /// The invariants of the pairing layer hold of every state that this
    /// type's functions hand out.
    pub proof fn law_invariants_hold(&self)
        requires
            self.wf(),
        ensures
            self@.wf(),
    {
    }

    /// A pairing layer in which nobody waits and nothing is prepared.
    pub fn new() -> (p: Pairing)
        ensures
            p.wf(),
            p@ == (PairingView {
                waiting: None,
                assignments: Map::empty(),
                handles: Map::empty(),
                rosters: Seq::empty(),
            }),
    {
        let p = Pairing {
            waiting: None,
            assignments: Dict::new(),
            handles: Dict::new(),
            rosters: Vec::new(),
        };
        proof {
            assert(p@.assignments =~= Map::<Seq<char>, AssignmentView>::empty());
            assert(p@.handles =~= Map::<Seq<char>, Seq<char>>::empty());
            assert(p@.rosters =~= Seq::<RosterView>::empty());
        }
        p
    }

    fn note_handle(&mut self, did: &str, handle: Option<&str>)
        requires
            old(self).wf(),
        ensures
            final(self).wf(),
            final(self)@ == old(self)@.noting(did@, handle_view(handle)),
    {
        match handle {
            Some(h) => {
                self.handles.insert(did, h.to_owned());
                assert(self@.handles =~= old(self)@.handles.insert(did@, h@));
            },
            None => {},
        }
    }

    /// The handle shown for a participant: the one recorded, or `unknown`.
    pub fn handle_for(&self, did: &str) -> (h: String)
        requires
            self.wf(),
        ensures
            h@ == self@.handle_of(did@),
    {
        match self.handles.get(did) {
            Some(h) => h.clone(),
            None => "unknown".to_owned(),
        }
    }

    /// Hands a participant the assignment prepared for it, which is thereby
    /// consumed, or tells it to wait.
    pub fn poll(&mut self, did: &str) -> (r: QueueReply)
        requires
            old(self).wf(),
        ensures
            final(self).wf(),
            final(self)@ == old(self)@.after_poll(did@),
            r@ == old(self)@.poll_reply(did@),
    {
        let taken = self.assignments.remove(did);
        assert(self@.assignments =~= old(self)@.assignments.remove(did@));
        match taken {
            Some(a) => QueueReply::Assign(a),
            None => QueueReply::Wait,
        }
    }

    /// Cancels a participant: it leaves the waiting slot if it is in it, and
    /// what was prepared for it is discarded. Says whether it was waiting.
    pub fn cancel(&mut self, did: &str) -> (removed: bool)
        requires
            old(self).wf(),
        ensures
            final(self).wf(),
            final(self)@ == old(self)@.after_cancel(did@),
            removed == (old(self)@.waiting == Some(did@)),
    {
        let removed = match &self.waiting {
            Some(w) => same_text(w.as_str(), did),
            None => false,
        };
        if removed {
            self.waiting = None;
        }
        let _ = self.assignments.remove(did);
        assert(self@.assignments =~= old(self)@.assignments.remove(did@));
        removed
    }

    fn find_roster(&self, tid: &str) -> (r: Option<usize>)
        requires
            self.wf(),
        ensures
            match r {
                Some(i) => i < self.rosters.len() && has_roster(self@.rosters, tid@) && roster_place(
                    self@.rosters,
                    tid@,
                ) == i,
                None => !has_roster(self@.rosters, tid@),
            },
    {
        let mut i: usize = 0;
        while i < self.rosters.len()
            invariant
                i <= self.rosters.len(),
                self.wf(),
                forall|j: int| 0 <= j < i ==> (#[trigger] self@.rosters[j]).tid != tid@,
            decreases self.rosters.len() - i,
        {
            if same_text(self.rosters[i].tid.as_str(), tid) {
                proof {
                    lemma_roster_place(self@.rosters, tid@, i as int);
                }
                return Some(i);
            }
            i += 1;
        }
        None
    }

    /// Registers an entrant for a tournament, once, and records its handle if
    /// one is given.
    pub fn register(&mut self, tid: &str, did: &str, handle: Option<&str>)
        requires
            old(self).wf(),
        ensures
            final(self).wf(),
            final(self)@ == old(self)@.after_register(tid@, did@, handle_view(handle)),
    {
        let ghost before = self@;
        match self.find_roster(tid) {
            Some(i) => {
                let mut roster = self.rosters.remove(i);
                proof {
                    lemma_with(before.rosters[i as int].entrants, did@);
                }
                assert(roster@ == before.rosters[i as int]);
                match position_of(&roster.entrants, did) {
                    None => {
                        roster.entrants.push(did.to_owned());
                        assert(roster@.entrants =~= before.rosters[i as int].entrants.push(did@));
                    },
                    Some(k) => {
                        assert(texts(roster.entrants@)[k as int] == did@);
                    },
                }
                assert(roster@.entrants == with(before.rosters[i as int].entrants, did@));
                self.rosters.insert(i, roster);
                assert(self@.rosters =~= before.rosters.update(i as int, roster@));
            },
            None => {
                let mut entrants: Vec<String> = Vec::new();
                entrants.push(did.to_owned());
                let roster = Roster { tid: tid.to_owned(), entrants };
                assert(roster@.entrants =~= seq![did@]);
                self.rosters.push(roster);
                assert(self@.rosters =~= with_entrant(before.rosters, tid@, did@));
            },
        }
        self.note_handle(did, handle);
    }

    /// The entrants registered for a tournament, in the order in which they came.
    pub fn roster(&self, tid: &str) -> (r: Vec<String>)
        requires
            self.wf(),
        ensures
            texts(r@) == entrants_of(self@.rosters, tid@),
    {
        match self.find_roster(tid) {
            Some(i) => copy_texts(&self.rosters[i].entrants),
            None => {
                let r: Vec<String> = Vec::new();
                assert(texts(r@) =~= Seq::<Seq<char>>::empty());
                r
            },
        }
    }

    /// The participant that an arrival would be paired with, if any.
    pub fn partner(&self, did: &str) -> (r: Option<String>)
        requires
            self.wf(),
        ensures
            opt_text(r) == self@.partner_of(did@),
    {
        if self.assignments.contains(did) {
            return None;
        }
        match &self.waiting {
            Some(w) => if same_text(w.as_str(), did) {
                None
            } else {
                Some(w.clone())
            },
            None => None,
        }
    }

    /// Seats an arrival at the queue, given the two tickets. The participant
    /// is handed what is prepared for it, if anything. Else, if another
    /// participant waits, the two are paired: the first of them in the order
    /// of strings takes the first seat, the seat of the one that waited is
    /// prepared for it with its ticket, the slot is emptied, and the arrival
    /// is handed its own seat with its own ticket. Else the arrival takes the
    /// slot and is told to wait. The tickets are used only where a pair is
    /// made.
    pub fn seat_arrival(&mut self, tid: &str, did: &str, partner_ticket: String, own_ticket: String) -> (r:
        QueueReply)
        requires
            old(self).wf(),
        ensures
            final(self).wf(),
            final(self)@ == old(self)@.after_arrival(tid@, did@, partner_ticket@),
            r@ == old(self)@.arrival_reply(tid@, did@, own_ticket@),
    {
        let ghost v = self@;
        if self.assignments.contains(did) {
            return self.poll(did);
        }
        let other: String = match self.partner(did) {
            Some(other) => other,
            None => {
                self.waiting = Some(did.to_owned());
                return QueueReply::Wait;
            },
        };
        let other_first = text_less(other.as_str(), did);
        let match_id = queue_match(tid, other.as_str(), did);
        let other_seat = Assignment {
            match_id: match_id.clone(),
            role: if other_first {
                Role::P1
            } else {
                Role::P2
            },
            peer: Peer { did: did.to_owned(), handle: self.handle_for(did) },
            ticket: partner_ticket,
        };
        let own_seat = Assignment {
            match_id,
            role: if other_first {
                Role::P2
            } else {
                Role::P1
            },
            peer: Peer { did: other.clone(), handle: self.handle_for(other.as_str()) },
            ticket: own_ticket,
        };
        assert(other_seat@ == v.queue_seat(tid@, other@, did@, other@, partner_ticket@));
        assert(own_seat@ == v.queue_seat(tid@, other@, did@, did@, own_ticket@));
        self.assignments.insert(other.as_str(), other_seat);
        self.waiting = None;
        assert(self@.assignments =~= v.assignments.insert(other@, other_seat@));
        QueueReply::Assign(own_seat)
    }

    /// Takes an arrival at the queue. The handle is recorded if one is given.
    /// Where the arrival is then paired with the participant that waits, a
    /// ticket for their match is issued to each of the two at `now_s`; the
    /// arrival is seated with those tickets.
    pub fn queue_ready(&mut self, tid: &str, did: &str, handle: Option<&str>, now_s: u64, secret: &[u8]) -> (r:
        QueueReply)
        requires
            old(self).wf(),
            now_s + TICKET_LIFETIME_S <= u64::MAX,
        ensures
            final(self).wf(),
            r@ == old(self)@.noting(did@, handle_view(handle)).arrival_reply(
                tid@,
                did@,
                old(self)@.noting(did@, handle_view(handle)).own_ticket(tid@, did@, now_s, secret@),
            ),
            final(self)@ == old(self)@.noting(did@, handle_view(handle)).after_arrival(
                tid@,
                did@,
                old(self)@.noting(did@, handle_view(handle)).partner_ticket(
                    tid@,
                    did@,
                    now_s,
                    secret@,
                ),
            ),
    {
        self.note_handle(did, handle);
        match self.partner(did) {
            Some(other) => {
                let match_id = queue_match(tid, other.as_str(), did);
                let partner_ticket = issue(other.as_str(), match_id.as_str(), now_s, secret);
                let own_ticket = issue(did, match_id.as_str(), now_s, secret);
                self.seat_arrival(tid, did, partner_ticket, own_ticket)
            },
            None => self.seat_arrival(tid, did, String::new(), String::new()),
        }
    }

    /// Seats a round, given its entrants in order, each with its ticket: the
    /// entrants at places 0 and 1 meet, those at 2 and 3, and so on, the
    /// earlier of each two in the first seat; an entrant left over at the end
    /// is seated against the synthetic opponent. A seat is prepared for every
    /// entrant with its ticket, the roster of the tournament is consumed, and
    /// the number of matches of two entrants is returned.
    pub fn seat_round(&mut self, tid: &str, round: u32, seats: &Vec<Ticketed>) -> (pairs: usize)
        requires
            old(self).wf(),
        ensures
            final(self).wf(),
            final(self)@ == old(self)@.after_round(
                tid@,
                round,
                ticketed_dids(seats@),
                ticketed_tickets(seats@),
            ),
            pairs == seats.len() / 2,
    {
        let ghost v = self@;
        let ghost o = ticketed_dids(seats@);
        let ghost t = ticketed_tickets(seats@);
        let n = seats.len();
        let mut i: usize = 0;
        while i < n
            invariant
                i <= n,
                n == seats.len(),
                o == ticketed_dids(seats@),
                t == ticketed_tickets(seats@),
                self.wf(),
                v.wf(),
                self@ == (PairingView { assignments: v.with_round(tid@, round, o, t, i as int), ..v }),
            decreases n - i,
        {
            let who = seats[i].did.as_str();
            let odd = i % 2 == 1;
            let alone = !odd && i + 1 >= n;
            assert(o[i as int] == seats[i as int].did@);
            assert(t[i as int] == seats[i as int].ticket@);
            let match_id = if odd {
                assert(o[i as int - 1] == seats[i as int - 1].did@);
                round_match_id(tid, round, seats[i - 1].did.as_str(), who)
            } else if !alone {
                assert(o[i as int + 1] == seats[i as int + 1].did@);
                round_match_id(tid, round, who, seats[i + 1].did.as_str())
            } else {
                bye_match_id(tid, round, who)
            };
            let peer = if odd {
                Peer {
                    did: seats[i - 1].did.clone(),
                    handle: self.handle_for(seats[i - 1].did.as_str()),
                }
            } else if !alone {
                Peer {
                    did: seats[i + 1].did.clone(),
                    handle: self.handle_for(seats[i + 1].did.as_str()),
                }
            } else {
                Peer { did: "AI".to_owned(), handle: "AI_BYE".to_owned() }
            };
            let seat = Assignment {
                match_id,
                role: if odd {
                    Role::P2
                } else {
                    Role::P1
                },
                peer,
                ticket: seats[i].ticket.clone(),
            };
            assert(seat@ == v.round_seat(tid@, round, o, i as int, t[i as int]));
            let ghost before = self@.assignments;
            self.assignments.insert(who, seat);
            assert(self@.assignments =~= before.insert(o[i as int], seat@));
            i += 1;
        }
        match self.find_roster(tid) {
            Some(at) => {
                self.rosters.remove(at);
                assert(self@.rosters =~= without_roster(v.rosters, tid@));
            },
            None => {},
        }
        n / 2
    }

    /// Pairs a round from a roster given in order: a ticket is issued at
    /// `now_s` to every entrant for its own match, and the round is seated
    /// with those tickets.
    pub fn pair_roster(&mut self, tid: &str, round: u32, order: &Vec<String>, now_s: u64, secret: &[u8]) -> (pairs:
        usize)
        requires
            old(self).wf(),
            now_s + TICKET_LIFETIME_S <= u64::MAX,
        ensures
            final(self).wf(),
            final(self)@ == old(self)@.after_round(
                tid@,
                round,
                texts(order@),
                PairingView::round_tickets(tid@, round, texts(order@), now_s, secret@),
            ),
            pairs == order.len() / 2,
    {
        let ghost o = texts(order@);
        let ghost t = PairingView::round_tickets(tid@, round, o, now_s, secret@);
        let mut seats: Vec<Ticketed> = Vec::new();
        let mut k: usize = 0;
        while k < order.len()
            invariant
                k <= order.len(),
                o == texts(order@),
                t == PairingView::round_tickets(tid@, round, o, now_s, secret@),
                now_s + TICKET_LIFETIME_S <= u64::MAX,
                seats.len() == k,
                forall|j: int| 0 <= j < k ==> (#[trigger] seats[j]).did@ == o[j] && seats[j].ticket@ == t[j],
            decreases order.len() - k,
        {
            let match_id = round_match_at(tid, round, order, k);
            assert(o[k as int] == order[k as int]@);
            let ticket = issue(order[k].as_str(), match_id.as_str(), now_s, secret);
            seats.push(Ticketed { did: order[k].clone(), ticket });
            k += 1;
        }
        assert(ticketed_dids(seats@) =~= o);
        assert(ticketed_tickets(seats@) =~= t);
        self.seat_round(tid, round, &seats)
    }

    /// Starts a round of a tournament: its roster is put into the order of
    /// strings, which holds the same entrants, and is paired in that order.
    pub fn start_round(&mut self, tid: &str, round: u32, now_s: u64, secret: &[u8]) -> (pairs: usize)
        requires
            old(self).wf(),
            now_s + TICKET_LIFETIME_S <= u64::MAX,
        ensures
            final(self).wf(),
            sorted_texts(in_order(entrants_of(old(self)@.rosters, tid@))),
            in_order(entrants_of(old(self)@.rosters, tid@)).to_multiset() == entrants_of(
                old(self)@.rosters,
                tid@,
            ).to_multiset(),
            final(self)@ == old(self)@.after_round(
                tid@,
                round,
                in_order(entrants_of(old(self)@.rosters, tid@)),
                PairingView::round_tickets(
                    tid@,
                    round,
                    in_order(entrants_of(old(self)@.rosters, tid@)),
                    now_s,
                    secret@,
                ),
            ),
            pairs == in_order(entrants_of(old(self)@.rosters, tid@)).len() / 2,
    {
        let mut order = self.roster(tid);
        sort_texts(&mut order);
        proof {
            lemma_in_order(entrants_of(old(self)@.rosters, tid@), texts(order@));
        }
        self.pair_roster(tid, round, &order, now_s, secret)
    }

    /// Resets the pairing layer: for one tournament, or entirely. Returns how
    /// many entrants the tournament had, and half that number; a reset of
    /// everything is not counted, and both numbers are 0.
    pub fn reset(&mut self, tid: Option<&str>) -> (c: ResetCounts)
        requires
            old(self).wf(),
        ensures
            final(self).wf(),
            final(self)@ == old(self)@.after_reset(handle_view(tid)),
            c.cleared_dids == match tid {
                Some(t) => entrants_of(old(self)@.rosters, t@).len(),
                None => 0,
            },
            c.cleared_pairs == c.cleared_dids / 2,
    {
        let ghost v = self@;
        match tid {
            None => {
                self.rosters.clear();
                self.handles.clear();
                self.assignments.clear();
                self.waiting = None;
                proof {
                    assert(self@.assignments =~= Map::<Seq<char>, AssignmentView>::empty());
                    assert(self@.handles =~= Map::<Seq<char>, Seq<char>>::empty());
                    assert(self@.rosters =~= Seq::<RosterView>::empty());
                }
                ResetCounts { cleared_dids: 0, cleared_pairs: 0 }
            },
            Some(t) => {
                let dids = self.roster(t);
                let ghost ds = texts(dids@);
                match self.find_roster(t) {
                    Some(at) => {
                        self.rosters.remove(at);
                        assert(self@.rosters =~= without_roster(v.rosters, t@));
                    },
                    None => {},
                }
                let mut i: usize = 0;
                assert(ds.take(0).to_set() =~= Set::<Seq<char>>::empty());
                assert(v.assignments.remove_keys(Set::<Seq<char>>::empty()) =~= v.assignments);
                assert(v.handles.remove_keys(Set::<Seq<char>>::empty()) =~= v.handles);
                while i < dids.len()
                    invariant
                        i <= dids.len(),
                        ds == texts(dids@),
                        self.wf(),
                        v.wf(),
                        (PairingView { rosters: without_roster(v.rosters, t@), ..v }).wf(),
                        self@ == (PairingView {
                            assignments: v.assignments.remove_keys(ds.take(i as int).to_set()),
                            handles: v.handles.remove_keys(ds.take(i as int).to_set()),
                            rosters: without_roster(v.rosters, t@),
                            ..v
                        }),
                    decreases dids.len() - i,
                {
                    let ghost a0 = self@.assignments;
                    let ghost h0 = self@.handles;
                    let _ = self.assignments.remove(dids[i].as_str());
                    let _ = self.handles.remove(dids[i].as_str());
                    proof {
                        let d = ds[i as int];
                        assert(d == dids[i as int]@);
                        let head = ds.take(i as int);
                        let upto = ds.take(i as int + 1);
                        let cleared = head.to_set();
                        let clearing = upto.to_set();
                        assert(clearing =~= cleared.insert(d)) by {
                            assert forall|x: Seq<char>|
                                clearing.contains(x) <==> cleared.insert(d).contains(x) by {
                                if upto.contains(x) {
                                    let a = upto.index_of(x);
                                    assert(upto[a] == x);
                                    if a < i {
                                        assert(head[a] == x);
                                    }
                                }
                                if head.contains(x) {
                                    let a = head.index_of(x);
                                    assert(head[a] == x);
                                    assert(upto[a] == x);
                                }
                                assert(upto[i as int] == d);
                            }
                        }
                        assert(self@.assignments =~= a0.remove(d));
                        assert(self@.handles =~= h0.remove(d));
                        assert(a0.remove(d) =~= v.assignments.remove_keys(clearing));
                        assert(h0.remove(d) =~= v.handles.remove_keys(clearing));
                    }
                    i += 1;
                }
                assert(ds.take(dids.len() as int) =~= ds);
                let waiting_cleared = match &self.waiting {
                    Some(w) => match position_of(&dids, w.as_str()) {
                        Some(at) => {
                            assert(ds[at as int] == w@);
                            true
                        },
                        None => false,
                    },
                    None => false,
                };
                if waiting_cleared {
                    self.waiting = None;
                }
                let n = dids.len();
                ResetCounts { cleared_dids: n, cleared_pairs: n / 2 }
            },
        }
    }

    /// Counts what the pairing layer holds.
    pub fn counts(&self) -> (c: PairingCounts)
        requires
            self.wf(),
        ensures
            c.entrants_tids == self@.rosters.len(),
            c.total_entrants == crate::registry::clamped(total_entrants(self@.rosters)),
            c.waiting_present == self@.waiting is Some,
            self@.assignments.dom().finite(),
            c.assignments == self@.assignments.dom().len(),
            self@.handles.dom().finite(),
            c.handles == self@.handles.dom().len(),
    {
        let mut total: usize = 0;
        let mut i: usize = 0;
        assert(self@.rosters.take(0) =~= Seq::<RosterView>::empty());
        while i < self.rosters.len()
            invariant
                i <= self.rosters.len(),
                self@.rosters.len() == self.rosters.len(),
                total == crate::registry::clamped(total_entrants(self@.rosters.take(i as int))),
            decreases self.rosters.len() - i,
        {
            proof {
                let next = self@.rosters.take(i as int + 1);
                assert(next.drop_last() =~= self@.rosters.take(i as int));
                assert(next.last() == self.rosters[i as int]@);
            }
            total = match total.checked_add(self.rosters[i].entrants.len()) {
                Some(t) => t,
                None => usize::MAX,
            };
            i += 1;
        }
        assert(self@.rosters.take(i as int) =~= self@.rosters);
        let assignments = self.assignments.len();
        let handles = self.handles.len();
        proof {
            assert(self@.assignments.dom() =~= self.assignments@.dom());
            assert(self@.handles.dom() =~= self.handles@.dom());
        }
        PairingCounts {
            entrants_tids: self.rosters.len(),
            total_entrants: total,
            waiting_present: self.waiting.is_some(),
            assignments,
            handles,
        }
    }
}

} // verus!
