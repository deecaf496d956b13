//! The match registry: the one owner of every match's state, looked up by
//! match identifier. A match is created when its first session attaches and
//! dropped when it is won or reset.

use vstd::prelude::*;
use crate::arbiter::{fresh, AttachError, MatchState, MatchView, Step};
use crate::session::{after_frame, frame_result, handle_frame, Handled, Inbound};
use crate::text::same_text;
use crate::ticket::{verify, verify_spec, InvalidTicket};

verus! {

/// Does the registry hold a match with this identifier?
pub open spec fn holds(ms: Seq<MatchView>, id: Seq<char>) -> bool {
    exists|i: int| 0 <= i < ms.len() && (#[trigger] ms[i]).match_id == id
}

/// Where the match with this identifier stands.
pub open spec fn place(ms: Seq<MatchView>, id: Seq<char>) -> int {
    choose|i: int| 0 <= i < ms.len() && (#[trigger] ms[i]).match_id == id
}

/// The invariants of a registry: every match keeps its own, and no two
/// matches share an identifier.
pub open spec fn registry_wf(ms: Seq<MatchView>) -> bool {
    &&& forall|i: int| 0 <= i < ms.len() ==> (#[trigger] ms[i]).wf()
    &&& forall|i: int, j: int|
        0 <= i < j < ms.len() ==> (#[trigger] ms[i]).match_id != (#[trigger] ms[j]).match_id
}

/// The match with this identifier, or a fresh one where there is none.
pub open spec fn found_or_fresh(ms: Seq<MatchView>, id: Seq<char>) -> MatchView {
    if holds(ms, id) {
        ms[place(ms, id)]
    } else {
        fresh(id)
    }
}

/// The registry with the match of this identifier set to `m`: in its place if
/// it is held, else at the end.
pub open spec fn stored(ms: Seq<MatchView>, id: Seq<char>, m: MatchView) -> Seq<MatchView> {
    if holds(ms, id) {
        ms.update(place(ms, id), m)
    } else {
        ms.push(m)
    }
}

/// The registry without the match of this identifier.
pub open spec fn dropped(ms: Seq<MatchView>, id: Seq<char>) -> Seq<MatchView> {
    if holds(ms, id) {
        ms.remove(place(ms, id))
    } else {
        ms
    }
}

/// The registry after a match has moved to `m`: the match is dropped once it
/// is won, else stored.
pub open spec fn settled(ms: Seq<MatchView>, id: Seq<char>, m: MatchView) -> Seq<MatchView> {
    if m.ended {
        dropped(ms, id)
    } else {
        stored(ms, id, m)
    }
}

/// Why the registry did not pass an event to a match.
#[derive(Clone, Copy, Debug, PartialEq, Eq, Structural)]
pub enum Unavailable {
    /// The registry holds no match with that identifier.
    NoSuchMatch,
    /// The match has used up the turn numbers that can be written.
    TurnsExhausted,
}

/// Why a session was not admitted.
#[derive(Clone, Copy, Debug, PartialEq, Eq, Structural)]
pub enum JoinError {
    /// The ticket is refused.
    Ticket(InvalidTicket),
    /// Two other participants hold the seats of the match.
    MatchFull,
}

/// A session that has been admitted: who it is, which match it joined, and
/// what the arbiter asks for.
#[derive(Debug)]
pub struct Joined {
    pub participant: String,
    pub match_id: String,
    pub step: Step,
}

/// Counts of what the registry holds.
#[derive(Clone, Copy, Debug, PartialEq, Eq, Structural)]
pub struct RegistryCounts {
    /// Matches held.
    pub matches: usize,
    /// Participants attached, over all matches.
    pub participants: usize,
    /// Matches whose first turn has been announced.
    pub pending_turn_states: usize,
}

/// The participants attached over all matches.
pub open spec fn total_participants(ms: Seq<MatchView>) -> nat
    decreases ms.len(),
{
    if ms.len() == 0 {
        0
    } else {
        total_participants(ms.drop_last()) + ms.last().participants.len()
    }
}

/// A count as it can be written: itself while it fits, else the largest number.
pub open spec fn clamped(n: nat) -> usize {
    if n <= usize::MAX {
        n as usize
    } else {
        usize::MAX
    }
}

/// The matches whose first turn has been announced.
pub open spec fn started_count(ms: Seq<MatchView>) -> nat
    decreases ms.len(),
{
    if ms.len() == 0 {
        0
    } else {
        started_count(ms.drop_last()) + if ms.last().started {
            1nat
        } else {
            0nat
        }
    }
}

/// The process-wide mapping from match identifier to match state.
#[derive(Debug)]
pub struct Registry {
    matches: Vec<MatchState>,
}

spec fn views(ms: Seq<MatchState>) -> Seq<MatchView> {
    Seq::new(ms.len(), |i: int| ms[i]@)
}

impl View for Registry {
    type V = Seq<MatchView>;

    closed spec fn view(&self) -> Seq<MatchView> {
        views(self.matches@)
    }
}

proof fn lemma_place(ms: Seq<MatchView>, id: Seq<char>, i: int)
    requires
        registry_wf(ms),
        0 <= i < ms.len(),
        ms[i].match_id == id,
    ensures
        holds(ms, id),
        place(ms, id) == i,
{
    let j = place(ms, id);
    assert(0 <= j < ms.len() && ms[j].match_id == id);
    if i < j {
        assert(ms[i].match_id != ms[j].match_id);
    } else if j < i {
        assert(ms[j].match_id != ms[i].match_id);
    }
}

impl Registry {
    /// The invariants of the representation: every match is well formed and
    /// no two share an identifier.
    pub closed spec fn wf(&self) -> bool {
        &&& registry_wf(self@)
        &&& forall|i: int| 0 <= i < self.matches.len() ==> (#[trigger] self.matches[i]).wf()
    }

    /// The invariants of the registry hold of every state that this type's
    /// functions hand out.
    pub proof fn law_invariants_hold(&self)
        requires
            self.wf(),
        ensures
            registry_wf(self@),
    {
    }

    /// A registry that holds no match.
    pub fn new() -> (r: Registry)
        ensures
            r.wf(),
            r@ == Seq::<MatchView>::empty(),
    {
        let r = Registry { matches: Vec::new() };
        assert(r@ =~= Seq::<MatchView>::empty());
        r
    }

    /// How many matches are held.
    pub fn len(&self) -> (n: usize)
        ensures
            n == self@.len(),
    {
        self.matches.len()
    }

    fn find(&self, match_id: &str) -> (r: Option<usize>)
        requires
            self.wf(),
        ensures
            match r {
                Some(i) => i < self.matches.len() && holds(self@, match_id@) && place(
                    self@,
                    match_id@,
                ) == i,
                None => !holds(self@, match_id@),
            },
    {
        let mut i: usize = 0;
        while i < self.matches.len()
            invariant
                i <= self.matches.len(),
                self.wf(),
                forall|j: int| 0 <= j < i ==> (#[trigger] self@[j]).match_id != match_id@,
            decreases self.matches.len() - i,
        {
            if same_text(self.matches[i].match_id(), match_id) {
                proof {
                    lemma_place(self@, match_id@, i as int);
                }
                return Some(i);
            }
            i += 1;
        }
        None
    }

    /// Is a match with this identifier held?
    pub fn contains(&self, match_id: &str) -> (r: bool)
        requires
            self.wf(),
        ensures
            r == holds(self@, match_id@),
    {
        self.find(match_id).is_some()
    }

    fn take(&mut self, i: usize) -> (m: MatchState)
        requires
            old(self).wf(),
            i < old(self).matches.len(),
        ensures
            m.wf(),
            m@ == old(self)@[i as int],
            final(self).wf(),
            final(self)@ == old(self)@.remove(i as int),
            final(self).matches.len() == old(self).matches.len() - 1,
    {
        let m = self.matches.remove(i);
        proof {
            let before = old(self)@;
            let after = self@;
            assert(after =~= before.remove(i as int));
            assert forall|a: int, b: int| 0 <= a < b < after.len() implies (#[trigger] after[a]).match_id
                != (#[trigger] after[b]).match_id by {
                let a2 = if a < i { a } else { a + 1 };
                let b2 = if b < i { b } else { b + 1 };
                assert(after[a] == before[a2] && after[b] == before[b2]);
            }
            assert forall|a: int| 0 <= a < after.len() implies (#[trigger] after[a]).wf() by {
                let a2 = if a < i { a } else { a + 1 };
                assert(after[a] == before[a2]);
            }
            assert forall|a: int| 0 <= a < self.matches.len() implies (
            #[trigger] self.matches[a]).wf() by {
                let a2 = if a < i { a } else { a + 1 };
                assert(self.matches[a] == old(self).matches[a2]);
            }
        }
        m
    }

    fn put(&mut self, i: usize, m: MatchState)
        requires
            old(self).wf(),
            i <= old(self).matches.len(),
            m.wf(),
            !holds(old(self)@, m@.match_id),
        ensures
            final(self).wf(),
            final(self)@ == old(self)@.insert(i as int, m@),
    {
        proof {
            m.law_invariants_hold();
        }
        self.matches.insert(i, m);
        proof {
            let before = old(self)@;
            let after = self@;
            assert(after =~= before.insert(i as int, m@));
            assert forall|a: int| 0 <= a < after.len() implies (#[trigger] after[a]).wf() by {
                if a < i {
                    assert(after[a] == before[a]);
                } else if a > i {
                    assert(after[a] == before[a - 1]);
                }
            }
            assert forall|a: int, b: int| 0 <= a < b < after.len() implies (#[trigger] after[a]).match_id
                != (#[trigger] after[b]).match_id by {
                let a2 = if a < i { a } else { a - 1 };
                let b2 = if b < i { b } else { b - 1 };
                if a != i {
                    assert(after[a] == before[a2]);
                }
                if b != i {
                    assert(after[b] == before[b2]);
                }
            }
            assert forall|a: int| 0 <= a < self.matches.len() implies (
            #[trigger] self.matches[a]).wf() by {
                if a < i {
                    assert(self.matches[a] == old(self).matches[a]);
                } else if a > i {
                    assert(self.matches[a] == old(self).matches[a - 1]);
                }
            }
        }
    }

    /// Attaches a session to the match with this identifier, which is created
    /// if the registry does not hold it. Refused, with nothing changed,
    /// exactly when the match refuses the participant.
    pub fn attach(
        &mut self,
        match_id: &str,
        who: &str,
        endpoint: u64,
        now_ms: u64,
        delay_ms: u64,
    ) -> (r: Result<Step, AttachError>)
        requires
            old(self).wf(),
        ensures
            final(self).wf(),
            found_or_fresh(old(self)@, match_id@).attach_refused(who@) ==> r == Err::<
                Step,
                AttachError,
            >(AttachError::MatchFull) && final(self)@ == old(self)@,
            !found_or_fresh(old(self)@, match_id@).attach_refused(who@) ==> r is Ok && final(self)@
                == stored(
                old(self)@,
                match_id@,
                found_or_fresh(old(self)@, match_id@).after_attach(
                    who@,
                    endpoint,
                    now_ms,
                    delay_ms,
                ),
            ) && r->Ok_0@ == found_or_fresh(old(self)@, match_id@).attach_step(
                who@,
                endpoint,
                now_ms,
                delay_ms,
            ),
    {
        let ghost before = self@;
        match self.find(match_id) {
            Some(i) => {
                let mut m = self.take(i);
                let r = m.attach(who, endpoint, now_ms, delay_ms);
                proof {
                    lemma_not_held_after_remove(before, i as int);
                }
                self.put(i, m);
                assert(self@ =~= before.update(i as int, m@));
                assert(r is Err ==> self@ =~= before);
                r
            },
            None => {
                let mut m = MatchState::new(match_id);
                let r = m.attach(who, endpoint, now_ms, delay_ms);
                let n = self.matches.len();
                assert(fresh(match_id@).participants.len() == 0);
                self.put(n, m);
                assert(self@ =~= before.push(m@));
                r
            },
        }
    }

    /// Passes a frame of the session of `who` to the match with this
    /// identifier, and drops the match if the frame wins it.
    pub fn handle(&mut self, match_id: &str, who: &str, frame: &Inbound, now_ms: u64, delay_ms: u64) -> (r:
        Result<Handled, Unavailable>)
        requires
            old(self).wf(),
        ensures
            final(self).wf(),
            !holds(old(self)@, match_id@) ==> r == Err::<Handled, Unavailable>(
                Unavailable::NoSuchMatch,
            ) && final(self)@ == old(self)@,
            holds(old(self)@, match_id@) && old(self)@[place(
                old(self)@,
                match_id@,
            )].current_turn >= u32::MAX ==> r == Err::<Handled, Unavailable>(
                Unavailable::TurnsExhausted,
            ) && final(self)@ == old(self)@,
            holds(old(self)@, match_id@) && old(self)@[place(
                old(self)@,
                match_id@,
            )].current_turn < u32::MAX ==> r is Ok && r->Ok_0@ == frame_result(
                old(self)@[place(old(self)@, match_id@)],
                who@,
                *frame,
                now_ms,
                delay_ms,
            ) && final(self)@ == settled(
                old(self)@,
                match_id@,
                after_frame(
                    old(self)@[place(old(self)@, match_id@)],
                    who@,
                    *frame,
                    now_ms,
                    delay_ms,
                ),
            ),
    {
        let ghost before = self@;
        let i = match self.find(match_id) {
            Some(i) => i,
            None => { return Err(Unavailable::NoSuchMatch); },
        };
        if self.matches[i].current_turn() == u32::MAX {
            return Err(Unavailable::TurnsExhausted);
        }
        let mut m = self.take(i);
        let h = handle_frame(&mut m, who, frame, now_ms, delay_ms);
        if !m.is_ended() {
            proof {
                lemma_not_held_after_remove(before, i as int);
            }
            self.put(i, m);
            assert(self@ =~= before.update(i as int, m@));
        }
        Ok(h)
    }

    /// Passes the firing of a deadline to the match with this identifier, and
    /// drops the match if the deadline wins it.
    pub fn deadline(&mut self, match_id: &str, expected_turn: u32, now_ms: u64, delay_ms: u64) -> (r:
        Result<Step, Unavailable>)
        requires
            old(self).wf(),
        ensures
            final(self).wf(),
            !holds(old(self)@, match_id@) ==> r == Err::<Step, Unavailable>(Unavailable::NoSuchMatch)
                && final(self)@ == old(self)@,
            holds(old(self)@, match_id@) && old(self)@[place(
                old(self)@,
                match_id@,
            )].current_turn >= u32::MAX ==> r == Err::<Step, Unavailable>(
                Unavailable::TurnsExhausted,
            ) && final(self)@ == old(self)@,
            holds(old(self)@, match_id@) && old(self)@[place(
                old(self)@,
                match_id@,
            )].current_turn < u32::MAX ==> r is Ok && r->Ok_0@ == old(self)@[place(
                old(self)@,
                match_id@,
            )].deadline_step(expected_turn, now_ms, delay_ms) && final(self)@ == settled(
                old(self)@,
                match_id@,
                old(self)@[place(old(self)@, match_id@)].after_deadline(
                    expected_turn,
                    now_ms,
                    delay_ms,
                ),
            ),
    {
        let ghost before = self@;
        let i = match self.find(match_id) {
            Some(i) => i,
            None => { return Err(Unavailable::NoSuchMatch); },
        };
        if self.matches[i].current_turn() == u32::MAX {
            return Err(Unavailable::TurnsExhausted);
        }
        let mut m = self.take(i);
        let step = m.on_deadline(expected_turn, now_ms, delay_ms);
        if !m.is_ended() {
            proof {
                lemma_not_held_after_remove(before, i as int);
            }
            self.put(i, m);
            assert(self@ =~= before.update(i as int, m@));
        }
        Ok(step)
    }

    /// Detaches a session from the match with this identifier; `None`, with
    /// nothing changed, if the registry does not hold it.
    pub fn detach(&mut self, match_id: &str, who: &str, endpoint: u64) -> (r: Option<Step>)
        requires
            old(self).wf(),
        ensures
            final(self).wf(),
            !holds(old(self)@, match_id@) ==> r is None && final(self)@ == old(self)@,
            holds(old(self)@, match_id@) ==> r is Some && r->0@ == old(self)@[place(
                old(self)@,
                match_id@,
            )].detach_step(who@, endpoint) && final(self)@ == old(self)@.update(
                place(old(self)@, match_id@),
                old(self)@[place(old(self)@, match_id@)].after_detach(who@, endpoint),
            ),
    {
        let ghost before = self@;
        let i = match self.find(match_id) {
            Some(i) => i,
            None => { return None; },
        };
        let mut m = self.take(i);
        let step = m.detach(who, endpoint);
        proof {
            lemma_not_held_after_remove(before, i as int);
        }
        self.put(i, m);
        assert(self@ =~= before.update(i as int, m@));
        Some(step)
    }

    /// Admits a session by its ticket: the ticket is verified at `now_s`, and
    /// the session is attached, as the participant the ticket names, to the
    /// match the ticket names and to no other. A refused ticket or a full
    /// match leaves the registry as it was.
    pub fn join(
        &mut self,
        token: &str,
        secret: &[u8],
        now_s: u64,
        endpoint: u64,
        now_ms: u64,
        delay_ms: u64,
    ) -> (r: Result<Joined, JoinError>)
        requires
            old(self).wf(),
        ensures
            final(self).wf(),
            match verify_spec(token@, secret@, now_s) {
                Err(e) => r == Err::<Joined, JoinError>(JoinError::Ticket(e)) && final(self)@ == old(
                    self,
                )@,
                Ok(c) => if found_or_fresh(old(self)@, c.mid).attach_refused(c.sub) {
                    r == Err::<Joined, JoinError>(JoinError::MatchFull) && final(self)@ == old(
                        self,
                    )@
                } else {
                    &&& r is Ok
                    &&& r->Ok_0.participant@ == c.sub
                    &&& r->Ok_0.match_id@ == c.mid
                    &&& r->Ok_0.step@ == found_or_fresh(old(self)@, c.mid).attach_step(
                        c.sub,
                        endpoint,
                        now_ms,
                        delay_ms,
                    )
                    &&& final(self)@ == stored(
                        old(self)@,
                        c.mid,
                        found_or_fresh(old(self)@, c.mid).after_attach(
                            c.sub,
                            endpoint,
                            now_ms,
                            delay_ms,
                        ),
                    )
                },
            },
    {
        let claims = match verify(token, secret, now_s) {
            Ok(c) => c,
            Err(e) => { return Err(JoinError::Ticket(e)); },
        };
        match self.attach(claims.mid.as_str(), claims.sub.as_str(), endpoint, now_ms, delay_ms) {
            Ok(step) => Ok(Joined { participant: claims.sub, match_id: claims.mid, step }),
            Err(_) => Err(JoinError::MatchFull),
        }
    }

    /// Counts what the registry holds: the matches, the participants attached
    /// over all of them (the largest number that can be written, should there
    /// be more), and the matches that have started.
    pub fn counts(&self) -> (c: RegistryCounts)
        requires
            self.wf(),
        ensures
            c.matches == self@.len(),
            c.participants == clamped(total_participants(self@)),
            c.pending_turn_states == started_count(self@),
    {
        let mut participants: usize = 0;
        let mut pending: usize = 0;
        let mut i: usize = 0;
        assert(self@.take(0) =~= Seq::<MatchView>::empty());
        while i < self.matches.len()
            invariant
                i <= self.matches.len(),
                self@.len() == self.matches.len(),
                participants == clamped(total_participants(self@.take(i as int))),
                pending == started_count(self@.take(i as int)),
                pending <= i,
            decreases self.matches.len() - i,
        {
            proof {
                let next = self@.take(i as int + 1);
                assert(next.drop_last() =~= self@.take(i as int));
                assert(next.last() == self.matches[i as int]@);
            }
            let n = self.matches[i].participant_count();
            participants = match participants.checked_add(n) {
                Some(t) => t,
                None => usize::MAX,
            };
            if self.matches[i].is_started() {
                pending += 1;
            }
            i += 1;
        }
        assert(self@.take(i as int) =~= self@);
        RegistryCounts { matches: self.matches.len(), participants, pending_turn_states: pending }
    }

    /// Clears the match with this identifier, if it is held. The count that
    /// is reported is that of the matches named, which is one whether or not
    /// the match was held.
    pub fn reset_match(&mut self, match_id: &str) -> (cleared: usize)
        requires
            old(self).wf(),
        ensures
            final(self).wf(),
            final(self)@ == dropped(old(self)@, match_id@),
            cleared == 1,
    {
        match self.find(match_id) {
            Some(i) => {
                let _ = self.take(i);
            },
            None => {},
        }
        1
    }

    /// Clears every match. No match is named, and the count that is reported
    /// is 0.
    pub fn reset_all(&mut self) -> (cleared: usize)
        requires
            old(self).wf(),
        ensures
            final(self).wf(),
            final(self)@ == Seq::<MatchView>::empty(),
            cleared == 0,
    {
        self.matches.clear();
        assert(self@ =~= Seq::<MatchView>::empty());
        0
    }
}

proof fn lemma_stored(ms: Seq<MatchView>, id: Seq<char>, m: MatchView)
    requires
        registry_wf(ms),
        m.wf(),
        m.match_id == id,
    ensures
        registry_wf(stored(ms, id, m)),
        holds(stored(ms, id, m), id),
        stored(ms, id, m)[place(stored(ms, id, m), id)] == m,
{
    let s = stored(ms, id, m);
    let at = if holds(ms, id) {
        place(ms, id)
    } else {
        ms.len() as int
    };
    assert(0 <= at < s.len() && s[at] == m);
    assert forall|a: int| 0 <= a < s.len() && a != at implies #[trigger] s[a] == ms[a] by {}
    assert forall|a: int| 0 <= a < s.len() implies (#[trigger] s[a]).wf() by {
        if a != at {
            assert(s[a] == ms[a]);
        }
    }
    assert forall|a: int, b: int| 0 <= a < b < s.len() implies (#[trigger] s[a]).match_id != (
    #[trigger] s[b]).match_id by {
        if holds(ms, id) {
            assert(s[a].match_id == ms[a].match_id);
            assert(s[b].match_id == ms[b].match_id);
        } else {
            assert(s[a] == ms[a]);
            if b != at {
                assert(s[b] == ms[b]);
            }
        }
    }
    lemma_place(s, id, at);
}

proof fn lemma_dropped(ms: Seq<MatchView>, id: Seq<char>)
    requires
        registry_wf(ms),
    ensures
        registry_wf(dropped(ms, id)),
        !holds(dropped(ms, id), id),
{
    if holds(ms, id) {
        let at = place(ms, id);
        let d = dropped(ms, id);
        assert(0 <= at < ms.len() && ms[at].match_id == id);
        lemma_not_held_after_remove(ms, at);
        assert forall|a: int, b: int| 0 <= a < b < d.len() implies (#[trigger] d[a]).match_id != (
        #[trigger] d[b]).match_id by {
            let a2 = if a < at { a } else { a + 1 };
            let b2 = if b < at { b } else { b + 1 };
            assert(d[a] == ms[a2] && d[b] == ms[b2]);
        }
        assert forall|a: int| 0 <= a < d.len() implies (#[trigger] d[a]).wf() by {
            let a2 = if a < at { a } else { a + 1 };
            assert(d[a] == ms[a2]);
        }
    }
}

proof fn lemma_stored_leaves_others(ms: Seq<MatchView>, id: Seq<char>, m: MatchView, other: Seq<char>)
    requires
        registry_wf(ms),
        registry_wf(stored(ms, id, m)),
        m.match_id == id,
        other != id,
    ensures
        holds(stored(ms, id, m), other) == holds(ms, other),
        holds(ms, other) ==> stored(ms, id, m)[place(stored(ms, id, m), other)] == ms[place(
            ms,
            other,
        )],
{
    let s = stored(ms, id, m);
    if holds(ms, other) {
        let o = place(ms, other);
        assert(0 <= o < ms.len() && ms[o].match_id == other);
        assert(s[o] == ms[o]);
        lemma_place(s, other, o);
    }
    if holds(s, other) {
        let o = place(s, other);
        assert(0 <= o < s.len() && s[o].match_id == other);
        assert(o < ms.len());
        assert(ms[o].match_id == other);
    }
}

proof fn lemma_dropped_leaves_others(ms: Seq<MatchView>, id: Seq<char>, other: Seq<char>)
    requires
        registry_wf(ms),
        registry_wf(dropped(ms, id)),
        other != id,
    ensures
        holds(dropped(ms, id), other) == holds(ms, other),
        holds(ms, other) ==> dropped(ms, id)[place(dropped(ms, id), other)] == ms[place(ms, other)],
{
    if holds(ms, id) {
        let at = place(ms, id);
        let d = dropped(ms, id);
        assert(0 <= at < ms.len() && ms[at].match_id == id);
        if holds(ms, other) {
            let o = place(ms, other);
            assert(0 <= o < ms.len() && ms[o].match_id == other);
            let o2 = if o < at { o } else { o - 1 };
            assert(d[o2] == ms[o]);
            lemma_place(d, other, o2);
        }
        if holds(d, other) {
            let o = place(d, other);
            assert(0 <= o < d.len() && d[o].match_id == other);
            let o2 = if o < at { o } else { o + 1 };
            assert(ms[o2].match_id == other);
        }
    }
}

/// Matches do not touch each other, and a ticket reaches its own match only:
/// storing or dropping the state of one match leaves every other match held
/// exactly as it was, and keeps the invariants of the registry.
pub proof fn law_one_match_at_a_time(ms: Seq<MatchView>, id: Seq<char>, m: MatchView, other: Seq<char>)
    requires
        registry_wf(ms),
        m.wf(),
        m.match_id == id,
        other != id,
    ensures
        registry_wf(stored(ms, id, m)),
        registry_wf(dropped(ms, id)),
        found_or_fresh(stored(ms, id, m), id) == m,
        !holds(dropped(ms, id), id),
        holds(stored(ms, id, m), other) == holds(ms, other),
        holds(dropped(ms, id), other) == holds(ms, other),
        found_or_fresh(stored(ms, id, m), other) == found_or_fresh(ms, other),
        found_or_fresh(dropped(ms, id), other) == found_or_fresh(ms, other),
{
    lemma_stored(ms, id, m);
    lemma_dropped(ms, id);
    lemma_stored_leaves_others(ms, id, m, other);
    lemma_dropped_leaves_others(ms, id, other);
}

proof fn lemma_not_held_after_remove(ms: Seq<MatchView>, i: int)
    requires
        registry_wf(ms),
        0 <= i < ms.len(),
    ensures
        !holds(ms.remove(i), ms[i].match_id),
{
    let r = ms.remove(i);
    assert forall|a: int| 0 <= a < r.len() implies (#[trigger] r[a]).match_id != ms[i].match_id by {
        let a2 = if a < i { a } else { a + 1 };
        assert(r[a] == ms[a2]);
        if a2 < i {
            assert(ms[a2].match_id != ms[i].match_id);
        } else {
            assert(ms[i].match_id != ms[a2].match_id);
        }
    }
}

} // verus!
