//! What holds of every match: the inputs a match can take, runs of them, and
//! the laws of the arbiter stated over such runs.

use vstd::prelude::*;
use crate::arbiter::{
    fresh, idle, lemma_with, lemma_without, turns_through, EventView, MatchView, StepView,
};
use crate::moves::{is_pick, judge_spec, Outcome, Role, SALT_P1, SALT_P2};

verus! {

/// One input to a match.
pub enum Input {
    /// A session attaches.
    Attach { who: Seq<char>, endpoint: u64, now_ms: u64, delay_ms: u64 },
    /// A session detaches.
    Detach { who: Seq<char>, endpoint: u64 },
    /// A session asks for the match to start.
    Start { now_ms: u64, delay_ms: u64 },
    /// A reveal arrives.
    Reveal { who: Seq<char>, turn: u32, pick: char, now_ms: u64, delay_ms: u64 },
    /// The deadline armed for a turn fires.
    Deadline { expected_turn: u32, now_ms: u64, delay_ms: u64 },
}

/// The state after one input.
pub open spec fn next(v: MatchView, i: Input) -> MatchView {
    match i {
        Input::Attach { who, endpoint, now_ms, delay_ms } => if v.attach_refused(who) {
            v
        } else {
            v.after_attach(who, endpoint, now_ms, delay_ms)
        },
        Input::Detach { who, endpoint } => v.after_detach(who, endpoint),
        Input::Start { now_ms, delay_ms } => v.after_start(now_ms, delay_ms),
        Input::Reveal { who, turn, pick, now_ms, delay_ms } => v.after_reveal(
            who,
            turn,
            pick,
            now_ms,
            delay_ms,
        ),
        Input::Deadline { expected_turn, now_ms, delay_ms } => v.after_deadline(
            expected_turn,
            now_ms,
            delay_ms,
        ),
    }
}

/// What one input asks of the session layer.
pub open spec fn output(v: MatchView, i: Input) -> StepView {
    match i {
        Input::Attach { who, endpoint, now_ms, delay_ms } => if v.attach_refused(who) {
            idle()
        } else {
            v.attach_step(who, endpoint, now_ms, delay_ms)
        },
        Input::Detach { who, endpoint } => v.detach_step(who, endpoint),
        Input::Start { now_ms, delay_ms } => v.start_step(now_ms, delay_ms),
        Input::Reveal { who, turn, pick, now_ms, delay_ms } => v.reveal_step(
            who,
            turn,
            pick,
            now_ms,
            delay_ms,
        ),
        Input::Deadline { expected_turn, now_ms, delay_ms } => v.deadline_step(
            expected_turn,
            now_ms,
            delay_ms,
        ),
    }
}

/// The state after a run of inputs.
pub open spec fn run(v: MatchView, inputs: Seq<Input>) -> MatchView
    decreases inputs.len(),
{
    if inputs.len() == 0 {
        v
    } else {
        next(run(v, inputs.drop_last()), inputs.last())
    }
}

/// The turn counter stays below the largest number it can hold, before every
/// input of the run.
pub open spec fn below_limit(v: MatchView, inputs: Seq<Input>) -> bool {
    forall|k: int| 0 <= k < inputs.len() ==> (#[trigger] run(v, inputs.take(k))).current_turn < u32::MAX
}

/// The events that one endpoint is sent in a run, in order.
pub open spec fn seen_by(v: MatchView, inputs: Seq<Input>, endpoint: u64) -> Seq<EventView>
    decreases inputs.len(),
{
    if inputs.len() == 0 {
        Seq::empty()
    } else {
        let before = seen_by(v, inputs.drop_last(), endpoint);
        let step = output(run(v, inputs.drop_last()), inputs.last());
        if step.recipients.contains(endpoint) {
            before + step.events
        } else {
            before
        }
    }
}

/// The turns of the turn results among some events, in order.
pub open spec fn result_turns(events: Seq<EventView>) -> Seq<u32>
    decreases events.len(),
{
    if events.len() == 0 {
        Seq::empty()
    } else {
        let rest = result_turns(events.drop_last());
        match events.last() {
            EventView::TurnResult { turn, .. } => rest.push(turn),
            _ => rest,
        }
    }
}

/// Each number is smaller than every later one.
pub open spec fn increasing(s: Seq<u32>) -> bool {
    forall|i: int, j: int| 0 <= i < j < s.len() ==> s[i] < s[j]
}

/// The turn results of two runs of events, one after the other.
pub proof fn lemma_result_turns_concat(a: Seq<EventView>, b: Seq<EventView>)
    ensures
        result_turns(a + b) == result_turns(a) + result_turns(b),
    decreases b.len(),
{
    if b.len() == 0 {
        assert(a + b =~= a);
        assert(result_turns(a) + result_turns(b) =~= result_turns(a));
    } else {
        assert((a + b).drop_last() =~= a + b.drop_last());
        assert((a + b).last() == b.last());
        lemma_result_turns_concat(a, b.drop_last());
        let rest = result_turns(a) + result_turns(b.drop_last());
        match b.last() {
            EventView::TurnResult { turn, .. } => {
                assert(rest.push(turn) =~= result_turns(a) + result_turns(b.drop_last()).push(turn));
            },
            _ => {},
        }
    }
}

/// The turn results that one input brings: none, or the one of the turn that
/// was current and unresolved, which is resolved afterwards.
pub proof fn lemma_step_results(v: MatchView, i: Input)
    requires
        v.wf(),
        v.current_turn < u32::MAX,
    ensures
        result_turns(output(v, i).events) == Seq::<u32>::empty() || (result_turns(
            output(v, i).events,
        ) == seq![v.current_turn as u32] && !v.resolved.contains(v.current_turn) && next(
            v,
            i,
        ).resolved.contains(v.current_turn)),
{
    let events = output(v, i).events;
    let none = Seq::<EventView>::empty();
    assert(result_turns(none) =~= Seq::<u32>::empty());
    if events.len() == 1 {
        assert(events.drop_last() =~= none);
        assert(!(events[0] is TurnResult));
        assert(result_turns(events) =~= Seq::<u32>::empty());
    } else if events.len() == 2 {
        let head = events.drop_last();
        assert(head.drop_last() =~= none);
        assert(head.last() == events[0]);
        assert(events[0] is TurnResult);
        assert(!(events[1] is TurnResult));
        assert(result_turns(head) =~= seq![v.current_turn as u32]);
        assert(result_turns(events) =~= seq![v.current_turn as u32]);
        assert(!v.resolved.contains(v.current_turn));
        assert(next(v, i).resolved.contains(v.current_turn));
    } else {
        assert(events =~= none);
    }
}

/// Every input keeps the invariants of a match: each turn is resolved at
/// most once, the current turn is one above the highest resolved turn until
/// the match is won, the scores stay within five with the match ended exactly
/// when one reaches five, each session holds one endpoint, and the reveal
/// table holds one pick for a turn and a participant.
pub proof fn law_input_keeps_invariants(v: MatchView, i: Input)
    requires
        v.wf(),
        v.current_turn < u32::MAX,
    ensures
        next(v, i).wf(),
{
    match i {
        Input::Attach { who, endpoint, now_ms, delay_ms } => {
            lemma_with(v.participants, who);
            lemma_with(v.endpoints, endpoint);
        },
        Input::Detach { who, endpoint } => {
            lemma_without(v.participants, who);
            lemma_without(v.endpoints, endpoint);
        },
        Input::Start { now_ms, delay_ms } => {},
        Input::Reveal { who, turn, pick, now_ms, delay_ms } => {
            if v.takes_reveal(turn, pick) {
                let r = v.recorded(who, turn, pick);
                assert(r.wf());
                if v.reveal_resolves(who, turn, pick) {
                    lemma_resolve_keeps_invariants(r, now_ms, delay_ms);
                }
            }
        },
        Input::Deadline { expected_turn, now_ms, delay_ms } => {
            if v.deadline_counts(expected_turn) && v.participants.len() >= 2 {
                lemma_resolve_keeps_invariants(v, now_ms, delay_ms);
            }
        },
    }
}

/// Resolving the current turn of an open match keeps its invariants.
pub proof fn lemma_resolve_keeps_invariants(v: MatchView, now_ms: u64, delay_ms: u64)
    requires
        v.wf(),
        v.is_open(),
        v.current_turn < u32::MAX,
    ensures
        v.after_resolve(now_ms, delay_ms).wf(),
{
    let after = v.after_resolve(now_ms, delay_ms);
    assert(turns_through(v.current_turn as int) =~= v.resolved.insert(v.current_turn));
    assert(after.resolved == turns_through(after.highest_resolved()));
}

/// A run of inputs keeps the invariants of a match.
pub proof fn law_run_keeps_invariants(v: MatchView, inputs: Seq<Input>)
    requires
        v.wf(),
        below_limit(v, inputs),
    ensures
        run(v, inputs).wf(),
    decreases inputs.len(),
{
    if inputs.len() > 0 {
        let head = inputs.drop_last();
        lemma_below_limit_prefix(v, inputs);
        law_run_keeps_invariants(v, head);
        assert(inputs.take(inputs.len() - 1) =~= head);
        assert(run(v, inputs.take(inputs.len() - 1)).current_turn < u32::MAX);
        law_input_keeps_invariants(run(v, head), inputs.last());
    }
}

/// The invariants hold at all times: a match that nobody has joined keeps
/// them, and so does every state that a run of inputs leads to from there.
pub proof fn law_invariants_hold_at_all_times(match_id: Seq<char>, inputs: Seq<Input>)
    requires
        below_limit(fresh(match_id), inputs),
    ensures
        fresh(match_id).wf(),
        run(fresh(match_id), inputs).wf(),
{
    assert(turns_through(0) =~= Set::<nat>::empty());
    assert(fresh(match_id).wf());
    law_run_keeps_invariants(fresh(match_id), inputs);
}

/// A run that stays below the limit does so without its last input.
pub proof fn lemma_below_limit_prefix(v: MatchView, inputs: Seq<Input>)
    requires
        inputs.len() > 0,
        below_limit(v, inputs),
    ensures
        below_limit(v, inputs.drop_last()),
{
    let head = inputs.drop_last();
    assert forall|k: int| 0 <= k < head.len() implies (#[trigger] run(v, head.take(k))).current_turn
        < u32::MAX by {
        assert(head.take(k) =~= inputs.take(k));
    }
}

/// The resolved turns only grow and the turn counter never goes back.
pub proof fn law_turns_only_advance(v: MatchView, i: Input)
    requires
        v.wf(),
        v.current_turn < u32::MAX,
    ensures
        next(v, i).current_turn >= v.current_turn,
        next(v, i).highest_resolved() >= v.highest_resolved(),
        forall|t: nat| v.resolved.contains(t) ==> next(v, i).resolved.contains(t),
{
    law_input_keeps_invariants(v, i);
}

/// Exactly-once resolution and the monotone turn counter: whatever reveals,
/// deadlines, attachments and detachments a match takes, the turn results
/// that an endpoint is sent carry strictly increasing turns, so no turn is
/// reported twice; none of them is for a turn that was resolved before the
/// run, and each is for a turn that is resolved after it.
pub proof fn law_each_turn_reported_once(v: MatchView, inputs: Seq<Input>, endpoint: u64)
    requires
        v.wf(),
        below_limit(v, inputs),
    ensures
        increasing(result_turns(seen_by(v, inputs, endpoint))),
        forall|k: int|
            0 <= k < result_turns(seen_by(v, inputs, endpoint)).len() ==> v.highest_resolved() < (
            #[trigger] result_turns(seen_by(v, inputs, endpoint))[k]) <= run(
                v,
                inputs,
            ).highest_resolved(),
        run(v, inputs).highest_resolved() >= v.highest_resolved(),
    decreases inputs.len(),
{
    if inputs.len() == 0 {
        assert(result_turns(seen_by(v, inputs, endpoint)) =~= Seq::<u32>::empty());
    } else {
        let head = inputs.drop_last();
        let mid = run(v, head);
        lemma_below_limit_prefix(v, inputs);
        law_each_turn_reported_once(v, head, endpoint);
        law_run_keeps_invariants(v, head);
        assert(inputs.take(inputs.len() - 1) =~= head);
        assert(mid.current_turn < u32::MAX);
        law_input_keeps_invariants(mid, inputs.last());
        law_turns_only_advance(mid, inputs.last());
        lemma_step_results(mid, inputs.last());
        let before = seen_by(v, head, endpoint);
        let step = output(mid, inputs.last());
        if step.recipients.contains(endpoint) {
            lemma_result_turns_concat(before, step.events);
            let old_turns = result_turns(before);
            let all = result_turns(seen_by(v, inputs, endpoint));
            if result_turns(step.events) == Seq::<u32>::empty() {
                assert(all =~= old_turns);
            } else {
                assert(all =~= old_turns.push(mid.current_turn as u32));
                assert(mid.highest_resolved() == mid.current_turn - 1);
                assert(run(v, inputs).highest_resolved() >= mid.current_turn);
            }
        }
    }
}

/// The order of events: the result of a turn is the first event of its step
/// and is followed at once by the start of the next turn or by the match
/// result; and every start of a turn, whether it opens the match, follows a
/// result or greets a session that joins, carries the turn that is current
/// afterwards.
pub proof fn law_result_precedes_next_start(v: MatchView, i: Input)
    requires
        v.wf(),
        v.current_turn < u32::MAX,
    ensures
        forall|k: int|
            0 <= k < output(v, i).events.len() && (#[trigger] output(v, i).events[k]) is TurnStart
                ==> output(v, i).events[k]->TurnStart_turn == next(v, i).current_turn,
        forall|k: int|
            0 <= k < output(v, i).events.len() && (#[trigger] output(v, i).events[k]) is TurnResult
                ==> k == 0 && output(v, i).events.len() == 2,
        output(v, i).events.len() == 2 ==> output(v, i).events[0] is TurnResult && (output(
            v,
            i,
        ).events[1] is TurnStart || output(v, i).events[1] is MatchResult),
        output(v, i).events.len() == 2 && output(v, i).events[1] is TurnStart ==> output(
            v,
            i,
        ).events[1]->TurnStart_turn == output(v, i).events[0]->TurnResult_turn + 1,
        output(v, i).events.len() <= 2,
{
}

/// The turns of the turn starts among some events, in order.
pub open spec fn start_turns(events: Seq<EventView>) -> Seq<u32>
    decreases events.len(),
{
    if events.len() == 0 {
        Seq::empty()
    } else {
        let rest = start_turns(events.drop_last());
        match events.last() {
            EventView::TurnStart { turn, .. } => rest.push(turn),
            _ => rest,
        }
    }
}

/// How often a run attaches an endpoint.
pub open spec fn attaches(inputs: Seq<Input>, endpoint: u64) -> nat
    decreases inputs.len(),
{
    if inputs.len() == 0 {
        0
    } else {
        attaches(inputs.drop_last(), endpoint) + match inputs.last() {
            Input::Attach { endpoint: e, .. } => if e == endpoint {
                1nat
            } else {
                0nat
            },
            _ => 0nat,
        }
    }
}

/// The turn starts of two runs of events, one after the other.
pub proof fn lemma_start_turns_concat(a: Seq<EventView>, b: Seq<EventView>)
    ensures
        start_turns(a + b) == start_turns(a) + start_turns(b),
    decreases b.len(),
{
    if b.len() == 0 {
        assert(a + b =~= a);
        assert(start_turns(a) + start_turns(b) =~= start_turns(a));
    } else {
        assert((a + b).drop_last() =~= a + b.drop_last());
        assert((a + b).last() == b.last());
        lemma_start_turns_concat(a, b.drop_last());
        let rest = start_turns(a) + start_turns(b.drop_last());
        match b.last() {
            EventView::TurnStart { turn, .. } => {
                assert(rest.push(turn) =~= start_turns(a) + start_turns(b.drop_last()).push(turn));
            },
            _ => {},
        }
    }
}

/// The turn starts that one input brings: none, or one, for the turn that is
/// current afterwards. It comes after a result, and then the turn is new, or
/// alone, and then it goes to no endpoint that was attached before unless
/// the input is the attachment that starts the match.
pub proof fn lemma_step_starts(v: MatchView, i: Input)
    requires
        v.wf(),
        v.current_turn < u32::MAX,
    ensures
        start_turns(output(v, i).events) == Seq::<u32>::empty() || start_turns(
            output(v, i).events,
        ) == seq![next(v, i).current_turn as u32],
        start_turns(output(v, i).events).len() > 0 && output(v, i).events.len() == 2 ==> next(
            v,
            i,
        ).current_turn == v.current_turn + 1,
        start_turns(output(v, i).events).len() > 0 && output(v, i).events.len() != 2 ==> forall|
            e: u64,
        |
            output(v, i).recipients.contains(e) ==> !v.endpoints.contains(e),
{
    let events = output(v, i).events;
    let none = Seq::<EventView>::empty();
    assert(start_turns(none) =~= Seq::<u32>::empty());
    if events.len() == 1 {
        assert(events.drop_last() =~= none);
        if events[0] is TurnStart {
            assert(start_turns(events) =~= seq![next(v, i).current_turn as u32]);
            assert forall|e: u64| output(v, i).recipients.contains(e) implies !v.endpoints.contains(
                e,
            ) by {
                if v.started {
                    // Only one endpoint is greeted, and it is new.
                    let r = output(v, i).recipients;
                    let k = r.index_of(e);
                    assert(r[k] == e);
                }
            }
        } else {
            assert(start_turns(events) =~= Seq::<u32>::empty());
        }
    } else if events.len() == 2 {
        let head = events.drop_last();
        assert(head.drop_last() =~= none);
        assert(head.last() == events[0]);
        assert(events[0] is TurnResult);
        assert(start_turns(head) =~= Seq::<u32>::empty());
        if events[1] is TurnStart {
            assert(start_turns(events) =~= seq![next(v, i).current_turn as u32]);
        } else {
            assert(start_turns(events) =~= Seq::<u32>::empty());
        }
    } else {
        assert(events =~= none);
    }
}

/// Who is sent anything by an input is attached after it; and an endpoint is
/// attached after an input that was not attached before only by the input
/// that attaches it.
pub proof fn lemma_recipients_are_attached(v: MatchView, i: Input, e: u64)
    requires
        v.wf(),
        v.current_turn < u32::MAX,
    ensures
        output(v, i).recipients.contains(e) ==> next(v, i).endpoints.contains(e),
        next(v, i).endpoints.contains(e) && !v.endpoints.contains(e) ==> (i matches Input::Attach {
            endpoint,
            ..
        } && endpoint == e),
{
    match i {
        Input::Attach { who, endpoint, now_ms, delay_ms } => {
            lemma_with(v.participants, who);
            lemma_with(v.endpoints, endpoint);
            if !v.attach_refused(who) {
                let r = output(v, i).recipients;
                if r.contains(e) {
                    let k = r.index_of(e);
                    assert(r[k] == e);
                }
                if next(v, i).endpoints.contains(e) && !v.endpoints.contains(e) {
                    let s = next(v, i).endpoints;
                    let k = s.index_of(e);
                    assert(s[k] == e);
                    if k < v.endpoints.len() {
                        assert(v.endpoints[k] == e);
                    }
                }
            }
        },
        Input::Detach { who, endpoint } => {
            lemma_without(v.participants, who);
            lemma_without(v.endpoints, endpoint);
        },
        _ => {},
    }
}

/// The monotone turn counter, for turn starts: an endpoint that a run
/// attaches at most once, and that was not attached before, is sent turn
/// starts with strictly increasing turns, none beyond the turn that is
/// current after the run; and it is sent nothing at all before it is
/// attached.
pub proof fn law_turn_starts_increase(v: MatchView, inputs: Seq<Input>, endpoint: u64)
    requires
        v.wf(),
        below_limit(v, inputs),
        !v.endpoints.contains(endpoint),
        attaches(inputs, endpoint) <= 1,
    ensures
        increasing(start_turns(seen_by(v, inputs, endpoint))),
        forall|k: int|
            0 <= k < start_turns(seen_by(v, inputs, endpoint)).len() ==> (#[trigger] start_turns(
                seen_by(v, inputs, endpoint),
            )[k]) <= run(v, inputs).current_turn,
        attaches(inputs, endpoint) == 0 ==> seen_by(v, inputs, endpoint) == Seq::<
            EventView,
        >::empty() && !run(v, inputs).endpoints.contains(endpoint),
    decreases inputs.len(),
{
    if inputs.len() == 0 {
        assert(start_turns(seen_by(v, inputs, endpoint)) =~= Seq::<u32>::empty());
    } else {
        let head = inputs.drop_last();
        let mid = run(v, head);
        let last = inputs.last();
        lemma_below_limit_prefix(v, inputs);
        law_turn_starts_increase(v, head, endpoint);
        law_run_keeps_invariants(v, head);
        assert(inputs.take(inputs.len() - 1) =~= head);
        assert(mid.current_turn < u32::MAX);
        law_input_keeps_invariants(mid, last);
        law_turns_only_advance(mid, last);
        lemma_step_starts(mid, last);
        lemma_recipients_are_attached(mid, last, endpoint);
        let before = seen_by(v, head, endpoint);
        let step = output(mid, last);
        if step.recipients.contains(endpoint) {
            lemma_start_turns_concat(before, step.events);
            let old_turns = start_turns(before);
            let all = start_turns(seen_by(v, inputs, endpoint));
            if start_turns(step.events).len() == 0 {
                assert(start_turns(step.events) =~= Seq::<u32>::empty());
                assert(all =~= old_turns);
            } else {
                assert(all =~= old_turns.push(next(mid, last).current_turn as u32));
                if step.events.len() != 2 {
                    // The start greets an endpoint that was not attached: this
                    // input attaches it, so nothing was sent to it before.
                    assert(!mid.endpoints.contains(endpoint));
                    assert(attaches(head, endpoint) == 0);
                    assert(old_turns =~= Seq::<u32>::empty()) by {
                        assert(before =~= Seq::<EventView>::empty());
                    }
                }
            }
        }
    }
}

/// One canonical result for all: when a reveal or a deadline resolves a
/// turn, the events go to every endpoint attached, each receiving the same
/// events in the same order.
pub proof fn law_same_events_for_all(v: MatchView, i: Input)
    requires
        v.wf(),
        i is Reveal || i is Deadline,
        output(v, i).events.len() > 0,
    ensures
        output(v, i).recipients == v.endpoints,
        next(v, i).endpoints == v.endpoints,
{
}

/// The turn results and match results among some events, in order.
pub open spec fn outcomes(events: Seq<EventView>) -> Seq<EventView>
    decreases events.len(),
{
    if events.len() == 0 {
        Seq::empty()
    } else {
        let rest = outcomes(events.drop_last());
        if events.last() is TurnResult || events.last() is MatchResult {
            rest.push(events.last())
        } else {
            rest
        }
    }
}

/// A run never detaches the endpoint.
pub open spec fn never_detaches(inputs: Seq<Input>, endpoint: u64) -> bool {
    forall|k: int|
        0 <= k < inputs.len() ==> !((#[trigger] inputs[k]) matches Input::Detach { endpoint: e, .. }
            && e == endpoint)
}

/// The outcomes of two runs of events, one after the other.
pub proof fn lemma_outcomes_concat(a: Seq<EventView>, b: Seq<EventView>)
    ensures
        outcomes(a + b) == outcomes(a) + outcomes(b),
    decreases b.len(),
{
    if b.len() == 0 {
        assert(a + b =~= a);
        assert(outcomes(a) + outcomes(b) =~= outcomes(a));
    } else {
        assert((a + b).drop_last() =~= a + b.drop_last());
        assert((a + b).last() == b.last());
        lemma_outcomes_concat(a, b.drop_last());
        let rest = outcomes(a) + outcomes(b.drop_last());
        if b.last() is TurnResult || b.last() is MatchResult {
            assert(rest.push(b.last()) =~= outcomes(a) + outcomes(b.drop_last()).push(b.last()));
        }
    }
}

/// An input that brings an outcome sends its events to every endpoint
/// attached; and an endpoint stays attached unless the input detaches it.
pub proof fn lemma_step_outcomes(v: MatchView, i: Input, e: u64)
    requires
        v.wf(),
        v.current_turn < u32::MAX,
        v.endpoints.contains(e),
        !(i matches Input::Detach { endpoint, .. } && endpoint == e),
    ensures
        outcomes(output(v, i).events).len() > 0 ==> output(v, i).recipients.contains(e),
        next(v, i).endpoints.contains(e),
{
    let events = output(v, i).events;
    let none = Seq::<EventView>::empty();
    assert(outcomes(none) =~= none);
    if events.len() == 1 {
        assert(events.drop_last() =~= none);
        assert(outcomes(events) =~= none);
    } else if events.len() == 0 {
        assert(events =~= none);
    }
    match i {
        Input::Attach { who, endpoint, now_ms, delay_ms } => {
            lemma_with(v.endpoints, endpoint);
        },
        Input::Detach { who, endpoint } => {
            lemma_without(v.endpoints, endpoint);
        },
        _ => {},
    }
}

/// Canonical ordering: two endpoints that are attached and stay attached
/// throughout a run are sent the same turn results and match results, in the
/// same order.
pub proof fn law_same_outcomes_for_both(v: MatchView, inputs: Seq<Input>, a: u64, b: u64)
    requires
        v.wf(),
        below_limit(v, inputs),
        v.endpoints.contains(a),
        v.endpoints.contains(b),
        never_detaches(inputs, a),
        never_detaches(inputs, b),
    ensures
        outcomes(seen_by(v, inputs, a)) == outcomes(seen_by(v, inputs, b)),
        run(v, inputs).endpoints.contains(a),
        run(v, inputs).endpoints.contains(b),
    decreases inputs.len(),
{
    if inputs.len() > 0 {
        let head = inputs.drop_last();
        let mid = run(v, head);
        let last = inputs.last();
        assert(last == inputs[inputs.len() - 1]);
        assert forall|k: int| 0 <= k < head.len() implies !((#[trigger] head[k]) matches Input::Detach {
            endpoint: e,
            ..
        } && e == a) by {
            assert(head[k] == inputs[k]);
        }
        assert forall|k: int| 0 <= k < head.len() implies !((#[trigger] head[k]) matches Input::Detach {
            endpoint: e,
            ..
        } && e == b) by {
            assert(head[k] == inputs[k]);
        }
        lemma_below_limit_prefix(v, inputs);
        law_same_outcomes_for_both(v, head, a, b);
        law_run_keeps_invariants(v, head);
        assert(inputs.take(inputs.len() - 1) =~= head);
        assert(mid.current_turn < u32::MAX);
        lemma_step_outcomes(mid, last, a);
        lemma_step_outcomes(mid, last, b);
        let step = output(mid, last);
        lemma_outcomes_concat(seen_by(v, head, a), step.events);
        lemma_outcomes_concat(seen_by(v, head, b), step.events);
        if outcomes(step.events).len() == 0 {
            assert(outcomes(step.events) =~= Seq::<EventView>::empty());
            assert(outcomes(seen_by(v, head, a)) + outcomes(step.events) =~= outcomes(
                seen_by(v, head, a),
            ));
            assert(outcomes(seen_by(v, head, b)) + outcomes(step.events) =~= outcomes(
                seen_by(v, head, b),
            ));
        }
    }
}

/// Outcome correctness: every turn result carries the outcome that judging
/// its two picks gives.
pub proof fn law_results_are_judged(v: MatchView, i: Input, k: int)
    requires
        v.wf(),
        0 <= k < output(v, i).events.len(),
        output(v, i).events[k] is TurnResult,
    ensures
        output(v, i).events[k]->TurnResult_outcome == judge_spec(
            output(v, i).events[k]->TurnResult_p1_pick,
            output(v, i).events[k]->TurnResult_p2_pick,
        ),
        output(v, i).events[k]->TurnResult_turn == v.current_turn,
{
}

/// Only picks are played: the reveal table holds nothing but rock, paper and
/// scissors, a reveal that shows anything else changes nothing and sends
/// nothing, and both picks of every turn result, revealed or substituted, are
/// rock, paper or scissors.
pub proof fn law_only_picks_are_played(v: MatchView, i: Input, k: int)
    requires
        v.wf(),
        v.current_turn < u32::MAX,
    ensures
        forall|key: (nat, Seq<char>)| next(v, i).reveals.contains_key(key) ==> is_pick(
            #[trigger] next(v, i).reveals[key],
        ),
        (i matches Input::Reveal { pick, .. } && !is_pick(pick)) ==> next(v, i) == v && output(v, i)
            == idle(),
        0 <= k < output(v, i).events.len() && output(v, i).events[k] is TurnResult ==> is_pick(
            output(v, i).events[k]->TurnResult_p1_pick,
        ) && is_pick(output(v, i).events[k]->TurnResult_p2_pick),
{
    law_input_keeps_invariants(v, i);
    match i {
        Input::Reveal { who, turn, pick, now_ms, delay_ms } => {
            if v.reveal_resolves(who, turn, pick) {
                let r = v.recorded(who, turn, pick);
                assert(r.wf());
                lemma_picks_of_a_turn(r, now_ms);
            }
        },
        Input::Deadline { expected_turn, now_ms, delay_ms } => {
            lemma_picks_of_a_turn(v, now_ms);
        },
        _ => {},
    }
}

/// The two authoritative picks of the current turn are picks.
pub proof fn lemma_picks_of_a_turn(v: MatchView, now_ms: u64)
    requires
        v.wf(),
    ensures
        is_pick(v.pick_of(v.canonical().0, now_ms, SALT_P1)),
        is_pick(v.pick_of(v.canonical().1, now_ms, SALT_P2)),
{
    let a = v.canonical().0;
    let b = v.canonical().1;
    if v.has_revealed(a) {
        assert(is_pick(v.reveals[(v.current_turn, a)]));
    }
    if v.has_revealed(b) {
        assert(is_pick(v.reveals[(v.current_turn, b)]));
    }
}

/// How a match ends: in an ended match the winner has exactly five wins and
/// the loser at most four, so at most nine turns were decisive.
pub proof fn law_final_score(v: MatchView)
    requires
        v.wf(),
        v.ended,
    ensures
        (v.p1_score == 5 && v.p2_score <= 4) || (v.p2_score == 5 && v.p1_score <= 4),
        v.p1_score + v.p2_score <= 9,
{
}

/// Every event that a run brings, in order, whoever receives it.
pub open spec fn emitted(v: MatchView, inputs: Seq<Input>) -> Seq<EventView>
    decreases inputs.len(),
{
    if inputs.len() == 0 {
        Seq::empty()
    } else {
        emitted(v, inputs.drop_last()) + output(run(v, inputs.drop_last()), inputs.last()).events
    }
}

/// How many of some events are results of turns that were not drawn.
pub open spec fn decisive_results(events: Seq<EventView>) -> nat
    decreases events.len(),
{
    if events.len() == 0 {
        0
    } else {
        decisive_results(events.drop_last()) + match events.last() {
            EventView::TurnResult { outcome, .. } => if outcome == Outcome::Draw {
                0nat
            } else {
                1nat
            },
            _ => 0nat,
        }
    }
}

/// The decisive results of two runs of events, one after the other.
pub proof fn lemma_decisive_concat(a: Seq<EventView>, b: Seq<EventView>)
    ensures
        decisive_results(a + b) == decisive_results(a) + decisive_results(b),
    decreases b.len(),
{
    if b.len() == 0 {
        assert(a + b =~= a);
    } else {
        assert((a + b).drop_last() =~= a + b.drop_last());
        assert((a + b).last() == b.last());
        lemma_decisive_concat(a, b.drop_last());
    }
}

/// One input brings as many decisive results as it adds wins.
pub proof fn lemma_step_decisive(v: MatchView, i: Input)
    requires
        v.wf(),
        v.current_turn < u32::MAX,
    ensures
        v.p1_score + v.p2_score + decisive_results(output(v, i).events) == next(v, i).p1_score
            + next(v, i).p2_score,
{
    let events = output(v, i).events;
    let none = Seq::<EventView>::empty();
    assert(decisive_results(none) == 0);
    if events.len() == 1 {
        assert(events.drop_last() =~= none);
        assert(!(events[0] is TurnResult));
        assert(decisive_results(events) == 0);
    } else if events.len() == 2 {
        let head = events.drop_last();
        assert(head.drop_last() =~= none);
        assert(head.last() == events[0]);
        assert(events[0] is TurnResult);
        assert(!(events[1] is TurnResult));
        assert(decisive_results(head) == if events[0]->TurnResult_outcome == Outcome::Draw {
            0nat
        } else {
            1nat
        });
        assert(decisive_results(events) == decisive_results(head));
    } else {
        assert(events =~= none);
    }
}

/// Termination: in a match played from its beginning, the decisive results
/// are as many as the wins of both seats together, which is never more than
/// nine; drawn turns do not count and can go on without end.
pub proof fn law_at_most_nine_decisive_turns(match_id: Seq<char>, inputs: Seq<Input>)
    requires
        below_limit(fresh(match_id), inputs),
    ensures
        decisive_results(emitted(fresh(match_id), inputs)) == run(fresh(match_id), inputs).p1_score
            + run(fresh(match_id), inputs).p2_score,
        decisive_results(emitted(fresh(match_id), inputs)) <= 9,
    decreases inputs.len(),
{
    let v = fresh(match_id);
    law_invariants_hold_at_all_times(match_id, inputs);
    if inputs.len() > 0 {
        let head = inputs.drop_last();
        lemma_below_limit_prefix(v, inputs);
        law_at_most_nine_decisive_turns(match_id, head);
        law_run_keeps_invariants(v, head);
        assert(inputs.take(inputs.len() - 1) =~= head);
        assert(run(v, head).current_turn < u32::MAX);
        lemma_step_decisive(run(v, head), inputs.last());
        lemma_decisive_concat(emitted(v, head), output(run(v, head), inputs.last()).events);
    }
}

/// The match result follows the deciding turn at once: an input ends the
/// match exactly when its events close with a match result, which names the
/// seat that then has five wins; and a match that has ended takes nothing
/// more from reveals and deadlines.
pub proof fn law_match_result(v: MatchView, i: Input)
    requires
        v.wf(),
        v.current_turn < u32::MAX,
    ensures
        (!v.ended && next(v, i).ended) <==> (output(v, i).events.len() == 2 && output(
            v,
            i,
        ).events[1] is MatchResult),
        (!v.ended && next(v, i).ended) ==> output(v, i).close && output(v, i).timer is None && (
        output(v, i).events[1]->MatchResult_winner == Role::P1 <==> next(v, i).p1_score == 5) && (
        output(v, i).events[1]->MatchResult_winner == Role::P2 <==> next(v, i).p2_score == 5),
        v.ended && (i is Reveal || i is Deadline) ==> next(v, i) == v && output(v, i) == idle(),
{
    law_input_keeps_invariants(v, i);
}

/// Scoring of one resolution: a decisive turn adds one win to its winner and
/// nothing else; a draw leaves both scores as they were, and the match goes
/// on with the next turn.
pub proof fn law_scoring(v: MatchView, now_ms: u64, delay_ms: u64)
    requires
        v.wf(),
        v.is_open(),
    ensures
        v.outcome(now_ms) == Outcome::P1 ==> v.after_resolve(now_ms, delay_ms).p1_score
            == v.p1_score + 1 && v.after_resolve(now_ms, delay_ms).p2_score == v.p2_score,
        v.outcome(now_ms) == Outcome::P2 ==> v.after_resolve(now_ms, delay_ms).p2_score
            == v.p2_score + 1 && v.after_resolve(now_ms, delay_ms).p1_score == v.p1_score,
        v.outcome(now_ms) == Outcome::Draw ==> v.after_resolve(now_ms, delay_ms).p1_score
            == v.p1_score && v.after_resolve(now_ms, delay_ms).p2_score == v.p2_score
            && !v.after_resolve(now_ms, delay_ms).ended && v.after_resolve(
            now_ms,
            delay_ms,
        ).current_turn == v.current_turn + 1,
{
}

/// Timeout enforcement: a deadline that counts, with both participants
/// attached, brings the result of the current turn, in which exactly the
/// canonical participants who had not revealed are marked as substituted and
/// every revealed pick stands as it was revealed.
pub proof fn law_deadline_substitutes(v: MatchView, expected_turn: u32, now_ms: u64, delay_ms: u64)
    requires
        v.wf(),
        v.deadline_counts(expected_turn),
        v.participants.len() >= 2,
    ensures
        v.deadline_step(expected_turn, now_ms, delay_ms).events[0] == v.turn_result(now_ms),
        v.turn_result(now_ms)->TurnResult_turn == expected_turn,
        !v.has_revealed(v.canonical().0) && !v.has_revealed(v.canonical().1)
            ==> v.substituted() == seq![v.canonical().0, v.canonical().1],
        v.has_revealed(v.canonical().0) && !v.has_revealed(v.canonical().1) ==> v.substituted()
            == seq![v.canonical().1] && v.turn_result(now_ms)->TurnResult_p1_pick
            == v.reveals[(v.current_turn, v.canonical().0)],
        !v.has_revealed(v.canonical().0) && v.has_revealed(v.canonical().1) ==> v.substituted()
            == seq![v.canonical().0] && v.turn_result(now_ms)->TurnResult_p2_pick
            == v.reveals[(v.current_turn, v.canonical().1)],
        v.has_revealed(v.canonical().0) && v.has_revealed(v.canonical().1) ==> v.substituted()
            == Seq::<Seq<char>>::empty(),
{
    assert(seq![v.canonical().0].push(v.canonical().1) =~= seq![v.canonical().0, v.canonical().1]);
    assert(Seq::<Seq<char>>::empty().push(v.canonical().1) =~= seq![v.canonical().1]);
}

/// One endpoint for a session: after a session is attached its endpoint is
/// among the endpoints of the match exactly once, however often it was
/// attached, and after it is detached it is not among them.
pub proof fn law_one_endpoint_per_session(
    v: MatchView,
    who: Seq<char>,
    endpoint: u64,
    now_ms: u64,
    delay_ms: u64,
)
    requires
        v.wf(),
    ensures
        v.after_attach(who, endpoint, now_ms, delay_ms).endpoints.contains(endpoint),
        v.after_attach(who, endpoint, now_ms, delay_ms).endpoints.no_duplicates(),
        v.after_attach(who, endpoint, now_ms, delay_ms).after_attach(
            who,
            endpoint,
            now_ms,
            delay_ms,
        ).endpoints == v.after_attach(who, endpoint, now_ms, delay_ms).endpoints,
        !v.after_detach(who, endpoint).endpoints.contains(endpoint),
        v.after_detach(who, endpoint).endpoints.no_duplicates(),
{
    lemma_with(v.endpoints, endpoint);
    lemma_without(v.endpoints, endpoint);
}

/// The tie between the last reveal and the deadline: whichever of the two
/// resolves a turn first, the other, arriving for that turn afterwards,
/// changes nothing and sends nothing.
pub proof fn law_tie_break(v: MatchView, first: Input, late: Input)
    requires
        v.wf(),
        v.current_turn < u32::MAX,
        next(v, first).resolved.contains(v.current_turn),
        !v.resolved.contains(v.current_turn),
        match late {
            Input::Reveal { turn, .. } => turn == v.current_turn,
            Input::Deadline { expected_turn, .. } => expected_turn == v.current_turn,
            _ => false,
        },
    ensures
        next(next(v, first), late) == next(v, first),
        output(next(v, first), late) == idle(),
{
    law_input_keeps_invariants(v, first);
}

/// A late reveal is discarded: a reveal for a turn that is resolved changes
/// nothing and sends nothing.
pub proof fn law_late_reveal_discarded(
    v: MatchView,
    who: Seq<char>,
    turn: u32,
    pick: char,
    now_ms: u64,
    delay_ms: u64,
)
    requires
        v.wf(),
        v.resolved.contains(v.reveal_turn(turn)),
    ensures
        v.after_reveal(who, turn, pick, now_ms, delay_ms) == v,
        v.reveal_step(who, turn, pick, now_ms, delay_ms) == idle(),
{
}

/// Detach handling: when a session detaches and fewer than two participants
/// remain, every endpoint that remains is told that the opponent left; and a
/// deadline that then fires for the running turn tells them again and closes
/// the match without resolving the turn.
pub proof fn law_detach_is_noticed(
    v: MatchView,
    who: Seq<char>,
    endpoint: u64,
    now_ms: u64,
    delay_ms: u64,
)
    requires
        v.wf(),
        v.is_open(),
        v.participants.contains(who),
    ensures
        v.detach_step(who, endpoint).events == seq![EventView::OpponentLeft],
        v.detach_step(who, endpoint).recipients == v.after_detach(who, endpoint).endpoints,
        !v.after_detach(who, endpoint).endpoints.contains(endpoint),
        v.after_detach(who, endpoint).deadline_step(v.current_turn as u32, now_ms, delay_ms).events
            == seq![EventView::OpponentLeft],
        v.after_detach(who, endpoint).deadline_step(v.current_turn as u32, now_ms, delay_ms).close,
        v.after_detach(who, endpoint).after_deadline(
            v.current_turn as u32,
            now_ms,
            delay_ms,
        ).abandoned,
        v.after_detach(who, endpoint).after_deadline(
            v.current_turn as u32,
            now_ms,
            delay_ms,
        ).resolved == v.resolved,
{
    lemma_without(v.participants, who);
    lemma_without(v.endpoints, endpoint);
}

} // verus!
