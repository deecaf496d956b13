use rps_duel::arbiter::{deadline_after, AttachError, Event, MatchState, Step, Timer};
use rps_duel::moves::{Outcome, Role};

const MID: &str = "demo-did_plc_a-did_plc_b";
const A: &str = "did:plc:a";
const B: &str = "did:plc:b";
const DELAY: u64 = 30_000;

fn open_match() -> MatchState {
    let mut m = MatchState::new(MID);
    let first = m.attach(A, 1, 1_000, DELAY).expect("first seat");
    assert_eq!(first.events.len(), 1);
    let second = m.attach(B, 2, 1_500, DELAY).expect("second seat");
    assert_eq!(second.recipients, vec![2]);
    m
}

fn play(m: &mut MatchState, p1: &str, p2: &str, now: u64) -> Step {
    let turn = m.current_turn();
    let quiet = m.on_reveal(A, turn, p1, now, DELAY);
    assert!(quiet.events.is_empty());
    assert!(quiet.recipients.is_empty());
    assert_eq!(quiet.timer, None);
    m.on_reveal(B, turn, p2, now, DELAY)
}

fn outcome_of(step: &Step) -> Outcome {
    match &step.events[0] {
        Event::TurnResult { outcome, .. } => *outcome,
        other => panic!("expected a turn result, got {:?}", other),
    }
}

fn result_turns(steps: &[Step], endpoint: u64) -> Vec<u32> {
    let mut turns = Vec::new();
    for step in steps {
        if step.recipients.contains(&endpoint) {
            for e in &step.events {
                if let Event::TurnResult { turn, .. } = e {
                    turns.push(*turn);
                }
            }
        }
    }
    turns
}

#[test]
fn scenario_three_turns_two_to_one() {
    let mut m = open_match();
    let first = play(&mut m, "R", "S", 2_000);
    let second = play(&mut m, "S", "P", 3_000);
    let third = play(&mut m, "R", "P", 4_000);
    assert_eq!(outcome_of(&first), Outcome::P1);
    assert_eq!(outcome_of(&second), Outcome::P1);
    assert_eq!(outcome_of(&third), Outcome::P2);
    assert_eq!(m.scores(), (2, 1));
    assert!(!m.is_ended());
    assert!(!third.close);
    assert_eq!(m.current_turn(), 4);
    for s in [&first, &second, &third] {
        assert_eq!(s.events.len(), 2);
        assert_eq!(s.recipients, vec![1, 2]);
        assert!(matches!(s.events[1], Event::TurnStart { .. }));
    }
}

#[test]
fn scenario_five_draws_continue() {
    let mut m = open_match();
    let mut last = None;
    for i in 0..5u64 {
        let s = play(&mut m, "R", "R", 2_000 + i);
        assert_eq!(outcome_of(&s), Outcome::Draw);
        assert!(!s.close);
        last = Some(s);
    }
    assert_eq!(m.scores(), (0, 0));
    assert!(!m.is_ended());
    assert_eq!(m.current_turn(), 6);
    let last = last.unwrap();
    match &last.events[1] {
        Event::TurnStart { turn, deadline_ms, now_ms } => {
            assert_eq!(*turn, 6);
            assert_eq!(*now_ms, 2_004);
            assert_eq!(*deadline_ms, 32_004);
        }
        other => panic!("expected the start of turn 6, got {:?}", other),
    }
    assert_eq!(last.timer, Some(Timer { turn: 6, delay_ms: DELAY }));
}

#[test]
fn scenario_five_wins_end_the_match() {
    let mut m = open_match();
    for i in 0..4u64 {
        let s = play(&mut m, "R", "S", 2_000 + i);
        assert_eq!(outcome_of(&s), Outcome::P1);
        assert!(!s.close);
        assert_eq!(s.events.len(), 2);
        assert!(matches!(s.events[1], Event::TurnStart { .. }));
    }
    let s = play(&mut m, "R", "S", 3_000);
    assert_eq!(s.events.len(), 2);
    assert_eq!(outcome_of(&s), Outcome::P1);
    match &s.events[0] {
        Event::TurnResult { turn, p1_pick, p2_pick, substituted, .. } => {
            assert_eq!(*turn, 5);
            assert_eq!((*p1_pick, *p2_pick), ('R', 'S'));
            assert!(substituted.is_empty());
        }
        other => panic!("expected a turn result, got {:?}", other),
    }
    assert!(matches!(s.events[1], Event::MatchResult { winner: Role::P1 }));
    assert!(s.close);
    assert_eq!(s.timer, None);
    assert_eq!(s.recipients, vec![1, 2]);
    assert!(m.is_ended());
    assert_eq!(m.scores(), (5, 0));
    assert_eq!(m.current_turn(), 5);
    assert!(m.is_resolved(5));
    // Nothing follows the end of the match.
    let after = m.on_reveal(A, 6, "R", 4_000, DELAY);
    assert!(after.events.is_empty());
    let late = m.on_deadline(5, 40_000, DELAY);
    assert!(late.events.is_empty());
    assert_eq!(m.scores(), (5, 0));
}

#[test]
fn scenario_opponent_closes_after_turn_start() {
    let mut m = open_match();
    let left = m.detach(B, 2);
    assert_eq!(left.events.len(), 1);
    assert!(matches!(left.events[0], Event::OpponentLeft));
    assert_eq!(left.recipients, vec![1]);
    assert!(!left.close);
    assert_eq!(m.participant_count(), 1);
    assert_eq!(m.endpoints(), vec![1]);
    // The deadline of turn 1 finds one participant: word goes out again and
    // the match is closed without a result.
    let fired = m.on_deadline(1, 31_000, DELAY);
    assert_eq!(fired.events.len(), 1);
    assert!(matches!(fired.events[0], Event::OpponentLeft));
    assert_eq!(fired.recipients, vec![1]);
    assert!(fired.close);
    assert_eq!(fired.timer, None);
    assert!(m.is_abandoned());
    assert!(!m.is_ended());
    assert!(!m.is_resolved(1));
    assert_eq!(m.scores(), (0, 0));
}

#[test]
fn scenario_two_reveals_one_result_each() {
    let mut m = open_match();
    let mut steps = Vec::new();
    steps.push(m.on_reveal(A, 1, "P", 2_000, DELAY));
    steps.push(m.on_reveal(B, 1, "R", 2_000, DELAY));
    // The same reveals again, and the deadline of the turn, come too late.
    steps.push(m.on_reveal(A, 1, "P", 2_001, DELAY));
    steps.push(m.on_reveal(B, 1, "S", 2_001, DELAY));
    steps.push(m.on_deadline(1, 31_000, DELAY));
    assert_eq!(result_turns(&steps, 1), vec![1]);
    assert_eq!(result_turns(&steps, 2), vec![1]);
    assert_eq!(outcome_of(&steps[1]), Outcome::P1);
    assert_eq!(m.scores(), (1, 0));
    assert_eq!(m.current_turn(), 2);
    for late in &steps[2..] {
        assert!(late.events.is_empty());
        assert_eq!(late.timer, None);
    }
}

#[test]
fn deadline_first_then_reveal_is_discarded() {
    let mut m = open_match();
    let quiet = m.on_reveal(A, 1, "S", 2_000, DELAY);
    assert!(quiet.events.is_empty());
    let fired = m.on_deadline(1, 31_000, DELAY);
    assert_eq!(fired.events.len(), 2);
    let late = m.on_reveal(B, 1, "R", 31_001, DELAY);
    assert!(late.events.is_empty());
    assert_eq!(m.current_turn(), 2);
    assert!(m.is_resolved(1));
    assert_eq!(m.revealed_pick(B), None);
}

#[test]
fn first_attach_starts_the_match() {
    let mut m = MatchState::new(MID);
    assert!(!m.is_started());
    assert_eq!(m.current_turn(), 1);
    assert_eq!(m.match_id(), MID);
    let step = m.attach(A, 7, 1_000, DELAY).unwrap();
    assert!(m.is_started());
    assert_eq!(m.deadline_ms(), 31_000);
    assert_eq!(step.recipients, vec![7]);
    assert_eq!(step.timer, Some(Timer { turn: 1, delay_ms: DELAY }));
    assert!(!step.close);
    match &step.events[..] {
        [Event::TurnStart { turn, deadline_ms, now_ms }] => {
            assert_eq!((*turn, *deadline_ms, *now_ms), (1, 31_000, 1_000));
        }
        other => panic!("expected one turn start, got {:?}", other),
    }
}

#[test]
fn later_session_is_told_the_running_turn() {
    let mut m = MatchState::new(MID);
    m.attach(A, 1, 1_000, DELAY).unwrap();
    let step = m.attach(B, 2, 5_000, DELAY).unwrap();
    assert_eq!(step.recipients, vec![2]);
    assert_eq!(step.timer, None);
    match &step.events[..] {
        [Event::TurnStart { turn, deadline_ms, now_ms }] => {
            assert_eq!((*turn, *deadline_ms, *now_ms), (1, 31_000, 5_000));
        }
        other => panic!("expected one turn start, got {:?}", other),
    }
    // The same endpoint again: nothing new to tell.
    let again = m.attach(B, 2, 6_000, DELAY).unwrap();
    assert!(again.events.is_empty());
    assert_eq!(m.endpoints(), vec![1, 2]);
    assert_eq!(m.participant_count(), 2);
}

#[test]
fn third_participant_is_refused() {
    let mut m = open_match();
    let r = m.attach("did:plc:c", 3, 2_000, DELAY);
    assert_eq!(r.err(), Some(AttachError::MatchFull));
    assert_eq!(m.participant_count(), 2);
    assert_eq!(m.endpoints(), vec![1, 2]);
    // A second socket of a seated participant is welcome.
    let ok = m.attach(A, 4, 2_000, DELAY);
    assert!(ok.is_ok());
    assert_eq!(m.endpoints(), vec![1, 2, 4]);
    assert_eq!(m.participant_count(), 2);
}

#[test]
fn start_is_idempotent() {
    let mut m = MatchState::new(MID);
    let first = m.start(1_000, DELAY);
    assert_eq!(first.events.len(), 1);
    assert_eq!(first.timer, Some(Timer { turn: 1, delay_ms: DELAY }));
    let second = m.start(2_000, DELAY);
    assert!(second.events.is_empty());
    assert_eq!(second.timer, None);
    assert_eq!(m.deadline_ms(), 31_000);
}

#[test]
fn deadline_with_no_reveal_substitutes_both() {
    let mut m = open_match();
    let now: u64 = 31_000;
    let step = m.on_deadline(1, now, DELAY);
    match &step.events[0] {
        Event::TurnResult { turn, outcome, p1_pick, p2_pick, substituted } => {
            assert_eq!(*turn, 1);
            assert_eq!(substituted, &vec![A.to_string(), B.to_string()]);
            // 31000 ^ 0x1111 = 26633, 26633 % 3 = 2; 31000 ^ 0x2222 = 23354, 23354 % 3 = 2.
            assert_eq!((*p1_pick, *p2_pick), ('S', 'S'));
            assert_eq!(*outcome, Outcome::Draw);
        }
        other => panic!("expected a turn result, got {:?}", other),
    }
    assert_eq!(m.current_turn(), 2);
    assert_eq!(step.timer, Some(Timer { turn: 2, delay_ms: DELAY }));
}

#[test]
fn deadline_with_one_reveal_substitutes_the_other() {
    let mut m = open_match();
    m.on_reveal(B, 1, "P", 2_000, DELAY);
    let step = m.on_deadline(1, 31_001, DELAY);
    match &step.events[0] {
        Event::TurnResult { p1_pick, p2_pick, substituted, outcome, .. } => {
            assert_eq!(substituted, &vec![A.to_string()]);
            assert_eq!(*p2_pick, 'P');
            // 31001 ^ 0x1111 = 26632, 26632 % 3 = 1: paper.
            assert_eq!(*p1_pick, 'P');
            assert_eq!(*outcome, Outcome::Draw);
        }
        other => panic!("expected a turn result, got {:?}", other),
    }
    let mut n = open_match();
    n.on_reveal(A, 1, "R", 2_000, DELAY);
    let step = n.on_deadline(1, 31_000, DELAY);
    match &step.events[0] {
        Event::TurnResult { p1_pick, p2_pick, substituted, outcome, .. } => {
            assert_eq!(substituted, &vec![B.to_string()]);
            assert_eq!((*p1_pick, *p2_pick), ('R', 'S'));
            assert_eq!(*outcome, Outcome::P1);
        }
        other => panic!("expected a turn result, got {:?}", other),
    }
}

#[test]
fn deadline_of_another_turn_is_ignored() {
    let mut m = open_match();
    play(&mut m, "R", "S", 2_000);
    let stale = m.on_deadline(1, 31_000, DELAY);
    assert!(stale.events.is_empty());
    assert!(!stale.close);
    let early = m.on_deadline(3, 31_000, DELAY);
    assert!(early.events.is_empty());
    assert_eq!(m.current_turn(), 2);
    assert_eq!(m.scores(), (1, 0));
}

#[test]
fn reveal_for_turn_zero_means_the_current_turn() {
    let mut m = open_match();
    play(&mut m, "R", "R", 2_000);
    m.on_reveal(A, 0, "S", 3_000, DELAY);
    assert_eq!(m.revealed_pick(A), Some('S'));
    let step = m.on_reveal(B, 0, "P", 3_000, DELAY);
    match &step.events[0] {
        Event::TurnResult { turn, outcome, .. } => {
            assert_eq!(*turn, 2);
            assert_eq!(*outcome, Outcome::P1);
        }
        other => panic!("expected a turn result, got {:?}", other),
    }
}

#[test]
fn reveal_for_a_later_turn_waits_for_its_turn() {
    let mut m = open_match();
    let a = m.on_reveal(A, 2, "P", 2_000, DELAY);
    let b = m.on_reveal(B, 2, "R", 2_000, DELAY);
    assert!(a.events.is_empty());
    assert!(b.events.is_empty());
    assert_eq!(m.current_turn(), 1);
    assert_eq!(m.revealed_pick(A), None);
    play(&mut m, "R", "R", 3_000);
    assert_eq!(m.current_turn(), 2);
    assert_eq!(m.revealed_pick(A), Some('P'));
    assert_eq!(m.revealed_pick(B), Some('R'));
    let step = m.on_deadline(2, 40_000, DELAY);
    match &step.events[0] {
        Event::TurnResult { turn, outcome, substituted, .. } => {
            assert_eq!(*turn, 2);
            assert_eq!(*outcome, Outcome::P1);
            assert!(substituted.is_empty());
        }
        other => panic!("expected a turn result, got {:?}", other),
    }
}

#[test]
fn a_reveal_can_be_overwritten_until_the_turn_resolves() {
    let mut m = open_match();
    m.on_reveal(A, 1, "R", 2_000, DELAY);
    m.on_reveal(A, 1, "P", 2_001, DELAY);
    assert_eq!(m.revealed_pick(A), Some('P'));
    let step = m.on_reveal(B, 1, "R", 2_002, DELAY);
    assert_eq!(outcome_of(&step), Outcome::P1);
}

#[test]
fn a_reveal_that_shows_no_pick_is_discarded() {
    let mut m = open_match();
    for label in ["", "X", "Paper", "p", "RP", " R"] {
        let step = m.on_reveal(A, 1, label, 2_000, DELAY);
        assert!(step.events.is_empty());
        assert_eq!(m.revealed_pick(A), None);
    }
    m.on_reveal(B, 1, "P", 2_000, DELAY);
    // The turn waits for a pick of the first seat.
    assert_eq!(m.current_turn(), 1);
    m.on_reveal(A, 1, "R", 2_001, DELAY);
    let bad = m.on_reveal(A, 1, "X", 2_002, DELAY);
    assert!(bad.events.is_empty());
    assert_eq!(m.scores(), (0, 1));
    assert_eq!(m.current_turn(), 2);
}

#[test]
fn every_pick_of_a_result_is_rock_paper_or_scissors() {
    let mut m = open_match();
    for turn in 1..=6u32 {
        if turn % 2 == 0 {
            m.on_reveal(A, turn, "Q", 2_000, DELAY);
            m.on_reveal(B, turn, "S", 2_000, DELAY);
        }
        let step = m.on_deadline(turn, 31_000 + turn as u64, DELAY);
        if m.is_ended() {
            break;
        }
        match &step.events[0] {
            Event::TurnResult { p1_pick, p2_pick, substituted, .. } => {
                assert!(matches!(p1_pick, 'R' | 'P' | 'S'));
                assert!(matches!(p2_pick, 'R' | 'P' | 'S'));
                assert!(substituted.contains(&A.to_string()));
                assert_eq!(substituted.contains(&B.to_string()), turn % 2 == 1);
            }
            other => panic!("expected a turn result, got {:?}", other),
        }
    }
}

#[test]
fn seats_come_from_the_identifier_not_from_arrival() {
    let mut m = MatchState::new(MID);
    m.attach(B, 1, 1_000, DELAY).unwrap();
    m.attach(A, 2, 1_000, DELAY).unwrap();
    assert_eq!(m.canonical(), (A.to_string(), B.to_string()));
    m.on_reveal(B, 1, "S", 2_000, DELAY);
    let step = m.on_reveal(A, 1, "R", 2_000, DELAY);
    match &step.events[0] {
        Event::TurnResult { outcome, p1_pick, p2_pick, .. } => {
            assert_eq!((*p1_pick, *p2_pick), ('R', 'S'));
            assert_eq!(*outcome, Outcome::P1);
        }
        other => panic!("expected a turn result, got {:?}", other),
    }
}

#[test]
fn seats_fall_back_to_the_order_of_strings() {
    let mut m = MatchState::new("demo_1");
    assert_eq!(m.canonical(), (String::new(), String::new()));
    m.attach("zed", 1, 1_000, DELAY).unwrap();
    assert_eq!(m.canonical(), ("zed".to_string(), String::new()));
    m.attach("amy", 2, 1_000, DELAY).unwrap();
    assert_eq!(m.canonical(), ("amy".to_string(), "zed".to_string()));
    m.on_reveal("zed", 1, "R", 2_000, DELAY);
    let step = m.on_reveal("amy", 1, "P", 2_000, DELAY);
    assert_eq!(outcome_of(&step), Outcome::P1);
}

#[test]
fn detach_of_a_stranger_changes_nothing() {
    let mut m = open_match();
    let step = m.detach("did:plc:zz", 9);
    assert!(step.events.is_empty());
    assert_eq!(m.participant_count(), 2);
    assert_eq!(m.endpoints(), vec![1, 2]);
}

#[test]
fn no_match_needs_more_than_nine_decisive_turns() {
    let mut m = open_match();
    let script = [
        ("R", "S"), ("S", "R"), ("R", "S"), ("S", "R"), ("R", "S"), ("S", "R"), ("R", "S"),
        ("S", "R"), ("P", "R"),
    ];
    let mut steps = Vec::new();
    for (i, (a, b)) in script.iter().enumerate() {
        assert!(!m.is_ended());
        steps.push(play(&mut m, a, b, 2_000 + i as u64));
    }
    assert!(m.is_ended());
    assert_eq!(m.scores(), (5, 4));
    assert_eq!(result_turns(&steps, 1), vec![1, 2, 3, 4, 5, 6, 7, 8, 9]);
    assert_eq!(result_turns(&steps, 2), vec![1, 2, 3, 4, 5, 6, 7, 8, 9]);
    let last = steps.last().unwrap();
    assert!(matches!(last.events[1], Event::MatchResult { winner: Role::P1 }));
}

#[test]
fn deadline_falls_back_to_now_on_overflow() {
    assert_eq!(deadline_after(1_000, 30_000), 31_000);
    assert_eq!(deadline_after(u64::MAX - 5, 5), u64::MAX);
    assert_eq!(deadline_after(u64::MAX - 5, 6), u64::MAX - 5);
}
