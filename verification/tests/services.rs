use rps_duel::arbiter::Event;
use rps_duel::commit::{commit, preimage, reveal_matches};
use rps_duel::fairness::{ai_move, ai_move_for, seed_text};
use rps_duel::moves::{Outcome, Role};
use rps_duel::simulator::{
    assign_info, demo_script, expected_outcome, is_expected, may_ask, participant_id,
    reveal_nonce, socket_url, AssignInfo, PlannedTurn, Player, PlayerAction, Seen, SimError,
    PHASE_TIMEOUT_MS, QUEUE_PAUSE_MS, QUEUE_WINDOW_MS,
};
use rps_duel::wire::{
    error_frame, event_to_wire, millis_to_wire, ErrorCode, ServerToClient,
};

#[test]
fn commitment_is_the_digest_in_hexadecimal() {
    let c = commit("R", "n1", 1, "demo-did_plc_a-did_plc_b", "did:plc:a");
    assert_eq!(c, "d90f260258d8850c2a85b1ea1dcffff1a35fe2634f8d98cd79c87e427062d062");
    let empty = commit("", "", 0, "", "");
    assert_eq!(empty, "df3f619804a92fdb4057192dc43dd748ea778adc52bc498ce80524c014b81119");
    assert_eq!(c.len(), 64);
}

#[test]
fn preimage_lays_the_parts_out_in_order() {
    let p = preimage("R", "n1", 0x0102_0304, "m", "é");
    assert_eq!(p, vec![b'R', b'n', b'1', 1, 2, 3, 4, b'm', 0xc3, 0xa9]);
    assert_eq!(preimage("", "", u32::MAX, "", ""), vec![255, 255, 255, 255]);
    assert_eq!(preimage("", "", 256, "", ""), vec![0, 0, 1, 0]);
}

#[test]
fn reveal_is_checked_against_its_commitment() {
    let c = commit("S", "nonce", 3, "match", "did:plc:a");
    assert!(reveal_matches(&c, "S", "nonce", 3, "match", "did:plc:a"));
    assert!(!reveal_matches(&c, "R", "nonce", 3, "match", "did:plc:a"));
    assert!(!reveal_matches(&c, "S", "other", 3, "match", "did:plc:a"));
    assert!(!reveal_matches(&c, "S", "nonce", 4, "match", "did:plc:a"));
    assert!(!reveal_matches(&c, "S", "nonce", 3, "match2", "did:plc:a"));
    assert!(!reveal_matches(&c, "S", "nonce", 3, "match", "did:plc:b"));
    assert!(!reveal_matches(&c.to_uppercase(), "S", "nonce", 3, "match", "did:plc:a"));
    assert!(!reveal_matches("", "S", "nonce", 3, "match", "did:plc:a"));
}

#[test]
fn synthetic_pick_is_a_pick() {
    assert_eq!(seed_text("demo-a-b", 7), "demo-a-b:7");
    assert_eq!(seed_text("", 0), ":0");
    let mut seen = std::collections::BTreeSet::new();
    for turn in 0..60u32 {
        let m = ai_move("demo-a-b", turn);
        assert!(m.rps == 'R' || m.rps == 'P' || m.rps == 'S');
        assert_eq!(m.vrf_output, "0x00");
        assert_eq!(m.vrf_proof, "0x00");
        assert_eq!(m.drand_epoch, 0);
        // The same match and turn draw the same pick.
        assert_eq!(ai_move("demo-a-b", turn).rps, m.rps);
        seen.insert(m.rps);
    }
    // The picks are spread: it is not always rock.
    assert_eq!(seen.len(), 3);
}

#[test]
fn synthetic_pick_follows_the_draw() {
    assert_eq!(ai_move_for(0).rps, 'R');
    assert_eq!(ai_move_for(1).rps, 'P');
    assert_eq!(ai_move_for(2).rps, 'S');
    assert_eq!(ai_move_for(4_000_000_000).rps, 'P');
    assert_eq!(ai_move_for(7).vrf_output, "0x00");
    assert_eq!(ai_move_for(7).drand_epoch, 0);
}

#[test]
fn events_are_written_for_the_wire() {
    let start = Event::TurnStart { turn: 3, deadline_ms: 31_000, now_ms: 1_000 };
    match event_to_wire("m-1", &start) {
        ServerToClient::TurnStart(t) => {
            assert_eq!(t.match_id, "m-1");
            assert_eq!(t.turn, 3);
            assert_eq!(t.deadline_ms_epoch, 31_000);
            assert_eq!(t.now_ms_epoch, 1_000);
        }
        other => panic!("unexpected {:?}", other),
    }
    let result = Event::TurnResult {
        turn: 2,
        outcome: Outcome::P2,
        p1_pick: 'R',
        p2_pick: 'P',
        substituted: vec!["did:plc:a".to_string()],
    };
    match event_to_wire("m-1", &result) {
        ServerToClient::TurnResult(t) => {
            assert_eq!(t.match_id, "m-1");
            assert_eq!(t.turn, 2);
            assert_eq!(t.result, "P2");
            assert_eq!(t.ai, Some(true));
            assert_eq!(t.ai_for_dids, Some(vec!["did:plc:a".to_string()]));
            assert_eq!(t.p1_move.as_deref(), Some("R"));
            assert_eq!(t.p2_move.as_deref(), Some("P"));
        }
        other => panic!("unexpected {:?}", other),
    }
    let clean = Event::TurnResult {
        turn: 1,
        outcome: Outcome::Draw,
        p1_pick: 'S',
        p2_pick: 'S',
        substituted: vec![],
    };
    match event_to_wire("m-1", &clean) {
        ServerToClient::TurnResult(t) => {
            assert_eq!(t.result, "DRAW");
            assert_eq!(t.ai, Some(false));
            assert_eq!(t.ai_for_dids, Some(vec![]));
        }
        other => panic!("unexpected {:?}", other),
    }
    match event_to_wire("m-1", &Event::MatchResult { winner: Role::P1 }) {
        ServerToClient::MatchResult(m) => {
            assert_eq!(m.match_id, "m-1");
            assert_eq!(m.winner, "P1");
        }
        other => panic!("unexpected {:?}", other),
    }
    match event_to_wire("m-1", &Event::OpponentLeft) {
        ServerToClient::OpponentLeft(o) => assert_eq!(o.match_id, "m-1"),
        other => panic!("unexpected {:?}", other),
    }
}

#[test]
fn instants_are_clamped_for_the_wire() {
    assert_eq!(millis_to_wire(0), 0);
    assert_eq!(millis_to_wire(1_700_000_000_000), 1_700_000_000_000);
    assert_eq!(millis_to_wire(i64::MAX as u64), i64::MAX);
    assert_eq!(millis_to_wire(i64::MAX as u64 + 1), i64::MAX);
    assert_eq!(millis_to_wire(u64::MAX), i64::MAX);
}

#[test]
fn error_frames_carry_stable_codes() {
    let cases = [
        (ErrorCode::Acknowledged, "OK", "pong"),
        (ErrorCode::BadRequest, "BAD_REQUEST", "invalid message"),
        (ErrorCode::Unsupported, "UNSUPPORTED", "binary not supported"),
        (ErrorCode::Unimplemented, "UNIMPLEMENTED", "not yet implemented"),
        (ErrorCode::InvalidReveal, "INVALID_REVEAL", "reveal does not match commit"),
    ];
    for (code, text, msg) in cases {
        match error_frame(code) {
            ServerToClient::Error(e) => {
                assert_eq!(e.code, text);
                assert_eq!(e.msg, msg);
            }
            other => panic!("unexpected {:?}", other),
        }
    }
}

#[test]
fn simulated_identifiers_and_addresses() {
    assert_eq!(participant_id("simA"), "did:plc:simA");
    assert_eq!(participant_id(""), "did:plc:");
    assert_eq!(reveal_nonce("simA", 12), "nsimA12");
    assert_eq!(reveal_nonce("", 0), "n0");
    assert_eq!(
        socket_url("ws://localhost:8081/ws", "abc.DEF-123_~"),
        "ws://localhost:8081/ws?ticket=abc.DEF-123_~"
    );
    assert_eq!(
        socket_url("ws://h/ws", "a b+c/d=é%"),
        "ws://h/ws?ticket=a%20b%2Bc%2Fd%3D%C3%A9%25"
    );
    assert_eq!(socket_url("", ""), "?ticket=");
}

#[test]
fn queue_window_and_pauses() {
    assert_eq!(QUEUE_WINDOW_MS, 20_000);
    assert_eq!(QUEUE_PAUSE_MS, 200);
    assert_eq!(PHASE_TIMEOUT_MS, 12_000);
    assert!(may_ask(0));
    assert!(may_ask(19_999));
    assert!(!may_ask(20_000));
    assert!(!may_ask(u64::MAX));
}

#[test]
fn reading_an_assignment() {
    let ok = assign_info("m", "t", "P1").unwrap();
    assert_eq!((ok.match_id.as_str(), ok.ticket.as_str(), ok.role), ("m", "t", Role::P1));
    let ok = assign_info("m", "t", "P2").unwrap();
    assert_eq!(ok.role, Role::P2);
    assert_eq!(assign_info("m", "t", "").err(), Some(SimError::MissingRole));
    assert_eq!(assign_info("m", "t", "P0").err(), Some(SimError::MissingRole));
    assert_eq!(assign_info("m", "", "P0").err(), Some(SimError::MissingRole));
    assert_eq!(assign_info("m", "", "P1").err(), Some(SimError::QueueTimeout));
}

#[test]
fn what_a_planned_turn_expects() {
    let turn = |a: &str, b: &str| PlannedTurn { p1: a.to_string(), p2: b.to_string() };
    assert_eq!(expected_outcome(&turn("R", "S")), Outcome::P1);
    assert_eq!(expected_outcome(&turn("R", "P")), Outcome::P2);
    assert_eq!(expected_outcome(&turn("R", "R")), Outcome::Draw);
    assert!(is_expected(&turn("R", "S"), "P1"));
    assert!(!is_expected(&turn("R", "S"), "P2"));
    assert!(!is_expected(&turn("R", "S"), "DRAW"));
    assert!(is_expected(&turn("P", "S"), "P2"));
    assert!(is_expected(&turn("S", "S"), "DRAW"));
    assert!(!is_expected(&turn("S", "S"), ""));
    let script = demo_script();
    assert_eq!(script.len(), 3);
    for t in &script {
        assert_eq!(expected_outcome(t), Outcome::P1);
    }
    assert_eq!((script[1].p1.as_str(), script[1].p2.as_str()), ("P", "R"));
}

fn player(role: Role) -> Player {
    let seat = AssignInfo { match_id: "m-1".to_string(), ticket: "t".to_string(), role };
    Player::new("simA", seat, demo_script())
}

fn result(turn: u32, label: &str) -> Seen {
    Seen::TurnResult { turn, result: label.to_string() }
}

#[test]
fn player_plays_its_script() {
    let mut p = player(Role::P2);
    assert!(matches!(p.on_seen(&Seen::Other), PlayerAction::Listen));
    assert!(matches!(p.on_seen(&Seen::OpponentLeft), PlayerAction::Listen));
    assert!(matches!(p.on_seen(&result(1, "P2")), PlayerAction::Listen));
    let expected_moves = ["S", "R", "P"];
    for (i, mv) in expected_moves.iter().enumerate() {
        // The server numbers the turns as it likes: the player follows.
        let turn = 10 + i as u32;
        match p.on_seen(&Seen::TurnStart { turn }) {
            PlayerAction::Send(r) => {
                assert_eq!(r.match_id, "m-1");
                assert_eq!(r.turn, turn);
                assert_eq!(r.move_, *mv);
                assert_eq!(r.nonce, format!("nsimA{}", turn));
            }
            other => panic!("expected a reveal, got {:?}", other),
        }
        // A second start and the result of another turn pass by.
        assert!(matches!(p.on_seen(&Seen::TurnStart { turn: 99 }), PlayerAction::Listen));
        assert!(matches!(p.on_seen(&result(turn + 1, "P2")), PlayerAction::Listen));
        assert_eq!(p.played(), i);
        let action = p.on_seen(&result(turn, "P1"));
        if i == 2 {
            assert!(matches!(action, PlayerAction::Finish));
        } else {
            assert!(matches!(action, PlayerAction::Listen));
        }
        assert_eq!(p.played(), i + 1);
    }
    assert!(p.is_done());
    assert!(matches!(p.on_seen(&Seen::TurnStart { turn: 20 }), PlayerAction::Finish));
}

#[test]
fn player_of_the_first_seat_reveals_the_first_column() {
    let mut p = player(Role::P1);
    match p.on_seen(&Seen::TurnStart { turn: 1 }) {
        PlayerAction::Send(r) => assert_eq!(r.move_, "R"),
        other => panic!("expected a reveal, got {:?}", other),
    }
}

#[test]
fn player_gives_up_on_a_wrong_result_or_a_lost_opponent() {
    let mut p = player(Role::P1);
    p.on_seen(&Seen::TurnStart { turn: 1 });
    match p.on_seen(&result(1, "DRAW")) {
        PlayerAction::Fail(e) => {
            assert_eq!(e, SimError::Unexpected { turn: 1, expected: Outcome::P1 })
        }
        other => panic!("expected a failure, got {:?}", other),
    }
    assert_eq!(p.played(), 0);
    let mut q = player(Role::P1);
    q.on_seen(&Seen::TurnStart { turn: 4 });
    match q.on_seen(&Seen::OpponentLeft) {
        PlayerAction::Fail(e) => assert_eq!(e, SimError::OpponentLeft { turn: 4 }),
        other => panic!("expected a failure, got {:?}", other),
    }
}

#[test]
fn player_without_a_script_finishes_at_once() {
    let seat = AssignInfo { match_id: "m".to_string(), ticket: "t".to_string(), role: Role::P1 };
    let mut p = Player::new("x", seat, Vec::new());
    assert!(p.is_done());
    assert!(matches!(p.on_seen(&Seen::Other), PlayerAction::Finish));
}
