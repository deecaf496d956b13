use rps_duel::arbiter::{AttachError, Event, Timer};
use rps_duel::registry::{JoinError, Registry, RegistryCounts, Unavailable};
use rps_duel::session::{echo_assignment, handle_frame, Inbound};
use rps_duel::arbiter::MatchState;
use rps_duel::ticket::{issue, InvalidTicket};
use rps_duel::wire::{
    ClientToServer, CommitHashes, Heartbeat, Ice, ReadyForRound, Reveal, SdpAnswer, SdpOffer,
    ServerToClient,
};

const SECRET: &[u8] = b"dev-secret-change-me";
const NOW_S: u64 = 1_700_000_000;
const NOW_MS: u64 = 1_700_000_000_000;
const DELAY: u64 = 30_000;
const MID: &str = "demo-did_plc_a-did_plc_b";
const A: &str = "did:plc:a";
const B: &str = "did:plc:b";

fn reveal_frame(turn: u32, label: &str) -> Inbound {
    Inbound::Message(ClientToServer::Reveal(Reveal {
        match_id: MID.to_string(),
        turn,
        move_: label.to_string(),
        nonce: "n".to_string(),
    }))
}

fn error_code(m: &Option<ServerToClient>) -> String {
    match m {
        Some(ServerToClient::Error(e)) => e.code.clone(),
        other => panic!("expected an error frame, got {:?}", other),
    }
}

fn seated() -> Registry {
    let mut r = Registry::new();
    r.attach(MID, A, 1, NOW_MS, DELAY).unwrap();
    r.attach(MID, B, 2, NOW_MS, DELAY).unwrap();
    r
}

#[test]
fn match_is_created_by_its_first_session() {
    let mut r = Registry::new();
    assert_eq!(r.len(), 0);
    assert!(!r.contains(MID));
    let step = r.attach(MID, A, 1, NOW_MS, DELAY).unwrap();
    assert_eq!(step.timer, Some(Timer { turn: 1, delay_ms: DELAY }));
    assert_eq!(step.recipients, vec![1]);
    assert!(r.contains(MID));
    assert_eq!(r.len(), 1);
    r.attach(MID, B, 2, NOW_MS, DELAY).unwrap();
    r.attach("other-did_plc_x-did_plc_y", "did:plc:x", 3, NOW_MS, DELAY).unwrap();
    assert_eq!(r.len(), 2);
    assert_eq!(
        r.counts(),
        RegistryCounts { matches: 2, participants: 3, pending_turn_states: 2 }
    );
    assert_eq!(r.attach(MID, "did:plc:c", 4, NOW_MS, DELAY).err(), Some(AttachError::MatchFull));
    assert_eq!(r.counts().participants, 3);
}

#[test]
fn session_joins_the_match_its_ticket_names() {
    let mut r = Registry::new();
    let ticket = issue(A, "match-A", NOW_S, SECRET);
    let joined = r.join(&ticket, SECRET, NOW_S + 10, 1, NOW_MS, DELAY).expect("admitted");
    assert_eq!(joined.participant, A);
    assert_eq!(joined.match_id, "match-A");
    assert_eq!(joined.step.events.len(), 1);
    assert!(r.contains("match-A"));
    assert!(!r.contains("match-B"));
    assert_eq!(r.len(), 1);
}

#[test]
fn expired_or_forged_ticket_joins_nothing() {
    let mut r = Registry::new();
    let ticket = issue(A, "match-A", NOW_S, SECRET);
    let late = r.join(&ticket, SECRET, NOW_S + 661, 1, NOW_MS, DELAY);
    assert_eq!(late.err(), Some(JoinError::Ticket(InvalidTicket::Expired)));
    // One second past the ten minutes is too late already.
    let just_late = r.join(&ticket, SECRET, NOW_S + 601, 1, NOW_MS, DELAY);
    assert_eq!(just_late.err(), Some(JoinError::Ticket(InvalidTicket::Expired)));
    let forged = r.join(&ticket, b"guess", NOW_S, 1, NOW_MS, DELAY);
    assert_eq!(forged.err(), Some(JoinError::Ticket(InvalidTicket::Rejected)));
    let missing = r.join("", SECRET, NOW_S, 1, NOW_MS, DELAY);
    assert_eq!(missing.err(), Some(JoinError::Ticket(InvalidTicket::Rejected)));
    assert_eq!(r.len(), 0);
}

#[test]
fn third_ticket_holder_finds_the_match_full() {
    let mut r = Registry::new();
    for (i, who) in [A, B].iter().enumerate() {
        let t = issue(who, MID, NOW_S, SECRET);
        r.join(&t, SECRET, NOW_S, i as u64, NOW_MS, DELAY).unwrap();
    }
    let t = issue("did:plc:c", MID, NOW_S, SECRET);
    let refused = r.join(&t, SECRET, NOW_S, 9, NOW_MS, DELAY);
    assert_eq!(refused.err(), Some(JoinError::MatchFull));
    assert_eq!(r.counts().participants, 2);
}

#[test]
fn won_match_leaves_the_registry() {
    let mut r = seated();
    for turn in 1..=5u32 {
        let a = r.handle(MID, A, &reveal_frame(turn, "P"), NOW_MS, DELAY).unwrap();
        assert!(a.step.events.is_empty());
        assert!(r.contains(MID));
        let b = r.handle(MID, B, &reveal_frame(turn, "R"), NOW_MS, DELAY).unwrap();
        assert_eq!(b.step.events.len(), 2);
        assert_eq!(b.step.close, turn == 5);
        assert_eq!(r.contains(MID), turn < 5);
    }
    assert_eq!(r.len(), 0);
    let gone = r.handle(MID, A, &reveal_frame(6, "P"), NOW_MS, DELAY);
    assert_eq!(gone.err(), Some(Unavailable::NoSuchMatch));
    assert_eq!(r.deadline(MID, 6, NOW_MS, DELAY).err(), Some(Unavailable::NoSuchMatch));
    assert!(r.detach(MID, A, 1).is_none());
}

#[test]
fn deadline_goes_to_its_match() {
    let mut r = seated();
    r.attach("other-did_plc_x-did_plc_y", "did:plc:x", 3, NOW_MS, DELAY).unwrap();
    let step = r.deadline(MID, 1, NOW_MS + DELAY, DELAY).unwrap();
    assert_eq!(step.events.len(), 2);
    assert_eq!(step.recipients, vec![1, 2]);
    assert_eq!(step.timer, Some(Timer { turn: 2, delay_ms: DELAY }));
    let lonely = r.deadline("other-did_plc_x-did_plc_y", 1, NOW_MS + DELAY, DELAY).unwrap();
    assert!(matches!(lonely.events[..], [Event::OpponentLeft]));
    assert!(lonely.close);
    assert_eq!(r.len(), 2);
}

#[test]
fn detach_tells_who_remains() {
    let mut r = seated();
    let step = r.detach(MID, B, 2).expect("the match is there");
    assert!(matches!(step.events[..], [Event::OpponentLeft]));
    assert_eq!(step.recipients, vec![1]);
    assert_eq!(r.counts().participants, 1);
    assert!(r.contains(MID));
}

#[test]
fn reset_clears_one_match_or_all() {
    let mut r = seated();
    r.attach("other-did_plc_x-did_plc_y", "did:plc:x", 3, NOW_MS, DELAY).unwrap();
    // One match is named, held or not: the count is one.
    assert_eq!(r.reset_match("no-such-match"), 1);
    assert_eq!(r.len(), 2);
    assert_eq!(r.reset_match(MID), 1);
    assert_eq!(r.len(), 1);
    assert!(!r.contains(MID));
    assert!(r.contains("other-did_plc_x-did_plc_y"));
    r.attach("third-did_plc_p-did_plc_q", "did:plc:p", 4, NOW_MS, DELAY).unwrap();
    // No match is named: two are cleared and the count is none.
    assert_eq!(r.len(), 2);
    assert_eq!(r.reset_all(), 0);
    assert_eq!(r.len(), 0);
    assert_eq!(r.reset_all(), 0);
    assert_eq!(r.counts(), RegistryCounts { matches: 0, participants: 0, pending_turn_states: 0 });
}

#[test]
fn frames_are_answered_relayed_or_arbitrated() {
    let mut m = MatchState::new(MID);
    m.attach(A, 1, NOW_MS, DELAY).unwrap();
    m.attach(B, 2, NOW_MS, DELAY).unwrap();

    let beat = handle_frame(&mut m, A, &Inbound::Message(ClientToServer::Heartbeat(Heartbeat {})), NOW_MS, DELAY);
    assert_eq!(error_code(&beat.reply), "OK");
    assert!(beat.relay_to.is_empty());
    assert!(beat.step.events.is_empty());

    let offer = Inbound::Message(ClientToServer::SdpOffer(SdpOffer {
        match_id: MID.to_string(),
        sdp: "v=0".to_string(),
    }));
    let relayed = handle_frame(&mut m, A, &offer, NOW_MS, DELAY);
    assert!(relayed.reply.is_none());
    assert_eq!(relayed.relay_to, vec![1, 2]);
    let answer = Inbound::Message(ClientToServer::SdpAnswer(SdpAnswer {
        match_id: MID.to_string(),
        sdp: "v=0".to_string(),
    }));
    assert_eq!(handle_frame(&mut m, B, &answer, NOW_MS, DELAY).relay_to, vec![1, 2]);
    let ice = Inbound::Message(ClientToServer::Ice(Ice {
        match_id: MID.to_string(),
        candidate: "c".to_string(),
    }));
    assert_eq!(handle_frame(&mut m, B, &ice, NOW_MS, DELAY).relay_to, vec![1, 2]);

    let hashes: [String; 32] = std::array::from_fn(|i| format!("{:064x}", i));
    let commit = Inbound::Message(ClientToServer::CommitHashes(CommitHashes {
        match_id: MID.to_string(),
        hashes,
    }));
    assert_eq!(error_code(&handle_frame(&mut m, A, &commit, NOW_MS, DELAY).reply), "UNIMPLEMENTED");
    assert_eq!(error_code(&handle_frame(&mut m, A, &Inbound::Unreadable, NOW_MS, DELAY).reply), "BAD_REQUEST");
    assert_eq!(error_code(&handle_frame(&mut m, A, &Inbound::Binary, NOW_MS, DELAY).reply), "UNSUPPORTED");

    // A reveal whose move is no pick is answered with an error and discarded.
    for label in ["X", "", "Rock", "r", "RS"] {
        let bad = handle_frame(&mut m, A, &reveal_frame(1, label), NOW_MS, DELAY);
        assert_eq!(error_code(&bad.reply), "BAD_REQUEST");
        assert!(bad.step.events.is_empty());
        assert_eq!(m.revealed_pick(A), None);
    }

    let first = handle_frame(&mut m, A, &reveal_frame(1, "S"), NOW_MS, DELAY);
    assert!(first.reply.is_none());
    assert!(first.step.events.is_empty());
    let second = handle_frame(&mut m, B, &reveal_frame(1, "P"), NOW_MS, DELAY);
    assert_eq!(second.step.events.len(), 2);
    assert_eq!(m.scores(), (1, 0));
}

#[test]
fn request_for_a_round_is_echoed_and_starts_the_match_once() {
    let mut m = MatchState::new(MID);
    let ready = Inbound::Message(ClientToServer::ReadyForRound(ReadyForRound {
        tid: "cup".to_string(),
        round: 2,
    }));
    let h = handle_frame(&mut m, A, &ready, NOW_MS, DELAY);
    match &h.reply {
        Some(ServerToClient::Assign(a)) => {
            assert_eq!(a.match_id, "cup_2");
            assert_eq!(a.role, "P1");
            assert_eq!(a.peer.did, "did:plc:peer");
            assert_eq!(a.peer.handle, "opponent.example");
            assert!(a.rtc.turns.is_empty());
        }
        other => panic!("expected the echo, got {:?}", other),
    }
    assert!(m.is_started());
    assert_eq!(h.step.events.len(), 1);
    assert_eq!(h.step.timer, Some(Timer { turn: 1, delay_ms: DELAY }));
    let again = handle_frame(&mut m, A, &ready, NOW_MS + 5, DELAY);
    assert!(again.reply.is_some());
    assert!(again.step.events.is_empty());
    assert_eq!(again.step.timer, None);
    match echo_assignment("t", 0) {
        ServerToClient::Assign(a) => assert_eq!(a.match_id, "t_0"),
        other => panic!("expected the echo, got {:?}", other),
    }
}
