use rps_duel::match_id::{
    bye_match_id, echo_match_id, queue_match_id, round_match_id, seats_of, solo_match_id,
};
use rps_duel::moves::{
    expected_winner, judge, label_pick, outcome_label, parse_role, pick_beats, pick_for_word,
    pick_text, role_label, substitute_pick, Outcome, Role, SALT_P1, SALT_P2,
};
use rps_duel::text::{from_chars, replace_chars, starts_with, text_less, to_chars};

#[test]
fn outcome_table_of_the_nine_pairs() {
    let picks = ['R', 'P', 'S'];
    for a in picks {
        for b in picks {
            let expected = if a == b {
                Outcome::Draw
            } else if matches!((a, b), ('R', 'S') | ('S', 'P') | ('P', 'R')) {
                Outcome::P1
            } else {
                Outcome::P2
            };
            assert_eq!(judge(a, b), expected, "{} against {}", a, b);
        }
    }
    assert_eq!(judge('R', 'S'), Outcome::P1);
    assert_eq!(judge('S', 'P'), Outcome::P1);
    assert_eq!(judge('P', 'R'), Outcome::P1);
    assert_eq!(judge('S', 'R'), Outcome::P2);
    assert_eq!(judge('P', 'S'), Outcome::P2);
    assert_eq!(judge('R', 'P'), Outcome::P2);
}

#[test]
fn judging_is_antisymmetric() {
    for a in ['R', 'P', 'S'] {
        for b in ['R', 'P', 'S'] {
            let forth = judge(a, b);
            let back = judge(b, a);
            match forth {
                Outcome::Draw => assert_eq!(back, Outcome::Draw),
                Outcome::P1 => assert_eq!(back, Outcome::P2),
                Outcome::P2 => assert_eq!(back, Outcome::P1),
            }
        }
    }
}

#[test]
fn beats_is_the_cycle_only() {
    assert!(pick_beats('R', 'S'));
    assert!(pick_beats('S', 'P'));
    assert!(pick_beats('P', 'R'));
    assert!(!pick_beats('S', 'R'));
    assert!(!pick_beats('R', 'R'));
    assert!(!pick_beats('X', 'R'));
    assert!(!pick_beats('r', 's'));
}

#[test]
fn expected_winner_of_labels() {
    assert_eq!(expected_winner("R", "S"), Some(Role::P1));
    assert_eq!(expected_winner("S", "P"), Some(Role::P1));
    assert_eq!(expected_winner("P", "R"), Some(Role::P1));
    assert_eq!(expected_winner("S", "R"), Some(Role::P2));
    assert_eq!(expected_winner("P", "S"), Some(Role::P2));
    assert_eq!(expected_winner("R", "P"), Some(Role::P2));
    assert_eq!(expected_winner("R", "R"), None);
    assert_eq!(expected_winner("P", "P"), None);
    assert_eq!(expected_winner("", "S"), None);
    assert_eq!(expected_winner("RS", "S"), None);
    assert_eq!(expected_winner("R", "SS"), None);
    assert_eq!(expected_winner("X", "R"), None);
}

#[test]
fn labels_of_outcomes_and_roles() {
    assert_eq!(outcome_label(Outcome::P1), "P1");
    assert_eq!(outcome_label(Outcome::P2), "P2");
    assert_eq!(outcome_label(Outcome::Draw), "DRAW");
    assert_eq!(role_label(Role::P1), "P1");
    assert_eq!(role_label(Role::P2), "P2");
    assert_eq!(parse_role("P1"), Some(Role::P1));
    assert_eq!(parse_role("P2"), Some(Role::P2));
    assert_eq!(parse_role("P0"), None);
    assert_eq!(parse_role("p1"), None);
    assert_eq!(parse_role(""), None);
    assert_eq!(parse_role("P12"), None);
    assert_eq!(pick_text('S'), "S");
}

#[test]
fn picks_have_one_letter_labels() {
    assert_eq!(label_pick("R"), Some('R'));
    assert_eq!(label_pick("P"), Some('P'));
    assert_eq!(label_pick("S"), Some('S'));
    assert_eq!(label_pick("Scissors"), None);
    assert_eq!(label_pick(""), None);
    assert_eq!(label_pick("x"), None);
    assert_eq!(label_pick("r"), None);
    assert_eq!(label_pick("RP"), None);
}

#[test]
fn picks_by_remainder() {
    assert_eq!(pick_for_word(0), 'R');
    assert_eq!(pick_for_word(1), 'P');
    assert_eq!(pick_for_word(2), 'S');
    assert_eq!(pick_for_word(3), 'R');
    assert_eq!(pick_for_word(u32::MAX), 'R');
    assert_eq!(pick_for_word(u32::MAX - 1), 'S');
}

#[test]
fn substitutes_blend_clock_and_salt() {
    assert_eq!(SALT_P1, 0x1111);
    assert_eq!(SALT_P2, 0x2222);
    assert_eq!(substitute_pick(31_000, SALT_P1), 'S');
    assert_eq!(substitute_pick(31_000, SALT_P2), 'S');
    assert_eq!(substitute_pick(31_001, SALT_P1), 'P');
    assert_eq!(substitute_pick(31_001, SALT_P2), 'R');
    assert_eq!(substitute_pick(0, 0), 'R');
    for now in 0..50u64 {
        let c = substitute_pick(now, SALT_P1);
        assert!(c == 'R' || c == 'P' || c == 'S');
        assert_eq!(c, ['R', 'P', 'S'][((now ^ 0x1111) % 3) as usize]);
    }
}

#[test]
fn characters_round_trip() {
    let s = "did:plc:żółw";
    let chars = to_chars(s);
    assert_eq!(chars.len(), 12);
    assert_eq!(chars[8], 'ż');
    assert_eq!(from_chars(&chars), s);
    assert_eq!(from_chars(&Vec::new()), "");
}

#[test]
fn text_order_is_the_order_of_strings() {
    let cases = [
        ("", ""), ("", "a"), ("a", ""), ("a", "a"), ("a", "b"), ("b", "a"), ("ab", "a"),
        ("a", "ab"), ("did:plc:simA", "did:plc:simB"), ("Z", "a"), ("é", "z"), ("z", "é"),
        ("abc", "abd"), ("abd", "abc"),
    ];
    for (a, b) in cases {
        assert_eq!(text_less(a, b), a < b, "{:?} before {:?}", a, b);
    }
}

#[test]
fn replacing_and_prefixes() {
    let swap = |s: &str, from: char, to: char| from_chars(&replace_chars(&to_chars(s), from, to));
    assert_eq!(swap("did:plc:a", ':', '_'), "did_plc_a");
    assert_eq!(swap("did_plc_a", '_', ':'), "did:plc:a");
    assert_eq!(swap("", ':', '_'), "");
    assert_eq!(swap("abc", ':', '_'), "abc");
    assert!(starts_with(&to_chars("did:x"), &to_chars("did:")));
    assert!(!starts_with(&to_chars("di"), &to_chars("did:")));
    assert!(!starts_with(&to_chars("dxd:abc"), &to_chars("did:")));
    assert!(starts_with(&to_chars("abc"), &to_chars("")));
}

#[test]
fn match_identifiers_are_written() {
    assert_eq!(queue_match_id("demo", "did:plc:a", "did:plc:b"), "demo-did_plc_a-did_plc_b");
    assert_eq!(round_match_id("cup", 3, "did:plc:a", "did:plc:b"), "cup-r3-did_plc_a-did_plc_b");
    assert_eq!(round_match_id("cup", 0, "a", "b"), "cup-r0-a-b");
    assert_eq!(round_match_id("cup", 4_294_967_295, "a", "b"), "cup-r4294967295-a-b");
    assert_eq!(bye_match_id("cup", 12, "did:plc:c"), "cup-r12-did_plc_c-AI");
    assert_eq!(solo_match_id("cup", 105, "did:plc:c"), "cup-r105-did:plc:c");
    assert_eq!(echo_match_id("cup", 7), "cup_7");
}

#[test]
fn seats_are_read_from_identifiers() {
    assert_eq!(
        seats_of("demo-did_plc_a-did_plc_b"),
        Some(("did:plc:a".to_string(), "did:plc:b".to_string()))
    );
    assert_eq!(
        seats_of("cup-r3-did_plc_a-did_plc_b"),
        Some(("did:plc:a".to_string(), "did:plc:b".to_string()))
    );
    assert_eq!(
        seats_of("did_plc_a-did_plc_b"),
        Some(("did:plc:a".to_string(), "did:plc:b".to_string()))
    );
    assert_eq!(seats_of("cup-r3-did_plc_c-AI"), None);
    assert_eq!(seats_of("cup_7"), None);
    assert_eq!(seats_of(""), None);
    assert_eq!(seats_of("-"), None);
    assert_eq!(seats_of("cup-r1-a-b"), None);
    assert_eq!(seats_of("cup-did:plc:a-did:plc:b"), Some(("did:plc:a".into(), "did:plc:b".into())));
}

#[test]
fn seats_written_are_read_back() {
    let id = queue_match_id("demo", "did:plc:simA", "did:plc:simB");
    assert_eq!(seats_of(&id), Some(("did:plc:simA".to_string(), "did:plc:simB".to_string())));
    let id = round_match_id("cup", 2, "did:plc:x", "did:plc:y");
    assert_eq!(seats_of(&id), Some(("did:plc:x".to_string(), "did:plc:y".to_string())));
}
