//! The rules of one turn: which pick beats which, how a turn is judged, and
//! how picks, roles and outcomes are written as labels.

use vstd::prelude::*;
use vstd::string::*;
use crate::text::to_chars;

verus! {

/// One of the two seats of a match.
#[derive(Clone, Copy, Debug, PartialEq, Eq, Structural)]
pub enum Role {
    P1,
    P2,
}

/// How a turn ended: won by one of the seats, or drawn.
#[derive(Clone, Copy, Debug, PartialEq, Eq, Structural)]
pub enum Outcome {
    P1,
    P2,
    Draw,
}

/// Rock blunts scissors, scissors cut paper, paper wraps rock; nothing else
/// beats anything.
pub open spec fn beats(a: char, b: char) -> bool {
    (a == 'R' && b == 'S') || (a == 'S' && b == 'P') || (a == 'P' && b == 'R')
}

/// The outcome of a turn in which the first seat showed `p1` and the second `p2`.
pub open spec fn judge_spec(p1: char, p2: char) -> Outcome {
    if p1 == p2 {
        Outcome::Draw
    } else if beats(p1, p2) {
        Outcome::P1
    } else {
        Outcome::P2
    }
}

/// True for the three picks of the game.
pub open spec fn is_pick(c: char) -> bool {
    c == 'R' || c == 'P' || c == 'S'
}

/// Does `a` beat `b`?
pub fn pick_beats(a: char, b: char) -> (r: bool)
    ensures
        r == beats(a, b),
{
    (a == 'R' && b == 'S') || (a == 'S' && b == 'P') || (a == 'P' && b == 'R')
}

/// Judges one turn: equal picks draw, otherwise the first seat wins exactly
/// when its pick beats the other.
pub fn judge(p1: char, p2: char) -> (r: Outcome)
    ensures
        r == judge_spec(p1, p2),
{
    if p1 == p2 {
        Outcome::Draw
    } else if pick_beats(p1, p2) {
        Outcome::P1
    } else {
        Outcome::P2
    }
}

/// The seat that wins when the first seat plays `p1` and the second `p2`, each
/// given as a one-letter label; `None` for a draw and for anything that is not
/// a pair of picks.
pub open spec fn expected_winner_spec(p1: Seq<char>, p2: Seq<char>) -> Option<Role> {
    if p1.len() == 1 && p2.len() == 1 && beats(p1[0], p2[0]) {
        Some(Role::P1)
    } else if p1.len() == 1 && p2.len() == 1 && beats(p2[0], p1[0]) {
        Some(Role::P2)
    } else {
        None
    }
}

/// The seat expected to win a turn, from the two labels played.
pub fn expected_winner(p1: &str, p2: &str) -> (r: Option<Role>)
    ensures
        r == expected_winner_spec(p1@, p2@),
{
    let a = to_chars(p1);
    let b = to_chars(p2);
    if a.len() != 1 || b.len() != 1 {
        return None;
    }
    if pick_beats(a[0], b[0]) {
        Some(Role::P1)
    } else if pick_beats(b[0], a[0]) {
        Some(Role::P2)
    } else {
        None
    }
}

/// The label of an outcome as it travels: `P1`, `P2` or `DRAW`.
pub open spec fn outcome_label_spec(o: Outcome) -> Seq<char> {
    match o {
        Outcome::P1 => seq!['P', '1'],
        Outcome::P2 => seq!['P', '2'],
        Outcome::Draw => seq!['D', 'R', 'A', 'W'],
    }
}

/// The label of a seat: `P1` or `P2`.
pub open spec fn role_label_spec(r: Role) -> Seq<char> {
    match r {
        Role::P1 => seq!['P', '1'],
        Role::P2 => seq!['P', '2'],
    }
}

/// Writes an outcome as its label.
pub fn outcome_label(o: Outcome) -> (r: String)
    ensures
        r@ == outcome_label_spec(o),
{
    proof {
        reveal_strlit("P1");
        reveal_strlit("P2");
        reveal_strlit("DRAW");
    }
    let r = match o {
        Outcome::P1 => String::from_str("P1"),
        Outcome::P2 => String::from_str("P2"),
        Outcome::Draw => String::from_str("DRAW"),
    };
    assert(r@ =~= outcome_label_spec(o));
    r
}

/// Writes a seat as its label.
pub fn role_label(role: Role) -> (r: String)
    ensures
        r@ == role_label_spec(role),
{
    proof {
        reveal_strlit("P1");
        reveal_strlit("P2");
    }
    let r = match role {
        Role::P1 => String::from_str("P1"),
        Role::P2 => String::from_str("P2"),
    };
    assert(r@ =~= role_label_spec(role));
    r
}

/// Reads a seat from its label; any other text is no seat.
pub fn parse_role(label: &str) -> (r: Option<Role>)
    ensures
        r is Some <==> (label@ == role_label_spec(Role::P1) || label@ == role_label_spec(
            Role::P2,
        )),
        r matches Some(role) ==> label@ == role_label_spec(role),
{
    let c = to_chars(label);
    if c.len() == 2 && c[0] == 'P' && c[1] == '1' {
        assert(label@ =~= role_label_spec(Role::P1));
        Some(Role::P1)
    } else if c.len() == 2 && c[0] == 'P' && c[1] == '2' {
        assert(label@ =~= role_label_spec(Role::P2));
        Some(Role::P2)
    } else {
        None
    }
}

/// The pick that a label stands for: the labels of picks are the single
/// characters R, P and S, and no other text is the label of a pick.
pub open spec fn label_pick_spec(label: Seq<char>) -> Option<char> {
    if label.len() == 1 && is_pick(label[0]) {
        Some(label[0])
    } else {
        None
    }
}

/// Reads the pick out of a label.
pub fn label_pick(label: &str) -> (r: Option<char>)
    ensures
        r == label_pick_spec(label@),
{
    let chars = to_chars(label);
    if chars.len() == 1 && (chars[0] == 'R' || chars[0] == 'P' || chars[0] == 'S') {
        Some(chars[0])
    } else {
        None
    }
}

/// The pick that stands at a position of the cycle rock, paper, scissors.
pub open spec fn pick_at(n: int) -> char {
    if n % 3 == 0 {
        'R'
    } else if n % 3 == 1 {
        'P'
    } else {
        'S'
    }
}

/// The pick chosen by a 32-bit draw: its remainder by three selects rock,
/// paper or scissors.
pub fn pick_for_word(word: u32) -> (c: char)
    ensures
        c == pick_at(word as int),
        is_pick(c),
{
    let k: u32 = word % 3;
    if k == 0 {
        'R'
    } else if k == 1 {
        'P'
    } else {
        'S'
    }
}

/// Salt blended into the clock when the first seat's pick is substituted.
pub const SALT_P1: u64 = 0x1111;

/// Salt blended into the clock when the second seat's pick is substituted.
pub const SALT_P2: u64 = 0x2222;

/// The pick substituted for a seat that did not reveal in time.
pub open spec fn substitute_spec(now_ms: u64, salt: u64) -> char {
    pick_at((now_ms ^ salt) as int)
}

/// Chooses the pick that stands in for a missing reveal, from the clock
/// blended with the seat's salt.
pub fn substitute_pick(now_ms: u64, salt: u64) -> (c: char)
    ensures
        c == substitute_spec(now_ms, salt),
        is_pick(c),
{
    let seed: u64 = now_ms ^ salt;
    let k: u64 = seed % 3;
    if k == 0 {
        'R'
    } else if k == 1 {
        'P'
    } else {
        'S'
    }
}

/// A one-character string.
pub fn pick_text(c: char) -> (s: String)
    ensures
        s@ == seq![c],
{
    let mut s = String::new();
    crate::text::push_char(&mut s, c);
    assert(s@ =~= seq![c]);
    s
}

/// Judging is exactly the table of the game on the nine pairs of picks: equal
/// picks draw; rock over scissors, scissors over paper and paper over rock go
/// to the first seat; every other pair goes to the second.
pub proof fn law_outcome_table(p1: char, p2: char)
    requires
        is_pick(p1),
        is_pick(p2),
    ensures
        p1 == p2 ==> judge_spec(p1, p2) == Outcome::Draw,
        beats(p1, p2) ==> judge_spec(p1, p2) == Outcome::P1,
        p1 != p2 && !beats(p1, p2) ==> judge_spec(p1, p2) == Outcome::P2 && beats(p2, p1),
        judge_spec(p1, p2) == Outcome::P1 <==> judge_spec(p2, p1) == Outcome::P2,
        judge_spec(p1, p2) == Outcome::Draw <==> judge_spec(p2, p1) == Outcome::Draw,
{
}

} // verus!
