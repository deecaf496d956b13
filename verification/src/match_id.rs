//! Match identifiers: how the pairing layer writes the two seats into an
//! identifier, and how the arbiter reads them back.

use vstd::prelude::*;
use crate::text::{
    append_chars, append_decimal, decimal_spec, find_last, from_chars, has_prefix, last_index_of,
    replace_chars, replaced, slice_chars, starts_with, to_chars,
};

verus! {

/// A participant identifier as it stands inside a match identifier: every
/// colon written as an underscore.
pub open spec fn encoded(id: Seq<char>) -> Seq<char> {
    replaced(id, ':', '_')
}

/// The identifier that an encoded seat stands for: every underscore read as a
/// colon.
pub open spec fn decoded(part: Seq<char>) -> Seq<char> {
    replaced(part, '_', ':')
}

/// The prefix that every seat read from a match identifier must carry.
pub open spec fn seat_prefix() -> Seq<char> {
    seq!['d', 'i', 'd', ':']
}

/// The identifier of a match made from the waiting queue.
pub open spec fn queue_match_id_spec(tid: Seq<char>, p1: Seq<char>, p2: Seq<char>) -> Seq<char> {
    tid + seq!['-'] + encoded(p1) + seq!['-'] + encoded(p2)
}

/// The identifier of a match of two entrants in a round.
pub open spec fn round_match_id_spec(tid: Seq<char>, round: u32, p1: Seq<char>, p2: Seq<char>) -> Seq<
    char,
> {
    tid + seq!['-', 'r'] + decimal_spec(round as nat) + seq!['-'] + encoded(p1) + seq!['-']
        + encoded(p2)
}

/// The identifier of the match of an entrant left without a human opponent.
pub open spec fn bye_match_id_spec(tid: Seq<char>, round: u32, p1: Seq<char>) -> Seq<char> {
    tid + seq!['-', 'r'] + decimal_spec(round as nat) + seq!['-'] + encoded(p1) + seq![
        '-',
        'A',
        'I',
    ]
}

/// The identifier of a match handed out without pairing: tournament, round
/// and the participant as it is written.
pub open spec fn solo_match_id_spec(tid: Seq<char>, round: u32, did: Seq<char>) -> Seq<char> {
    tid + seq!['-', 'r'] + decimal_spec(round as nat) + seq!['-'] + did
}

/// The identifier echoed to a session that asks for a round by itself.
pub open spec fn echo_match_id_spec(tid: Seq<char>, round: u32) -> Seq<char> {
    tid + seq!['_'] + decimal_spec(round as nat)
}

/// The two seats that a match identifier names: the text behind its last dash
/// is the second seat, the text between the last two dashes (or all that is
/// before the last, when there is only one) the first, both decoded; `None`
/// unless there is a dash and both begin with `did:`.
pub open spec fn seats_spec(mid: Seq<char>) -> Option<(Seq<char>, Seq<char>)> {
    let last = last_index_of(mid, '-');
    if last < 0 {
        None
    } else {
        let rest = mid.take(last);
        let prev = last_index_of(rest, '-');
        let p1 = decoded(rest.subrange(prev + 1, rest.len() as int));
        let p2 = decoded(mid.subrange(last + 1, mid.len() as int));
        if has_prefix(p1, seat_prefix()) && has_prefix(p2, seat_prefix()) {
            Some((p1, p2))
        } else {
            None
        }
    }
}

/// A participant identifier that can be written into a match identifier and
/// read back: it begins with `did:` and holds neither a dash nor an
/// underscore.
pub open spec fn seatable(id: Seq<char>) -> bool {
    &&& has_prefix(id, seat_prefix())
    &&& forall|i: int| 0 <= i < id.len() ==> id[i] != '-' && id[i] != '_'
}

/// The seats behind any text and a dash are read back as they were written.
pub proof fn lemma_seats_read_back(head: Seq<char>, p1: Seq<char>, p2: Seq<char>)
    requires
        seatable(p1),
        seatable(p2),
    ensures
        seats_spec(head + seq!['-'] + encoded(p1) + seq!['-'] + encoded(p2)) == Some((p1, p2)),
{
    let e1 = encoded(p1);
    let e2 = encoded(p2);
    let mid = head + seq!['-'] + e1 + seq!['-'] + e2;
    let first = head.len() as int;
    let last = first + 1 + e1.len();
    assert(mid[last] == '-');
    assert forall|j: int| last < j < mid.len() implies mid[j] != '-' by {
        assert(mid[j] == e2[j - last - 1]);
    }
    crate::text::lemma_last_index_unique(mid, '-', last);
    let rest = mid.take(last);
    assert(rest =~= head + seq!['-'] + e1);
    assert(rest[first] == '-');
    assert forall|j: int| first < j < rest.len() implies rest[j] != '-' by {
        assert(rest[j] == e1[j - first - 1]);
    }
    crate::text::lemma_last_index_unique(rest, '-', first);
    assert(rest.subrange(first + 1, rest.len() as int) =~= e1);
    assert(mid.subrange(last + 1, mid.len() as int) =~= e2);
    assert(decoded(e1) =~= p1);
    assert(decoded(e2) =~= p2);
}

/// What pairing writes, the arbiter reads: the identifier of a match made
/// from the queue, or of a match of two entrants in a round, names the two
/// participants it was made for, the first seat first.
pub proof fn law_seats_read_back(tid: Seq<char>, round: u32, p1: Seq<char>, p2: Seq<char>)
    requires
        seatable(p1),
        seatable(p2),
    ensures
        seats_spec(queue_match_id_spec(tid, p1, p2)) == Some((p1, p2)),
        seats_spec(round_match_id_spec(tid, round, p1, p2)) == Some((p1, p2)),
{
    lemma_seats_read_back(tid, p1, p2);
    let head = tid + seq!['-', 'r'] + decimal_spec(round as nat);
    lemma_seats_read_back(head, p1, p2);
    assert(round_match_id_spec(tid, round, p1, p2) =~= head + seq!['-'] + encoded(p1) + seq!['-']
        + encoded(p2));
}

/// The identifier of a match against the synthetic opponent names no seats,
/// so the arbiter seats whoever attaches.
pub proof fn law_bye_names_no_seats(tid: Seq<char>, round: u32, p1: Seq<char>)
    requires
        forall|i: int| 0 <= i < p1.len() ==> p1[i] != '-',
    ensures
        seats_spec(bye_match_id_spec(tid, round, p1)) is None,
{
    let head = tid + seq!['-', 'r'] + decimal_spec(round as nat) + seq!['-'] + encoded(p1);
    let mid = bye_match_id_spec(tid, round, p1);
    assert(mid =~= head + seq!['-', 'A', 'I']);
    let last = head.len() as int;
    assert(mid[last] == '-');
    assert(mid[last + 1] == 'A');
    assert(mid[last + 2] == 'I');
    crate::text::lemma_last_index_unique(mid, '-', last);
    let tail = mid.subrange(last + 1, mid.len() as int);
    assert(tail.len() == 2);
    assert(decoded(tail).len() == 2);
}

fn seat_prefix_chars() -> (p: Vec<char>)
    ensures
        p@ == seat_prefix(),
{
    let mut p: Vec<char> = Vec::new();
    p.push('d');
    p.push('i');
    p.push('d');
    p.push(':');
    assert(p@ =~= seat_prefix());
    p
}

/// Reads the canonical seats out of a match identifier.
pub fn seats_of(match_id: &str) -> (r: Option<(String, String)>)
    ensures
        match r {
            Some((p1, p2)) => seats_spec(match_id@) == Some((p1@, p2@)),
            None => seats_spec(match_id@) is None,
        },
{
    let chars = to_chars(match_id);
    assert(chars@.take(chars.len() as int) == chars@);
    let last = match find_last(&chars, chars.len(), '-') {
        Some(i) => i,
        None => { return None; },
    };
    let first_from: usize = match find_last(&chars, last, '-') {
        Some(i) => i + 1,
        None => 0,
    };
    let p1_part = slice_chars(&chars, first_from, last);
    let p2_part = slice_chars(&chars, last + 1, chars.len());
    proof {
        let rest = chars@.take(last as int);
        assert(rest.subrange(first_from as int, rest.len() as int) =~= chars@.subrange(
            first_from as int,
            last as int,
        ));
    }
    let p1 = replace_chars(&p1_part, '_', ':');
    let p2 = replace_chars(&p2_part, '_', ':');
    let prefix = seat_prefix_chars();
    if starts_with(&p1, &prefix) && starts_with(&p2, &prefix) {
        Some((from_chars(&p1), from_chars(&p2)))
    } else {
        None
    }
}

/// Writes the identifier of a match made from the waiting queue.
pub fn queue_match_id(tid: &str, p1: &str, p2: &str) -> (r: String)
    ensures
        r@ == queue_match_id_spec(tid@, p1@, p2@),
{
    let mut out = to_chars(tid);
    out.push('-');
    append_chars(&mut out, &replace_chars(&to_chars(p1), ':', '_'));
    out.push('-');
    append_chars(&mut out, &replace_chars(&to_chars(p2), ':', '_'));
    assert(out@ =~= queue_match_id_spec(tid@, p1@, p2@));
    from_chars(&out)
}

/// Writes the identifier of a match of two entrants in a round.
pub fn round_match_id(tid: &str, round: u32, p1: &str, p2: &str) -> (r: String)
    ensures
        r@ == round_match_id_spec(tid@, round, p1@, p2@),
{
    let mut out = to_chars(tid);
    out.push('-');
    out.push('r');
    append_decimal(&mut out, round);
    out.push('-');
    append_chars(&mut out, &replace_chars(&to_chars(p1), ':', '_'));
    out.push('-');
    append_chars(&mut out, &replace_chars(&to_chars(p2), ':', '_'));
    assert(out@ =~= round_match_id_spec(tid@, round, p1@, p2@));
    from_chars(&out)
}

/// Writes the identifier of the match of an entrant without a human opponent.
pub fn bye_match_id(tid: &str, round: u32, p1: &str) -> (r: String)
    ensures
        r@ == bye_match_id_spec(tid@, round, p1@),
{
    let mut out = to_chars(tid);
    out.push('-');
    out.push('r');
    append_decimal(&mut out, round);
    out.push('-');
    append_chars(&mut out, &replace_chars(&to_chars(p1), ':', '_'));
    out.push('-');
    out.push('A');
    out.push('I');
    assert(out@ =~= bye_match_id_spec(tid@, round, p1@));
    from_chars(&out)
}

/// Writes the identifier of a match handed out without pairing.
pub fn solo_match_id(tid: &str, round: u32, did: &str) -> (r: String)
    ensures
        r@ == solo_match_id_spec(tid@, round, did@),
{
    let mut out = to_chars(tid);
    out.push('-');
    out.push('r');
    append_decimal(&mut out, round);
    out.push('-');
    append_chars(&mut out, &to_chars(did));
    assert(out@ =~= solo_match_id_spec(tid@, round, did@));
    from_chars(&out)
}

/// Writes the identifier echoed to a session that asks for a round by itself.
pub fn echo_match_id(tid: &str, round: u32) -> (r: String)
    ensures
        r@ == echo_match_id_spec(tid@, round),
{
    let mut out = to_chars(tid);
    out.push('_');
    append_decimal(&mut out, round);
    assert(out@ =~= echo_match_id_spec(tid@, round));
    from_chars(&out)
}

} // verus!
