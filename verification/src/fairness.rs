//! The synthetic opponent's pick: drawn from a generator seeded with a hash
//! of the match and the turn. The hash is `fxhash`, the generator `StdRng` of
//! `rand`; which pick a draw selects is decided here.

use vstd::prelude::*;
use vstd::string::*;
use rand::{RngCore, SeedableRng};
use crate::moves::{is_pick, pick_at, pick_for_word};
use crate::text::{append_decimal, decimal_spec, from_chars, to_chars};

verus! {

/// The generator of `rand`, carried through as it is.
#[verifier::external_type_specification]
#[verifier::external_body]
pub struct ExStdRng(rand::rngs::StdRng);

/// Hashes bytes into a seed.
///
/// Trusted: this is `fxhash::hash64` on a byte slice. It reads the bytes in
/// the byte order of the machine, so nothing is claimed of the seed.
#[verifier::external_body]
pub(crate) fn seed_of(bytes: &Vec<u8>) -> (seed: u64) {
    fxhash::hash64(bytes.as_slice())
}

/// Makes a generator from a seed.
///
/// Trusted: this is `StdRng::seed_from_u64` of `rand`. The generator is
/// opaque here, so nothing is claimed of it.
#[verifier::external_body]
pub(crate) fn seeded(seed: u64) -> (rng: rand::rngs::StdRng) {
    rand::rngs::StdRng::seed_from_u64(seed)
}

/// Draws the next 32 bits from a generator.
///
/// Trusted: this is `next_u32` of `rand`. Nothing is claimed of the draw.
#[verifier::external_body]
pub(crate) fn draw(rng: &mut rand::rngs::StdRng) -> (word: u32) {
    rng.next_u32()
}

/// The synthetic opponent's pick with the fields that a randomness beacon
/// would fill.
#[derive(Debug)]
pub struct AiMove {
    pub rps: char,
    pub vrf_output: String,
    pub vrf_proof: String,
    pub drand_epoch: u64,
}

/// The text that is hashed into the seed: the match, a colon, the turn.
pub open spec fn seed_text_spec(match_id: Seq<char>, turn: u32) -> Seq<char> {
    match_id + seq![':'] + decimal_spec(turn as nat)
}

/// Writes the text that is hashed into the seed.
pub fn seed_text(match_id: &str, turn: u32) -> (r: String)
    ensures
        r@ == seed_text_spec(match_id@, turn),
{
    let mut out = to_chars(match_id);
    out.push(':');
    append_decimal(&mut out, turn);
    assert(out@ =~= seed_text_spec(match_id@, turn));
    from_chars(&out)
}

/// The placeholder written where a beacon's output or proof would stand.
pub open spec fn beacon_placeholder() -> Seq<char> {
    "0x00"@
}

/// The answer for a draw: the pick that the draw selects, with placeholders
/// in the beacon's fields.
pub fn ai_move_for(word: u32) -> (m: AiMove)
    ensures
        m.rps == pick_at(word as int),
        is_pick(m.rps),
        m.vrf_output@ == beacon_placeholder(),
        m.vrf_proof@ == beacon_placeholder(),
        m.drand_epoch == 0,
{
    AiMove {
        rps: pick_for_word(word),
        vrf_output: "0x00".to_owned(),
        vrf_proof: "0x00".to_owned(),
        drand_epoch: 0,
    }
}

/// The synthetic opponent's pick for a turn of a match: the first draw of a
/// generator seeded from the match and the turn selects it. Whatever the
/// draw, the pick is rock, paper or scissors, and the beacon's fields hold
/// placeholders.
pub fn ai_move(match_id: &str, turn: u32) -> (m: AiMove)
    ensures
        is_pick(m.rps),
        exists|word: u32| m.rps == pick_at(word as int),
        m.vrf_output@ == beacon_placeholder(),
        m.vrf_proof@ == beacon_placeholder(),
        m.drand_epoch == 0,
{
    let text = seed_text(match_id, turn);
    let seed = seed_of(&text.as_str().as_bytes_vec());
    let mut rng = seeded(seed);
    let word = draw(&mut rng);
    ai_move_for(word)
}

} // verus!
