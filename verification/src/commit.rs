//! Commitments to picks: the digest that binds a pick to a nonce, a turn, a
//! match and a participant, and the check of a reveal against it. The digest
//! is SHA-256, computed by `sha2`, written in hexadecimal by `hex`.

use vstd::prelude::*;
use vstd::string::*;
use vstd::utf8::encode_utf8;
use sha2::Digest;
use crate::text::same_text;

verus! {

/// The SHA-256 digest of some bytes.
pub uninterp spec fn sha256(data: Seq<u8>) -> Seq<u8>;

/// Computes the SHA-256 digest of some bytes.
///
/// Trusted: this is `Sha256::digest` of `sha2`. The contract gives the result
/// a name, since it depends on the bytes alone, and claims the one thing the
/// algorithm fixes about its size: a digest has 32 bytes.
#[verifier::external_body]
pub(crate) fn sha256_digest(data: &Vec<u8>) -> (r: Vec<u8>)
    ensures
        r@ == sha256(data@),
        r@.len() == 32,
{
    sha2::Sha256::digest(data.as_slice()).to_vec()
}

/// The lower-case character of a hexadecimal digit.
pub open spec fn hex_digit(d: int) -> char {
    if d == 0 {
        '0'
    } else if d == 1 {
        '1'
    } else if d == 2 {
        '2'
    } else if d == 3 {
        '3'
    } else if d == 4 {
        '4'
    } else if d == 5 {
        '5'
    } else if d == 6 {
        '6'
    } else if d == 7 {
        '7'
    } else if d == 8 {
        '8'
    } else if d == 9 {
        '9'
    } else if d == 10 {
        'a'
    } else if d == 11 {
        'b'
    } else if d == 12 {
        'c'
    } else if d == 13 {
        'd'
    } else if d == 14 {
        'e'
    } else {
        'f'
    }
}

/// Bytes written in hexadecimal: two lower-case digits for each byte, the
/// high half first.
pub open spec fn hex_spec(data: Seq<u8>) -> Seq<char> {
    Seq::new(
        2 * data.len(),
        |i: int|
            if i % 2 == 0 {
                hex_digit(data[i / 2] as int / 16)
            } else {
                hex_digit(data[i / 2] as int % 16)
            },
    )
}

/// Writes bytes in hexadecimal.
///
/// Trusted: this is `hex::encode`, whose documentation says that every byte
/// is written as two lower-case hexadecimal digits. The contract claims
/// exactly that.
#[verifier::external_body]
pub(crate) fn hex_lower(data: &Vec<u8>) -> (r: String)
    ensures
        r@ == hex_spec(data@),
{
    hex::encode(data)
}

/// The four bytes of a number, the most significant first.
pub open spec fn be_bytes(n: u32) -> Seq<u8> {
    seq![
        (n / 0x100_0000) as u8,
        ((n / 0x1_0000) % 0x100) as u8,
        ((n / 0x100) % 0x100) as u8,
        (n % 0x100) as u8,
    ]
}

/// What is digested for a commitment: the pick, the nonce, the turn as four
/// bytes, the match and the participant, one after the other.
pub open spec fn preimage_spec(
    pick: Seq<char>,
    nonce: Seq<char>,
    turn: u32,
    match_id: Seq<char>,
    did: Seq<char>,
) -> Seq<u8> {
    encode_utf8(pick) + encode_utf8(nonce) + be_bytes(turn) + encode_utf8(match_id) + encode_utf8(
        did,
    )
}

/// The commitment to a pick: the digest of its preimage in hexadecimal.
pub open spec fn commit_spec(
    pick: Seq<char>,
    nonce: Seq<char>,
    turn: u32,
    match_id: Seq<char>,
    did: Seq<char>,
) -> Seq<char> {
    hex_spec(sha256(preimage_spec(pick, nonce, turn, match_id, did)))
}

fn append_bytes(out: &mut Vec<u8>, more: &Vec<u8>)
    ensures
        final(out)@ == old(out)@ + more@,
{
    let mut i: usize = 0;
    while i < more.len()
        invariant
            i <= more.len(),
            out@ == old(out)@ + more@.take(i as int),
        decreases more.len() - i,
    {
        out.push(more[i]);
        i += 1;
        assert(more@.take(i as int) == more@.take(i as int - 1).push(more@[i as int - 1]));
        assert(out@ =~= old(out)@ + more@.take(i as int));
    }
    assert(more@.take(more.len() as int) == more@);
}

/// Lays out what is digested for a commitment.
pub fn preimage(pick: &str, nonce: &str, turn: u32, match_id: &str, did: &str) -> (r: Vec<u8>)
    ensures
        r@ == preimage_spec(pick@, nonce@, turn, match_id@, did@),
{
    let mut out: Vec<u8> = pick.as_bytes_vec();
    append_bytes(&mut out, &nonce.as_bytes_vec());
    out.push((turn / 0x100_0000) as u8);
    out.push(((turn / 0x1_0000) % 0x100) as u8);
    out.push(((turn / 0x100) % 0x100) as u8);
    out.push((turn % 0x100) as u8);
    append_bytes(&mut out, &match_id.as_bytes_vec());
    append_bytes(&mut out, &did.as_bytes_vec());
    assert(out@ =~= preimage_spec(pick@, nonce@, turn, match_id@, did@));
    out
}

/// Computes the commitment of a participant to a pick for a turn of a match.
pub fn commit(pick: &str, nonce: &str, turn: u32, match_id: &str, did: &str) -> (r: String)
    ensures
        r@ == commit_spec(pick@, nonce@, turn, match_id@, did@),
        r@.len() == 64,
{
    let digest = sha256_digest(&preimage(pick, nonce, turn, match_id, did));
    hex_lower(&digest)
}

/// Does a reveal match the commitment made for it? Exactly when the
/// commitment is the one that the revealed pick and nonce give.
pub fn reveal_matches(
    commitment: &str,
    pick: &str,
    nonce: &str,
    turn: u32,
    match_id: &str,
    did: &str,
) -> (valid: bool)
    ensures
        valid == (commitment@ == commit_spec(pick@, nonce@, turn, match_id@, did@)),
{
    let computed = commit(pick, nonce, turn, match_id, did);
    same_text(computed.as_str(), commitment)
}

} // verus!
