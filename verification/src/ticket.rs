//! Session tickets: short-lived signed envelopes that bind a participant to a
//! match. Signing and opening are done by `jsonwebtoken`; what is claimed and
//! when a ticket has expired is decided here.

use vstd::prelude::*;

verus! {

/// Seconds for which a ticket is valid after it is issued.
pub const TICKET_LIFETIME_S: u64 = 600;

/// What a ticket claims: the participant, the match, and the seconds since
/// the epoch at which it expires and at which it was issued.
#[derive(Clone, Debug)]
pub struct Claims {
    pub sub: String,
    pub mid: String,
    pub exp: u64,
    pub iat: u64,
}

/// What `Claims` are, with texts as sequences of characters.
pub struct ClaimsView {
    pub sub: Seq<char>,
    pub mid: Seq<char>,
    pub exp: u64,
    pub iat: u64,
}

impl View for Claims {
    type V = ClaimsView;

    open spec fn view(&self) -> ClaimsView {
        ClaimsView { sub: self.sub@, mid: self.mid@, exp: self.exp, iat: self.iat }
    }
}

/// Why a ticket is refused.
#[derive(Clone, Copy, Debug, PartialEq, Eq, Structural)]
pub enum InvalidTicket {
    /// The token is malformed, is not signed with the secret, or does not
    /// carry the four claims.
    Rejected,
    /// The token is genuine and has expired.
    Expired,
}

/// The compact token that signing the four claims with the secret gives.
pub uninterp spec fn hs256_token(
    sub: Seq<char>,
    mid: Seq<char>,
    exp: u64,
    iat: u64,
    secret: Seq<u8>,
) -> Seq<char>;

/// The claims (participant, match, expiry, issue) that a token carries under
/// the secret, or `None` where the token is not a well-formed token signed
/// with that secret that carries them.
pub uninterp spec fn hs256_claims(token: Seq<char>, secret: Seq<u8>) -> Option<
    (Seq<char>, Seq<char>, u64, u64),
>;

/// The view of optional claims.
pub open spec fn option_claims(c: Option<Claims>) -> Option<(Seq<char>, Seq<char>, u64, u64)> {
    match c {
        Some(c) => Some((c.sub@, c.mid@, c.exp, c.iat)),
        None => None,
    }
}

/// Signs claims into a compact token.
///
/// Trusted: this is `jsonwebtoken::encode` with the default header (HS256)
/// and a key made by `EncodingKey::from_secret`, the claims handed over as a
/// JSON object with the members `sub`, `mid`, `exp` and `iat`. The contract
/// claims three things. Signing succeeds: `encode` fails only on a key of
/// another family than the header's or on claims that cannot be written as
/// JSON, and a key from a secret is of the family of HS256 and an object of
/// strings and unsigned numbers can always be written. The token has a name,
/// since it depends on the claims and the secret alone. And a token that is
/// signed opens, under the same secret, to the claims that went in.
#[verifier::external_body]
pub(crate) fn sign_claims(claims: &Claims, secret: &[u8]) -> (r: Option<String>)
    ensures
        r is Some,
        r matches Some(t) ==> t@ == hs256_token(
            claims.sub@,
            claims.mid@,
            claims.exp,
            claims.iat,
            secret@,
        ),
        r matches Some(t) ==> hs256_claims(t@, secret@) == Some(
            (claims.sub@, claims.mid@, claims.exp, claims.iat),
        ),
{
    let mut body = serde_json::Map::new();
    body.insert("sub".to_string(), serde_json::Value::from(claims.sub.as_str()));
    body.insert("mid".to_string(), serde_json::Value::from(claims.mid.as_str()));
    body.insert("exp".to_string(), serde_json::Value::from(claims.exp));
    body.insert("iat".to_string(), serde_json::Value::from(claims.iat));
    let key = jsonwebtoken::EncodingKey::from_secret(secret);
    jsonwebtoken::encode(&jsonwebtoken::Header::default(), &body, &key).ok()
}

/// Opens a compact token: checks its signature and reads its claims.
///
/// Trusted: this is `jsonwebtoken::decode` with `Validation::new(HS256)`, a
/// key made by `DecodingKey::from_secret`, and the check of the expiry against
/// the machine's clock switched off, so that the result depends on the token
/// and the secret alone; the contract gives it a name. The members `sub` and
/// `mid` are read as strings, `exp` and `iat` as unsigned numbers; a token
/// that lacks one of them opens to `None`.
#[verifier::external_body]
pub(crate) fn open_token(token: &str, secret: &[u8]) -> (r: Option<Claims>)
    ensures
        option_claims(r) == hs256_claims(token@, secret@),
{
    let mut rules = jsonwebtoken::Validation::new(jsonwebtoken::Algorithm::HS256);
    rules.validate_exp = false;
    let key = jsonwebtoken::DecodingKey::from_secret(secret);
    let body = jsonwebtoken::decode::<serde_json::Value>(token, &key, &rules).ok()?.claims;
    let sub = body.get("sub")?.as_str()?.to_string();
    let mid = body.get("mid")?.as_str()?.to_string();
    let exp = body.get("exp")?.as_u64()?;
    let iat = body.get("iat")?.as_u64()?;
    Some(Claims { sub, mid, exp, iat })
}

/// The claims of a ticket issued at `now_s` to a participant for a match.
pub open spec fn claims_spec(participant: Seq<char>, match_id: Seq<char>, now_s: u64) -> ClaimsView {
    ClaimsView {
        sub: participant,
        mid: match_id,
        exp: (now_s + TICKET_LIFETIME_S) as u64,
        iat: now_s,
    }
}

/// Writes the claims of a ticket issued now: valid for ten minutes.
pub fn claims_for(participant: &str, match_id: &str, now_s: u64) -> (c: Claims)
    requires
        now_s + TICKET_LIFETIME_S <= u64::MAX,
    ensures
        c@ == claims_spec(participant@, match_id@, now_s),
{
    Claims {
        sub: participant.to_owned(),
        mid: match_id.to_owned(),
        exp: now_s + TICKET_LIFETIME_S,
        iat: now_s,
    }
}

/// The ticket issued at `now_s` to a participant for a match, under a secret.
pub open spec fn ticket_spec(
    participant: Seq<char>,
    match_id: Seq<char>,
    now_s: u64,
    secret: Seq<u8>,
) -> Seq<char> {
    hs256_token(participant, match_id, (now_s + TICKET_LIFETIME_S) as u64, now_s, secret)
}

/// Has a ticket that expires at `exp` expired at `now_s`? As soon as that
/// instant has passed.
pub open spec fn expired(exp: u64, now_s: u64) -> bool {
    exp < now_s
}

/// What verifying opened claims at `now_s` gives.
pub open spec fn accept_spec(opened: Option<(Seq<char>, Seq<char>, u64, u64)>, now_s: u64) -> Result<
    ClaimsView,
    InvalidTicket,
> {
    match opened {
        None => Err(InvalidTicket::Rejected),
        Some((sub, mid, exp, iat)) => if expired(exp, now_s) {
            Err(InvalidTicket::Expired)
        } else {
            Ok(ClaimsView { sub, mid, exp, iat })
        },
    }
}

/// What verifying a token at `now_s` under a secret gives.
pub open spec fn verify_spec(token: Seq<char>, secret: Seq<u8>, now_s: u64) -> Result<
    ClaimsView,
    InvalidTicket,
> {
    accept_spec(hs256_claims(token, secret), now_s)
}

/// The view of a verdict on a ticket.
pub open spec fn verdict_view(r: Result<Claims, InvalidTicket>) -> Result<ClaimsView, InvalidTicket> {
    match r {
        Ok(c) => Ok(c@),
        Err(e) => Err(e),
    }
}

/// Decides on a ticket that has been opened: refused if it did not open,
/// expired if its expiry has passed, else accepted with its claims.
pub fn accept(opened: Option<Claims>, now_s: u64) -> (r: Result<Claims, InvalidTicket>)
    ensures
        verdict_view(r) == accept_spec(option_claims(opened), now_s),
{
    match opened {
        None => Err(InvalidTicket::Rejected),
        Some(c) => {
            if c.exp < now_s {
                Err(InvalidTicket::Expired)
            } else {
                Ok(c)
            }
        },
    }
}

/// Issues a ticket that binds a participant to a match for ten minutes from
/// `now_s`. The ticket verifies under the same secret to exactly these claims
/// at every instant of those ten minutes, and is expired at every later one.
pub fn issue(participant: &str, match_id: &str, now_s: u64, secret: &[u8]) -> (r: String)
    requires
        now_s + TICKET_LIFETIME_S <= u64::MAX,
    ensures
        r@ == ticket_spec(participant@, match_id@, now_s, secret@),
        forall|later: u64| #[trigger]
            verify_spec(r@, secret@, later) == if later <= now_s + TICKET_LIFETIME_S {
                Ok::<ClaimsView, InvalidTicket>(claims_spec(participant@, match_id@, now_s))
            } else {
                Err::<ClaimsView, InvalidTicket>(InvalidTicket::Expired)
            },
{
    let claims = claims_for(participant, match_id, now_s);
    sign_claims(&claims, secret).unwrap()
}

/// Verifies a ticket at `now_s`: opens it under the secret and decides on
/// what came out.
pub fn verify(token: &str, secret: &[u8], now_s: u64) -> (r: Result<Claims, InvalidTicket>)
    ensures
        verdict_view(r) == verify_spec(token@, secret@, now_s),
{
    accept(open_token(token, secret), now_s)
}

} // verus!
