use rps_duel::ticket::{accept, claims_for, issue, verify, Claims, InvalidTicket, TICKET_LIFETIME_S};

const SECRET: &[u8] = b"dev-secret-change-me";
const NOW: u64 = 1_700_000_000;

#[test]
fn ticket_lives_ten_minutes() {
    assert_eq!(TICKET_LIFETIME_S, 600);
    let c = claims_for("did:plc:a", "demo-a-b", NOW);
    assert_eq!(c.sub, "did:plc:a");
    assert_eq!(c.mid, "demo-a-b");
    assert_eq!(c.iat, NOW);
    assert_eq!(c.exp, NOW + 600);
}

#[test]
fn issued_ticket_verifies_to_its_claims() {
    let t = issue("did:plc:a", "demo-a-b", NOW, SECRET);
    assert_ne!(t, "did:plc:a");
    assert_eq!(t.split('.').count(), 3);
    let c = verify(&t, SECRET, NOW).expect("valid");
    assert_eq!(c.sub, "did:plc:a");
    assert_eq!(c.mid, "demo-a-b");
    assert_eq!(c.iat, NOW);
    assert_eq!(c.exp, NOW + 600);
}

#[test]
fn ticket_is_refused_once_its_ten_minutes_have_passed() {
    let t = issue("did:plc:a", "demo-a-b", NOW, SECRET);
    assert!(verify(&t, SECRET, NOW + 599).is_ok());
    // Valid at the last instant of its window, expired one second later.
    assert!(verify(&t, SECRET, NOW + 600).is_ok());
    assert_eq!(verify(&t, SECRET, NOW + 601).err(), Some(InvalidTicket::Expired));
    assert_eq!(verify(&t, SECRET, NOW + 660).err(), Some(InvalidTicket::Expired));
    assert_eq!(verify(&t, SECRET, u64::MAX).err(), Some(InvalidTicket::Expired));
}

#[test]
fn issuing_is_deterministic() {
    let a = issue("did:plc:a", "demo-a-b", NOW, SECRET);
    let b = issue("did:plc:a", "demo-a-b", NOW, SECRET);
    assert_eq!(a, b);
    let other_match = issue("did:plc:a", "demo-a-c", NOW, SECRET);
    assert_ne!(a, other_match);
    let other_time = issue("did:plc:a", "demo-a-b", NOW + 1, SECRET);
    assert_ne!(a, other_time);
}

#[test]
fn signing_succeeds_on_every_kind_of_input() {
    for (who, mid, secret) in [
        ("", "", &b""[..]),
        ("did:plc:żółw", "m\"\\\n", &b"\x00\xff"[..]),
        ("a", "b", &[7u8; 300][..]),
    ] {
        let t = issue(who, mid, 0, secret);
        let c = verify(&t, secret, 600).expect("valid");
        assert_eq!(c.sub, who);
        assert_eq!(c.mid, mid);
        assert_eq!((c.iat, c.exp), (0, 600));
    }
    let late = issue("a", "b", u64::MAX - 600, SECRET);
    assert_eq!(verify(&late, SECRET, u64::MAX).unwrap().exp, u64::MAX);
}

#[test]
fn ticket_is_bound_to_its_match() {
    let t = issue("did:plc:a", "match-A", NOW, SECRET);
    let c = verify(&t, SECRET, NOW).unwrap();
    assert_eq!(c.mid, "match-A");
    assert_ne!(c.mid, "match-B");
}

#[test]
fn ticket_under_another_secret_is_rejected() {
    let t = issue("did:plc:a", "demo-a-b", NOW, SECRET);
    assert_eq!(verify(&t, b"another-secret", NOW).err(), Some(InvalidTicket::Rejected));
}

#[test]
fn malformed_and_tampered_tickets_are_rejected() {
    assert_eq!(verify("", SECRET, NOW).err(), Some(InvalidTicket::Rejected));
    assert_eq!(verify("a.jwt.token", SECRET, NOW).err(), Some(InvalidTicket::Rejected));
    assert_eq!(verify("not a token at all", SECRET, NOW).err(), Some(InvalidTicket::Rejected));
    let t = issue("did:plc:a", "demo-a-b", NOW, SECRET);
    let mut tampered = t.clone();
    let last = tampered.pop().unwrap();
    tampered.push(if last == 'A' { 'B' } else { 'A' });
    assert_eq!(verify(&tampered, SECRET, NOW).err(), Some(InvalidTicket::Rejected));
    let parts: Vec<&str> = t.split('.').collect();
    let swapped = format!("{}.{}.{}", parts[0], parts[1].to_uppercase(), parts[2]);
    assert_eq!(verify(&swapped, SECRET, NOW).err(), Some(InvalidTicket::Rejected));
}

#[test]
fn deciding_on_opened_claims() {
    let claims = |exp: u64| Claims { sub: "s".into(), mid: "m".into(), exp, iat: 0 };
    assert_eq!(accept(None, 5).err(), Some(InvalidTicket::Rejected));
    let ok = accept(Some(claims(100)), 100).expect("valid at its expiry");
    assert_eq!((ok.sub.as_str(), ok.mid.as_str(), ok.exp, ok.iat), ("s", "m", 100, 0));
    assert!(accept(Some(claims(100)), 0).is_ok());
    assert!(accept(Some(claims(100)), 99).is_ok());
    assert_eq!(accept(Some(claims(100)), 101).err(), Some(InvalidTicket::Expired));
    assert_eq!(accept(Some(claims(100)), 160).err(), Some(InvalidTicket::Expired));
    assert!(accept(Some(claims(0)), 0).is_ok());
    assert_eq!(accept(Some(claims(0)), 1).err(), Some(InvalidTicket::Expired));
    assert!(accept(Some(claims(u64::MAX)), u64::MAX).is_ok());
    assert!(accept(Some(claims(u64::MAX - 1)), u64::MAX).is_err());
}
