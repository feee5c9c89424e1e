use rustboard::claims::decode_claims;
use rustboard::claims::encode_claims;
use rustboard::claims::TokenClaims;
use rustboard::role::ClientRole;
use rustboard::session::Session;
use rustboard::token::read_token;
use rustboard::token::sign_claims;

const SECRET: &str = "0123456789abcdef0123456789abcdef";

fn sample_claims() -> TokenClaims {
    TokenClaims {
        sid: b"S".to_vec(),
        role: ClientRole::Editor,
        exp: 100,
        jti: b"j".to_vec(),
        version: 2,
    }
}

#[test]
fn claims_json_has_the_fixed_layout() {
    let json = encode_claims(&sample_claims());
    assert_eq!(
        String::from_utf8(json).unwrap(),
        "{\"sid\":\"S\",\"role\":\"editor\",\"exp\":100,\"jti\":\"j\",\"version\":2}"
    );
}

#[test]
fn claims_json_escapes_quotes_backslashes_and_controls() {
    let c = TokenClaims {
        sid: b"a\"b\\c\nd".to_vec(),
        role: ClientRole::Viewer,
        exp: 0,
        jti: b"x".to_vec(),
        version: 1,
    };
    let json = String::from_utf8(encode_claims(&c)).unwrap();
    assert_eq!(
        json,
        "{\"sid\":\"a\\\"b\\\\c\\u000ad\",\"role\":\"viewer\",\"exp\":0,\"jti\":\"x\",\"version\":1}"
    );
    let back = decode_claims(json.as_bytes()).unwrap();
    assert_eq!(back.sid, c.sid);
    assert_eq!(back.role, ClientRole::Viewer);
    assert_eq!(back.exp, 0);
    assert_eq!(back.version, 1);
}

#[test]
fn claims_round_trip_with_large_numbers() {
    let c = TokenClaims {
        sid: "sess\u{e9}".as_bytes().to_vec(),
        role: ClientRole::Editor,
        exp: u64::MAX,
        jti: b"id-1".to_vec(),
        version: u32::MAX,
    };
    let back = decode_claims(&encode_claims(&c)).unwrap();
    assert_eq!(back.sid, c.sid);
    assert_eq!(back.exp, u64::MAX);
    assert_eq!(back.jti, c.jti);
    assert_eq!(back.version, u32::MAX);
}

#[test]
fn malformed_claims_are_refused() {
    assert!(decode_claims(b"").is_none());
    assert!(decode_claims(b"{\"sid\":\"S\"}").is_none());
    assert!(decode_claims(
        b"{\"sid\":\"S\",\"role\":\"owner\",\"exp\":1,\"jti\":\"j\",\"version\":2}"
    )
    .is_none());
    assert!(decode_claims(
        b"{\"sid\":\"S\",\"role\":\"editor\",\"exp\":18446744073709551616,\"jti\":\"j\",\"version\":2}"
    )
    .is_none());
    assert!(decode_claims(
        b"{\"sid\":\"S\",\"role\":\"editor\",\"exp\":1,\"jti\":\"j\",\"version\":4294967296}"
    )
    .is_none());
    assert!(decode_claims(
        b"{\"sid\":\"S\",\"role\":\"editor\",\"exp\":1,\"jti\":\"j\",\"version\":2} "
    )
    .is_none());
}

#[test]
fn signed_token_has_the_expected_text() {
    let t = sign_claims(SECRET, &sample_claims());
    assert_eq!(
        t,
        "eyJzaWQiOiJTIiwicm9sZSI6ImVkaXRvciIsImV4cCI6MTAwLCJqdGkiOiJqIiwidmVyc2lvbiI6Mn0.3Ucsl1Z4IYbww93z7_aOFD4K3K1AWA2SyMlMaPQVZc0"
    );
    assert!(t.starts_with("eyJzaWQiOi"));
}

#[test]
fn signed_token_reads_back() {
    let t = sign_claims(SECRET, &sample_claims());
    let c = read_token(SECRET, &t).unwrap();
    assert_eq!(c.sid, b"S".to_vec());
    assert_eq!(c.role, ClientRole::Editor);
    assert_eq!(c.exp, 100);
    assert_eq!(c.jti, b"j".to_vec());
    assert_eq!(c.version, 2);
}

#[test]
fn tampered_or_foreign_tokens_are_refused() {
    let t = sign_claims(SECRET, &sample_claims());
    assert!(read_token("another secret of sufficient len", &t).is_none());
    let (payload, sig) = t.split_once('.').unwrap();
    let mut bad_sig = sig.to_string();
    bad_sig.replace_range(0..1, if sig.starts_with('A') { "B" } else { "A" });
    assert!(read_token(SECRET, &format!("{payload}.{bad_sig}")).is_none());
    assert!(read_token(SECRET, &format!("{t}.x")).is_none());
    assert!(read_token(SECRET, payload).is_none());
    assert!(read_token(SECRET, "not-a-token").is_none());
    assert!(read_token(SECRET, "a.b").is_none());
    assert!(read_token(SECRET, "").is_none());
}

#[test]
fn issued_token_validates_until_expiry() {
    let s = Session::new_at("S".to_string(), 1000, 500);
    let t = s.issue_token_at(ClientRole::Viewer, Some(60), 1000);
    assert!(s.validate_token_at(&t, ClientRole::Viewer, 1000));
    assert!(s.validate_token_at(&t, ClientRole::Viewer, 1030));
    assert!(s.validate_token_at(&t, ClientRole::Viewer, 1059));
    assert!(!s.validate_token_at(&t, ClientRole::Viewer, 1060));
    assert!(!s.validate_token_at(&t, ClientRole::Viewer, 1061));
    assert!(!s.validate_token_at(&t, ClientRole::Editor, 1030));
}

#[test]
fn invite_token_expiry_scenario() {
    let s = Session::new_at("S".to_string(), 1000, 0);
    let now = 10_000;
    let t = s.issue_token_at(ClientRole::Editor, Some(60), now);
    assert!(s.validate_token_at(&t, ClientRole::Editor, now + 30));
    assert!(!s.validate_token_at(&t, ClientRole::Editor, now + 61));
    assert!(!s.validate_token_at(&t, ClientRole::Viewer, now + 61));
}

#[test]
fn editor_token_covers_viewing_but_viewer_token_does_not_cover_editing() {
    let s = Session::new_at("S".to_string(), 1000, 0);
    let e = s.editor_token.clone();
    let v = s.viewer_token.clone();
    assert!(s.validate_token_at(&e, ClientRole::Editor, 10));
    assert!(s.validate_token_at(&e, ClientRole::Viewer, 10));
    assert!(s.validate_token_at(&v, ClientRole::Viewer, 10));
    assert!(!s.validate_token_at(&v, ClientRole::Editor, 10));
    assert!(!s.validate_token_at(&e, ClientRole::Editor, 1000));
}

#[test]
fn token_of_another_session_is_refused() {
    let a = Session::new_at("A".to_string(), 1000, 0);
    let mut b = Session::new_with_timestamps(
        "B".to_string(),
        a.token_secret.clone(),
        1000,
        String::new(),
        String::new(),
        false,
        Vec::new(),
        0,
        0,
    );
    assert!(!b.validate_token_at(&a.editor_token, ClientRole::Viewer, 10));
    assert!(!b.revoke_token(&a.editor_token));
}

#[test]
fn revoked_token_is_refused() {
    let mut s = Session::new_at("S".to_string(), 1000, 0);
    let t = s.issue_token_at(ClientRole::Editor, None, 0);
    assert!(s.validate_token_at(&t, ClientRole::Editor, 5));
    assert!(s.revoke_token(&t));
    assert!(!s.validate_token_at(&t, ClientRole::Editor, 5));
    assert!(!s.validate_token_at(&t, ClientRole::Viewer, 5));
    assert!(!s.revoke_token(&t));
    assert_eq!(s.revoked_token_ids.len(), 1);
    assert!(s.validate_token_at(&s.editor_token.clone(), ClientRole::Editor, 5));
}

#[test]
fn rotating_the_editor_token_revokes_the_previous_one() {
    let mut s = Session::new_at("S".to_string(), 1000, 0);
    let previous = s.editor_token.clone();
    let next = s.rotate_editor_token_at(10);
    assert_eq!(s.editor_token, next);
    assert_ne!(previous, next);
    assert_eq!(s.revoked_token_ids.len(), 1);
    assert!(!s.validate_token_at(&previous, ClientRole::Editor, 20));
    assert!(!s.validate_token_at(&previous, ClientRole::Viewer, 20));
    assert!(s.validate_token_at(&next, ClientRole::Editor, 20));
}

#[test]
fn rotating_the_viewer_token_revokes_the_previous_one() {
    let mut s = Session::new_at("S".to_string(), 1000, 0);
    let previous = s.viewer_token.clone();
    let next = s.rotate_viewer_token_at(10);
    assert_eq!(s.viewer_token, next);
    assert!(!s.validate_token_at(&previous, ClientRole::Viewer, 20));
    assert!(s.validate_token_at(&next, ClientRole::Viewer, 20));
    assert!(!s.validate_token_at(&next, ClientRole::Editor, 20));
}

#[test]
fn unsigned_tokens_count_only_where_allowed() {
    let mut s = Session::new_with_timestamps(
        "S".to_string(),
        "0123456789abcdef0123456789abcdef".to_string(),
        1000,
        "editor-opaque".to_string(),
        "viewer-opaque".to_string(),
        true,
        Vec::new(),
        0,
        0,
    );
    assert!(s.validate_token_at("editor-opaque", ClientRole::Editor, 1));
    assert!(s.validate_token_at("editor-opaque", ClientRole::Viewer, 1));
    assert!(s.validate_token_at("viewer-opaque", ClientRole::Viewer, 1));
    assert!(!s.validate_token_at("viewer-opaque", ClientRole::Editor, 1));
    assert!(!s.validate_token_at("other", ClientRole::Viewer, 1));
    assert!(s.revoke_token("viewer-opaque"));
    assert_eq!(s.revoked_token_ids, vec!["legacy:viewer-opaque".to_string()]);
    assert!(!s.validate_token_at("viewer-opaque", ClientRole::Viewer, 1));
    assert!(!s.revoke_token("other"));
    s.allow_legacy_tokens = false;
    assert!(!s.validate_token_at("editor-opaque", ClientRole::Editor, 1));
}

#[test]
fn new_session_has_a_long_secret_and_signed_tokens() {
    let s = Session::new("S".to_string(), 1000);
    assert_eq!(s.token_secret.chars().count(), 72);
    assert!(!s.allow_legacy_tokens);
    assert_eq!(s.operation_seq, 0);
    assert!(s.validate_token_for_role(&s.editor_token, ClientRole::Editor));
    assert!(s.validate_any_token(&s.viewer_token));
    assert!(!s.validate_token_for_role(&s.viewer_token, ClientRole::Editor));
    let t = s.issue_token_for_role(ClientRole::Viewer, None);
    assert!(s.validate_any_token(&t));
}
