use rustboard::manager::AdminError;
use rustboard::manager::SessionManager;
use rustboard::role::ClientRole;

fn catalog() -> (SessionManager, String, String) {
    let mut m = SessionManager::new(60, 1000);
    let (e, v) = m.create_new_session_at("S".to_string(), 0);
    (m, e, v)
}

#[test]
fn connection_attempts_are_decided_with_status_codes() {
    let (m, e, v) = catalog();
    assert_eq!(m.authorize_connection_at("S", None, None, 1), Err(AdminError::MissingToken));
    assert_eq!(m.authorize_connection_at("S", Some(""), None, 1), Err(AdminError::MissingToken));
    assert_eq!(m.authorize_connection_at("T", Some(&e), None, 1), Err(AdminError::NotFound));
    assert_eq!(m.authorize_connection_at("S", Some(&e), None, 1), Ok(ClientRole::Editor));
    assert_eq!(m.authorize_connection_at("S", Some(&v), Some("viewer"), 1), Ok(ClientRole::Viewer));
    assert_eq!(m.authorize_connection_at("S", Some(&v), None, 1), Err(AdminError::Forbidden));
    assert_eq!(m.authorize_connection_at("S", Some(&e), None, 5000), Err(AdminError::Forbidden));
    assert_eq!(AdminError::MissingToken.status_code(), 401);
    assert_eq!(AdminError::Forbidden.status_code(), 403);
    assert_eq!(AdminError::NotFound.status_code(), 404);
    assert_eq!(AdminError::BadRole.status_code(), 400);
}

#[test]
fn lookups_do_not_leak_existence() {
    let (m, e, _) = catalog();
    assert_eq!(m.lookup_at("T", Some(&e), 1), (false, false));
    assert_eq!(m.lookup_at("S", None, 1), (true, false));
    assert_eq!(m.lookup_at("S", Some(""), 1), (true, false));
    assert_eq!(m.lookup_at("S", Some("junk"), 1), (true, false));
    assert_eq!(m.lookup_at("S", Some(&e), 1), (true, true));
}

#[test]
fn invite_token_expiry_through_the_catalog() {
    let (m, e, _) = catalog();
    let now = 100;
    let t = m.invite_with_editor_at("S", &e, "viewer", Some(60), now).unwrap();
    assert_eq!(m.authorize_connection_at("S", Some(&t), Some("viewer"), now + 30), Ok(ClientRole::Viewer));
    assert_eq!(m.authorize_connection_at("S", Some(&t), Some("viewer"), now + 61), Err(AdminError::Forbidden));
    let short = m.invite_with_editor_at("S", &e, "viewer", Some(1), now).unwrap();
    assert!(m.lookup_at("S", Some(&short), now + 59).1);
    assert!(!m.lookup_at("S", Some(&short), now + 60).1);
    assert_eq!(m.invite_with_editor_at("S", &e, "owner", None, now), Err(AdminError::BadRole));
    assert_eq!(m.invite_with_editor_at("S", "bad", "viewer", None, now), Err(AdminError::Forbidden));
    assert_eq!(m.invite_with_editor_at("T", &e, "viewer", None, now), Err(AdminError::NotFound));
}

#[test]
fn rotation_through_the_catalog_refuses_the_old_token() {
    let (mut m, e, _) = catalog();
    let next = m.rotate_with_editor_at("S", &e, "editor", 10).unwrap();
    let session = m.get_session("S").unwrap();
    assert_eq!(session.revoked_token_ids.len(), 1);
    assert_eq!(m.authorize_connection_at("S", Some(&e), None, 11), Err(AdminError::Forbidden));
    assert_eq!(m.authorize_connection_at("S", Some(&next), None, 11), Ok(ClientRole::Editor));
    assert_eq!(m.rotate_with_editor_at("S", &e, "editor", 12), Err(AdminError::Forbidden));
    assert_eq!(m.rotate_with_editor_at("S", &next, "admin", 12), Err(AdminError::BadRole));
    assert_eq!(m.rotate_with_editor_at("T", &next, "viewer", 12), Err(AdminError::NotFound));
    assert!(m.rotate_with_editor_at("S", &next, "viewer", 12).is_ok());
}

#[test]
fn revocation_through_the_catalog() {
    let (mut m, e, v) = catalog();
    assert_eq!(m.revoke_with_editor_at("S", &v, &v, 1), Err(AdminError::Forbidden));
    assert_eq!(m.revoke_with_editor_at("T", &e, &v, 1), Err(AdminError::NotFound));
    assert_eq!(m.revoke_with_editor_at("S", &e, &v, 1), Ok(true));
    assert_eq!(m.revoke_with_editor_at("S", &e, &v, 1), Ok(false));
    assert_eq!(m.revoke_with_editor_at("S", &e, "junk", 1), Ok(false));
    assert_eq!(m.authorize_connection_at("S", Some(&v), Some("viewer"), 2), Err(AdminError::Forbidden));
}
