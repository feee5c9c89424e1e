use rustboard::manager::SessionManager;
use rustboard::role::ClientRole;
use rustboard::session::Session;
use rustboard::store::PersistedSession;
use rustboard::store::PersistedSessionStore;

fn session() -> Session {
    Session::new_at("S".to_string(), 1000, 100)
}

#[test]
fn adding_a_client_twice_keeps_sizes() {
    let mut s = session();
    s.add_client("A".into(), "Ann".into(), "#f00".into(), ClientRole::Editor);
    let clients = s.clients.len();
    let maps = s.client_id_maps.len();
    s.map_client_local_id("A", 7, 70);
    s.add_client("A".into(), "Ann 2".into(), "#0f0".into(), ClientRole::Viewer);
    assert_eq!(s.clients.len(), clients);
    assert_eq!(s.client_id_maps.len(), maps);
    assert_eq!(clients, 1);
    assert_eq!(maps, 1);
    assert_eq!(s.clients[0].name, "Ann 2");
    assert_eq!(s.clients[0].role, ClientRole::Viewer);
    assert_eq!(s.resolve_client_id("A", 7), 70);
}

#[test]
fn removing_a_client_drops_roster_entry_and_id_map() {
    let mut s = session();
    s.add_client("A".into(), "Ann".into(), "#f00".into(), ClientRole::Editor);
    s.add_client("B".into(), "Bob".into(), "#00f".into(), ClientRole::Viewer);
    s.map_client_local_id("A", 1, 10);
    s.remove_client("A");
    assert_eq!(s.clients.len(), 1);
    assert_eq!(s.clients[0].id, "B");
    assert_eq!(s.client_id_maps.len(), 1);
    assert_eq!(s.resolve_client_id("A", 1), 1);
    s.remove_client("nobody");
    assert_eq!(s.get_clients().len(), 1);
}

#[test]
fn ids_resolve_through_the_client_map_only() {
    let mut s = session();
    s.add_client("A".into(), "Ann".into(), "#f00".into(), ClientRole::Editor);
    s.add_client("B".into(), "Bob".into(), "#00f".into(), ClientRole::Editor);
    s.map_client_local_id("A", 5, 42);
    assert_eq!(s.resolve_client_id("A", 5), 42);
    assert_eq!(s.resolve_client_id("A", 6), 6);
    assert_eq!(s.resolve_client_id("B", 5), 5);
    s.map_client_local_id("A", 5, 43);
    assert_eq!(s.resolve_client_id("A", 5), 43);
}

#[test]
fn sequence_numbers_are_consecutive() {
    let mut s = session();
    let a = s.next_operation_seq();
    let b = s.next_operation_seq();
    let c = s.next_operation_seq();
    assert_eq!((a, b, c), (1, 2, 3));
    assert_eq!(s.operation_seq, 3);
}

#[test]
fn only_editors_can_edit() {
    let mut s = session();
    s.add_client("A".into(), "Ann".into(), "#f00".into(), ClientRole::Editor);
    s.add_client("C".into(), "Cy".into(), "#0f0".into(), ClientRole::Viewer);
    assert!(s.can_client_edit("A"));
    assert!(!s.can_client_edit("C"));
    assert!(!s.can_client_edit("Z"));
}

#[test]
fn touching_records_activity() {
    let mut s = session();
    s.touch_at(12345);
    assert_eq!(s.last_active_at, 12345);
    assert_eq!(s.created_at, 100);
}

#[test]
fn persisted_session_reads_back_equal() {
    let mut s = session();
    let t = s.issue_token_at(ClientRole::Viewer, None, 100);
    assert!(s.revoke_token(&t));
    let p = s.to_persisted("{\"doc\":1}".to_string());
    assert_eq!(p.schema_version, Some(2));
    assert_eq!(p.document_schema_version, Some(1));
    assert_eq!(p.document, "{\"doc\":1}");
    let r = Session::from_persisted(p);
    assert_eq!(r.id, s.id);
    assert_eq!(r.editor_token, s.editor_token);
    assert_eq!(r.viewer_token, s.viewer_token);
    assert_eq!(r.token_secret, s.token_secret);
    assert_eq!(r.token_ttl_secs, s.token_ttl_secs);
    assert_eq!(r.revoked_token_ids, s.revoked_token_ids);
    assert_eq!(r.created_at, s.created_at);
    assert_eq!(r.last_active_at, s.last_active_at);
    assert!(!r.validate_token_at(&t, ClientRole::Viewer, 200));
    assert!(r.validate_token_at(&r.editor_token.clone(), ClientRole::Editor, 200));
}

fn old_layout_session(id: &str) -> PersistedSession {
    PersistedSession {
        schema_version: None,
        id: id.to_string(),
        editor_token: "e".to_string(),
        viewer_token: "v".to_string(),
        token_secret: None,
        token_ttl_secs: None,
        revoked_token_ids: None,
        allow_legacy_tokens: None,
        document_schema_version: None,
        document: String::new(),
        created_at: 1,
        last_active_at: 2,
    }
}

#[test]
fn old_layout_session_gets_defaults() {
    let r = Session::from_persisted(old_layout_session("old"));
    assert!(r.allow_legacy_tokens);
    assert_eq!(r.token_ttl_secs, 1_209_600);
    assert_eq!(r.token_secret.chars().count(), 72);
    assert!(r.revoked_token_ids.is_empty());
    assert!(r.validate_token_at("e", ClientRole::Editor, 5));
    assert!(r.validate_token_at("v", ClientRole::Viewer, 5));
}

#[test]
fn catalog_round_trips_through_its_store() {
    let mut m = SessionManager::new(60, 1000);
    m.create_new_session_at("one".to_string(), 10);
    m.create_new_session_at("two".to_string(), 20);
    let editor_two = m.get_session("two").unwrap().editor_token.clone();
    assert!(m.revoke_token("two", &editor_two));
    let docs = vec!["d1".to_string(), "d2".to_string()];
    let store = m.to_store(&docs);
    assert_eq!(store.version, Some(2));
    let (loaded, documents) = SessionManager::new_with_persistence(Some(store), 60, 1000);
    assert_eq!(loaded.session_count(), 2);
    assert_eq!(documents.len(), 2);
    for (i, d) in documents.iter().enumerate() {
        assert_eq!(d.session_id, m.sessions[i].id);
        assert_eq!(d.document, docs[i]);
        let a = &loaded.sessions[i];
        let b = &m.sessions[i];
        assert_eq!(a.id, b.id);
        assert_eq!(a.editor_token, b.editor_token);
        assert_eq!(a.viewer_token, b.viewer_token);
        assert_eq!(a.revoked_token_ids, b.revoked_token_ids);
        assert_eq!(a.created_at, b.created_at);
        assert_eq!(a.last_active_at, b.last_active_at);
    }
    let two = loaded.get_session("two").unwrap();
    assert!(!two.validate_token_at(&editor_two, ClientRole::Editor, 30));
}

#[test]
fn stores_of_unknown_layout_are_ignored() {
    let store = PersistedSessionStore { version: Some(3), sessions: vec![old_layout_session("x")] };
    let (m, docs) = SessionManager::new_with_persistence(Some(store), 60, 1000);
    assert_eq!(m.session_count(), 0);
    assert!(docs.is_empty());
    let (m, _) = SessionManager::new_with_persistence(None, 60, 1000);
    assert_eq!(m.session_count(), 0);
    let store = PersistedSessionStore { version: None, sessions: vec![old_layout_session("x")] };
    let (m, docs) = SessionManager::new_with_persistence(Some(store), 60, 1000);
    assert_eq!(m.session_count(), 1);
    assert_eq!(docs.len(), 1);
    assert!(m.get_session("x").is_some());
}

#[test]
fn duplicate_ids_in_a_store_keep_the_last() {
    let mut second = old_layout_session("x");
    second.editor_token = "e2".to_string();
    let store = PersistedSessionStore { version: Some(1), sessions: vec![old_layout_session("x"), second] };
    let (m, docs) = SessionManager::new_with_persistence(Some(store), 60, 1000);
    assert_eq!(m.session_count(), 1);
    assert_eq!(docs.len(), 2);
    assert_eq!(m.get_session("x").unwrap().editor_token, "e2");
}

#[test]
fn expired_idle_sessions_are_cleaned_up() {
    let mut m = SessionManager::new(60, 1000);
    m.create_new_session_at("idle".to_string(), 0);
    m.create_new_session_at("busy".to_string(), 0);
    m.create_new_session_at("fresh".to_string(), 100);
    let mut busy = m.take_session("busy").unwrap();
    busy.add_client("A".into(), "Ann".into(), "#f00".into(), ClientRole::Editor);
    busy.touch_at(0);
    m.create_session(busy);
    assert_eq!(m.cleanup_expired_sessions_at(59), 0);
    assert_eq!(m.cleanup_expired_sessions_at(120), 1);
    assert!(m.get_session("idle").is_none());
    assert!(m.get_session("busy").is_some());
    assert!(m.get_session("fresh").is_some());
    assert_eq!(m.cleanup_expired_sessions_at(160), 1);
    assert_eq!(m.session_count(), 1);
}

#[test]
fn catalog_admin_operations() {
    let mut m = SessionManager::new(60, 1000);
    let (editor, viewer) = m.create_new_session_at("s".to_string(), 10);
    assert!(m.get_session("s").unwrap().validate_token_at(&editor, ClientRole::Editor, 11));
    assert!(m.get_session("s").unwrap().validate_token_at(&viewer, ClientRole::Viewer, 11));
    assert!(m.rotate_viewer_token_at("missing", 10).is_none());
    assert!(m.rotate_editor_token_at("missing", 10).is_none());
    assert!(!m.revoke_token("missing", &editor));
    assert!(m.issue_invite_token_at("missing", ClientRole::Viewer, None, 10).is_none());
    let invite = m.issue_invite_token_at("s", ClientRole::Viewer, Some(60), 10).unwrap();
    assert!(m.get_session("s").unwrap().validate_token_at(&invite, ClientRole::Viewer, 69));
    assert!(!m.get_session("s").unwrap().validate_token_at(&invite, ClientRole::Viewer, 70));
    let rotated = m.rotate_editor_token_at("s", 12).unwrap();
    let s = m.get_session("s").unwrap();
    assert!(!s.validate_token_at(&editor, ClientRole::Editor, 13));
    assert!(s.validate_token_at(&rotated, ClientRole::Editor, 13));
    let rotated_viewer = m.rotate_viewer_token_at("s", 12).unwrap();
    assert!(m.get_session("s").unwrap().validate_token_at(&rotated_viewer, ClientRole::Viewer, 13));
    m.mark_session_active_at("s", 77);
    assert_eq!(m.get_session("s").unwrap().last_active_at, 77);
    m.remove_session("s");
    assert_eq!(m.session_count(), 0);
    m.create_new_session("t".to_string());
    m.mark_session_active("t");
    assert_eq!(m.cleanup_expired_sessions(), 0);
    assert!(m.rotate_editor_token_at("t", 0).is_some());
}

#[test]
fn catalog_operations_that_read_the_clock() {
    let mut m = SessionManager::new(60, 1000);
    let (editor, _) = m.create_new_session("c".to_string());
    assert!(m.rotate_viewer_token("missing").is_none());
    assert!(m.rotate_editor_token("missing").is_none());
    assert!(m.issue_invite_token("missing", ClientRole::Editor, None).is_none());
    let invite = m.issue_invite_token("c", ClientRole::Editor, Some(600)).unwrap();
    assert!(m.get_session("c").unwrap().validate_token_for_role(&invite, ClientRole::Editor));
    let viewer = m.rotate_viewer_token("c").unwrap();
    assert!(m.get_session("c").unwrap().validate_any_token(&viewer));
    let next = m.rotate_editor_token("c").unwrap();
    assert!(!m.get_session("c").unwrap().validate_token_for_role(&editor, ClientRole::Editor));
    assert!(m.get_session("c").unwrap().validate_token_for_role(&next, ClientRole::Editor));
}
