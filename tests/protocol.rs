use rustboard::manager::SessionManager;
use rustboard::protocol::Connection;
use rustboard::protocol::Fanout;
use rustboard::protocol::OpHeader;
use rustboard::protocol::OpKind;
use rustboard::protocol::ProtocolError;
use rustboard::protocol::Reply;
use rustboard::protocol::UpdatePlan;
use rustboard::role::ClientRole;
use rustboard::session::Session;

fn op(kind: OpKind, id: u64) -> OpHeader {
    OpHeader { kind, id: Some(id) }
}

fn apply(conn: &Connection, s: &mut Session, h: OpHeader, assigned: Option<u64>) -> Fanout {
    match conn.plan_update(s, h) {
        UpdatePlan::Apply { .. } => conn.commit_update(s, h, assigned),
        UpdatePlan::Reject { error } => panic!("refused: {error:?}"),
    }
}

#[test]
fn create_join_add_echo() {
    let mut m = SessionManager::new(60, 1000);
    let (editor_token, _) = m.create_new_session_at("S".to_string(), 0);
    let mut s = m.take_session("S").unwrap();
    assert!(s.validate_token_at(&editor_token, ClientRole::Editor, 1));
    let mut a = Connection::new(ClientRole::Editor);
    let (reply, fanout) = a.on_join(&mut s, "A".into(), "Ann".into(), "#f00".into());
    match reply {
        Reply::Joined { client_id, clients } => {
            assert_eq!(client_id, "A");
            assert_eq!(clients.len(), 1);
            assert_eq!(clients[0].id, "A");
        }
        other => panic!("unexpected {other:?}"),
    }
    assert!(matches!(fanout, Fanout::ClientJoined { ref client } if client.id == "A"));
    let h = op(OpKind::AddRectangle, 7);
    match a.plan_update(&s, h) {
        UpdatePlan::Apply { target } => assert_eq!(target, None),
        other => panic!("unexpected {other:?}"),
    }
    let kappa = 0;
    match a.commit_update(&mut s, h, Some(kappa)) {
        Fanout::Update { client_id, seq, op_id, source_local_id } => {
            assert_eq!(client_id, "A");
            assert_eq!(seq, 1);
            assert_eq!(op_id, Some(kappa));
            assert_eq!(source_local_id, Some(7));
        }
        other => panic!("unexpected {other:?}"),
    }
}

#[test]
fn two_client_fan_out() {
    let mut s = Session::new_at("S".to_string(), 1000, 0);
    let mut a = Connection::new(ClientRole::Editor);
    let mut b = Connection::new(ClientRole::Editor);
    a.on_join(&mut s, "A".into(), "Ann".into(), "#f00".into());
    b.on_join(&mut s, "B".into(), "Bob".into(), "#00f".into());
    let kappa = 31;
    let first = apply(&a, &mut s, op(OpKind::AddRectangle, 5), Some(kappa));
    match first {
        Fanout::Update { seq, op_id, source_local_id, .. } => {
            assert_eq!(seq, 1);
            assert_eq!(op_id, Some(kappa));
            assert_eq!(source_local_id, Some(5));
        }
        other => panic!("unexpected {other:?}"),
    }
    let mv = op(OpKind::MoveRectangle, 5);
    match a.plan_update(&s, mv) {
        UpdatePlan::Apply { target } => assert_eq!(target, Some(kappa)),
        other => panic!("unexpected {other:?}"),
    }
    match a.commit_update(&mut s, mv, None) {
        Fanout::Update { seq, op_id, source_local_id, .. } => {
            assert_eq!(seq, 2);
            assert_eq!(op_id, Some(kappa));
            assert_eq!(source_local_id, None);
        }
        other => panic!("unexpected {other:?}"),
    }
    match b.plan_update(&s, mv) {
        UpdatePlan::Apply { target } => assert_eq!(target, Some(5)),
        other => panic!("unexpected {other:?}"),
    }
}

#[test]
fn viewer_gate() {
    let mut s = Session::new_at("S".to_string(), 1000, 0);
    let mut c = Connection::new(ClientRole::Viewer);
    c.on_join(&mut s, "C".into(), "Cy".into(), "#0f0".into());
    let before = s.operation_seq;
    match c.plan_update(&s, op(OpKind::DeleteRectangle, 3)) {
        UpdatePlan::Reject { error } => assert_eq!(error, ProtocolError::ReadOnly),
        other => panic!("unexpected {other:?}"),
    }
    match c.plan_update(&s, OpHeader { kind: OpKind::FullSync, id: None }) {
        UpdatePlan::Reject { error } => assert_eq!(error, ProtocolError::ReadOnly),
        other => panic!("unexpected {other:?}"),
    }
    assert_eq!(s.operation_seq, before);
    assert!(matches!(c.on_presence(), Ok(Fanout::Presence { ref client_id }) if client_id == "C"));
    assert!(matches!(c.on_ping(), Reply::Pong));
}

#[test]
fn updates_before_join_are_refused() {
    let s = Session::new_at("S".to_string(), 1000, 0);
    let c = Connection::new(ClientRole::Editor);
    match c.plan_update(&s, op(OpKind::MoveLine, 1)) {
        UpdatePlan::Reject { error } => assert_eq!(error, ProtocolError::NotJoined),
        other => panic!("unexpected {other:?}"),
    }
    assert_eq!(c.on_presence().unwrap_err(), ProtocolError::NotJoined);
    assert!(matches!(c.on_ping(), Reply::Error { error: ProtocolError::NotJoined }));
}

#[test]
fn exhausted_sequence_is_refused() {
    let mut s = Session::new_at("S".to_string(), 1000, 0);
    let mut a = Connection::new(ClientRole::Editor);
    a.on_join(&mut s, "A".into(), "Ann".into(), "#f00".into());
    s.operation_seq = u64::MAX;
    match a.plan_update(&s, op(OpKind::MoveLine, 1)) {
        UpdatePlan::Reject { error } => assert_eq!(error, ProtocolError::SequenceExhausted),
        other => panic!("unexpected {other:?}"),
    }
}

#[test]
fn full_sync_from_editor_is_applied_without_target() {
    let mut s = Session::new_at("S".to_string(), 1000, 0);
    let mut a = Connection::new(ClientRole::Editor);
    a.on_join(&mut s, "A".into(), "Ann".into(), "#f00".into());
    let h = OpHeader { kind: OpKind::FullSync, id: None };
    match apply(&a, &mut s, h, None) {
        Fanout::Update { seq, op_id, source_local_id, .. } => {
            assert_eq!(seq, 1);
            assert_eq!(op_id, None);
            assert_eq!(source_local_id, None);
        }
        other => panic!("unexpected {other:?}"),
    }
}

#[test]
fn closing_a_joined_connection_announces_the_leave() {
    let mut s = Session::new_at("S".to_string(), 1000, 0);
    let mut a = Connection::new(ClientRole::Editor);
    a.on_join(&mut s, "A".into(), "Ann".into(), "#f00".into());
    assert_eq!(s.clients.len(), 1);
    match a.on_close(&mut s) {
        Some(Fanout::ClientLeft { client_id }) => assert_eq!(client_id, "A"),
        other => panic!("unexpected {other:?}"),
    }
    assert!(s.clients.is_empty());
    assert!(a.client_id.is_none());
    assert!(a.on_close(&mut s).is_none());
}

#[test]
fn second_join_does_not_duplicate_the_roster_entry() {
    let mut s = Session::new_at("S".to_string(), 1000, 0);
    let mut a = Connection::new(ClientRole::Editor);
    a.on_join(&mut s, "A".into(), "Ann".into(), "#f00".into());
    a.on_join(&mut s, "A".into(), "Ann".into(), "#f00".into());
    assert_eq!(s.clients.len(), 1);
    assert_eq!(s.client_id_maps.len(), 1);
}

#[test]
fn add_kinds_are_recognised() {
    assert!(OpKind::AddText.is_add_operation());
    assert!(OpKind::AddPath.is_add_operation());
    assert!(!OpKind::MoveText.is_add_operation());
    assert!(!OpKind::FullSync.is_add_operation());
}
