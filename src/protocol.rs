//! What one connection does with each message it receives: joining,
//! operations on the document, presence, and leaving. The caller performs
//! the effects: it sends direct replies to this connection only, fans
//! broadcasts out to every connection of the session, and applies planned
//! operations to the document.

use crate::role::ClientInfo;
use crate::role::ClientRole;
use crate::session::maps_have;
use crate::session::resolve_in;
use crate::session::roster_has;
use crate::session::roster_insert;
use crate::session::roster_pos;
use crate::session::roster_remove;
use crate::session::Session;
use vstd::prelude::*;

verus! {

/// The kinds of document operation a client can send.
#[derive(Clone, Copy, Debug, PartialEq, Eq, Structural)]
pub enum OpKind {
    AddRectangle,
    MoveRectangle,
    ResizeRectangle,
    DeleteRectangle,
    AddEllipse,
    MoveEllipse,
    ResizeEllipse,
    DeleteEllipse,
    AddDiamond,
    MoveDiamond,
    ResizeDiamond,
    DeleteDiamond,
    AddLine,
    MoveLine,
    DeleteLine,
    AddArrow,
    MoveArrow,
    DeleteArrow,
    AddPath,
    MovePath,
    SetPathPoints,
    DeletePath,
    AddImage,
    MoveImage,
    ResizeImage,
    DeleteImage,
    AddText,
    MoveText,
    ResizeText,
    UpdateText,
    DeleteText,
    SetRectangleStyle,
    SetEllipseStyle,
    SetDiamondStyle,
    SetLineStyle,
    SetArrowStyle,
    SetPathStyle,
    SetImageStyle,
    SetTextStyle,
    BringToFront,
    BringForward,
    SendBackward,
    SendToBack,
    SetElementLock,
    FullSync,
}

/// Kinds that add an element under a client-chosen local id.
pub open spec fn is_add(k: OpKind) -> bool {
    k == OpKind::AddRectangle || k == OpKind::AddEllipse || k == OpKind::AddDiamond || k == OpKind::AddLine || k == OpKind::AddArrow || k == OpKind::AddPath || k == OpKind::AddImage || k == OpKind::AddText
}

impl OpKind {
    /// Whether this kind adds an element.
    pub fn is_add_operation(self) -> (r: bool)
        ensures
            r == is_add(self),
    {
        match self {
            OpKind::AddRectangle => true,
            OpKind::AddEllipse => true,
            OpKind::AddDiamond => true,
            OpKind::AddLine => true,
            OpKind::AddArrow => true,
            OpKind::AddPath => true,
            OpKind::AddImage => true,
            OpKind::AddText => true,
            _ => false,
        }
    }
}

/// What the protocol reads of an operation: its kind and the element id
/// it carries (every kind but `FullSync` carries one).
#[derive(Clone, Copy, Debug, PartialEq, Eq, Structural)]
pub struct OpHeader {
    pub kind: OpKind,
    pub id: Option<u64>,
}

/// Why a message was refused.
#[derive(Clone, Copy, Debug, PartialEq, Eq, Structural)]
pub enum ProtocolError {
    /// An update came before any `Join`.
    NotJoined,
    /// An update came from a client the roster does not record as an editor.
    ReadOnly,
    /// The session has drawn its last sequence number.
    SequenceExhausted,
    /// The frame was not a message.
    Invalid,
}

/// A reply sent to this connection only.
#[derive(Debug)]
pub enum Reply {
    Joined { client_id: String, clients: Vec<ClientInfo> },
    Pong,
    Error { error: ProtocolError },
}

/// A message sent to every connection of the session.
#[derive(Debug)]
pub enum Fanout {
    ClientJoined { client: ClientInfo },
    ClientLeft { client_id: String },
    Update { client_id: String, seq: u64, op_id: Option<u64>, source_local_id: Option<u64> },
    Presence { client_id: String },
}

/// What to do with an update.
#[derive(Debug)]
pub enum UpdatePlan {
    /// Refuse it with a direct error; nothing is applied or broadcast.
    Reject { error: ProtocolError },
    /// Apply it to the document, addressing element `target` (for an
    /// addition, the document picks the id; for `FullSync`, none).
    Apply { target: Option<u64> },
}

/// One connection's state: the role it was admitted with, and the client
/// id it joined as, once it has.
#[derive(Debug)]
pub struct Connection {
    pub role: ClientRole,
    pub client_id: Option<String>,
}

/// Whether the roster records client `id` as an editor.
pub open spec fn roster_editor(s: Session, id: Seq<char>) -> bool {
    roster_has(s.clients@, id) && s.clients@[roster_pos(s.clients@, id)].role == ClientRole::Editor
}

/// The element an update addresses once its id is resolved.
pub open spec fn planned_target(s: Session, client: Seq<char>, op: OpHeader) -> Option<u64> {
    if is_add(op.kind) {
        None
    } else {
        match op.id {
            Some(x) => Some(resolve_in(s.id_map(client), x)),
            None => None,
        }
    }
}

/// The decision on an update: refused before a join, from a non-editor,
/// or when sequence numbers have run out; otherwise applied to its
/// resolved target.
pub open spec fn update_decision(conn: Connection, s: Session, op: OpHeader) -> Result<Option<u64>, ProtocolError> {
    match conn.client_id {
        None => Err(ProtocolError::NotJoined),
        Some(c) => if !roster_editor(s, c@) {
            Err(ProtocolError::ReadOnly)
        } else if s.operation_seq == u64::MAX {
            Err(ProtocolError::SequenceExhausted)
        } else {
            Ok(planned_target(s, c@, op))
        },
    }
}

impl Connection {
    /// A connection admitted with `role` that has not joined yet.
    pub fn new(role: ClientRole) -> (r: Connection)
        ensures
            r.role == role,
            r.client_id is None,
    {
        Connection { role, client_id: None }
    }

    /// Handles `Join`: records the client under the connection's role,
    /// binds the connection to `client_id`, and answers with the roster
    /// (directly) and the new entry (to everyone).
    pub fn on_join(&mut self, session: &mut Session, client_id: String, name: String, color: String) -> (r: (Reply, Fanout))
        requires
            old(session).wf(),
        ensures
            final(session).wf(),
            final(self).role == old(self).role,
            final(self).client_id == Some(client_id),
            final(session).clients@ == roster_insert(
                old(session).clients@,
                ClientInfo { id: client_id, name, color, role: old(self).role },
            ),
            maps_have(final(session).client_id_maps@, client_id@),
            forall|k: Seq<char>| #[trigger] final(session).id_map(k) == old(session).id_map(k),
            final(session).same_tokens_and_seq(*old(session)),
            match r.0 {
                Reply::Joined { client_id: id, clients } => id == client_id && clients@ == final(session).clients@,
                _ => false,
            },
            match r.1 {
                Fanout::ClientJoined { client } => client == (ClientInfo { id: client_id, name, color, role: old(self).role }),
                _ => false,
            },
    {
        let info = ClientInfo { id: client_id.clone(), name: name.clone(), color: color.clone(), role: self.role };
        session.add_client(client_id.clone(), name, color, self.role);
        self.client_id = Some(client_id.clone());
        let clients = session.get_clients();
        (Reply::Joined { client_id, clients }, Fanout::ClientJoined { client: info })
    }

    /// Handles `Presence`: once joined, it goes to everyone under this
    /// client's id; before, it is refused.
    pub fn on_presence(&self) -> (r: Result<Fanout, ProtocolError>)
        ensures
            match self.client_id {
                None => r == Err::<Fanout, ProtocolError>(ProtocolError::NotJoined),
                Some(c) => r matches Ok(Fanout::Presence { client_id }) && client_id == c,
            },
    {
        match &self.client_id {
            None => Err(ProtocolError::NotJoined),
            Some(c) => Ok(Fanout::Presence { client_id: c.clone() }),
        }
    }

    /// Handles `Ping`: once joined, `Pong`; before, a refusal.
    pub fn on_ping(&self) -> (r: Reply)
        ensures
            match self.client_id {
                None => r matches Reply::Error { error } && error == ProtocolError::NotJoined,
                Some(_) => r is Pong,
            },
    {
        match &self.client_id {
            None => Reply::Error { error: ProtocolError::NotJoined },
            Some(_) => Reply::Pong,
        }
    }

    /// Decides what to do with an update, resolving a local element id
    /// through this client's id map.
    pub fn plan_update(&self, session: &Session, op: OpHeader) -> (r: UpdatePlan)
        requires
            session.wf(),
        ensures
            match update_decision(*self, *session, op) {
                Err(e) => r matches UpdatePlan::Reject { error } && error == e,
                Ok(t) => r matches UpdatePlan::Apply { target } && target == t,
            },
    {
        match &self.client_id {
            None => UpdatePlan::Reject { error: ProtocolError::NotJoined },
            Some(c) => {
                if !session.can_client_edit(c.as_str()) {
                    return UpdatePlan::Reject { error: ProtocolError::ReadOnly };
                }
                if session.operation_seq == u64::MAX {
                    return UpdatePlan::Reject { error: ProtocolError::SequenceExhausted };
                }
                if op.kind.is_add_operation() {
                    UpdatePlan::Apply { target: None }
                } else {
                    match op.id {
                        Some(x) => UpdatePlan::Apply { target: Some(session.resolve_client_id(c.as_str(), x)) },
                        None => UpdatePlan::Apply { target: None },
                    }
                }
            },
        }
    }

    /// Completes an applied update: for an addition the document gave
    /// `assigned`, which the client's local id now maps to; draws the next
    /// sequence number; and gives the update to send to everyone, carrying
    /// the canonical id (and, for an addition, the local one).
    pub fn commit_update(&self, session: &mut Session, op: OpHeader, assigned: Option<u64>) -> (r: Fanout)
        requires
            old(session).wf(),
            update_decision(*self, *old(session), op) is Ok,
        ensures
            final(session).wf(),
            final(session).clients == old(session).clients,
            final(session).operation_seq == old(session).operation_seq + 1,
            final(session).id == old(session).id,
            final(session).revoked_token_ids == old(session).revoked_token_ids,
            final(session).editor_token == old(session).editor_token,
            final(session).viewer_token == old(session).viewer_token,
            final(session).token_secret == old(session).token_secret,
            ({
                let c = self.client_id->Some_0@;
                if is_add(op.kind) && op.id is Some && assigned is Some {
                    &&& final(session).id_map(c) == old(session).id_map(c).insert(op.id->Some_0, assigned->Some_0)
                    &&& forall|k: Seq<char>| k != c ==> #[trigger] final(session).id_map(k) == old(session).id_map(k)
                } else {
                    forall|k: Seq<char>| #[trigger] final(session).id_map(k) == old(session).id_map(k)
                }
            }),
            match r {
                Fanout::Update { client_id, seq, op_id, source_local_id } => {
                    &&& client_id == self.client_id->Some_0
                    &&& seq == final(session).operation_seq
                    &&& source_local_id == (if is_add(op.kind) { op.id } else { None })
                    &&& op_id == (if is_add(op.kind) {
                        if assigned is Some { assigned } else { op.id }
                    } else {
                        planned_target(*old(session), self.client_id->Some_0@, op)
                    })
                },
                _ => false,
            },
    {
        let c = match &self.client_id {
            Some(c) => c,
            None => {
                // an update that was accepted came from a joined client
                assert(false);
                return Fanout::Presence { client_id: String::new() };
            },
        };
        let ghost before = *session;
        let (op_id, source_local_id) = if op.kind.is_add_operation() {
            match (op.id, assigned) {
                (Some(local), Some(canonical)) => {
                    session.map_client_local_id(c.as_str(), local, canonical);
                    (Some(canonical), Some(local))
                },
                (Some(local), None) => (Some(local), Some(local)),
                (None, _) => (assigned, None),
            }
        } else {
            match op.id {
                Some(x) => (Some(session.resolve_client_id(c.as_str(), x)), None),
                None => (None, None),
            }
        };
        assert(session.operation_seq == before.operation_seq);
        let ghost mid = *session;
        let seq = session.next_operation_seq();
        assert(session.client_id_maps == mid.client_id_maps);
        assert(forall|k: Seq<char>| #[trigger] session.id_map(k) == mid.id_map(k));
        Fanout::Update { client_id: c.clone(), seq, op_id, source_local_id }
    }

    /// Tears the connection down: a joined client leaves the roster and
    /// everyone is told.
    pub fn on_close(&mut self, session: &mut Session) -> (r: Option<Fanout>)
        requires
            old(session).wf(),
        ensures
            final(session).wf(),
            final(self).client_id is None,
            final(session).same_tokens_and_seq(*old(session)),
            match old(self).client_id {
                None => r is None && final(session).clients == old(session).clients,
                Some(c) => {
                    &&& r matches Some(Fanout::ClientLeft { client_id }) && client_id == c
                    &&& final(session).clients@ == roster_remove(old(session).clients@, c@)
                    &&& !maps_have(final(session).client_id_maps@, c@)
                },
            },
    {
        match self.client_id.take() {
            None => None,
            Some(c) => {
                session.remove_client(c.as_str());
                Some(Fanout::ClientLeft { client_id: c })
            },
        }
    }
}

/// Two updates committed one after the other in a session, with only
/// joins, presence and leaves between them (which draw no sequence
/// number), carry consecutive sequence numbers.
pub proof fn lemma_consecutive_update_seqs(s0: Session, s1: Session, s2: Session, s3: Session, seq1: u64, seq2: u64)
    requires
        s1.operation_seq == s0.operation_seq + 1,
        seq1 == s1.operation_seq,
        s2.operation_seq == s1.operation_seq,
        s3.operation_seq == s2.operation_seq + 1,
        seq2 == s3.operation_seq,
    ensures
        seq1 < seq2,
        seq2 - seq1 == 1,
{
}

/// After an addition from client `c` under local id `local` was committed
/// with canonical id `canonical`, a later non-addition from `c` that
/// carries `local` is applied to `canonical`.
pub proof fn lemma_local_id_resolves(s: Session, c: Seq<char>, local: u64, canonical: u64, op: OpHeader)
    requires
        s.id_map(c).contains_key(local),
        s.id_map(c)[local] == canonical,
        !is_add(op.kind),
        op.id == Some(local),
    ensures
        planned_target(s, c, op) == Some(canonical),
{
}

/// An update from a connection whose client the roster records as a viewer
/// is refused: it is neither applied nor broadcast.
pub proof fn lemma_viewer_update_refused(conn: Connection, s: Session, op: OpHeader)
    requires
        conn.client_id is Some,
        roster_has(s.clients@, conn.client_id->Some_0@),
        s.clients@[roster_pos(s.clients@, conn.client_id->Some_0@)].role == ClientRole::Viewer,
    ensures
        update_decision(conn, s, op) == Err::<Option<u64>, ProtocolError>(ProtocolError::ReadOnly),
{
}

} // verus!
