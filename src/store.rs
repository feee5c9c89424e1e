//! The persisted form of sessions: what is written to disk for each
//! session, and how an older store is read back.

use crate::outside::fresh_uuid;
use crate::session::Session;
use crate::session::DEFAULT_TOKEN_TTL_SECS;
use crate::session::SESSION_DOCUMENT_SCHEMA_VERSION;
use crate::session::SESSION_STORE_SCHEMA_VERSION;
use vstd::prelude::*;
use vstd::string::*;

verus! {

/// One session as stored. Fields that older stores lack are optional.
#[derive(Debug)]
pub struct PersistedSession {
    pub schema_version: Option<u32>,
    pub id: String,
    pub editor_token: String,
    pub viewer_token: String,
    pub token_secret: Option<String>,
    pub token_ttl_secs: Option<u64>,
    pub revoked_token_ids: Option<Vec<String>>,
    pub allow_legacy_tokens: Option<bool>,
    pub document_schema_version: Option<u32>,
    pub document: String,
    pub created_at: u64,
    pub last_active_at: u64,
}

/// The whole store: its layout version (absent in the first layout) and
/// its sessions.
#[derive(Debug)]
pub struct PersistedSessionStore {
    pub version: Option<u32>,
    pub sessions: Vec<PersistedSession>,
}

/// `p` is the stored form of `s` with serialized document `doc`.
pub open spec fn persisted_from(p: PersistedSession, s: Session, doc: String) -> bool {
    &&& p.schema_version == Some(SESSION_STORE_SCHEMA_VERSION)
    &&& p.id == s.id
    &&& p.editor_token == s.editor_token
    &&& p.viewer_token == s.viewer_token
    &&& p.token_secret == Some(s.token_secret)
    &&& p.token_ttl_secs == Some(s.token_ttl_secs)
    &&& p.revoked_token_ids is Some
    &&& p.revoked_token_ids->Some_0@ == s.revoked_token_ids@
    &&& p.allow_legacy_tokens == Some(s.allow_legacy_tokens)
    &&& p.document_schema_version == Some(SESSION_DOCUMENT_SCHEMA_VERSION)
    &&& p.document == doc
    &&& p.created_at == s.created_at
    &&& p.last_active_at == s.last_active_at
}

/// `r` is a session read back from the stored form `p`, with no client
/// joined and no operation drawn.
pub open spec fn restored_from(r: Session, p: PersistedSession) -> bool {
    &&& r.wf()
    &&& r.id == p.id
    &&& r.editor_token == p.editor_token
    &&& r.viewer_token == p.viewer_token
    &&& (p.token_secret is Some ==> r.token_secret == p.token_secret->Some_0)
    &&& (p.token_secret is None ==> r.token_secret@.len() == 72)
    &&& r.token_ttl_secs == match p.token_ttl_secs {
        Some(t) => t,
        None => DEFAULT_TOKEN_TTL_SECS,
    }
    &&& r.allow_legacy_tokens == match p.allow_legacy_tokens {
        Some(b) => b,
        None => p.token_secret is None,
    }
    &&& forall|x: Seq<char>| #[trigger] r.revoked().contains(x) <==> (p.revoked_token_ids is Some
        && exists|i: int|
        0 <= i < p.revoked_token_ids->Some_0@.len() && #[trigger] p.revoked_token_ids->Some_0@[i]@
            == x)
    &&& r.created_at == p.created_at
    &&& r.last_active_at == p.last_active_at
    &&& r.operation_seq == 0
    &&& r.clients@.len() == 0
    &&& r.client_id_maps@.len() == 0
}

/// Copies a list of strings.
pub fn clone_strings(v: &Vec<String>) -> (r: Vec<String>)
    ensures
        r@ == v@,
{
    let mut out: Vec<String> = Vec::new();
    let mut i: usize = 0;
    while i < v.len()
        invariant
            i <= v@.len(),
            out@ == v@.subrange(0, i as int),
        decreases v@.len() - i,
    {
        out.push(v[i].clone());
        i += 1;
        assert(out@ =~= v@.subrange(0, i as int));
    }
    assert(v@.subrange(0, v@.len() as int) =~= v@);
    out
}

impl Session {
    /// The stored form of this session, with `document` as its serialized
    /// document, in the current layout.
    pub fn to_persisted(&self, document: String) -> (r: PersistedSession)
        ensures
            persisted_from(r, *self, document),
    {
        PersistedSession {
            schema_version: Some(SESSION_STORE_SCHEMA_VERSION),
            id: self.id.clone(),
            editor_token: self.editor_token.clone(),
            viewer_token: self.viewer_token.clone(),
            token_secret: Some(self.token_secret.clone()),
            token_ttl_secs: Some(self.token_ttl_secs),
            revoked_token_ids: Some(clone_strings(&self.revoked_token_ids)),
            allow_legacy_tokens: Some(self.allow_legacy_tokens),
            document_schema_version: Some(SESSION_DOCUMENT_SCHEMA_VERSION),
            document,
            created_at: self.created_at,
            last_active_at: self.last_active_at,
        }
    }

    /// A session read back from its stored form (the document is read by
    /// whoever holds it). A missing secret gets a fresh random one and then
    /// unsigned tokens stay allowed unless the store says otherwise; a
    /// missing lifetime is the default one; missing revocations are none.
    pub fn from_persisted(snapshot: PersistedSession) -> (r: Session)
        ensures
            restored_from(r, snapshot),
    {
        let PersistedSession {
            schema_version: _,
            id,
            editor_token,
            viewer_token,
            token_secret,
            token_ttl_secs,
            revoked_token_ids,
            allow_legacy_tokens,
            document_schema_version: _,
            document: _,
            created_at,
            last_active_at,
        } = snapshot;
        let has_token_secret = token_secret.is_some();
        let secret = match token_secret {
            Some(s) => s,
            None => {
                let mut s = fresh_uuid();
                let second = fresh_uuid();
                s.append(second.as_str());
                s
            },
        };
        let ttl = match token_ttl_secs {
            Some(t) => t,
            None => DEFAULT_TOKEN_TTL_SECS,
        };
        let allow = match allow_legacy_tokens {
            Some(b) => b,
            None => !has_token_secret,
        };
        let revoked = match revoked_token_ids {
            Some(v) => v,
            None => Vec::new(),
        };
        Session::new_with_timestamps(
            id,
            secret,
            ttl,
            editor_token,
            viewer_token,
            allow,
            revoked,
            created_at,
            last_active_at,
        )
    }
}

/// Storing a session and reading it back gives a session with the same
/// id, tokens, secret, lifetime, revocations, unsigned-token setting and
/// timestamps, and hands back the same serialized document.
pub proof fn lemma_persist_round_trip(s: Session, doc: String, p: PersistedSession, r: Session)
    requires
        persisted_from(p, s, doc),
        restored_from(r, p),
    ensures
        r.id == s.id,
        r.editor_token == s.editor_token,
        r.viewer_token == s.viewer_token,
        r.token_secret == s.token_secret,
        r.token_ttl_secs == s.token_ttl_secs,
        r.allow_legacy_tokens == s.allow_legacy_tokens,
        r.revoked() == s.revoked(),
        r.created_at == s.created_at,
        r.last_active_at == s.last_active_at,
        p.document == doc,
{
    assert(r.revoked() =~= s.revoked());
}

} // verus!
