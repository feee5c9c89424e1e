//! The catalog of sessions: creation, lookup, expiry, the admin token
//! operations, and the store that the catalog is saved as and read from.

use crate::role::ClientRole;
use crate::session::fresh_at;
use crate::session::issued_for;
use crate::session::sat_add;
use crate::session::ttl_or;
use crate::session::Session;
use crate::session::SESSION_STORE_SCHEMA_VERSION;
use crate::store::persisted_from;
use crate::store::restored_from;
use crate::store::PersistedSession;
use crate::store::PersistedSessionStore;
use crate::outside::now_unix_ts;
use crate::text::str_eq;
use vstd::prelude::*;

verus! {

/// A serialized document read back from the store, with its session id.
#[derive(Debug)]
pub struct StoredDocument {
    pub session_id: String,
    pub document: String,
}

/// The sessions, keyed by id, and the lifetimes that govern them.
#[derive(Debug)]
pub struct SessionManager {
    pub sessions: Vec<Session>,
    pub ttl_secs: u64,
    pub token_ttl_secs: u64,
}

/// Whether a session has been idle past `ttl` with nobody connected.
pub open spec fn expired(s: Session, now: u64, ttl: u64) -> bool {
    s.clients@.len() == 0 && !(sat_sub(now, s.last_active_at) < ttl)
}

/// `a - b`, or 0 where `b` is larger.
pub open spec fn sat_sub(a: u64, b: u64) -> u64 {
    if a >= b {
        (a - b) as u64
    } else {
        0
    }
}

/// The ids of a store's sessions are distinct.
pub open spec fn store_ids_unique(ps: Seq<PersistedSession>) -> bool {
    forall|i: int, j: int|
        0 <= i < ps.len() && 0 <= j < ps.len() && i != j ==> #[trigger] ps[i].id@
            != #[trigger] ps[j].id@
}

/// Whether a store's layout version is one this library reads: the first
/// layout (no version written) and the current one.
pub open spec fn version_readable(v: Option<u32>) -> bool {
    match v {
        None => true,
        Some(n) => n == 1 || n == SESSION_STORE_SCHEMA_VERSION,
    }
}

impl SessionManager {
    /// `after` is this catalog with a session `id` created at `now` in it,
    /// replacing one with that id, whose editor and viewer tokens are
    /// `tokens`.
    pub open spec fn created_into(self, after: SessionManager, id: Seq<char>, tokens: (String, String), now: u64) -> bool {
        let p = after.pos(id);
        let s = after.sessions@[p];
        &&& after.has(id)
        &&& after.ttl_secs == self.ttl_secs
        &&& after.token_ttl_secs == self.token_ttl_secs
        &&& fresh_at(s, id, self.token_ttl_secs, now)
        &&& s.editor_token == tokens.0
        &&& s.viewer_token == tokens.1
        &&& after.sessions@ == (if self.has(id) {
            self.sessions@.update(self.pos(id), s)
        } else {
            self.sessions@.push(s)
        })
    }

    /// `after` is this catalog with the session `id` (if any) marked active
    /// at `now` and nothing else changed.
    pub open spec fn touched(self, after: SessionManager, id: Seq<char>, now: u64) -> bool {
        after.sessions@ == (if self.has(id) {
            self.sessions@.update(
                self.pos(id),
                Session { last_active_at: now, ..self.sessions@[self.pos(id)] },
            )
        } else {
            self.sessions@
        })
    }

    /// `after` is this catalog with the sessions that expired by `now`
    /// dropped.
    pub open spec fn cleaned(self, after: SessionManager, now: u64) -> bool {
        after.sessions@ == self.sessions@.filter(|s: Session| !expired(s, now, self.ttl_secs))
    }

    /// Ids are unique and every session is well formed.
    pub open spec fn wf(self) -> bool {
        &&& forall|i: int, j: int|
            0 <= i < self.sessions@.len() && 0 <= j < self.sessions@.len() && i != j
                ==> #[trigger] self.sessions@[i].id@ != #[trigger] self.sessions@[j].id@
        &&& forall|i: int| 0 <= i < self.sessions@.len() ==> #[trigger] self.sessions@[i].wf()
    }

    /// Whether a session with id `id` exists.
    pub open spec fn has(self, id: Seq<char>) -> bool {
        exists|i: int| 0 <= i < self.sessions@.len() && #[trigger] self.sessions@[i].id@ == id
    }

    /// Where the session with id `id` stands.
    pub open spec fn pos(self, id: Seq<char>) -> int {
        choose|i: int| 0 <= i < self.sessions@.len() && #[trigger] self.sessions@[i].id@ == id
    }

    proof fn lemma_pos(self, i: int)
        requires
            self.wf(),
            0 <= i < self.sessions@.len(),
        ensures
            self.has(self.sessions@[i].id@),
            self.pos(self.sessions@[i].id@) == i,
    {
        assert(self.has(self.sessions@[i].id@));
    }

    fn find(&self, id: &str) -> (r: Option<usize>)
        requires
            self.wf(),
        ensures
            match r {
                None => !self.has(id@),
                Some(i) => i < self.sessions@.len() && self.sessions@[i as int].id@ == id@
                    && self.pos(id@) == i,
            },
    {
        let mut i: usize = 0;
        while i < self.sessions.len()
            invariant
                self.wf(),
                i <= self.sessions@.len(),
                forall|j: int| 0 <= j < i ==> #[trigger] self.sessions@[j].id@ != id@,
            decreases self.sessions@.len() - i,
        {
            if str_eq(self.sessions[i].id.as_str(), id) {
                proof {
                    self.lemma_pos(i as int);
                }
                return Some(i);
            }
            i += 1;
        }
        None
    }

    /// Puts `session` in the catalog, replacing one with the same id.
    pub fn create_session(&mut self, session: Session)
        requires
            old(self).wf(),
            session.wf(),
        ensures
            final(self).wf(),
            final(self).ttl_secs == old(self).ttl_secs,
            final(self).token_ttl_secs == old(self).token_ttl_secs,
            final(self).sessions@ == (if old(self).has(session.id@) {
                old(self).sessions@.update(old(self).pos(session.id@), session)
            } else {
                old(self).sessions@.push(session)
            }),
    {
        let ghost old_self = *self;
        let ghost key = session.id@;
        match self.find(session.id.as_str()) {
            Some(i) => {
                self.sessions.set(i, session);
            },
            None => {
                self.sessions.push(session);
            },
        }
        proof {
            let v = self.sessions@;
            let ov = old_self.sessions@;
            assert forall|a: int, b: int| 0 <= a < v.len() && 0 <= b < v.len() && a != b implies #[trigger] v[a].id@
                != #[trigger] v[b].id@ by {
                if old_self.has(key) {
                    let p = old_self.pos(key);
                    if a != p && b != p {
                        assert(v[a] == ov[a] && v[b] == ov[b]);
                    } else if a != p {
                        assert(v[a] == ov[a]);
                    } else {
                        assert(v[b] == ov[b]);
                    }
                } else {
                    if a < ov.len() && b < ov.len() {
                        assert(v[a] == ov[a] && v[b] == ov[b]);
                    } else if a < ov.len() {
                        assert(v[a] == ov[a]);
                    } else {
                        assert(v[b] == ov[b]);
                    }
                }
            }
            assert forall|i: int| 0 <= i < v.len() implies #[trigger] v[i].wf() by {
                if i < ov.len() && v[i] != session {
                    assert(v[i] == ov[i]);
                }
            }
        }
    }

    /// Creates a session with id `session_id` at time `now` and puts it in
    /// the catalog; gives back its editor and viewer tokens.
    pub fn create_new_session_at(&mut self, session_id: String, now: u64) -> (r: (String, String))
        requires
            old(self).wf(),
        ensures
            final(self).wf(),
            old(self).created_into(*final(self), session_id@, r, now),
    {
        let session = Session::new_at(session_id, self.token_ttl_secs, now);
        let tokens = (session.editor_token.clone(), session.viewer_token.clone());
        let ghost created = session;
        let ghost old_self = *self;
        self.create_session(session);
        proof {
            let v = self.sessions@;
            let i = if old_self.has(created.id@) {
                old_self.pos(created.id@)
            } else {
                v.len() - 1
            };
            assert(v[i] == created);
            self.lemma_pos(i);
        }
        tokens
    }

    /// The session with id `session_id`, if there is one.
    pub fn get_session(&self, session_id: &str) -> (r: Option<&Session>)
        requires
            self.wf(),
        ensures
            match r {
                None => !self.has(session_id@),
                Some(s) => self.has(session_id@) && *s == self.sessions@[self.pos(session_id@)],
            },
    {
        match self.find(session_id) {
            None => None,
            Some(i) => Some(&self.sessions[i]),
        }
    }

    /// Records activity at `now` on the session with id `session_id`, if any.
    pub fn mark_session_active_at(&mut self, session_id: &str, now: u64)
        requires
            old(self).wf(),
        ensures
            final(self).wf(),
            final(self).ttl_secs == old(self).ttl_secs,
            final(self).token_ttl_secs == old(self).token_ttl_secs,
            final(self).sessions@ == (if old(self).has(session_id@) {
                old(self).sessions@.update(
                    old(self).pos(session_id@),
                    Session { last_active_at: now, ..old(self).sessions@[old(self).pos(session_id@)] },
                )
            } else {
                old(self).sessions@
            }),
    {
        let ghost old_self = *self;
        match self.find(session_id) {
            None => {},
            Some(i) => {
                let mut s = self.sessions.remove(i);
                s.touch_at(now);
                self.sessions.insert(i, s);
                proof {
                    assert(self.sessions@ =~= old_self.sessions@.update(i as int, s));
                    let v = self.sessions@;
                    let ov = old_self.sessions@;
                    assert forall|a: int, b: int| 0 <= a < v.len() && 0 <= b < v.len() && a != b implies #[trigger] v[a].id@
                        != #[trigger] v[b].id@ by {
                        if a != i && b != i {
                            assert(v[a] == ov[a] && v[b] == ov[b]);
                        } else if a != i {
                            assert(v[a] == ov[a]);
                        } else {
                            assert(v[b] == ov[b]);
                        }
                    }
                    assert forall|k: int| 0 <= k < v.len() implies #[trigger] v[k].wf() by {
                        assert(ov[k].wf());
                        if k != i {
                            assert(v[k] == ov[k]);
                        }
                    }
                }
            },
        }
    }

    /// Drops every session that nobody is connected to and that has been
    /// idle for `ttl_secs` or more at `now`; says how many went.
    pub fn cleanup_expired_sessions_at(&mut self, now: u64) -> (r: usize)
        requires
            old(self).wf(),
        ensures
            final(self).wf(),
            final(self).ttl_secs == old(self).ttl_secs,
            final(self).token_ttl_secs == old(self).token_ttl_secs,
            final(self).sessions@ == old(self).sessions@.filter(
                |s: Session| !expired(s, now, old(self).ttl_secs),
            ),
            r == old(self).sessions@.len() - final(self).sessions@.len(),
    {
        let ghost orig = self.sessions@;
        assert(forall|j: int| 0 <= j < orig.len() ==> old_wf_at(orig, j));
        let ghost keep = |s: Session| !expired(s, now, self.ttl_secs);
        let before = self.sessions.len();
        let mut rest = self.sessions.split_off(0);
        let mut kept: Vec<Session> = Vec::new();
        let mut i: usize = 0;
        while rest.len() > 0
            invariant
                i + rest@.len() == orig.len(),
                orig.len() == before,
                rest@ == orig.subrange(i as int, orig.len() as int),
                kept@ == orig.subrange(0, i as int).filter(keep),
                keep == (|s: Session| !expired(s, now, self.ttl_secs)),
            decreases rest@.len(),
        {
            let s = rest.remove(0);
            let idle = if now >= s.last_active_at {
                now - s.last_active_at
            } else {
                0
            };
            let ghost prev = kept@;
            if s.clients.len() > 0 || idle < self.ttl_secs {
                kept.push(s);
            }
            proof {
                reveal(Seq::filter);
                assert(orig.subrange(0, i + 1).drop_last() =~= orig.subrange(0, i as int));
                assert(orig.subrange(0, i + 1).last() == orig[i as int]);
            }
            i += 1;
            assert(rest@ =~= orig.subrange(i as int, orig.len() as int));
        }
        assert(orig.subrange(0, orig.len() as int) =~= orig);
        proof {
            let v = kept@;
            assert forall|a: int, b: int| 0 <= a < v.len() && 0 <= b < v.len() && a != b implies #[trigger] v[a].id@
                != #[trigger] v[b].id@ by {
                lemma_filter_distinct(orig, keep, a, b);
            }
            assert forall|k: int| 0 <= k < v.len() implies #[trigger] v[k].wf() by {
                assert(v.contains(v[k]));
                orig.lemma_filter_contains_rev(keep, v[k]);
                let j = choose|j: int| 0 <= j < orig.len() && orig[j] == v[k];
                assert(old_wf_at(orig, j));
            }
        }
        self.sessions = kept;
        proof {
            lemma_filter_len(orig, keep);
        }
        before - self.sessions.len()
    }

    /// The number of sessions.
    pub fn session_count(&self) -> (r: usize)
        ensures
            r == self.sessions@.len(),
    {
        self.sessions.len()
    }

    /// Drops the session with id `session_id` from the catalog, if any.
    pub fn remove_session(&mut self, session_id: &str)
        requires
            old(self).wf(),
        ensures
            final(self).wf(),
            !final(self).has(session_id@),
            final(self).sessions@ == (if old(self).has(session_id@) {
                old(self).sessions@.remove(old(self).pos(session_id@))
            } else {
                old(self).sessions@
            }),
    {
        let ghost old_self = *self;
        match self.find(session_id) {
            None => {},
            Some(i) => {
                self.sessions.remove(i);
                proof {
                    let v = self.sessions@;
                    let ov = old_self.sessions@;
                    assert forall|a: int, b: int| 0 <= a < v.len() && 0 <= b < v.len() && a != b implies #[trigger] v[a].id@
                        != #[trigger] v[b].id@ by {
                        let oa = if a < i { a } else { a + 1 };
                        let ob = if b < i { b } else { b + 1 };
                        assert(v[a] == ov[oa] && v[b] == ov[ob]);
                    }
                    assert forall|k: int| 0 <= k < v.len() implies #[trigger] v[k].wf() by {
                        let ok = if k < i { k } else { k + 1 };
                        assert(v[k] == ov[ok]);
                    }
                    assert(!self.has(session_id@)) by {
                        if self.has(session_id@) {
                            let k = choose|k: int| 0 <= k < v.len() && #[trigger] v[k].id@ == session_id@;
                            let ok = if k < i { k } else { k + 1 };
                            assert(v[k] == ov[ok]);
                        }
                    }
                }
            },
        }
    }
}

/// The session at position `j` is well formed.
pub open spec fn old_wf_at(v: Seq<Session>, j: int) -> bool {
    v[j].wf()
}

proof fn lemma_filter_distinct(s: Seq<Session>, keep: spec_fn(Session) -> bool, a: int, b: int)
    requires
        forall|i: int, j: int|
            0 <= i < s.len() && 0 <= j < s.len() && i != j ==> #[trigger] s[i].id@ != #[trigger] s[j].id@,
        0 <= a < s.filter(keep).len(),
        0 <= b < s.filter(keep).len(),
        a != b,
    ensures
        s.filter(keep)[a].id@ != s.filter(keep)[b].id@,
    decreases s.len(),
{
    let f = s.filter(keep);
    let d = s.drop_last();
    let fd = d.filter(keep);
    assert forall|i: int, j: int|
        0 <= i < d.len() && 0 <= j < d.len() && i != j implies #[trigger] d[i].id@ != #[trigger] d[j].id@ by {
        assert(d[i] == s[i] && d[j] == s[j]);
    }
    reveal(Seq::filter);
    s.lemma_filter_len(keep);
    assert(s.len() > 0);
    if keep(s.last()) {
        assert(f =~= fd.push(s.last()));
    } else {
        assert(f =~= fd);
    }
    if keep(s.last()) && (a == f.len() - 1 || b == f.len() - 1) {
        let other = if a == f.len() - 1 { b } else { a };
        assert(f[other] == fd[other]);
        assert(fd.contains(fd[other]));
        d.lemma_filter_contains_rev(keep, fd[other]);
        assert(d.contains(fd[other]));
        let k = choose|k: int| 0 <= k < d.len() && d[k] == fd[other];
        assert(s[k] == d[k]);
        assert(s[s.len() - 1] == s.last());
    } else {
        lemma_filter_distinct(d, keep, a, b);
    }
}

proof fn lemma_filter_len(s: Seq<Session>, keep: spec_fn(Session) -> bool)
    ensures
        s.filter(keep).len() <= s.len(),
    decreases s.len(),
{
    if s.len() > 0 {
        lemma_filter_len(s.drop_last(), keep);
    }
}

/// Replacing a session by a well-formed one with the same id keeps the
/// catalog well formed.
proof fn lemma_replace_keeps_wf(m: SessionManager, i: int, s: Session, m2: SessionManager)
    requires
        m.wf(),
        0 <= i < m.sessions@.len(),
        s.wf(),
        s.id == m.sessions@[i].id,
        m2.sessions@ == m.sessions@.update(i, s),
    ensures
        m2.wf(),
{
    let ov = m.sessions@;
    let v = m2.sessions@;
    assert forall|a: int, b: int| 0 <= a < v.len() && 0 <= b < v.len() && a != b implies #[trigger] v[a].id@
        != #[trigger] v[b].id@ by {
        assert(v[a].id@ == ov[a].id@ && v[b].id@ == ov[b].id@);
    }
    assert forall|k: int| 0 <= k < v.len() implies #[trigger] v[k].wf() by {
        assert(ov[k].wf());
    }
}

impl SessionManager {
    /// An empty catalog.
    pub fn new(ttl_secs: u64, token_ttl_secs: u64) -> (r: Self)
        ensures
            r.wf(),
            r.sessions@.len() == 0,
            r.ttl_secs == ttl_secs,
            r.token_ttl_secs == token_ttl_secs,
    {
        SessionManager { sessions: Vec::new(), ttl_secs, token_ttl_secs }
    }

    /// Takes the session with id `session_id` out of the catalog.
    pub fn take_session(&mut self, session_id: &str) -> (r: Option<Session>)
        requires
            old(self).wf(),
        ensures
            final(self).wf(),
            final(self).ttl_secs == old(self).ttl_secs,
            final(self).token_ttl_secs == old(self).token_ttl_secs,
            !final(self).has(session_id@),
            match r {
                None => !old(self).has(session_id@) && final(self).sessions@ == old(self).sessions@,
                Some(s) => old(self).has(session_id@) && s == old(self).sessions@[old(self).pos(
                    session_id@,
                )] && s.wf() && final(self).sessions@ == old(self).sessions@.remove(
                    old(self).pos(session_id@),
                ),
            },
    {
        let ghost old_self = *self;
        match self.find(session_id) {
            None => None,
            Some(i) => {
                let s = self.sessions.remove(i);
                proof {
                    let v = self.sessions@;
                    let ov = old_self.sessions@;
                    assert(ov[i as int].wf());
                    assert forall|a: int, b: int| 0 <= a < v.len() && 0 <= b < v.len() && a != b implies #[trigger] v[a].id@
                        != #[trigger] v[b].id@ by {
                        let oa = if a < i { a } else { a + 1 };
                        let ob = if b < i { b } else { b + 1 };
                        assert(v[a] == ov[oa] && v[b] == ov[ob]);
                    }
                    assert forall|k: int| 0 <= k < v.len() implies #[trigger] v[k].wf() by {
                        let ok = if k < i { k } else { k + 1 };
                        assert(v[k] == ov[ok]);
                    }
                    assert(!self.has(session_id@)) by {
                        if self.has(session_id@) {
                            let k = choose|k: int| 0 <= k < v.len() && #[trigger] v[k].id@ == session_id@;
                            let ok = if k < i { k } else { k + 1 };
                            assert(v[k] == ov[ok]);
                        }
                    }
                }
                Some(s)
            },
        }
    }

    /// Revokes `token` in the session with id `session_id`; says whether
    /// that session's revocation list gained an entry.
    pub fn revoke_token(&mut self, session_id: &str, token: &str) -> (r: bool)
        requires
            old(self).wf(),
        ensures
            final(self).wf(),
            final(self).ttl_secs == old(self).ttl_secs,
            final(self).token_ttl_secs == old(self).token_ttl_secs,
            final(self).sessions@.len() == old(self).sessions@.len(),
            !old(self).has(session_id@) ==> !r && final(self).sessions@ == old(self).sessions@,
            old(self).has(session_id@) ==> {
                let p = old(self).pos(session_id@);
                let before = old(self).sessions@[p];
                let after = final(self).sessions@[p];
                &&& final(self).sessions@ == old(self).sessions@.update(p, after)
                &&& after == (Session { revoked_token_ids: after.revoked_token_ids, ..before })
                &&& match before.revocation_id(token@) {
                    Some(x) => r == !before.revoked().contains(x) && after.revoked()
                        == before.revoked().insert(x),
                    None => !r && after.revoked() == before.revoked(),
                }
            },
    {
        let ghost old_self = *self;
        match self.find(session_id) {
            None => false,
            Some(i) => {
                let mut s = self.sessions.remove(i);
                proof {
                    assert(old_self.sessions@[i as int].wf());
                }
                let r = s.revoke_token(token);
                self.sessions.insert(i, s);
                proof {
                    assert(self.sessions@ =~= old_self.sessions@.update(i as int, s));
                    lemma_replace_keeps_wf(old_self, i as int, s, *self);
                }
                r
            },
        }
    }

    /// Rotates the viewer token of the session with id `session_id` at
    /// `now`; gives the new token, or `None` where there is no such session.
    pub fn rotate_viewer_token_at(&mut self, session_id: &str, now: u64) -> (r: Option<String>)
        requires
            old(self).wf(),
        ensures
            final(self).wf(),
            final(self).ttl_secs == old(self).ttl_secs,
            final(self).token_ttl_secs == old(self).token_ttl_secs,
            final(self).sessions@.len() == old(self).sessions@.len(),
            r is None <==> !old(self).has(session_id@),
            r is None ==> final(self).sessions@ == old(self).sessions@,
            r is Some ==> {
                let p = old(self).pos(session_id@);
                let before = old(self).sessions@[p];
                let after = final(self).sessions@[p];
                &&& final(self).sessions@ == old(self).sessions@.update(p, after)
                &&& after == (Session { revoked_token_ids: after.revoked_token_ids, viewer_token: r->Some_0, ..before })
                &&& after.viewer_token == r->Some_0
                &&& issued_for(before.token_secret@, r->Some_0@, before.id@, ClientRole::Viewer, sat_add(now, before.token_ttl_secs))
                &&& after.revoked() == match before.revocation_id(before.viewer_token@) {
                    Some(x) => before.revoked().insert(x),
                    None => before.revoked(),
                }
            },
    {
        let ghost old_self = *self;
        match self.find(session_id) {
            None => None,
            Some(i) => {
                let mut s = self.sessions.remove(i);
                proof {
                    assert(old_self.sessions@[i as int].wf());
                }
                let r = s.rotate_viewer_token_at(now);
                self.sessions.insert(i, s);
                proof {
                    assert(self.sessions@ =~= old_self.sessions@.update(i as int, s));
                    lemma_replace_keeps_wf(old_self, i as int, s, *self);
                }
                Some(r)
            },
        }
    }

    /// Rotates the editor token of the session with id `session_id` at
    /// `now`; gives the new token, or `None` where there is no such session.
    /// The previous editor token grants nothing afterwards.
    pub fn rotate_editor_token_at(&mut self, session_id: &str, now: u64) -> (r: Option<String>)
        requires
            old(self).wf(),
        ensures
            final(self).wf(),
            final(self).ttl_secs == old(self).ttl_secs,
            final(self).token_ttl_secs == old(self).token_ttl_secs,
            final(self).sessions@.len() == old(self).sessions@.len(),
            r is None <==> !old(self).has(session_id@),
            r is None ==> final(self).sessions@ == old(self).sessions@,
            r is Some ==> {
                let p = old(self).pos(session_id@);
                let before = old(self).sessions@[p];
                let after = final(self).sessions@[p];
                &&& final(self).sessions@ == old(self).sessions@.update(p, after)
                &&& after == (Session { revoked_token_ids: after.revoked_token_ids, editor_token: r->Some_0, ..before })
                &&& after.editor_token == r->Some_0
                &&& issued_for(before.token_secret@, r->Some_0@, before.id@, ClientRole::Editor, sat_add(now, before.token_ttl_secs))
                &&& after.revoked() == match before.revocation_id(before.editor_token@) {
                    Some(x) => before.revoked().insert(x),
                    None => before.revoked(),
                }
                &&& forall|role: ClientRole, t: u64| !#[trigger] after.token_valid(before.editor_token@, role, t)
            },
    {
        let ghost old_self = *self;
        match self.find(session_id) {
            None => None,
            Some(i) => {
                let mut s = self.sessions.remove(i);
                proof {
                    assert(old_self.sessions@[i as int].wf());
                }
                let r = s.rotate_editor_token_at(now);
                self.sessions.insert(i, s);
                proof {
                    assert(self.sessions@ =~= old_self.sessions@.update(i as int, s));
                    lemma_replace_keeps_wf(old_self, i as int, s, *self);
                }
                Some(r)
            },
        }
    }

    /// Issues an invitation token for `role` in the session with id
    /// `session_id`, living `ttl_secs` (or the session's default) from `now`.
    pub fn issue_invite_token_at(
        &self,
        session_id: &str,
        role: ClientRole,
        ttl_secs: Option<u64>,
        now: u64,
    ) -> (r: Option<String>)
        requires
            self.wf(),
        ensures
            r is None <==> !self.has(session_id@),
            r is Some ==> {
                let s = self.sessions@[self.pos(session_id@)];
                issued_for(s.token_secret@, r->Some_0@, s.id@, role, sat_add(now, ttl_or(ttl_secs, s.token_ttl_secs)))
            },
    {
        match self.find(session_id) {
            None => None,
            Some(i) => Some(self.sessions[i].issue_token_at(role, ttl_secs, now)),
        }
    }

    /// The store this catalog is saved as: the current layout version and
    /// each session in catalog order, with `documents[i]` as the serialized
    /// document of the i-th session.
    pub fn to_store(&self, documents: &Vec<String>) -> (r: PersistedSessionStore)
        requires
            documents@.len() == self.sessions@.len(),
        ensures
            r.version == Some(SESSION_STORE_SCHEMA_VERSION),
            r.sessions@.len() == self.sessions@.len(),
            forall|i: int| 0 <= i < self.sessions@.len() ==> persisted_from(
                #[trigger] r.sessions@[i],
                self.sessions@[i],
                documents@[i],
            ),
    {
        let mut out: Vec<PersistedSession> = Vec::new();
        let mut i: usize = 0;
        while i < self.sessions.len()
            invariant
                i <= self.sessions@.len(),
                documents@.len() == self.sessions@.len(),
                out@.len() == i,
                forall|j: int| 0 <= j < i ==> persisted_from(
                    #[trigger] out@[j],
                    self.sessions@[j],
                    documents@[j],
                ),
            decreases self.sessions@.len() - i,
        {
            out.push(self.sessions[i].to_persisted(documents[i].clone()));
            i += 1;
        }
        PersistedSessionStore { version: Some(SESSION_STORE_SCHEMA_VERSION), sessions: out }
    }

    /// A catalog read from a store, if one could be read: stores of the
    /// first and of the current layout are read (a later session with an
    /// id seen before replaces the earlier one), any other store gives an
    /// empty catalog. Also gives back each stored serialized document with
    /// its session id, in store order.
    pub fn new_with_persistence(
        store: Option<PersistedSessionStore>,
        ttl_secs: u64,
        token_ttl_secs: u64,
    ) -> (r: (SessionManager, Vec<StoredDocument>))
        ensures
            r.0.wf(),
            r.0.ttl_secs == ttl_secs,
            r.0.token_ttl_secs == token_ttl_secs,
            match store {
                None => r.0.sessions@.len() == 0 && r.1@.len() == 0,
                Some(st) => if version_readable(st.version) {
                    &&& r.1@.len() == st.sessions@.len()
                    &&& forall|i: int| 0 <= i < st.sessions@.len() ==> {
                        &&& (#[trigger] r.1@[i]).session_id == st.sessions@[i].id
                        &&& r.1@[i].document == st.sessions@[i].document
                        &&& r.0.has(st.sessions@[i].id@)
                    }
                    &&& store_ids_unique(st.sessions@) ==> {
                        &&& r.0.sessions@.len() == st.sessions@.len()
                        &&& forall|i: int| 0 <= i < st.sessions@.len() ==> restored_from(
                            #[trigger] r.0.sessions@[i],
                            st.sessions@[i],
                        )
                    }
                } else {
                    r.0.sessions@.len() == 0 && r.1@.len() == 0
                },
            },
    {
        let mut m = SessionManager::new(ttl_secs, token_ttl_secs);
        let mut docs: Vec<StoredDocument> = Vec::new();
        let st = match store {
            None => return (m, docs),
            Some(st) => st,
        };
        let readable = match st.version {
            None => true,
            Some(n) => n == 1 || n == SESSION_STORE_SCHEMA_VERSION,
        };
        if !readable {
            return (m, docs);
        }
        let ghost snaps = st.sessions@;
        let mut rest = st.sessions;
        let n0 = rest.len();
        let mut k: usize = 0;
        while rest.len() > 0
            invariant
                m.wf(),
                m.ttl_secs == ttl_secs,
                m.token_ttl_secs == token_ttl_secs,
                k + rest@.len() == snaps.len(),
                snaps.len() == n0,
                rest@ == snaps.subrange(k as int, snaps.len() as int),
                docs@.len() == k,
                forall|j: int| 0 <= j < k ==> {
                    &&& (#[trigger] docs@[j]).session_id == snaps[j].id
                    &&& docs@[j].document == snaps[j].document
                },
                forall|j: int| 0 <= j < k ==> m.has(#[trigger] snaps[j].id@),
                store_ids_unique(snaps) ==> {
                    &&& m.sessions@.len() == k
                    &&& forall|j: int| 0 <= j < k ==> restored_from(
                        #[trigger] m.sessions@[j],
                        snaps[j],
                    )
                },
            decreases rest@.len(),
        {
            let p = rest.remove(0);
            assert(p == snaps[k as int]);
            docs.push(StoredDocument { session_id: p.id.clone(), document: p.document.clone() });
            let ghost before = m;
            let s = Session::from_persisted(p);
            proof {
                if store_ids_unique(snaps) {
                    assert(!before.has(s.id@)) by {
                        if before.has(s.id@) {
                            let q = choose|q: int| 0 <= q < before.sessions@.len() && #[trigger] before.sessions@[q].id@ == s.id@;
                            assert(restored_from(before.sessions@[q], snaps[q]));
                            assert(snaps[q].id@ != snaps[k as int].id@);
                        }
                    }
                }
            }
            m.create_session(s);
            proof {
                let v = m.sessions@;
                let ov = before.sessions@;
                let pidx = if before.has(s.id@) { before.pos(s.id@) } else { ov.len() as int };
                assert(v[pidx] == s);
                assert(m.has(s.id@));
                assert forall|j: int| 0 <= j < k + 1 implies m.has(#[trigger] snaps[j].id@) by {
                    if j < k && snaps[j].id@ != s.id@ {
                        let q = choose|q: int| 0 <= q < ov.len() && #[trigger] ov[q].id@ == snaps[j].id@;
                        if before.has(s.id@) {
                            assert(q != pidx);
                        }
                        assert(v[q] == ov[q]);
                    }
                }
                if store_ids_unique(snaps) {
                    assert forall|j: int| 0 <= j < k + 1 implies restored_from(
                        #[trigger] v[j],
                        snaps[j],
                    ) by {
                        if j < k {
                            assert(v[j] == ov[j]);
                        }
                    }
                }
            }
            k += 1;
            assert(rest@ =~= snaps.subrange(k as int, snaps.len() as int));
        }
        (m, docs)
    }

    /// Creates a session with id `session_id` now; gives back its editor
    /// and viewer tokens.
    pub fn create_new_session(&mut self, session_id: String) -> (r: (String, String))
        requires
            old(self).wf(),
        ensures
            final(self).wf(),
            exists|now: u64| #[trigger] old(self).created_into(*final(self), session_id@, r, now),
    {
        let now = now_unix_ts();
        self.create_new_session_at(session_id, now)
    }

    /// Records activity now on the session with id `session_id`, if any.
    pub fn mark_session_active(&mut self, session_id: &str)
        requires
            old(self).wf(),
        ensures
            final(self).wf(),
            final(self).ttl_secs == old(self).ttl_secs,
            final(self).token_ttl_secs == old(self).token_ttl_secs,
            exists|now: u64| #[trigger] old(self).touched(*final(self), session_id@, now),
    {
        let now = now_unix_ts();
        let ghost before = *self;
        self.mark_session_active_at(session_id, now);
        assert(before.touched(*self, session_id@, now));
    }

    /// Rotates the viewer token of the session with id `session_id` now.
    pub fn rotate_viewer_token(&mut self, session_id: &str) -> (r: Option<String>)
        requires
            old(self).wf(),
        ensures
            final(self).wf(),
            final(self).sessions@.len() == old(self).sessions@.len(),
            r is None <==> !old(self).has(session_id@),
            r is None ==> final(self).sessions@ == old(self).sessions@,
            r is Some ==> {
                let p = old(self).pos(session_id@);
                let before = old(self).sessions@[p];
                let after = final(self).sessions@[p];
                &&& final(self).sessions@ == old(self).sessions@.update(p, after)
                &&& after == (Session { revoked_token_ids: after.revoked_token_ids, viewer_token: r->Some_0, ..before })
                &&& exists|now: u64| issued_for(before.token_secret@, r->Some_0@, before.id@, ClientRole::Viewer, #[trigger] sat_add(now, before.token_ttl_secs))
                &&& after.revoked() == match before.revocation_id(before.viewer_token@) {
                    Some(x) => before.revoked().insert(x),
                    None => before.revoked(),
                }
            },
    {
        let now = now_unix_ts();
        self.rotate_viewer_token_at(session_id, now)
    }

    /// Rotates the editor token of the session with id `session_id` now.
    pub fn rotate_editor_token(&mut self, session_id: &str) -> (r: Option<String>)
        requires
            old(self).wf(),
        ensures
            final(self).wf(),
            final(self).sessions@.len() == old(self).sessions@.len(),
            r is None <==> !old(self).has(session_id@),
            r is None ==> final(self).sessions@ == old(self).sessions@,
            r is Some ==> {
                let p = old(self).pos(session_id@);
                let before = old(self).sessions@[p];
                let after = final(self).sessions@[p];
                &&& final(self).sessions@ == old(self).sessions@.update(p, after)
                &&& after == (Session { revoked_token_ids: after.revoked_token_ids, editor_token: r->Some_0, ..before })
                &&& exists|now: u64| issued_for(before.token_secret@, r->Some_0@, before.id@, ClientRole::Editor, #[trigger] sat_add(now, before.token_ttl_secs))
                &&& after.revoked() == match before.revocation_id(before.editor_token@) {
                    Some(x) => before.revoked().insert(x),
                    None => before.revoked(),
                }
                &&& forall|role: ClientRole, t: u64| !#[trigger] after.token_valid(before.editor_token@, role, t)
            },
    {
        let now = now_unix_ts();
        self.rotate_editor_token_at(session_id, now)
    }

    /// Issues an invitation token for `role` in the session with id
    /// `session_id`, living `ttl_secs` (or the session's default) from now.
    pub fn issue_invite_token(&self, session_id: &str, role: ClientRole, ttl_secs: Option<u64>) -> (r: Option<String>)
        requires
            self.wf(),
        ensures
            r is None <==> !self.has(session_id@),
            r is Some ==> {
                let s = self.sessions@[self.pos(session_id@)];
                exists|now: u64| issued_for(s.token_secret@, r->Some_0@, s.id@, role, #[trigger] sat_add(now, ttl_or(ttl_secs, s.token_ttl_secs)))
            },
    {
        let now = now_unix_ts();
        self.issue_invite_token_at(session_id, role, ttl_secs, now)
    }

    /// Drops the sessions that have expired by now; says how many went.
    pub fn cleanup_expired_sessions(&mut self) -> (r: usize)
        requires
            old(self).wf(),
        ensures
            final(self).wf(),
            final(self).ttl_secs == old(self).ttl_secs,
            final(self).token_ttl_secs == old(self).token_ttl_secs,
            exists|now: u64| #[trigger] old(self).cleaned(*final(self), now),
            r == old(self).sessions@.len() - final(self).sessions@.len(),
    {
        let now = now_unix_ts();
        let ghost before = *self;
        let r = self.cleanup_expired_sessions_at(now);
        assert(before.cleaned(*self, now));
        r
    }
}

/// Saving a catalog to a store and reading that store back gives, at each
/// position, a session with the same id, tokens, secret, lifetime,
/// revocations, unsigned-token setting and timestamps, together with the
/// same serialized document.
pub proof fn lemma_store_round_trip(
    m: SessionManager,
    documents: Seq<String>,
    st: PersistedSessionStore,
    loaded: SessionManager,
)
    requires
        m.wf(),
        documents.len() == m.sessions@.len(),
        st.version == Some(SESSION_STORE_SCHEMA_VERSION),
        st.sessions@.len() == m.sessions@.len(),
        forall|i: int| 0 <= i < m.sessions@.len() ==> persisted_from(
            #[trigger] st.sessions@[i],
            m.sessions@[i],
            documents[i],
        ),
        store_ids_unique(st.sessions@) ==> {
            &&& loaded.sessions@.len() == st.sessions@.len()
            &&& forall|i: int| 0 <= i < st.sessions@.len() ==> restored_from(
                #[trigger] loaded.sessions@[i],
                st.sessions@[i],
            )
        },
    ensures
        version_readable(st.version),
        store_ids_unique(st.sessions@),
        loaded.sessions@.len() == m.sessions@.len(),
        forall|i: int| 0 <= i < m.sessions@.len() ==> {
            let a = #[trigger] loaded.sessions@[i];
            let b = m.sessions@[i];
            &&& a.id == b.id
            &&& a.editor_token == b.editor_token
            &&& a.viewer_token == b.viewer_token
            &&& a.token_secret == b.token_secret
            &&& a.token_ttl_secs == b.token_ttl_secs
            &&& a.allow_legacy_tokens == b.allow_legacy_tokens
            &&& a.revoked() == b.revoked()
            &&& a.created_at == b.created_at
            &&& a.last_active_at == b.last_active_at
            &&& st.sessions@[i].document == documents[i]
        },
{
    let ps = st.sessions@;
    assert forall|i: int, j: int| 0 <= i < ps.len() && 0 <= j < ps.len() && i != j implies #[trigger] ps[i].id@
        != #[trigger] ps[j].id@ by {
        assert(persisted_from(ps[i], m.sessions@[i], documents[i]));
        assert(persisted_from(ps[j], m.sessions@[j], documents[j]));
    }
    assert forall|i: int| 0 <= i < m.sessions@.len() implies {
        let a = #[trigger] loaded.sessions@[i];
        let b = m.sessions@[i];
        &&& a.id == b.id
        &&& a.editor_token == b.editor_token
        &&& a.viewer_token == b.viewer_token
        &&& a.token_secret == b.token_secret
        &&& a.token_ttl_secs == b.token_ttl_secs
        &&& a.allow_legacy_tokens == b.allow_legacy_tokens
        &&& a.revoked() == b.revoked()
        &&& a.created_at == b.created_at
        &&& a.last_active_at == b.last_active_at
        &&& st.sessions@[i].document == documents[i]
    } by {
        assert(persisted_from(ps[i], m.sessions@[i], documents[i]));
        assert(restored_from(loaded.sessions@[i], ps[i]));
        crate::store::lemma_persist_round_trip(m.sessions@[i], documents[i], ps[i], loaded.sessions@[i]);
    }
}

/// Why an admin request or a connection attempt was turned away.
#[derive(Clone, Copy, Debug, PartialEq, Eq, Structural)]
pub enum AdminError {
    /// No token was given.
    MissingToken,
    /// The token does not grant what was asked.
    Forbidden,
    /// No session has that id.
    NotFound,
    /// The role named is neither `editor` nor `viewer`.
    BadRole,
}

impl AdminError {
    /// The HTTP status that reports the refusal.
    pub fn status_code(self) -> (r: u16)
        ensures
            r == match self {
                AdminError::MissingToken => 401u16,
                AdminError::Forbidden => 403u16,
                AdminError::NotFound => 404u16,
                AdminError::BadRole => 400u16,
            },
    {
        match self {
            AdminError::MissingToken => 401,
            AdminError::Forbidden => 403,
            AdminError::NotFound => 404,
            AdminError::BadRole => 400,
        }
    }
}

/// The shortest lifetime an invitation may ask for: one minute.
pub const MIN_INVITE_TTL_SECS: u64 = 60;

/// The longest lifetime an invitation may ask for: thirty days.
pub const MAX_INVITE_TTL_SECS: u64 = 2592000;

/// A requested invitation lifetime, held within the allowed bounds.
pub open spec fn clamp_ttl(t: u64) -> u64 {
    if t < MIN_INVITE_TTL_SECS {
        MIN_INVITE_TTL_SECS
    } else if t > MAX_INVITE_TTL_SECS {
        MAX_INVITE_TTL_SECS
    } else {
        t
    }
}

fn clamp_invite_ttl(t: u64) -> (r: u64)
    ensures
        r == clamp_ttl(t),
{
    if t < MIN_INVITE_TTL_SECS {
        MIN_INVITE_TTL_SECS
    } else if t > MAX_INVITE_TTL_SECS {
        MAX_INVITE_TTL_SECS
    } else {
        t
    }
}

impl SessionManager {
    /// Whether the session with id `id` exists and `t` grants `role` in it at `now`.
    pub open spec fn grants(self, id: Seq<char>, t: Seq<char>, role: ClientRole, now: u64) -> bool {
        self.has(id) && self.sessions@[self.pos(id)].token_valid(t, role, now)
    }

    /// Decides a connection attempt at `now`: a token must be given (else
    /// 401), the session must exist (else 404), and the token must grant
    /// the role asked for through the query (`viewer`, or else editing;
    /// else 403). Nothing in the catalog changes.
    pub fn authorize_connection_at(
        &self,
        session_id: &str,
        token: Option<&str>,
        role_query: Option<&str>,
        now: u64,
    ) -> (r: Result<ClientRole, AdminError>)
        requires
            self.wf(),
        ensures
            ({
                let role = if role_query is Some && role_query->Some_0@ == crate::role::viewer_name() {
                    ClientRole::Viewer
                } else {
                    ClientRole::Editor
                };
                r == if token is None || token->Some_0@.len() == 0 {
                    Err(AdminError::MissingToken)
                } else if !self.has(session_id@) {
                    Err(AdminError::NotFound)
                } else if !self.grants(session_id@, token->Some_0@, role, now) {
                    Err(AdminError::Forbidden)
                } else {
                    Ok(role)
                }
            }),
    {
        let t = match token {
            None => return Err(AdminError::MissingToken),
            Some(t) => t,
        };
        if t.is_empty() {
            return Err(AdminError::MissingToken);
        }
        let role = ClientRole::from_query(role_query);
        match self.find(session_id) {
            None => Err(AdminError::NotFound),
            Some(i) => if self.sessions[i].validate_token_at(t, role, now) {
                Ok(role)
            } else {
                Err(AdminError::Forbidden)
            },
        }
    }

    /// Answers a session lookup at `now`: whether the session exists, and
    /// whether the token given (if any, and not empty) grants viewing in
    /// it. An unknown session reports both as false.
    pub fn lookup_at(&self, session_id: &str, token: Option<&str>, now: u64) -> (r: (bool, bool))
        requires
            self.wf(),
        ensures
            r.0 == self.has(session_id@),
            r.1 == (token is Some && token->Some_0@.len() > 0 && self.grants(
                session_id@,
                token->Some_0@,
                ClientRole::Viewer,
                now,
            )),
    {
        match self.find(session_id) {
            None => (false, false),
            Some(i) => match token {
                None => (true, false),
                Some(t) => if t.is_empty() {
                    (true, false)
                } else {
                    (true, self.sessions[i].validate_token_at(t, ClientRole::Viewer, now))
                },
            },
        }
    }

    /// Revokes `token_to_revoke` on behalf of the holder of `editor_token`
    /// at `now`: 404 for an unknown session, 403 unless the editor token
    /// grants editing; otherwise whether the revocation list gained an entry.
    pub fn revoke_with_editor_at(
        &mut self,
        session_id: &str,
        editor_token: &str,
        token_to_revoke: &str,
        now: u64,
    ) -> (r: Result<bool, AdminError>)
        requires
            old(self).wf(),
        ensures
            final(self).wf(),
            !old(self).has(session_id@) ==> r == Err::<bool, AdminError>(AdminError::NotFound),
            old(self).has(session_id@) && !old(self).grants(session_id@, editor_token@, ClientRole::Editor, now)
                ==> r == Err::<bool, AdminError>(AdminError::Forbidden),
            r is Err ==> final(self).sessions@ == old(self).sessions@,
            old(self).grants(session_id@, editor_token@, ClientRole::Editor, now) ==> {
                let p = old(self).pos(session_id@);
                let before = old(self).sessions@[p];
                let after = final(self).sessions@[p];
                &&& r is Ok
                &&& final(self).sessions@ == old(self).sessions@.update(p, after)
                &&& match before.revocation_id(token_to_revoke@) {
                    Some(x) => r->Ok_0 == !before.revoked().contains(x) && after.revoked()
                        == before.revoked().insert(x),
                    None => !r->Ok_0 && after.revoked() == before.revoked(),
                }
            },
    {
        match self.find(session_id) {
            None => return Err(AdminError::NotFound),
            Some(i) => {
                if !self.sessions[i].validate_token_at(editor_token, ClientRole::Editor, now) {
                    return Err(AdminError::Forbidden);
                }
            },
        }
        Ok(self.revoke_token(session_id, token_to_revoke))
    }

    /// Rotates the token of the role named `role_name` on behalf of the
    /// holder of `editor_token` at `now`: 404, 403 as for revocation, 400
    /// for a role name other than `editor` or `viewer`; otherwise the new
    /// token.
    pub fn rotate_with_editor_at(
        &mut self,
        session_id: &str,
        editor_token: &str,
        role_name: &str,
        now: u64,
    ) -> (r: Result<String, AdminError>)
        requires
            old(self).wf(),
        ensures
            final(self).wf(),
            !old(self).has(session_id@) ==> r == Err::<String, AdminError>(AdminError::NotFound),
            old(self).has(session_id@) && !old(self).grants(session_id@, editor_token@, ClientRole::Editor, now)
                ==> r == Err::<String, AdminError>(AdminError::Forbidden),
            old(self).grants(session_id@, editor_token@, ClientRole::Editor, now)
                && crate::role::role_named(role_name@) is None ==> r == Err::<String, AdminError>(AdminError::BadRole),
            r is Err ==> final(self).sessions@ == old(self).sessions@,
            old(self).grants(session_id@, editor_token@, ClientRole::Editor, now)
                && crate::role::role_named(role_name@) is Some ==> {
                let p = old(self).pos(session_id@);
                let before = old(self).sessions@[p];
                let after = final(self).sessions@[p];
                let role = crate::role::role_named(role_name@)->Some_0;
                &&& r is Ok
                &&& final(self).sessions@ == old(self).sessions@.update(p, after)
                &&& issued_for(before.token_secret@, r->Ok_0@, before.id@, role, sat_add(now, before.token_ttl_secs))
                &&& role == ClientRole::Editor ==> after.editor_token == r->Ok_0
                &&& role == ClientRole::Viewer ==> after.viewer_token == r->Ok_0
            },
    {
        match self.find(session_id) {
            None => return Err(AdminError::NotFound),
            Some(i) => {
                if !self.sessions[i].validate_token_at(editor_token, ClientRole::Editor, now) {
                    return Err(AdminError::Forbidden);
                }
            },
        }
        let rotated = match ClientRole::from_name(role_name) {
            None => return Err(AdminError::BadRole),
            Some(ClientRole::Viewer) => self.rotate_viewer_token_at(session_id, now),
            Some(ClientRole::Editor) => self.rotate_editor_token_at(session_id, now),
        };
        match rotated {
            Some(t) => Ok(t),
            None => Err(AdminError::NotFound),
        }
    }

    /// Issues an invitation for the role named `role_name` on behalf of the
    /// holder of `editor_token` at `now`, its lifetime held between one
    /// minute and thirty days (the session's default where none is asked):
    /// 404, 403 and 400 as for rotation; otherwise the token.
    pub fn invite_with_editor_at(
        &self,
        session_id: &str,
        editor_token: &str,
        role_name: &str,
        ttl_secs: Option<u64>,
        now: u64,
    ) -> (r: Result<String, AdminError>)
        requires
            self.wf(),
        ensures
            !self.has(session_id@) ==> r == Err::<String, AdminError>(AdminError::NotFound),
            self.has(session_id@) && !self.grants(session_id@, editor_token@, ClientRole::Editor, now)
                ==> r == Err::<String, AdminError>(AdminError::Forbidden),
            self.grants(session_id@, editor_token@, ClientRole::Editor, now)
                && crate::role::role_named(role_name@) is None ==> r == Err::<String, AdminError>(AdminError::BadRole),
            self.grants(session_id@, editor_token@, ClientRole::Editor, now)
                && crate::role::role_named(role_name@) is Some ==> {
                let s = self.sessions@[self.pos(session_id@)];
                let ttl = match ttl_secs {
                    Some(t) => clamp_ttl(t),
                    None => s.token_ttl_secs,
                };
                &&& r is Ok
                &&& issued_for(s.token_secret@, r->Ok_0@, s.id@, crate::role::role_named(role_name@)->Some_0, sat_add(now, ttl))
            },
    {
        match self.find(session_id) {
            None => return Err(AdminError::NotFound),
            Some(i) => {
                if !self.sessions[i].validate_token_at(editor_token, ClientRole::Editor, now) {
                    return Err(AdminError::Forbidden);
                }
            },
        }
        let role = match ClientRole::from_name(role_name) {
            None => return Err(AdminError::BadRole),
            Some(r) => r,
        };
        let ttl = match ttl_secs {
            Some(t) => Some(clamp_invite_ttl(t)),
            None => None,
        };
        match self.issue_invite_token_at(session_id, role, ttl, now) {
            Some(t) => Ok(t),
            None => Err(AdminError::NotFound),
        }
    }
}

} // verus!
