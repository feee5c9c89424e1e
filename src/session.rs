//! One collaboration room: its roster, the per-client map from local to
//! canonical element ids, the operation sequence, and its token set.

use crate::claims::role_name_bytes;
use crate::claims::TokenClaims;
use crate::outside::fresh_uuid;
use crate::outside::now_unix_ts;
use crate::outside::string_from_utf8;
use crate::text::bytes_eq_constant_time;
use crate::text::contains_str;
use crate::token::read_token;
use crate::token::sign_claims;
use crate::token::token_claims;
use crate::token::token_text;
use vstd::string::*;
use vstd::utf8::decode_utf8;
use vstd::utf8::encode_utf8;
use vstd::utf8::valid_utf8;
use crate::role::ClientInfo;
use crate::role::ClientRole;
use crate::text::str_eq;
use std::collections::HashMap;
use vstd::prelude::*;

verus! {

broadcast use vstd::std_specs::hash::group_hash_axioms;

/// The layout version that new token claims and stores are written in.
pub const SESSION_STORE_SCHEMA_VERSION: u32 = 2;

/// The layout version of the serialized document inside a stored session.
pub const SESSION_DOCUMENT_SCHEMA_VERSION: u32 = 1;

/// How long a token lives unless told otherwise: fourteen days.
pub const DEFAULT_TOKEN_TTL_SECS: u64 = 1209600;

/// `a + b`, or `u64::MAX` where that does not fit.
pub open spec fn sat_add(a: u64, b: u64) -> u64 {
    if a + b > u64::MAX {
        u64::MAX
    } else {
        (a + b) as u64
    }
}

fn saturating_add(a: u64, b: u64) -> (r: u64)
    ensures
        r == sat_add(a, b),
{
    if a > u64::MAX - b {
        u64::MAX
    } else {
        a + b
    }
}

/// A lifetime given, or else the default one.
pub open spec fn ttl_or(ttl: Option<u64>, default: u64) -> u64 {
    match ttl {
        Some(t) => t,
        None => default,
    }
}

/// The revocation-list entry of an unsigned token of an older store.
pub open spec fn legacy_key(t: Seq<char>) -> Seq<char> {
    seq!['l', 'e', 'g', 'a', 'c', 'y', ':'] + t
}

fn legacy_key_of(t: &str) -> (r: String)
    ensures
        r@ == legacy_key(t@),
{
    proof {
        reveal_strlit("legacy:");
    }
    let mut k = String::from_str("legacy:");
    k.append(t);
    assert(k@ =~= legacy_key(t@));
    k
}

/// Whether a token text carries claims for session `sid` granting `role`,
/// expiring at `exp`, in the current layout version.
pub open spec fn issued_for(secret: Seq<char>, t: Seq<char>, sid: Seq<char>, role: ClientRole, exp: u64) -> bool {
    &&& token_claims(secret, t) is Some
    &&& token_claims(secret, t)->Some_0.0 == encode_utf8(sid)
    &&& token_claims(secret, t)->Some_0.1 == role
    &&& token_claims(secret, t)->Some_0.2 == exp
    &&& token_claims(secret, t)->Some_0.4 == SESSION_STORE_SCHEMA_VERSION
    &&& valid_utf8(token_claims(secret, t)->Some_0.3)
    &&& exists|jti: Seq<u8>|
        #[trigger] token_text(secret, (encode_utf8(sid), role, exp, jti, SESSION_STORE_SCHEMA_VERSION))
            == t
}

/// `s` is a session with id `id` freshly created at `now` with token
/// lifetime `ttl`: nobody joined, no id maps, no revocations, no operation
/// drawn, no unsigned tokens, a 72-character secret, and an editor and a
/// viewer token issued at `now`.
pub open spec fn fresh_at(s: Session, id: Seq<char>, ttl: u64, now: u64) -> bool {
    &&& s.wf()
    &&& s.id@ == id
    &&& s.token_secret@.len() == 72
    &&& s.token_ttl_secs == ttl
    &&& !s.allow_legacy_tokens
    &&& s.created_at == now
    &&& s.last_active_at == now
    &&& s.operation_seq == 0
    &&& s.clients@.len() == 0
    &&& s.client_id_maps@.len() == 0
    &&& s.revoked() == Set::<Seq<char>>::empty()
    &&& issued_for(s.token_secret@, s.editor_token@, id, ClientRole::Editor, sat_add(now, ttl))
    &&& issued_for(s.token_secret@, s.viewer_token@, id, ClientRole::Viewer, sat_add(now, ttl))
}

/// The unique id of a signed token, as text.
pub open spec fn token_jti(secret: Seq<char>, t: Seq<char>) -> Seq<char> {
    decode_utf8(token_claims(secret, t)->Some_0.3)
}

/// The local-to-canonical id map of one client.
#[derive(Debug)]
pub struct ClientIdMap {
    pub client_id: String,
    pub ids: HashMap<u64, u64>,
}

/// One collaboration room. The document itself lives beside it; the
/// session holds everything that decides who may do what and in which
/// order.
#[derive(Debug)]
pub struct Session {
    pub id: String,
    pub clients: Vec<ClientInfo>,
    pub client_id_maps: Vec<ClientIdMap>,
    pub operation_seq: u64,
    pub editor_token: String,
    pub viewer_token: String,
    pub token_secret: String,
    pub token_ttl_secs: u64,
    pub revoked_token_ids: Vec<String>,
    pub allow_legacy_tokens: bool,
    pub created_at: u64,
    pub last_active_at: u64,
}

/// Whether some roster entry has id `id`.
pub open spec fn roster_has(clients: Seq<ClientInfo>, id: Seq<char>) -> bool {
    exists|i: int| 0 <= i < clients.len() && #[trigger] clients[i].id@ == id
}

/// Where the roster entry with id `id` stands.
pub open spec fn roster_pos(clients: Seq<ClientInfo>, id: Seq<char>) -> int {
    choose|i: int| 0 <= i < clients.len() && #[trigger] clients[i].id@ == id
}

/// Roster ids are unique.
pub open spec fn roster_unique(clients: Seq<ClientInfo>) -> bool {
    forall|i: int, j: int|
        0 <= i < clients.len() && 0 <= j < clients.len() && i != j ==> #[trigger] clients[i].id@
            != #[trigger] clients[j].id@
}

/// The roster after inserting `info`: an entry with the same id is
/// replaced in place, otherwise the entry is appended.
pub open spec fn roster_insert(clients: Seq<ClientInfo>, info: ClientInfo) -> Seq<ClientInfo> {
    if roster_has(clients, info.id@) {
        clients.update(roster_pos(clients, info.id@), info)
    } else {
        clients.push(info)
    }
}

/// The roster without the entry with id `id`.
pub open spec fn roster_remove(clients: Seq<ClientInfo>, id: Seq<char>) -> Seq<ClientInfo> {
    if roster_has(clients, id) {
        clients.remove(roster_pos(clients, id))
    } else {
        clients
    }
}

/// Whether some id map belongs to client `id`.
pub open spec fn maps_have(maps: Seq<ClientIdMap>, id: Seq<char>) -> bool {
    exists|i: int| 0 <= i < maps.len() && #[trigger] maps[i].client_id@ == id
}

/// Where the id map of client `id` stands.
pub open spec fn maps_pos(maps: Seq<ClientIdMap>, id: Seq<char>) -> int {
    choose|i: int| 0 <= i < maps.len() && #[trigger] maps[i].client_id@ == id
}

/// The id map of client `id`; empty for a client that has none.
pub open spec fn map_of(maps: Seq<ClientIdMap>, id: Seq<char>) -> Map<u64, u64> {
    if maps_have(maps, id) {
        maps[maps_pos(maps, id)].ids@
    } else {
        Map::empty()
    }
}

/// Id-map owners are unique.
pub open spec fn maps_unique(maps: Seq<ClientIdMap>) -> bool {
    forall|i: int, j: int|
        0 <= i < maps.len() && 0 <= j < maps.len() && i != j ==> #[trigger] maps[i].client_id@
            != #[trigger] maps[j].client_id@
}

/// The id resolution rule: a mapped local id becomes its canonical id,
/// any other id stays as it is.
pub open spec fn resolve_in(m: Map<u64, u64>, incoming: u64) -> u64 {
    if m.contains_key(incoming) {
        m[incoming]
    } else {
        incoming
    }
}

proof fn lemma_roster_pos(clients: Seq<ClientInfo>, i: int)
    requires
        roster_unique(clients),
        0 <= i < clients.len(),
    ensures
        roster_has(clients, clients[i].id@),
        roster_pos(clients, clients[i].id@) == i,
{
    assert(roster_has(clients, clients[i].id@));
}

proof fn lemma_maps_pos(maps: Seq<ClientIdMap>, i: int)
    requires
        maps_unique(maps),
        0 <= i < maps.len(),
    ensures
        maps_have(maps, maps[i].client_id@),
        maps_pos(maps, maps[i].client_id@) == i,
{
    assert(maps_have(maps, maps[i].client_id@));
}

/// Where the roster entry with id `id` stands in `clients`, if any.
fn find_client(clients: &Vec<ClientInfo>, id: &str) -> (r: Option<usize>)
    requires
        roster_unique(clients@),
    ensures
        match r {
            None => !roster_has(clients@, id@),
            Some(i) => i < clients@.len() && clients@[i as int].id@ == id@ && roster_pos(
                clients@,
                id@,
            ) == i,
        },
{
    let mut i: usize = 0;
    while i < clients.len()
        invariant
            roster_unique(clients@),
            i <= clients@.len(),
            forall|j: int| 0 <= j < i ==> #[trigger] clients@[j].id@ != id@,
        decreases clients@.len() - i,
    {
        if str_eq(clients[i].id.as_str(), id) {
            proof {
                lemma_roster_pos(clients@, i as int);
            }
            return Some(i);
        }
        i += 1;
    }
    None
}

/// Where the id map of client `id` stands in `maps`, if any.
fn find_map(maps: &Vec<ClientIdMap>, id: &str) -> (r: Option<usize>)
    requires
        maps_unique(maps@),
    ensures
        match r {
            None => !maps_have(maps@, id@),
            Some(i) => i < maps@.len() && maps@[i as int].client_id@ == id@ && maps_pos(
                maps@,
                id@,
            ) == i,
        },
{
    let mut i: usize = 0;
    while i < maps.len()
        invariant
            maps_unique(maps@),
            i <= maps@.len(),
            forall|j: int| 0 <= j < i ==> #[trigger] maps@[j].client_id@ != id@,
        decreases maps@.len() - i,
    {
        if str_eq(maps[i].client_id.as_str(), id) {
            proof {
                lemma_maps_pos(maps@, i as int);
            }
            return Some(i);
        }
        i += 1;
    }
    None
}

impl Session {
    /// Roster and id maps are keyed uniquely, every roster entry has an id
    /// map, and the revocation list holds each id once.
    pub open spec fn wf(self) -> bool {
        &&& roster_unique(self.clients@)
        &&& maps_unique(self.client_id_maps@)
        &&& forall|i: int|
            0 <= i < self.clients@.len() ==> maps_have(
                self.client_id_maps@,
                #[trigger] self.clients@[i].id@,
            )
        &&& forall|i: int, j: int|
            0 <= i < self.revoked_token_ids@.len() && 0 <= j < self.revoked_token_ids@.len() && i
                != j ==> #[trigger] self.revoked_token_ids@[i]@
                != #[trigger] self.revoked_token_ids@[j]@
    }

    /// The id map of client `id`.
    pub open spec fn id_map(self, id: Seq<char>) -> Map<u64, u64> {
        map_of(self.client_id_maps@, id)
    }

    /// The ids in the revocation list.
    pub open spec fn revoked(self) -> Set<Seq<char>> {
        Set::new(
            |s: Seq<char>|
                exists|i: int|
                    0 <= i < self.revoked_token_ids@.len() && #[trigger] self.revoked_token_ids@[i]@
                        == s,
        )
    }

    /// Everything but the roster, the id maps and the activity time is as
    /// in `o`.
    pub open spec fn same_tokens_and_seq(self, o: Session) -> bool {
        &&& self.id == o.id
        &&& self.operation_seq == o.operation_seq
        &&& self.editor_token == o.editor_token
        &&& self.viewer_token == o.viewer_token
        &&& self.token_secret == o.token_secret
        &&& self.token_ttl_secs == o.token_ttl_secs
        &&& self.revoked_token_ids == o.revoked_token_ids
        &&& self.allow_legacy_tokens == o.allow_legacy_tokens
        &&& self.created_at == o.created_at
    }

    /// Records activity at time `now`.
    pub fn touch_at(&mut self, now: u64)
        ensures
            *final(self) == (Session { last_active_at: now, ..*old(self) }),
    {
        self.last_active_at = now;
    }

    /// Records activity now.
    pub fn touch(&mut self)
        ensures
            final(self).same_tokens_and_seq(*old(self)),
            final(self).clients == old(self).clients,
            final(self).client_id_maps == old(self).client_id_maps,
    {
        let now = now_unix_ts();
        self.touch_at(now);
    }

    /// Adds a client to the roster, or replaces the entry with its id, and
    /// gives it an empty id map unless it has one; records activity now.
    pub fn add_client(&mut self, client_id: String, name: String, color: String, role: ClientRole)
        requires
            old(self).wf(),
        ensures
            final(self).wf(),
            final(self).clients@ == roster_insert(
                old(self).clients@,
                ClientInfo { id: client_id, name, color, role },
            ),
            maps_have(final(self).client_id_maps@, client_id@),
            final(self).client_id_maps@.len() == old(self).client_id_maps@.len() + (if maps_have(
                old(self).client_id_maps@,
                client_id@,
            ) {
                0int
            } else {
                1int
            }),
            forall|k: Seq<char>| #[trigger] final(self).id_map(k) == old(self).id_map(k),
            final(self).same_tokens_and_seq(*old(self)),
    {
        let ghost old_self = *self;
        let key = client_id.clone();
        let info = ClientInfo { id: client_id, name, color, role };
        match find_client(&self.clients, key.as_str()) {
            Some(i) => {
                self.clients.set(i, info);
            },
            None => {
                self.clients.push(info);
            },
        }
        match find_map(&self.client_id_maps, key.as_str()) {
            Some(_) => {},
            None => {
                self.client_id_maps.push(ClientIdMap { client_id: key, ids: HashMap::new() });
            },
        }
        let now = now_unix_ts();
        self.touch_at(now);
        proof {
            let c = self.clients@;
            let oc = old_self.clients@;
            assert forall|a: int, b: int| 0 <= a < c.len() && 0 <= b < c.len() && a != b implies #[trigger] c[a].id@
                != #[trigger] c[b].id@ by {
                if roster_has(oc, key@) {
                    let p = roster_pos(oc, key@);
                    if a != p && b != p {
                        assert(c[a] == oc[a] && c[b] == oc[b]);
                    }
                } else {
                    if a < oc.len() && b < oc.len() {
                        assert(c[a] == oc[a] && c[b] == oc[b]);
                    } else if a < oc.len() {
                        assert(c[a] == oc[a]);
                    } else {
                        assert(c[b] == oc[b]);
                    }
                }
            }
            let m = self.client_id_maps@;
            let om = old_self.client_id_maps@;
            assert forall|a: int, b: int| 0 <= a < m.len() && 0 <= b < m.len() && a != b implies #[trigger] m[a].client_id@
                != #[trigger] m[b].client_id@ by {
                if !maps_have(om, key@) {
                    if a < om.len() && b < om.len() {
                        assert(m[a] == om[a] && m[b] == om[b]);
                    } else if a < om.len() {
                        assert(m[a] == om[a]);
                    } else {
                        assert(m[b] == om[b]);
                    }
                }
            }
            if !maps_have(om, key@) {
                assert(m[m.len() - 1].client_id@ == key@);
                assert(maps_have(m, key@));
            }
            assert forall|i: int| 0 <= i < c.len() implies maps_have(m, #[trigger] c[i].id@) by {
                if c[i].id@ != key@ {
                    assert(c[i] == oc[i]);
                    assert(maps_have(om, oc[i].id@));
                    let j = maps_pos(om, oc[i].id@);
                    if !maps_have(om, key@) {
                        assert(m[j] == om[j]);
                    }
                } else {
                    if maps_have(om, key@) {
                        assert(m == om);
                    }
                }
            }
            assert forall|k: Seq<char>| #[trigger] map_of(m, k) == map_of(om, k) by {
                if !maps_have(om, key@) {
                    let n = om.len() as int;
                    if k == key@ {
                        lemma_maps_pos(m, n);
                        assert(m[n].ids@ == Map::<u64, u64>::empty());
                    } else if maps_have(om, k) {
                        let j = maps_pos(om, k);
                        lemma_maps_pos(om, j);
                        assert(m[j] == om[j]);
                        lemma_maps_pos(m, j);
                    } else {
                        if maps_have(m, k) {
                            let j = maps_pos(m, k);
                            if j < n {
                                assert(m[j] == om[j]);
                            }
                        }
                    }
                }
            }
        }
    }

    /// Takes a client off the roster and drops its id map.
    pub fn remove_client(&mut self, client_id: &str)
        requires
            old(self).wf(),
        ensures
            final(self).wf(),
            final(self).clients@ == roster_remove(old(self).clients@, client_id@),
            !maps_have(final(self).client_id_maps@, client_id@),
            forall|k: Seq<char>| k != client_id@ ==> #[trigger] final(self).id_map(k) == old(self).id_map(k),
            final(self).same_tokens_and_seq(*old(self)),
    {
        let ghost old_self = *self;
        match find_client(&self.clients, client_id) {
            Some(i) => {
                self.clients.remove(i);
            },
            None => {},
        }
        let found = find_map(&self.client_id_maps, client_id);
        match found {
            Some(i) => {
                self.client_id_maps.remove(i);
            },
            None => {},
        }
        let now = now_unix_ts();
        self.touch_at(now);
        proof {
            let c = self.clients@;
            let oc = old_self.clients@;
            let m = self.client_id_maps@;
            let om = old_self.client_id_maps@;
            let p = roster_pos(oc, client_id@);
            let q = maps_pos(om, client_id@);
            assert forall|a: int, b: int| 0 <= a < c.len() && 0 <= b < c.len() && a != b implies #[trigger] c[a].id@
                != #[trigger] c[b].id@ by {
                if roster_has(oc, client_id@) {
                    let oa = if a < p { a } else { a + 1 };
                    let ob = if b < p { b } else { b + 1 };
                    assert(c[a] == oc[oa] && c[b] == oc[ob]);
                }
            }
            assert forall|a: int, b: int| 0 <= a < m.len() && 0 <= b < m.len() && a != b implies #[trigger] m[a].client_id@
                != #[trigger] m[b].client_id@ by {
                if maps_have(om, client_id@) {
                    let oa = if a < q { a } else { a + 1 };
                    let ob = if b < q { b } else { b + 1 };
                    assert(m[a] == om[oa] && m[b] == om[ob]);
                }
            }
            assert(!maps_have(m, client_id@)) by {
                if maps_have(m, client_id@) {
                    let j = maps_pos(m, client_id@);
                    if maps_have(om, client_id@) {
                        let oj = if j < q { j } else { j + 1 };
                        assert(m[j] == om[oj]);
                    } else {
                        assert(m[j] == om[j]);
                    }
                }
            }
            assert forall|i: int| 0 <= i < c.len() implies maps_have(m, #[trigger] c[i].id@) by {
                let oi = if roster_has(oc, client_id@) && i >= p { i + 1 } else { i };
                assert(c[i] == oc[oi]);
                assert(maps_have(om, oc[oi].id@));
                let j = maps_pos(om, oc[oi].id@);
                if maps_have(om, client_id@) {
                    assert(j != q);
                    let nj = if j < q { j } else { j - 1 };
                    assert(m[nj] == om[j]);
                } else {
                    assert(m[j] == om[j]);
                }
            }
            assert forall|k: Seq<char>| k != client_id@ implies #[trigger] map_of(m, k) == map_of(om, k) by {
                if maps_have(om, k) {
                    let j = maps_pos(om, k);
                    lemma_maps_pos(om, j);
                    let nj = if maps_have(om, client_id@) && j > q { j - 1 } else { j };
                    assert(m[nj] == om[j]);
                    lemma_maps_pos(m, nj);
                } else if maps_have(m, k) {
                    let nj = maps_pos(m, k);
                    let j = if maps_have(om, client_id@) && nj >= q { nj + 1 } else { nj };
                    assert(m[nj] == om[j]);
                }
            }
        }
    }

    /// The roster, in the order the entries were added.
    pub fn get_clients(&self) -> (r: Vec<ClientInfo>)
        ensures
            r@ == self.clients@,
    {
        let mut out: Vec<ClientInfo> = Vec::new();
        let mut i: usize = 0;
        while i < self.clients.len()
            invariant
                i <= self.clients@.len(),
                out@ == self.clients@.subrange(0, i as int),
            decreases self.clients@.len() - i,
        {
            out.push(self.clients[i].clone());
            i += 1;
            assert(out@ =~= self.clients@.subrange(0, i as int));
        }
        assert(self.clients@.subrange(0, self.clients@.len() as int) =~= self.clients@);
        out
    }

    /// Draws the next operation sequence number: one past the last one.
    pub fn next_operation_seq(&mut self) -> (r: u64)
        requires
            old(self).operation_seq < u64::MAX,
        ensures
            r == old(self).operation_seq + 1,
            *final(self) == (Session { operation_seq: r, ..*old(self) }),
    {
        self.operation_seq = self.operation_seq + 1;
        self.operation_seq
    }

    /// Records that `local_id` of client `client_id` stands for
    /// `canonical_id`, creating the client's id map if needed.
    pub fn map_client_local_id(&mut self, client_id: &str, local_id: u64, canonical_id: u64)
        requires
            old(self).wf(),
        ensures
            final(self).wf(),
            final(self).clients == old(self).clients,
            final(self).id_map(client_id@) == old(self).id_map(client_id@).insert(local_id, canonical_id),
            forall|k: Seq<char>| k != client_id@ ==> #[trigger] final(self).id_map(k) == old(self).id_map(k),
            maps_have(final(self).client_id_maps@, client_id@),
            final(self).same_tokens_and_seq(*old(self)),
    {
        let ghost old_self = *self;
        let mut entry = match find_map(&self.client_id_maps, client_id) {
            Some(i) => self.client_id_maps.remove(i),
            None => ClientIdMap { client_id: client_id.to_owned(), ids: HashMap::new() },
        };
        let ghost removed = self.client_id_maps@;
        entry.ids.insert(local_id, canonical_id);
        self.client_id_maps.push(entry);
        let now = now_unix_ts();
        self.touch_at(now);
        proof {
            let m = self.client_id_maps@;
            let om = old_self.client_id_maps@;
            let q = maps_pos(om, client_id@);
            let had = maps_have(om, client_id@);
            let n = m.len() - 1;
            assert forall|j: int| 0 <= j < n implies #[trigger] m[j] == om[if had && j >= q { j + 1 } else { j }] by {
                assert(m[j] == removed[j]);
            }
            assert forall|a: int, b: int| 0 <= a < m.len() && 0 <= b < m.len() && a != b implies #[trigger] m[a].client_id@
                != #[trigger] m[b].client_id@ by {
                if a < n && b < n {
                    let oa = if had && a >= q { a + 1 } else { a };
                    let ob = if had && b >= q { b + 1 } else { b };
                    assert(m[a] == om[oa] && m[b] == om[ob]);
                } else if a < n {
                    let oa = if had && a >= q { a + 1 } else { a };
                    assert(m[a] == om[oa]);
                    if had {
                        assert(oa != q);
                    }
                } else if b < n {
                    let ob = if had && b >= q { b + 1 } else { b };
                    assert(m[b] == om[ob]);
                    if had {
                        assert(ob != q);
                    }
                }
            }
            lemma_maps_pos(m, n);
            assert forall|i: int| 0 <= i < self.clients@.len() implies maps_have(m, #[trigger] self.clients@[i].id@) by {
                let k = self.clients@[i].id@;
                if k != client_id@ {
                    assert(maps_have(om, k));
                    let j = maps_pos(om, k);
                    let nj = if had && j > q { j - 1 } else { j };
                    assert(m[nj] == om[j]);
                }
            }
            assert forall|k: Seq<char>| k != client_id@ implies #[trigger] map_of(m, k) == map_of(om, k) by {
                if maps_have(om, k) {
                    let j = maps_pos(om, k);
                    lemma_maps_pos(om, j);
                    let nj = if had && j > q { j - 1 } else { j };
                    assert(m[nj] == om[j]);
                    lemma_maps_pos(m, nj);
                } else if maps_have(m, k) {
                    let nj = maps_pos(m, k);
                    if nj < n {
                        let j = if had && nj >= q { nj + 1 } else { nj };
                        assert(m[nj] == om[j]);
                    }
                }
            }
            if had {
                lemma_maps_pos(om, q);
            }
        }
    }

    /// The canonical id that `incoming_id` from client `client_id` stands
    /// for: its mapping if it has one, else the id itself.
    pub fn resolve_client_id(&self, client_id: &str, incoming_id: u64) -> (r: u64)
        requires
            self.wf(),
        ensures
            r == resolve_in(self.id_map(client_id@), incoming_id),
    {
        match find_map(&self.client_id_maps, client_id) {
            None => incoming_id,
            Some(i) => match self.client_id_maps[i].ids.get(&incoming_id) {
                Some(c) => *c,
                None => incoming_id,
            },
        }
    }

    /// Whether the roster records client `client_id` as an editor.
    pub fn can_client_edit(&self, client_id: &str) -> (r: bool)
        requires
            self.wf(),
        ensures
            r == (roster_has(self.clients@, client_id@) && self.clients@[roster_pos(
                self.clients@,
                client_id@,
            )].role == ClientRole::Editor),
    {
        match find_client(&self.clients, client_id) {
            None => false,
            Some(i) => match self.clients[i].role {
                ClientRole::Editor => true,
                ClientRole::Viewer => false,
            },
        }
    }

    /// Whether token `t` grants `role` in this session at time `now`. A
    /// signed token must name this session, expire after `now`, not be
    /// revoked, and grant a role that covers `role`. A text that is no
    /// signed token of this session counts only where unsigned tokens are
    /// allowed: then it must be the current editor token, or for viewing
    /// the current viewer token, and not revoked.
    pub open spec fn token_valid(self, t: Seq<char>, role: ClientRole, now: u64) -> bool {
        match token_claims(self.token_secret@, t) {
            Some(c) => c.0 == encode_utf8(self.id@) && now < c.2 && valid_utf8(c.3)
                && !self.revoked().contains(decode_utf8(c.3)) && c.1.covers_spec(role),
            None => self.allow_legacy_tokens && !self.revoked().contains(legacy_key(t)) && (t
                == self.editor_token@ || (role == ClientRole::Viewer && t == self.viewer_token@)),
        }
    }

    /// The revocation-list entry that revoking `t` adds, if `t` can be
    /// revoked here: the unique id of a signed token of this session, or
    /// the legacy entry of a current unsigned token.
    pub open spec fn revocation_id(self, t: Seq<char>) -> Option<Seq<char>> {
        match token_claims(self.token_secret@, t) {
            Some(c) => if c.0 == encode_utf8(self.id@) && valid_utf8(c.3) {
                Some(decode_utf8(c.3))
            } else {
                None
            },
            None => if self.allow_legacy_tokens && (t == self.editor_token@ || t
                == self.viewer_token@) {
                Some(legacy_key(t))
            } else {
                None
            },
        }
    }

    /// Whether `token` grants `role` at time `now`.
    pub fn validate_token_at(&self, token: &str, role: ClientRole, now: u64) -> (r: bool)
        ensures
            r == self.token_valid(token@, role, now),
    {
        match read_token(self.token_secret.as_str(), token) {
            Some(c) => {
                let TokenClaims { sid, role: granted, exp, jti, version: _ } = c;
                if !bytes_eq_constant_time(sid.as_slice(), self.id.as_str().as_bytes()) {
                    return false;
                }
                if !(now < exp) {
                    return false;
                }
                let jti_text = match string_from_utf8(jti) {
                    None => return false,
                    Some(j) => j,
                };
                if contains_str(&self.revoked_token_ids, jti_text.as_str()) {
                    return false;
                }
                granted.covers(role)
            },
            None => {
                if !self.allow_legacy_tokens {
                    return false;
                }
                let key = legacy_key_of(token);
                if contains_str(&self.revoked_token_ids, key.as_str()) {
                    return false;
                }
                if str_eq(token, self.editor_token.as_str()) {
                    return true;
                }
                match role {
                    ClientRole::Viewer => str_eq(token, self.viewer_token.as_str()),
                    ClientRole::Editor => false,
                }
            },
        }
    }

    /// Whether `token` grants `role` now.
    pub fn validate_token_for_role(&self, token: &str, role: ClientRole) -> (r: bool)
        ensures
            exists|now: u64| r == self.token_valid(token@, role, now),
    {
        let now = now_unix_ts();
        self.validate_token_at(token, role, now)
    }

    /// Whether `token` grants at least viewing now.
    pub fn validate_any_token(&self, token: &str) -> (r: bool)
        ensures
            exists|now: u64| r == self.token_valid(token@, ClientRole::Viewer, now),
    {
        self.validate_token_for_role(token, ClientRole::Viewer)
    }

    /// Issues a signed token for `role`, living `ttl_secs` (or the
    /// session's default) from `now`, under a fresh unique id.
    pub fn issue_token_at(&self, role: ClientRole, ttl_secs: Option<u64>, now: u64) -> (r: String)
        ensures
            issued_for(
                self.token_secret@,
                r@,
                self.id@,
                role,
                sat_add(now, ttl_or(ttl_secs, self.token_ttl_secs)),
            ),
    {
        let ttl = match ttl_secs {
            Some(t) => t,
            None => self.token_ttl_secs,
        };
        let jti = fresh_uuid();
        let claims = TokenClaims {
            sid: self.id.as_str().as_bytes_vec(),
            role,
            exp: saturating_add(now, ttl),
            jti: jti.as_str().as_bytes_vec(),
            version: SESSION_STORE_SCHEMA_VERSION,
        };
        proof {
            vstd::utf8::encode_utf8_valid_utf8(jti@);
        }
        let r = sign_claims(self.token_secret.as_str(), &claims);
        assert(token_text(self.token_secret@, (encode_utf8(self.id@), role, claims.exp, claims.jti@, SESSION_STORE_SCHEMA_VERSION)) == r@);
        r
    }

    /// Issues a signed token for `role` that lives `ttl_secs` (or the
    /// session's default) from now.
    pub fn issue_token_for_role(&self, role: ClientRole, ttl_secs: Option<u64>) -> (r: String)
        ensures
            exists|now: u64|
                issued_for(
                    self.token_secret@,
                    r@,
                    self.id@,
                    role,
                    #[trigger] sat_add(now, ttl_or(ttl_secs, self.token_ttl_secs)),
                ),
    {
        let now = now_unix_ts();
        self.issue_token_at(role, ttl_secs, now)
    }

    fn insert_revoked(&mut self, x: String) -> (r: bool)
        requires
            old(self).wf(),
        ensures
            final(self).wf(),
            r == !old(self).revoked().contains(x@),
            final(self).revoked() == old(self).revoked().insert(x@),
            *final(self) == (Session { revoked_token_ids: final(self).revoked_token_ids, ..*old(self) }),
    {
        if contains_str(&self.revoked_token_ids, x.as_str()) {
            proof {
                assert(self.revoked().contains(x@));
                assert(self.revoked().insert(x@) =~= self.revoked());
            }
            return false;
        }
        let ghost old_self = *self;
        self.revoked_token_ids.push(x);
        proof {
            let v = self.revoked_token_ids@;
            let ov = old_self.revoked_token_ids@;
            assert(!old_self.revoked().contains(v[ov.len() as int]@));
            assert forall|q: Seq<char>| #[trigger] self.revoked().contains(q) == old_self.revoked().insert(x@).contains(q) by {
                if old_self.revoked().contains(q) {
                    let i = choose|i: int| 0 <= i < ov.len() && #[trigger] ov[i]@ == q;
                    assert(v[i] == ov[i]);
                }
                if self.revoked().contains(q) {
                    let i = choose|i: int| 0 <= i < v.len() && #[trigger] v[i]@ == q;
                    if i < ov.len() {
                        assert(v[i] == ov[i]);
                        assert(old_self.revoked().contains(q));
                    }
                }
                if q == x@ {
                    assert(v[ov.len() as int]@ == q);
                }
            }
            assert(self.revoked() =~= old_self.revoked().insert(x@));
            assert forall|a: int, b: int| 0 <= a < v.len() && 0 <= b < v.len() && a != b implies #[trigger] v[a]@
                != #[trigger] v[b]@ by {
                if a < ov.len() && b < ov.len() {
                    assert(v[a] == ov[a] && v[b] == ov[b]);
                } else if a < ov.len() {
                    assert(v[a] == ov[a]);
                    assert(old_self.revoked().contains(ov[a]@));
                } else if b < ov.len() {
                    assert(v[b] == ov[b]);
                    assert(old_self.revoked().contains(ov[b]@));
                }
            }
        }
        true
    }

    /// Revokes `token` if it is a signed token of this session or a current
    /// unsigned one where those are allowed, and says whether the
    /// revocation list gained an entry.
    pub fn revoke_token(&mut self, token: &str) -> (r: bool)
        requires
            old(self).wf(),
        ensures
            final(self).wf(),
            *final(self) == (Session { revoked_token_ids: final(self).revoked_token_ids, ..*old(self) }),
            match old(self).revocation_id(token@) {
                Some(x) => r == !old(self).revoked().contains(x) && final(self).revoked()
                    == old(self).revoked().insert(x),
                None => !r && final(self).revoked() == old(self).revoked(),
            },
    {
        match read_token(self.token_secret.as_str(), token) {
            Some(c) => {
                let TokenClaims { sid, role: _, exp: _, jti, version: _ } = c;
                if !bytes_eq_constant_time(sid.as_slice(), self.id.as_str().as_bytes()) {
                    return false;
                }
                match string_from_utf8(jti) {
                    None => false,
                    Some(j) => self.insert_revoked(j),
                }
            },
            None => {
                if self.allow_legacy_tokens && (str_eq(token, self.editor_token.as_str()) || str_eq(
                    token,
                    self.viewer_token.as_str(),
                )) {
                    let key = legacy_key_of(token);
                    self.insert_revoked(key)
                } else {
                    false
                }
            },
        }
    }

    /// Revokes the current viewer token and issues a new one from `now`.
    pub fn rotate_viewer_token_at(&mut self, now: u64) -> (r: String)
        requires
            old(self).wf(),
        ensures
            final(self).wf(),
            final(self).viewer_token == r,
            *final(self) == (Session {
                revoked_token_ids: final(self).revoked_token_ids,
                viewer_token: r,
                ..*old(self)
            }),
            final(self).revoked() == match old(self).revocation_id(old(self).viewer_token@) {
                Some(x) => old(self).revoked().insert(x),
                None => old(self).revoked(),
            },
            issued_for(old(self).token_secret@, r@, old(self).id@, ClientRole::Viewer, sat_add(now, old(self).token_ttl_secs)),
    {
        let previous = self.viewer_token.clone();
        let _ = self.revoke_token(previous.as_str());
        let next = self.issue_token_at(ClientRole::Viewer, None, now);
        self.viewer_token = next.clone();
        next
    }

    /// Revokes the current editor token and issues a new one from `now`.
    /// The previous editor token grants nothing afterwards.
    pub fn rotate_editor_token_at(&mut self, now: u64) -> (r: String)
        requires
            old(self).wf(),
        ensures
            final(self).wf(),
            final(self).editor_token == r,
            *final(self) == (Session {
                revoked_token_ids: final(self).revoked_token_ids,
                editor_token: r,
                ..*old(self)
            }),
            final(self).revoked() == match old(self).revocation_id(old(self).editor_token@) {
                Some(x) => old(self).revoked().insert(x),
                None => old(self).revoked(),
            },
            issued_for(old(self).token_secret@, r@, old(self).id@, ClientRole::Editor, sat_add(now, old(self).token_ttl_secs)),
            forall|role: ClientRole, t: u64| !#[trigger] final(self).token_valid(old(self).editor_token@, role, t),
    {
        let previous = self.editor_token.clone();
        let _ = self.revoke_token(previous.as_str());
        let next = self.issue_token_at(ClientRole::Editor, None, now);
        self.editor_token = next.clone();
        proof {
            let t = previous@;
            let f = *self;
            assert forall|role: ClientRole, when: u64| !#[trigger] f.token_valid(t, role, when) by {
                match token_claims(f.token_secret@, t) {
                    Some(c) => {},
                    None => {
                        if f.allow_legacy_tokens {
                            assert(f.revoked().contains(legacy_key(t)));
                        }
                    },
                }
            }
        }
        next
    }

    /// Revokes the current viewer token and issues a new one.
    pub fn rotate_viewer_token(&mut self) -> (r: String)
        requires
            old(self).wf(),
        ensures
            final(self).wf(),
            final(self).viewer_token == r,
            *final(self) == (Session {
                revoked_token_ids: final(self).revoked_token_ids,
                viewer_token: r,
                ..*old(self)
            }),
            final(self).revoked() == match old(self).revocation_id(old(self).viewer_token@) {
                Some(x) => old(self).revoked().insert(x),
                None => old(self).revoked(),
            },
            exists|now: u64|
                issued_for(old(self).token_secret@, r@, old(self).id@, ClientRole::Viewer, #[trigger] sat_add(now, old(self).token_ttl_secs)),
    {
        let now = now_unix_ts();
        self.rotate_viewer_token_at(now)
    }

    /// Revokes the current editor token and issues a new one.
    pub fn rotate_editor_token(&mut self) -> (r: String)
        requires
            old(self).wf(),
        ensures
            final(self).wf(),
            final(self).editor_token == r,
            *final(self) == (Session {
                revoked_token_ids: final(self).revoked_token_ids,
                editor_token: r,
                ..*old(self)
            }),
            final(self).revoked() == match old(self).revocation_id(old(self).editor_token@) {
                Some(x) => old(self).revoked().insert(x),
                None => old(self).revoked(),
            },
            exists|now: u64|
                issued_for(old(self).token_secret@, r@, old(self).id@, ClientRole::Editor, #[trigger] sat_add(now, old(self).token_ttl_secs)),
            forall|role: ClientRole, t: u64| !#[trigger] final(self).token_valid(old(self).editor_token@, role, t),
    {
        let now = now_unix_ts();
        self.rotate_editor_token_at(now)
    }

    /// A session with the given secret, tokens, revocation list and
    /// timestamps, an empty roster, and no operation drawn yet.
    pub fn new_with_timestamps(
        id: String,
        token_secret: String,
        token_ttl_secs: u64,
        editor_token: String,
        viewer_token: String,
        allow_legacy_tokens: bool,
        revoked_token_ids: Vec<String>,
        created_at: u64,
        last_active_at: u64,
    ) -> (r: Session)
        ensures
            r.wf(),
            r.id == id,
            r.token_secret == token_secret,
            r.token_ttl_secs == token_ttl_secs,
            r.editor_token == editor_token,
            r.viewer_token == viewer_token,
            r.allow_legacy_tokens == allow_legacy_tokens,
            r.created_at == created_at,
            r.last_active_at == last_active_at,
            r.operation_seq == 0,
            r.clients@.len() == 0,
            r.client_id_maps@.len() == 0,
            forall|x: Seq<char>| #[trigger] r.revoked().contains(x) <==> exists|i: int|
                0 <= i < revoked_token_ids@.len() && #[trigger] revoked_token_ids@[i]@ == x,
    {
        let mut s = Session {
            id,
            clients: Vec::new(),
            client_id_maps: Vec::new(),
            operation_seq: 0,
            editor_token,
            viewer_token,
            token_secret,
            token_ttl_secs,
            revoked_token_ids: Vec::new(),
            allow_legacy_tokens,
            created_at,
            last_active_at,
        };
        let mut i: usize = 0;
        while i < revoked_token_ids.len()
            invariant
                i <= revoked_token_ids@.len(),
                s.wf(),
                s.id == id,
                s.token_secret == token_secret,
                s.token_ttl_secs == token_ttl_secs,
                s.editor_token == editor_token,
                s.viewer_token == viewer_token,
                s.allow_legacy_tokens == allow_legacy_tokens,
                s.created_at == created_at,
                s.last_active_at == last_active_at,
                s.operation_seq == 0,
                s.clients@.len() == 0,
                s.client_id_maps@.len() == 0,
                forall|x: Seq<char>| #[trigger] s.revoked().contains(x) <==> exists|j: int|
                    0 <= j < i && #[trigger] revoked_token_ids@[j]@ == x,
            decreases revoked_token_ids@.len() - i,
        {
            let ghost before = s.revoked();
            let _ = s.insert_revoked(revoked_token_ids[i].clone());
            proof {
                assert forall|x: Seq<char>| #[trigger] s.revoked().contains(x) <==> exists|j: int|
                    0 <= j < i + 1 && #[trigger] revoked_token_ids@[j]@ == x by {
                    if x == revoked_token_ids@[i as int]@ {
                        assert(s.revoked().contains(x));
                    } else if s.revoked().contains(x) {
                        assert(before.contains(x));
                        let j = choose|j: int| 0 <= j < i && #[trigger] revoked_token_ids@[j]@ == x;
                        assert(0 <= j < i + 1);
                    } else {
                        assert(!before.contains(x));
                    }
                }
            }
            i += 1;
        }
        s
    }

    /// A fresh session created at `now`: a random 72-character secret, an
    /// editor and a viewer token issued at `now`, no revocations, and no
    /// unsigned tokens.
    pub fn new_at(id: String, token_ttl_secs: u64, now: u64) -> (r: Session)
        ensures
            r.wf(),
            r.id == id,
            r.token_secret@.len() == 72,
            r.token_ttl_secs == token_ttl_secs,
            !r.allow_legacy_tokens,
            r.created_at == now,
            r.last_active_at == now,
            r.operation_seq == 0,
            r.clients@.len() == 0,
            r.client_id_maps@.len() == 0,
            r.revoked() == Set::<Seq<char>>::empty(),
            issued_for(r.token_secret@, r.editor_token@, id@, ClientRole::Editor, sat_add(now, token_ttl_secs)),
            issued_for(r.token_secret@, r.viewer_token@, id@, ClientRole::Viewer, sat_add(now, token_ttl_secs)),
            fresh_at(r, id@, token_ttl_secs, now),
    {
        let mut secret = fresh_uuid();
        let second = fresh_uuid();
        secret.append(second.as_str());
        let mut s = Session::new_with_timestamps(
            id,
            secret,
            token_ttl_secs,
            String::new(),
            String::new(),
            false,
            Vec::new(),
            now,
            now,
        );
        assert(s.revoked() =~= Set::<Seq<char>>::empty());
        let e = s.issue_token_at(ClientRole::Editor, None, now);
        let v = s.issue_token_at(ClientRole::Viewer, None, now);
        s.editor_token = e;
        s.viewer_token = v;
        s
    }

    /// A fresh session created now.
    pub fn new(id: String, token_ttl_secs: u64) -> (r: Session)
        ensures
            r.wf(),
            r.id == id,
            r.token_secret@.len() == 72,
            r.token_ttl_secs == token_ttl_secs,
            !r.allow_legacy_tokens,
            r.created_at == r.last_active_at,
            r.operation_seq == 0,
            r.clients@.len() == 0,
            r.client_id_maps@.len() == 0,
            r.revoked() == Set::<Seq<char>>::empty(),
            issued_for(r.token_secret@, r.editor_token@, id@, ClientRole::Editor, sat_add(r.created_at, token_ttl_secs)),
            issued_for(r.token_secret@, r.viewer_token@, id@, ClientRole::Viewer, sat_add(r.created_at, token_ttl_secs)),
            exists|now: u64| #[trigger] fresh_at(r, id@, token_ttl_secs, now),
    {
        let now = now_unix_ts();
        Session::new_at(id, token_ttl_secs, now)
    }
}

/// A token issued in a session for role `role` with expiry `exp` grants a
/// role `required` at time `now` exactly when `now` is before `exp`, its
/// unique id is not revoked, and `role` covers `required`; revoking it
/// revokes that unique id.
pub proof fn lemma_issued_token_lifecycle(
    s: Session,
    t: Seq<char>,
    role: ClientRole,
    exp: u64,
    required: ClientRole,
    now: u64,
)
    requires
        issued_for(s.token_secret@, t, s.id@, role, exp),
    ensures
        s.token_valid(t, required, now) == (now < exp && !s.revoked().contains(
            token_jti(s.token_secret@, t),
        ) && role.covers_spec(required)),
        s.revocation_id(t) == Some(token_jti(s.token_secret@, t)),
{
}

/// Adding a client twice under one id leaves the roster and the id-map
/// table as large as adding it once.
pub proof fn lemma_add_client_idempotent(
    s0: Session,
    s1: Session,
    s2: Session,
    first: ClientInfo,
    second: ClientInfo,
)
    requires
        s0.wf(),
        first.id@ == second.id@,
        s1.clients@ == roster_insert(s0.clients@, first),
        maps_have(s1.client_id_maps@, first.id@),
        s2.clients@ == roster_insert(s1.clients@, second),
        s2.client_id_maps@.len() == s1.client_id_maps@.len() + (if maps_have(
            s1.client_id_maps@,
            second.id@,
        ) {
            0int
        } else {
            1int
        }),
    ensures
        s2.clients@.len() == s1.clients@.len(),
        s2.client_id_maps@.len() == s1.client_id_maps@.len(),
{
    let c1 = s1.clients@;
    if roster_has(s0.clients@, first.id@) {
        let p = roster_pos(s0.clients@, first.id@);
        assert(c1[p].id@ == first.id@);
    } else {
        assert(c1[c1.len() - 1].id@ == first.id@);
    }
    assert(roster_has(c1, second.id@));
}

} // verus!
