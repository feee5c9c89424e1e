//! Sliding-window request limiting, keyed by the caller's address.

use crate::text::str_eq;
use vstd::prelude::*;

verus! {

/// The request times recorded for one key, oldest first.
#[derive(Debug)]
pub struct KeyWindow {
    pub key: String,
    pub stamps: Vec<u64>,
}

/// Admits at most `max_requests` requests per key within any `window`
/// (a span of the caller's time unit; a stamp exactly `window` old still
/// counts).
#[derive(Debug)]
pub struct RateLimiter {
    pub window: u64,
    pub max_requests: usize,
    pub events: Vec<KeyWindow>,
}

/// How long ago `t` was at time `now`; a stamp from the future is 0 old.
pub open spec fn age(now: u64, t: u64) -> int {
    if now >= t {
        now - t
    } else {
        0
    }
}

/// The stamps that remain once those older than the window are dropped
/// from the front.
pub open spec fn trim(s: Seq<u64>, now: u64, window: u64) -> Seq<u64>
    decreases s.len(),
{
    if s.len() > 0 && age(now, s[0]) > window {
        trim(s.drop_first(), now, window)
    } else {
        s
    }
}

fn too_old(now: u64, t: u64, window: u64) -> (r: bool)
    ensures
        r == (age(now, t) > window),
{
    now >= t && now - t > window
}

impl RateLimiter {
    /// Each key has at most one window.
    pub open spec fn wf(self) -> bool {
        forall|i: int, j: int|
            0 <= i < self.events@.len() && 0 <= j < self.events@.len() && i != j
                ==> #[trigger] self.events@[i].key@ != #[trigger] self.events@[j].key@
    }

    /// Whether some window belongs to `key`.
    pub open spec fn has_key(self, key: Seq<char>) -> bool {
        exists|i: int| 0 <= i < self.events@.len() && #[trigger] self.events@[i].key@ == key
    }

    /// The stamps recorded for `key`; none for a key never seen.
    pub open spec fn stamps_of(self, key: Seq<char>) -> Seq<u64> {
        if self.has_key(key) {
            let i = choose|i: int| 0 <= i < self.events@.len() && #[trigger] self.events@[i].key@ == key;
            self.events@[i].stamps@
        } else {
            Seq::empty()
        }
    }

    /// A limiter that has seen no request.
    pub fn new(max_requests: usize, window: u64) -> (r: Self)
        ensures
            r.wf(),
            r.window == window,
            r.max_requests == max_requests,
            forall|k: Seq<char>| #[trigger] r.stamps_of(k) == Seq::<u64>::empty(),
    {
        RateLimiter { window, max_requests, events: Vec::new() }
    }

    proof fn lemma_stamps_at(self, i: int)
        requires
            self.wf(),
            0 <= i < self.events@.len(),
        ensures
            self.stamps_of(self.events@[i].key@) == self.events@[i].stamps@,
    {
        let k = self.events@[i].key@;
        assert(self.has_key(k));
    }

    /// Records a request for `key` at time `now` if the key has made fewer
    /// than `max_requests` requests within the window, and says whether it
    /// did. Stamps that have left the window are forgotten either way.
    pub fn allow(&mut self, key: &str, now: u64) -> (r: bool)
        requires
            old(self).wf(),
        ensures
            final(self).wf(),
            final(self).window == old(self).window,
            final(self).max_requests == old(self).max_requests,
            r == (trim(old(self).stamps_of(key@), now, old(self).window).len()
                < old(self).max_requests),
            final(self).stamps_of(key@) == (if r {
                trim(old(self).stamps_of(key@), now, old(self).window).push(now)
            } else {
                trim(old(self).stamps_of(key@), now, old(self).window)
            }),
            forall|k: Seq<char>| k != key@ ==> #[trigger] final(self).stamps_of(k) == old(self).stamps_of(k),
    {
        let ghost old_self = *self;
        let mut i: usize = 0;
        let mut found = false;
        while i < self.events.len()
            invariant_except_break
                !found,
            invariant
                *self == old_self,
                i <= self.events@.len(),
                forall|j: int| 0 <= j < i ==> #[trigger] self.events@[j].key@ != key@,
            ensures
                *self == old_self,
                found ==> i < self.events@.len() && self.events@[i as int].key@ == key@,
                !found ==> forall|j: int| 0 <= j < self.events@.len() ==> #[trigger] self.events@[j].key@ != key@,
            decreases self.events@.len() - i,
        {
            if str_eq(self.events[i].key.as_str(), key) {
                found = true;
                break;
            }
            i += 1;
        }
        let mut stamps: Vec<u64> = if found {
            proof {
                old_self.lemma_stamps_at(i as int);
            }
            let kw = self.events.remove(i);
            kw.stamps
        } else {
            assert(!old_self.has_key(key@));
            Vec::new()
        };
        assert(stamps@ == old_self.stamps_of(key@));
        assert(stamps@.subrange(0, stamps@.len() as int) =~= stamps@);
        // drop the stamps that have left the window
        let mut start: usize = 0;
        while start < stamps.len() && too_old(now, stamps[start], self.window)
            invariant
                start <= stamps@.len(),
                trim(stamps@.subrange(start as int, stamps@.len() as int), now, self.window)
                    == trim(old_self.stamps_of(key@), now, self.window),
            decreases stamps@.len() - start,
        {
            assert(stamps@.subrange(start as int, stamps@.len() as int).drop_first()
                =~= stamps@.subrange(start as int + 1, stamps@.len() as int));
            start += 1;
        }
        let mut kept: Vec<u64> = Vec::new();
        let mut j: usize = start;
        while j < stamps.len()
            invariant
                start <= j <= stamps@.len(),
                kept@ == stamps@.subrange(start as int, j as int),
            decreases stamps@.len() - j,
        {
            kept.push(stamps[j]);
            j += 1;
        }
        proof {
            let rest = stamps@.subrange(start as int, stamps@.len() as int);
            assert(kept@ =~= rest);
            assert(trim(rest, now, self.window) == rest);
        }
        let admitted = kept.len() < self.max_requests;
        if admitted {
            kept.push(now);
        }
        let ghost mid = *self;
        self.events.push(KeyWindow { key: key.to_owned(), stamps: kept });
        proof {
            let n = self.events@.len() - 1;
            assert forall|a: int, b: int|
                0 <= a < self.events@.len() && 0 <= b < self.events@.len() && a != b
                    implies #[trigger] self.events@[a].key@ != #[trigger] self.events@[b].key@ by {
                if a < n && b < n {
                    if found {
                        let oa = if a < i { a } else { a + 1 };
                        let ob = if b < i { b } else { b + 1 };
                        assert(mid.events@[a] == old_self.events@[oa]);
                        assert(mid.events@[b] == old_self.events@[ob]);
                    }
                } else if a < n {
                    if found {
                        let oa = if a < i { a } else { a + 1 };
                        assert(mid.events@[a] == old_self.events@[oa]);
                        assert(oa != i);
                    }
                } else if b < n {
                    if found {
                        let ob = if b < i { b } else { b + 1 };
                        assert(mid.events@[b] == old_self.events@[ob]);
                        assert(ob != i);
                    }
                }
            }
            self.lemma_stamps_at(n);
            assert forall|k: Seq<char>| k != key@ implies #[trigger] self.stamps_of(k)
                == old_self.stamps_of(k) by {
                if old_self.has_key(k) {
                    let oi = choose|oi: int| 0 <= oi < old_self.events@.len() && #[trigger] old_self.events@[oi].key@ == k;
                    old_self.lemma_stamps_at(oi);
                    let ni = if found && oi > i { oi - 1 } else { oi };
                    assert(self.events@[ni] == old_self.events@[oi]);
                    self.lemma_stamps_at(ni);
                } else {
                    if self.has_key(k) {
                        let ni = choose|ni: int| 0 <= ni < self.events@.len() && #[trigger] self.events@[ni].key@ == k;
                        if ni < n {
                            let oi = if found && ni >= i { ni + 1 } else { ni };
                            assert(self.events@[ni] == old_self.events@[oi]);
                        }
                    }
                }
            }
        }
        admitted
    }
}

} // verus!
