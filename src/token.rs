//! Signed tokens: `base64url(claims JSON) "." base64url(HMAC-SHA256)`, the
//! tag computed over the encoded claims text under the session's secret.

use crate::claims::claims_json;
use crate::claims::decode_claims;
use crate::claims::encode_claims;
use crate::claims::lemma_parse_claims_json;
use crate::claims::parse_claims;
use crate::claims::ClaimsView;
use crate::claims::TokenClaims;
use crate::outside::base64url_decode;
use crate::outside::base64url_encode;
use crate::outside::base64url_of;
use crate::outside::hmac_sha256;
use crate::outside::hmac_sha256_of;
use crate::outside::is_base64url_char;
use crate::text::bytes_eq_constant_time;
use vstd::prelude::*;
use vstd::string::*;
use vstd::utf8::encode_utf8;

verus! {

/// A text with no `.` in it.
pub open spec fn dot_free(s: Seq<char>) -> bool {
    forall|i: int| 0 <= i < s.len() ==> #[trigger] s[i] != '.'
}

/// Whether `k` is the position of the one `.` in `s`.
pub open spec fn sole_dot_at(s: Seq<char>, k: int) -> bool {
    0 <= k < s.len() && s[k] == '.' && dot_free(s.subrange(0, k)) && dot_free(
        s.subrange(k + 1, s.len() as int),
    )
}

/// The two parts of a text that holds exactly one `.`.
pub open spec fn split_at_dot(s: Seq<char>) -> Option<(Seq<char>, Seq<char>)> {
    if exists|k: int| sole_dot_at(s, k) {
        let k = choose|k: int| sole_dot_at(s, k);
        Some((s.subrange(0, k), s.subrange(k + 1, s.len() as int)))
    } else {
        None
    }
}

/// The tag of an encoded claims text under a secret.
pub open spec fn signature_of(secret: Seq<char>, payload: Seq<char>) -> Seq<u8> {
    hmac_sha256_of(encode_utf8(secret), encode_utf8(payload))
}

/// The bytes a base64url text encodes, if it is one.
pub open spec fn decoded(p: Seq<char>) -> Option<Seq<u8>> {
    if exists|b: Seq<u8>| base64url_of(b) == p {
        Some(choose|b: Seq<u8>| base64url_of(b) == p)
    } else {
        None
    }
}

/// The token text for a set of claims under a secret.
pub open spec fn token_text(secret: Seq<char>, c: ClaimsView) -> Seq<char> {
    let p = base64url_of(claims_json(c));
    p + seq!['.'] + base64url_of(signature_of(secret, p))
}

/// The claims a token carries, if it is well formed and its tag is the one
/// the secret gives.
pub open spec fn token_claims(secret: Seq<char>, t: Seq<char>) -> Option<ClaimsView> {
    match split_at_dot(t) {
        None => None,
        Some((p, sig)) => if sig == base64url_of(signature_of(secret, p)) {
            match decoded(p) {
                None => None,
                Some(j) => parse_claims(j),
            }
        } else {
            None
        },
    }
}

proof fn lemma_sole_dot_unique(s: Seq<char>, k1: int, k2: int)
    requires
        sole_dot_at(s, k1),
        sole_dot_at(s, k2),
    ensures
        k1 == k2,
{
    if k1 < k2 {
        assert(s.subrange(k1 + 1, s.len() as int)[k2 - k1 - 1] == s[k2]);
    } else if k2 < k1 {
        assert(s.subrange(k2 + 1, s.len() as int)[k1 - k2 - 1] == s[k1]);
    }
}

proof fn lemma_split_at(s: Seq<char>, k: int)
    requires
        sole_dot_at(s, k),
    ensures
        split_at_dot(s) == Some((s.subrange(0, k), s.subrange(k + 1, s.len() as int))),
{
    let c = choose|c: int| sole_dot_at(s, c);
    lemma_sole_dot_unique(s, k, c);
}

/// Where the one `.` of a token stands; `None` when it has none or more.
fn find_sole_dot(t: &str) -> (r: Option<usize>)
    ensures
        match r {
            None => split_at_dot(t@) is None,
            Some(k) => sole_dot_at(t@, k as int) && split_at_dot(t@) == Some(
                (t@.subrange(0, k as int), t@.subrange(k + 1, t@.len() as int)),
            ),
        },
{
    let n = t.unicode_len();
    let mut i: usize = 0;
    let mut first: Option<usize> = None;
    while i < n
        invariant
            n == t@.len(),
            i <= n,
            match first {
                None => dot_free(t@.subrange(0, i as int)),
                Some(k) => k < i && t@[k as int] == '.' && dot_free(t@.subrange(0, k as int))
                    && dot_free(t@.subrange(k + 1, i as int)),
            },
        decreases n - i,
    {
        if t.get_char(i) == '.' {
            match first {
                None => {
                    first = Some(i);
                    assert(t@.subrange(i + 1, i + 1) =~= Seq::<char>::empty());
                },
                Some(k) => {
                    assert(!sole_dot_at(t@, k as int)) by {
                        assert(t@.subrange(k + 1, t@.len() as int)[i - k - 1] == t@[i as int]);
                    }
                    assert forall|c: int| !sole_dot_at(t@, c) by {
                        if sole_dot_at(t@, c) {
                            if c < k {
                                assert(t@.subrange(c + 1, t@.len() as int)[k - c - 1] == t@[k as int]);
                            } else if c > k {
                                assert(t@.subrange(0, k as int + 1).len() >= 0);
                                assert(t@.subrange(0, c)[k as int] == t@[k as int]);
                            }
                        }
                    }
                    return None;
                },
            }
        } else {
            match first {
                None => {
                    assert forall|j: int| 0 <= j < i + 1 implies #[trigger] t@.subrange(0, i + 1)[j] != '.' by {
                        if j < i {
                            assert(t@.subrange(0, i as int)[j] == t@[j]);
                        }
                    }
                },
                Some(k) => {
                    assert forall|j: int| 0 <= j < i + 1 - (k + 1) implies #[trigger] t@.subrange(k + 1, i + 1)[j] != '.' by {
                        if j < i - (k + 1) {
                            assert(t@.subrange(k + 1, i as int)[j] == t@[k + 1 + j]);
                        }
                    }
                },
            }
        }
        i += 1;
    }
    match first {
        None => {
            assert forall|c: int| !sole_dot_at(t@, c) by {
                if sole_dot_at(t@, c) {
                    assert(t@.subrange(0, n as int)[c] == t@[c]);
                }
            }
            None
        },
        Some(k) => {
            assert(sole_dot_at(t@, k as int));
            proof {
                lemma_split_at(t@, k as int);
            }
            Some(k)
        },
    }
}

/// The claims a token carries, if it is well formed and its tag matches
/// the secret; the tags are compared in constant time.
pub fn read_token(secret: &str, token: &str) -> (r: Option<TokenClaims>)
    ensures
        match r {
            None => token_claims(secret@, token@) is None,
            Some(c) => token_claims(secret@, token@) == Some(c@),
        },
{
    let k = match find_sole_dot(token) {
        None => return None,
        Some(k) => k,
    };
    let n = token.unicode_len();
    let payload = token.substring_char(0, k);
    let sig = token.substring_char(k + 1, n);
    let expected = hmac_sha256(secret.as_bytes(), payload.as_bytes());
    let incoming = match base64url_decode(sig) {
        None => {
            assert(sig@ != base64url_of(signature_of(secret@, payload@)));
            return None;
        },
        Some(b) => b,
    };
    if !bytes_eq_constant_time(expected.as_slice(), incoming.as_slice()) {
        assert(sig@ != base64url_of(signature_of(secret@, payload@)));
        return None;
    }
    let json = match base64url_decode(payload) {
        None => {
            assert(decoded(payload@) is None);
            return None;
        },
        Some(b) => b,
    };
    proof {
        let c = choose|b: Seq<u8>| base64url_of(b) == payload@;
        assert(base64url_of(json@) == payload@);
        assert(json@ == c);
    }
    decode_claims(json.as_slice())
}

/// Encodes and signs a set of claims under a secret.
pub fn sign_claims(secret: &str, c: &TokenClaims) -> (r: String)
    ensures
        r@ == token_text(secret@, c@),
        token_claims(secret@, r@) == Some(c@),
{
    let json = encode_claims(c);
    let payload = base64url_encode(json.as_slice());
    let tag = hmac_sha256(secret.as_bytes(), payload.as_str().as_bytes());
    let sig = base64url_encode(tag.as_slice());
    let mut out = payload.clone();
    proof {
        reveal_strlit(".");
    }
    out.append(".");
    out.append(sig.as_str());
    proof {
        let t = out@;
        let k = payload@.len() as int;
        assert(t =~= payload@ + seq!['.'] + sig@);
        assert(t.subrange(0, k) =~= payload@);
        assert(t.subrange(k + 1, t.len() as int) =~= sig@);
        assert forall|i: int| 0 <= i < payload@.len() implies #[trigger] payload@[i] != '.' by {
            assert(is_base64url_char(payload@[i]));
        }
        assert forall|i: int| 0 <= i < sig@.len() implies #[trigger] sig@[i] != '.' by {
            assert(is_base64url_char(sig@[i]));
        }
        assert(sole_dot_at(t, k));
        lemma_split_at(t, k);
        let b = choose|b: Seq<u8>| base64url_of(b) == payload@;
        assert(base64url_of(json@) == payload@);
        assert(b == json@);
        lemma_parse_claims_json(c@);
    }
    out
}

} // verus!
