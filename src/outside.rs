//! The calls this library makes into other crates and into parts of std
//! that carry no specification of their own. Each item states what the
//! called code documents and nothing more.

use base64::Engine;
use hmac::Mac;
use vstd::prelude::*;
use vstd::utf8::decode_utf8;
use vstd::utf8::valid_utf8;

verus! {

/// The unpadded URL-safe base64 text of a byte sequence.
pub uninterp spec fn base64url_of(b: Seq<u8>) -> Seq<char>;

/// The HMAC-SHA256 tag of a message under a key.
pub uninterp spec fn hmac_sha256_of(key: Seq<u8>, msg: Seq<u8>) -> Seq<u8>;

/// A character of the URL-safe base64 alphabet.
pub open spec fn is_base64url_char(c: char) -> bool {
    ('A' <= c && c <= 'Z') || ('a' <= c && c <= 'z') || ('0' <= c && c <= '9') || c == '-'
        || c == '_'
}

/// Relies on base64's `URL_SAFE_NO_PAD.encode`: the unpadded URL-safe
/// encoding, a function of the bytes alone, written in the URL-safe alphabet;
/// no two byte sequences share an encoding.
#[verifier::external_body]
pub(crate) fn base64url_encode(b: &[u8]) -> (r: String)
    ensures
        r@ == base64url_of(b@),
        forall|i: int| 0 <= i < r@.len() ==> is_base64url_char(#[trigger] r@[i]),
        forall|b2: Seq<u8>| #[trigger] base64url_of(b2) == r@ ==> b2 == b@,
{
    base64::engine::general_purpose::URL_SAFE_NO_PAD.encode(b)
}

/// Relies on base64's `URL_SAFE_NO_PAD.decode`: with no padding allowed and
/// trailing bits required to be zero, it accepts exactly the texts that
/// `encode` produces and returns the bytes they encode.
#[verifier::external_body]
pub(crate) fn base64url_decode(s: &str) -> (r: Option<Vec<u8>>)
    ensures
        r is Some ==> base64url_of(r->Some_0@) == s@,
        forall|b: Seq<u8>| #[trigger] base64url_of(b) == s@ ==> (r is Some && r->Some_0@ == b),
{
    base64::engine::general_purpose::URL_SAFE_NO_PAD.decode(s.as_bytes()).ok()
}

/// Relies on hmac's `Hmac<Sha256>`: `new_from_slice` accepts keys of every
/// length, and the finalized tag depends on the key and the message alone.
#[verifier::external_body]
pub(crate) fn hmac_sha256(key: &[u8], msg: &[u8]) -> (r: Vec<u8>)
    ensures
        r@ == hmac_sha256_of(key@, msg@),
{
    let mut mac = <hmac::Hmac<sha2::Sha256> as hmac::digest::KeyInit>::new_from_slice(key).expect(
        "HMAC takes keys of any length",
    );
    mac.update(msg);
    mac.finalize().into_bytes().to_vec()
}

/// Relies on uuid's `Uuid::new_v4` and its `to_string`: a random UUID in
/// its hyphenated form, 36 characters long.
#[verifier::external_body]
pub(crate) fn fresh_uuid() -> (r: String)
    ensures
        r@.len() == 36,
{
    uuid::Uuid::new_v4().to_string()
}

/// Relies on std's `String::from_utf8`: it succeeds exactly on valid UTF-8
/// and then holds the characters those bytes encode.
#[verifier::external_body]
pub(crate) fn string_from_utf8(b: Vec<u8>) -> (r: Option<String>)
    ensures
        r is Some <==> valid_utf8(b@),
        r is Some ==> r->Some_0@ == decode_utf8(b@),
{
    String::from_utf8(b).ok()
}

/// The current time in whole seconds since the Unix epoch. Relies on std's
/// `SystemTime::now` and `duration_since(UNIX_EPOCH)`; a clock set before
/// the epoch reads as 0.
#[verifier::external_body]
pub fn now_unix_ts() -> (r: u64) {
    std::time::SystemTime::now().duration_since(std::time::UNIX_EPOCH).unwrap_or_default().as_secs()
}

} // verus!
