//! Boundary with the outside crates: each function here makes exactly one
//! outside call, and its contract states only what that call's source or
//! documentation shows.

use rand::Rng;
use vstd::prelude::*;

verus! {

/// What `String::from_utf8_lossy` yields on a given byte string.
pub uninterp spec fn utf8_lossy_of(b: Seq<u8>) -> Seq<char>;

/// Relies on `String::from_utf8_lossy`: the result depends on the bytes
/// alone, and ASCII bytes decode to exactly their own characters.
#[verifier::external_body]
pub(crate) fn lossy_string(b: &Vec<u8>) -> (r: String)
    ensures
        r@ == utf8_lossy_of(b@),
        (forall|i: int| 0 <= i < b@.len() ==> b@[i] < 0x80) ==> r@ == b@.map_values(
            |x: u8| x as char,
        ),
{
    String::from(String::from_utf8_lossy(b))
}

/// What HMAC-SHA1 yields for a key and a message.
pub uninterp spec fn hmac_sha1_of(key: Seq<u8>, msg: Seq<u8>) -> Seq<u8>;

/// Relies on `ring::hmac::sign` with `HMAC_SHA1_FOR_LEGACY_USE_ONLY` (and
/// `ring::hmac::Key::new` to build the key): the tag depends on key and
/// message alone and is 20 bytes long, SHA-1's output length.
#[verifier::external_body]
pub(crate) fn hmac_sha1(key: &Vec<u8>, msg: &Vec<u8>) -> (r: Vec<u8>)
    ensures
        r@ == hmac_sha1_of(key@, msg@),
        r@.len() == 20,
{
    let k = ring::hmac::Key::new(ring::hmac::HMAC_SHA1_FOR_LEGACY_USE_ONLY, key);
    ring::hmac::sign(&k, msg).as_ref().to_vec()
}

/// What `base64::encode` yields: the standard-alphabet, padded base64
/// encoding, as ASCII bytes.
pub uninterp spec fn base64_of(b: Seq<u8>) -> Seq<u8>;

/// Relies on `base64::encode`: the encoding depends on the input alone and
/// every output character is ASCII.
#[verifier::external_body]
pub(crate) fn base64_bytes(b: &Vec<u8>) -> (r: Vec<u8>)
    ensures
        r@ == base64_of(b@),
        forall|i: int| 0 <= i < r@.len() ==> r@[i] < 0x80,
{
    base64::encode(b).into_bytes()
}

/// Relies on `rand::Rng::sample_iter` over
/// `rand::distributions::Alphanumeric`: every sampled byte is an ASCII
/// letter or digit.  Nothing relates one call's result to another's.
#[verifier::external_body]
pub(crate) fn fresh_nonce() -> (r: Vec<u8>)
    ensures
        r@.len() == 32,
        forall|i: int| 0 <= i < r@.len() ==> crate::oauth::util::is_alnum(#[trigger] r@[i]),
{
    rand::thread_rng().sample_iter(&rand::distributions::Alphanumeric).take(32).collect()
}

/// Relies on `chrono::Utc::now` and `DateTime::timestamp`: the current time
/// as non-leap seconds since the Unix epoch.  Nothing is promised of the
/// value.
#[verifier::external_body]
pub(crate) fn unix_timestamp() -> i64 {
    chrono::Utc::now().timestamp()
}

} // verus!
