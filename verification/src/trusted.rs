//! The trusted boundary of the library: every function here wraps one call
//! into an outside crate, or a std function that vstd leaves unspecified.
//! Verus believes each stated contract; each follows the wrapped crate's
//! source and documentation.

use vstd::prelude::*;

verus! {

/// The Ed25519 signature, base64url-encoded, that signing with the private
/// key in `pem` produces over `msg`. RFC 8032 signing is deterministic, so
/// the result is a function of the two arguments alone.
pub uninterp spec fn eddsa_sig(pem: Seq<u8>, msg: Seq<u8>) -> Seq<char>;

/// Whether the private PEM is one that signing accepts: key construction
/// and PKCS#8 parsing are deterministic in the bytes, and a parsed
/// Ed25519 key signs any message, so success is a function of the PEM
/// alone.
pub uninterp spec fn ed_signing_ok(pem: Seq<u8>) -> bool;

/// What EdDSA verification with the raw 32-byte public key `key` answers
/// for `msg` against the base64url signature `sig`; an unreadable key or
/// signature counts as a negative answer. Deterministic in its arguments.
pub uninterp spec fn eddsa_valid(key: Seq<u8>, msg: Seq<u8>, sig: Seq<char>) -> bool;

/// Relies on jsonwebtoken's EncodingKey::from_ed_pem and crypto::sign with
/// Algorithm::EdDSA: the signature is base64url without padding, so it is
/// never empty and never holds a '.'; signing fails exactly when the PEM
/// is not an Ed25519 private key.
#[verifier::external_body]
pub(crate) fn sign_bytes(priv_pem: &Vec<u8>, msg: &Vec<u8>) -> (r: Option<String>)
    ensures
        (r is Some) == ed_signing_ok(priv_pem@),
        r matches Some(s) ==> s@ == eddsa_sig(priv_pem@, msg@),
        r matches Some(s) ==> s@.len() > 0 && forall|i: int| 0 <= i < s@.len() ==> s@[i] != '.',
{
    let key = match jsonwebtoken::EncodingKey::from_ed_pem(priv_pem) {
        Ok(k) => k,
        Err(_) => return None,
    };
    jsonwebtoken::crypto::sign(msg, &key, jsonwebtoken::Algorithm::EdDSA).ok()
}

/// Relies on jsonwebtoken's DecodingKey::from_ed_der and crypto::verify
/// with Algorithm::EdDSA. The key must be the raw 32-byte Ed25519 public
/// key: the backend reads exactly 32 bytes from it, and handing it less
/// would abort there.
#[verifier::external_body]
pub(crate) fn verify_bytes(pub_key: &Vec<u8>, msg: &Vec<u8>, sig: &str) -> (r: bool)
    requires
        pub_key@.len() == 32,
    ensures
        r == eddsa_valid(pub_key@, msg@, sig@),
{
    let key = jsonwebtoken::DecodingKey::from_ed_der(pub_key);
    jsonwebtoken::crypto::verify(sig, msg, &key, jsonwebtoken::Algorithm::EdDSA).unwrap_or(false)
}

/// Relies on uuid::Uuid::new_v4 and its Display form: a random v4 UUID in
/// the 36-character hyphenated form. The value is random, so only its
/// length can be stated.
#[verifier::external_body]
pub(crate) fn fresh_jti() -> (r: String)
    ensures
        r@.len() == 36,
{
    uuid::Uuid::new_v4().to_string()
}

/// Relies on chrono::Utc::now().timestamp(): the wall clock's value cannot
/// be pinned by any contract.
#[verifier::external_body]
pub fn now_ts() -> (r: i64) {
    chrono::Utc::now().timestamp()
}

/// Whether bcrypt's check accepts `password` against the bcrypt hash
/// string `hash`; deterministic in the two.
pub uninterp spec fn bcrypt_matches(password: Seq<char>, hash: Seq<char>) -> bool;

/// Whether bcrypt's check can read `hash` at all: its parse and its cost
/// bound look only at the hash string, so failure is a function of the
/// hash alone.
pub uninterp spec fn bcrypt_hash_wf(hash: Seq<char>) -> bool;

/// Relies on bcrypt::verify; an unreadable hash is reported as None,
/// which callers surface as an internal fault.
#[verifier::external_body]
pub(crate) fn password_verify(password: &str, hash: &str) -> (r: Option<bool>)
    ensures
        (r is Some) == bcrypt_hash_wf(hash@),
        r matches Some(b) ==> b == bcrypt_matches(password@, hash@),
{
    bcrypt::verify(password, hash).ok()
}

/// Relies on bcrypt::hash: a freshly salted hash in the 60-character
/// bcrypt format that bcrypt::verify both reads and accepts for this
/// password. The salt is drawn at random, so success is not promised and
/// no more is stated of the value.
#[verifier::external_body]
pub(crate) fn password_hash(password: &str, cost: u32) -> (r: Option<String>)
    ensures
        r matches Some(h) ==> bcrypt_matches(password@, h@) && bcrypt_hash_wf(h@)
            && h@.len() == 60,
{
    bcrypt::hash(password, cost).ok()
}

/// The host part of `origin` under the url crate's parser, None when the
/// string is not an absolute URL with a host; a pure function of the
/// string.
pub uninterp spec fn url_host(origin: Seq<char>) -> Option<Seq<char>>;

/// Relies on url::Url::parse and Url::host_str.
#[verifier::external_body]
pub(crate) fn origin_host(origin: &str) -> (r: Option<String>)
    ensures
        match r {
            Some(h) => url_host(origin@) == Some(h@),
            None => url_host(origin@) is None,
        },
{
    match url::Url::parse(origin) {
        Ok(u) => u.host_str().map(|h| h.to_string()),
        Err(_) => None,
    }
}

/// Relies on std's FromIterator for String: collects exactly the given
/// characters.
#[verifier::external_body]
pub(crate) fn chars_to_string(v: &Vec<char>) -> (r: String)
    ensures
        r@ == v@,
{
    v.iter().collect()
}

/// Relies on String::from_utf8: it accepts exactly valid UTF-8 and keeps
/// the bytes.
#[verifier::external_body]
pub(crate) fn string_from_bytes(v: Vec<u8>) -> (r: Option<String>)
    ensures
        r matches Some(s) ==> vstd::utf8::encode_utf8(s@) == v@,
        vstd::utf8::valid_utf8(v@) ==> r is Some,
{
    match String::from_utf8(v) {
        Ok(s) => Some(s),
        Err(_) => None,
    }
}

} // verus!
