//! Hashing and checking of service-account API key secrets.

use vstd::prelude::*;
use vstd::utf8::encode_utf8;
use base64::Engine;
use crate::crypto::{hex_encode, hex_of, sha256_digest, sha256_of, verify_digest};

verus! {

/// Iterations of PBKDF2 for current secret hashes.
pub const API_KEY_HASH_ITERATIONS: u32 = 240000;

/// PBKDF2-HMAC-SHA256 key of 32 bytes.
pub uninterp spec fn pbkdf2_sha256_of(password: Seq<u8>, salt: Seq<u8>, rounds: u32) -> Seq<u8>;

/// URL-safe base64 without padding.
pub uninterp spec fn b64url_encoded(data: Seq<u8>) -> Seq<char>;

/// Relies on `pbkdf2::pbkdf2_hmac::<Sha256>` with a 32-byte output.
#[verifier::external_body]
fn pbkdf2_sha256(password: &[u8], salt: &[u8], rounds: u32) -> (r: Vec<u8>)
    ensures
        r@ == pbkdf2_sha256_of(password@, salt@, rounds),
{
    let mut derived = [0u8; 32];
    pbkdf2::pbkdf2_hmac::<sha2::Sha256>(password, salt, rounds, &mut derived);
    derived.to_vec()
}

/// Relies on base64's `URL_SAFE_NO_PAD.encode`.
#[verifier::external_body]
fn b64url_encode(data: &[u8]) -> (r: String)
    ensures
        r@ == b64url_encoded(data@),
{
    base64::engine::general_purpose::URL_SAFE_NO_PAD.encode(data)
}

/// The current hash of a secret under a salt.
pub open spec fn secret_hash_of(secret: Seq<char>, salt: Seq<char>) -> Seq<char> {
    b64url_encoded(pbkdf2_sha256_of(encode_utf8(secret), encode_utf8(salt), API_KEY_HASH_ITERATIONS))
}

/// The legacy hash of a secret: hex SHA-256.
pub open spec fn legacy_hash_of(secret: Seq<char>) -> Seq<char> {
    hex_of(sha256_of(encode_utf8(secret)))
}

/// The name of the current hash scheme.
pub open spec fn current_algorithm() -> Seq<char> {
    "pbkdf2_sha256_v1"@
}

fn hash_service_api_key_secret_impl(secret: &str, salt: &str) -> (r: String)
    ensures
        r@ == secret_hash_of(secret@, salt@),
{
    let derived = pbkdf2_sha256(secret.as_bytes(), salt.as_bytes(), API_KEY_HASH_ITERATIONS);
    b64url_encode(&derived)
}

/// Hashes a secret under a salt; `None` where the salt is empty.
pub fn hash_service_api_key_secret(secret: &str, salt: &str) -> (r: Option<String>)
    ensures
        salt@.len() == 0 ==> r is None,
        salt@.len() > 0 ==> r is Some && r->0@ == secret_hash_of(secret@, salt@),
{
    if salt.is_empty() {
        return None;
    }
    Some(hash_service_api_key_secret_impl(secret, salt))
}

/// The legacy hash of a secret.
pub fn hash_legacy_service_api_key_secret(secret: &str) -> (r: String)
    ensures
        r@ == legacy_hash_of(secret@),
{
    hex_encode(&sha256_digest(secret.as_bytes()))
}

/// Checks a secret against a stored hash: by the current scheme where it is
/// named and a salt is given, else by the legacy one; compared in constant time.
pub fn verify_service_api_key_secret(
    key_hash: &str,
    secret: &str,
    hash_algorithm: Option<&str>,
    secret_salt: Option<&str>,
) -> (r: bool)
    ensures
        r == (if hash_algorithm is Some && hash_algorithm->0@ == current_algorithm()
            && secret_salt is Some && secret_salt->0@.len() > 0 {
            key_hash@ == secret_hash_of(secret@, secret_salt->0@)
        } else {
            key_hash@ == legacy_hash_of(secret@)
        }),
{
    let current = "pbkdf2_sha256_v1".to_owned();
    match (hash_algorithm, secret_salt) {
        (Some(a), Some(salt)) => {
            if a.to_owned() == current && !salt.is_empty() {
                let expected = hash_service_api_key_secret_impl(secret, salt);
                return verify_digest(key_hash, expected.as_str());
            }
        },
        _ => {},
    }
    let legacy = hash_legacy_service_api_key_secret(secret);
    verify_digest(key_hash, legacy.as_str())
}

} // verus!
