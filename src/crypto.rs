//! Digests, MACs and encodings, each resting on one outside function.

use vstd::prelude::*;
use base64::Engine;
use hmac::Mac;
use sha2::Digest;
use subtle::ConstantTimeEq;

verus! {

/// SHA-256 digest of a byte string.
pub uninterp spec fn sha256_of(data: Seq<u8>) -> Seq<u8>;

/// HMAC-SHA256 tag of `msg` under `key`.
pub uninterp spec fn hmac_sha256_of(key: Seq<u8>, msg: Seq<u8>) -> Seq<u8>;

/// URL-safe base64 (no padding) decoding, `None` where the text is not such an encoding.
pub uninterp spec fn b64url_decoded(text: Seq<char>) -> Option<Seq<u8>>;

/// Lower-case hex digit of a value below sixteen.
pub open spec fn hex_digit(n: u8) -> char {
    seq!['0', '1', '2', '3', '4', '5', '6', '7', '8', '9', 'a', 'b', 'c', 'd', 'e', 'f'][n as int]
}

/// Lower-case hex encoding: two digits for each byte, high nibble first.
pub open spec fn hex_of(b: Seq<u8>) -> Seq<char>
    decreases b.len(),
{
    if b.len() == 0 {
        Seq::empty()
    } else {
        hex_of(b.drop_last()) + seq![hex_digit(b.last() / 16), hex_digit(b.last() % 16)]
    }
}

/// Relies on `sha2::Sha256::digest`: the digest, 32 bytes long.
#[verifier::external_body]
pub fn sha256_digest(data: &[u8]) -> (r: Vec<u8>)
    ensures
        r@ == sha256_of(data@),
        r@.len() == 32,
{
    sha2::Sha256::digest(data).to_vec()
}

/// Relies on `hex::encode`: lower-case digits, two for each byte.
#[verifier::external_body]
pub fn hex_encode(data: &[u8]) -> (r: String)
    ensures
        r@ == hex_of(data@),
{
    hex::encode(data)
}

/// Relies on `hmac::Hmac::<Sha256>` (`new_from_slice`, `update`, `finalize`): the tag.
/// `new_from_slice` accepts keys of any length for this digest.
#[verifier::external_body]
pub fn hmac_sha256(key: &[u8], msg: &[u8]) -> (r: Vec<u8>)
    ensures
        r@ == hmac_sha256_of(key@, msg@),
{
    match hmac::Hmac::<sha2::Sha256>::new_from_slice(key) {
        Ok(mut mac) => {
            mac.update(msg);
            mac.finalize().into_bytes().to_vec()
        },
        Err(_) => Vec::new(),
    }
}

/// Relies on base64's `URL_SAFE_NO_PAD.decode`: the decoded bytes, or `None` on bad input.
#[verifier::external_body]
pub fn b64url_decode(text: &str) -> (r: Option<Vec<u8>>)
    ensures
        match r {
            Some(v) => b64url_decoded(text@) == Some(v@),
            None => b64url_decoded(text@) is None,
        },
{
    base64::engine::general_purpose::URL_SAFE_NO_PAD.decode(text).ok()
}

/// Relies on subtle's `ConstantTimeEq` for byte slices: true exactly when the slices are equal.
#[verifier::external_body]
pub fn ct_eq(a: &[u8], b: &[u8]) -> (r: bool)
    ensures
        r == (a@ == b@),
{
    bool::from(a.ct_eq(b))
}

/// Constant-time comparison of two digests: lengths first, then every byte.
pub fn verify_digest(stored: &str, computed: &str) -> (r: bool)
    ensures
        r == (stored@ == computed@),
{
    proof {
        vstd::utf8::encode_utf8_decode_utf8(stored@);
        vstd::utf8::encode_utf8_decode_utf8(computed@);
    }
    if stored.len() != computed.len() {
        return false;
    }
    ct_eq(stored.as_bytes(), computed.as_bytes())
}

} // verus!
