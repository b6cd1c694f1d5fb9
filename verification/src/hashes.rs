//! Bindings to the outside hashing and encoding crates.  Each digest is
//! named by an uninterpreted function of its input; the bindings promise
//! only what the crates' sources show.

use vstd::prelude::*;

verus! {

/// What URL-safe base64 decoding yields on given bytes, when it
/// succeeds; a function of the bytes alone.
pub uninterp spec fn b64url_decode_of(s: Seq<u8>) -> Option<Seq<u8>>;

/// What URL-safe base64 encoding yields on given bytes.
pub uninterp spec fn b64url_encode_of(b: Seq<u8>) -> Seq<u8>;

/// The HMAC-SHA1 code of a message under a key.
pub uninterp spec fn hmac_sha1_of(key: Seq<u8>, msg: Seq<u8>) -> Seq<u8>;

/// The SHA-1 digest of a byte string, in lowercase hexadecimal.
pub uninterp spec fn sha1_hex_of(data: Seq<u8>) -> Seq<u8>;

/// Relies on base64::decode_config with the URL_SAFE configuration: the
/// outcome depends on the input bytes alone.
#[verifier::external_body]
pub fn b64url_decode(s: &[u8]) -> (r: Option<Vec<u8>>)
    ensures
        match (r, b64url_decode_of(s@)) {
            (Some(v), Some(sv)) => v@ == sv,
            (None, None) => true,
            _ => false,
        },
{
    match base64::decode_config(s, base64::URL_SAFE) {
        Ok(v) => Some(v),
        Err(_) => None,
    }
}

/// Relies on base64::encode_config with URL_SAFE: four characters per
/// three input bytes, padded, and decode_config inverts it.
#[verifier::external_body]
pub fn b64url_encode(b: &[u8]) -> (r: Vec<u8>)
    ensures
        r@ == b64url_encode_of(b@),
        r@.len() == ((b@.len() + 2) / 3) * 4,
        b64url_decode_of(r@) == Some(b@),
{
    base64::encode_config(b, base64::URL_SAFE).into_bytes()
}

/// Relies on crypto::hmac::Hmac over crypto::sha1::Sha1: a twenty-byte
/// code determined by the key and the message alone.
#[verifier::external_body]
pub fn hmac_sha1(key: &[u8], msg: &[u8]) -> (r: Vec<u8>)
    ensures
        r@ == hmac_sha1_of(key@, msg@),
        r@.len() == 20,
{
    let mut mac = crypto::hmac::Hmac::new(crypto::sha1::Sha1::new(), key);
    crypto::mac::Mac::input(&mut mac, msg);
    let code = crypto::mac::Mac::result(&mut mac);
    code.code().to_vec()
}

/// Relies on crypto::mac::MacResult equality: a fixed-time comparison
/// that is true exactly when the two codes are byte-equal.
#[verifier::external_body]
pub fn mac_equal(a: &[u8], b: &[u8]) -> (r: bool)
    ensures
        r == (a@ == b@),
{
    crypto::mac::MacResult::new(a) == crypto::mac::MacResult::new(b)
}

/// Relies on crypto::sha1::Sha1 through Digest::result_str: forty
/// lowercase hexadecimal characters determined by the input alone.
#[verifier::external_body]
pub fn sha1_hex(data: &[u8]) -> (r: Vec<u8>)
    ensures
        r@ == sha1_hex_of(data@),
        r@.len() == 40,
{
    let mut hasher = crypto::sha1::Sha1::new();
    crypto::digest::Digest::input(&mut hasher, data);
    crypto::digest::Digest::result_str(&mut hasher).into_bytes()
}

/// Signs a message: the URL-safe base64 text of its HMAC-SHA1 code,
/// always twenty-eight characters.
pub fn sign(secret: &[u8], msg: &[u8]) -> (r: Vec<u8>)
    ensures
        r@ == b64url_encode_of(hmac_sha1_of(secret@, msg@)),
        r@.len() == 28,
        b64url_decode_of(r@) == Some(hmac_sha1_of(secret@, msg@)),
{
    let code = hmac_sha1(secret, msg);
    b64url_encode(code.as_slice())
}

} // verus!
