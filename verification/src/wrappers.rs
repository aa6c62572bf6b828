//! Trusted wrappers: calls into functions that Verus has no specification
//! for. Each wrapper's contract states only what the callee's documentation
//! promises; everything built on top is verified against these contracts.

use vstd::prelude::*;
use vstd::utf8::{valid_utf8, decode_utf8};
use sha2::Digest;
use hmac::{KeyInit, Mac};

verus! {

/// What the SHA-256 digest of a byte sequence is. Named, not spelled out:
/// nothing here re-states the algorithm, callers only rely on the digest
/// being a function of the data alone.
pub uninterp spec fn sha256_of(data: Seq<u8>) -> Seq<u8>;

/// What the HMAC-SHA256 tag of a message under a key is.
pub uninterp spec fn hmac_sha256_of(key: Seq<u8>, msg: Seq<u8>) -> Seq<u8>;

/// Lowercase hex digit for a value below 16, as its ASCII byte.
pub open spec fn hex_digit(v: u8) -> u8 {
    if v < 10 {
        (48 + v) as u8
    } else {
        (87 + v) as u8
    }
}

/// Lowercase hex rendering of a byte sequence, two digits per byte, as
/// ASCII bytes.
pub open spec fn hex_of(data: Seq<u8>) -> Seq<u8>
    decreases data.len(),
{
    if data.len() == 0 {
        Seq::empty()
    } else {
        seq![hex_digit(data[0] / 16), hex_digit(data[0] % 16)] + hex_of(data.drop_first())
    }
}

/// Relies on String::from_utf8: `Ok` exactly on valid UTF-8, yielding its
/// decoding, `Err` otherwise.
#[verifier::external_body]
pub(crate) fn bytes_to_string(v: Vec<u8>) -> (r: Option<String>)
    ensures
        match r {
            Some(s) => valid_utf8(v@) && s@ == decode_utf8(v@),
            None => !valid_utf8(v@),
        },
{
    match String::from_utf8(v) {
        Ok(s) => Some(s),
        Err(_) => None,
    }
}

/// Relies on sha2::Sha256 (via digest::Digest): the 32-byte SHA-256 digest of
/// the input, a function of the input alone.
#[verifier::external_body]
pub(crate) fn sha256(data: &Vec<u8>) -> (r: Vec<u8>)
    ensures
        r@ == sha256_of(data@),
        r@.len() == 32,
{
    let mut hasher = sha2::Sha256::new();
    hasher.update(data.as_slice());
    hasher.finalize().to_vec()
}

/// Relies on hmac::Hmac over sha2::Sha256 (via hmac::Mac): the 32-byte
/// HMAC-SHA256 tag of the message under the key, a function of both alone.
/// `new_from_slice` accepts keys of any length for an HMAC.
#[verifier::external_body]
pub(crate) fn hmac_sha256(key: &Vec<u8>, msg: &Vec<u8>) -> (r: Vec<u8>)
    ensures
        r@ == hmac_sha256_of(key@, msg@),
        r@.len() == 32,
{
    let mut mac = <hmac::Hmac<sha2::Sha256>>::new_from_slice(key.as_slice()).expect(
        "HMAC accepts keys of any length",
    );
    mac.update(msg.as_slice());
    mac.finalize().into_bytes().to_vec()
}

/// Relies on hex::encode: the lowercase hex rendering of the bytes, two
/// digits per byte, most significant digit of each byte first.
#[verifier::external_body]
pub(crate) fn hex_encode(data: &Vec<u8>) -> (r: Vec<u8>)
    ensures
        r@ == hex_of(data@),
{
    hex::encode(data.as_slice()).into_bytes()
}

} // verus!
