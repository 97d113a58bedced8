//! Trusted bindings to the cryptographic and encoding crates, and the
//! verified certificate fingerprint built on them.
//!
//! Each binding names the outside function it relies on. Results that no
//! short formula can state (a MAC, a digest, a base64 decoding) are given
//! uninterpreted names; everything proved about callers goes through those
//! names.

use vstd::prelude::*;

use crate::text::spec_hex_bytes;
use crate::text::hex_lower;

verus! {

/// What `base64::engine::general_purpose::STANDARD` decodes a byte string
/// to: `None` when the input is not standard, padded base64.
pub uninterp spec fn spec_base64_decode(s: Seq<u8>) -> Option<Seq<u8>>;

/// Relies on base64's `Engine::decode` with the standard alphabet and
/// padding: the result is a function of the input bytes alone.
#[verifier::external_body]
pub fn base64_decode(s: &[u8]) -> (r: Option<Vec<u8>>)
    ensures
        match r {
            Some(v) => spec_base64_decode(s@) == Some(v@),
            None => spec_base64_decode(s@) is None,
        },
{
    base64::Engine::decode(&base64::engine::general_purpose::STANDARD, s).ok()
}

/// The HMAC-SHA256 tag of `msg` under `key`: a function of the two
/// arguments alone.
pub uninterp spec fn spec_hmac_sha256(key: Seq<u8>, msg: Seq<u8>) -> Seq<u8>;

/// Relies on the hmac crate's `Hmac<Sha256>`: it accepts keys of any
/// length and produces the 32-byte SHA-256 HMAC tag.
#[verifier::external_body]
pub fn hmac_sha256(key: &[u8], msg: &[u8]) -> (r: Vec<u8>)
    ensures
        r@ == spec_hmac_sha256(key@, msg@),
        r@.len() == 32,
{
    let mut mac = <hmac::Hmac<sha2::Sha256> as hmac::Mac>::new_from_slice(key).unwrap();
    hmac::Mac::update(&mut mac, msg);
    hmac::Mac::finalize(mac).into_bytes().to_vec()
}

/// The SHA-256 digest of a byte string.
pub uninterp spec fn spec_sha256(data: Seq<u8>) -> Seq<u8>;

/// Relies on sha2's `Sha256::digest`: the 32-byte SHA-256 digest of the
/// input.
#[verifier::external_body]
pub fn sha256(data: &[u8]) -> (r: Vec<u8>)
    ensures
        r@ == spec_sha256(data@),
        r@.len() == 32,
{
    <sha2::Sha256 as sha2::Digest>::digest(data).to_vec()
}

/// Relies on subtle's `ConstantTimeEq` for byte slices: the result is
/// equality of the two slices, length mismatches included, computed
/// without data-dependent timing.
#[verifier::external_body]
pub fn constant_time_eq(a: &[u8], b: &[u8]) -> (r: bool)
    ensures
        r == (a@ == b@),
{
    subtle::ConstantTimeEq::ct_eq(a, b).unwrap_u8() == 1
}

/// Relies on `core::str::from_utf8`: it returns `Ok` exactly on valid
/// UTF-8, as `vstd::utf8::valid_utf8` states it.
#[verifier::external_body]
pub fn utf8_valid(v: &[u8]) -> (r: bool)
    ensures
        r == vstd::utf8::valid_utf8(v@),
{
    core::str::from_utf8(v).is_ok()
}

/// Lowercase hex SHA-256 fingerprint of a DER certificate, as ASCII
/// bytes.
pub fn fingerprint_hex(der: &[u8]) -> (r: Vec<u8>)
    ensures
        r@ == spec_hex_bytes(spec_sha256(der@)),
        r@.len() == 64,
{
    let digest = sha256(der);
    let hexed = hex_lower(digest.as_slice());
    proof {
        crate::text::lemma_hex_bytes_len(digest@);
    }
    hexed
}

} // verus!
