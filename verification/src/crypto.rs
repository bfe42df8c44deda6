//! Trusted wrappers around the cryptographic primitives the service
//! relies on: HMAC-SHA256, SHA-256, hex encoding, and the clock. The
//! digests themselves are named, not written out; everything downstream
//! is verified against these names.
use vstd::prelude::*;
use crate::text::spec_hex;
use hmac::Mac;
use sha2::Digest;

verus! {

/// The HMAC-SHA256 digest of a message under a key. A function of its
/// arguments alone; the implementation is trusted to compute it.
pub uninterp spec fn spec_hmac_sha256(key: Seq<u8>, msg: Seq<u8>) -> Seq<u8>;

/// The SHA-256 digest of a byte sequence. A function of its argument
/// alone; the implementation is trusted to compute it.
pub uninterp spec fn spec_sha256(data: Seq<u8>) -> Seq<u8>;

/// Relies on the hmac crate's `Hmac<Sha256>`: `new_from_slice` accepts
/// keys of any length (long keys are pre-hashed, per the HMAC
/// construction), and the finalized digest is 32 bytes, a function of key
/// and message alone.
#[verifier::external_body]
pub fn hmac_sha256(key: &[u8], msg: &[u8]) -> (r: Vec<u8>)
    ensures
        r@ == spec_hmac_sha256(key@, msg@),
        r@.len() == 32,
{
    let mut mac = <hmac::Hmac<sha2::Sha256> as Mac>::new_from_slice(key).expect(
        "HMAC accepts keys of any size",
    );
    mac.update(msg);
    mac.finalize().into_bytes().to_vec()
}

/// Relies on sha2's `Sha256`: the digest is 32 bytes and a function of
/// the input alone.
#[verifier::external_body]
pub fn sha256(data: &[u8]) -> (r: Vec<u8>)
    ensures
        r@ == spec_sha256(data@),
        r@.len() == 32,
{
    let mut hasher = sha2::Sha256::new();
    hasher.update(data);
    hasher.finalize().to_vec()
}

/// Relies on hex::encode: two lowercase hex digits per input byte, most
/// significant digit first, exactly as `spec_hex` lays it out.
#[verifier::external_body]
pub fn hex_encode(data: &[u8]) -> (r: String)
    ensures
        r@ == spec_hex(data@),
{
    hex::encode(data)
}

/// Relies on time's `OffsetDateTime::now_utc`: the current Unix
/// timestamp in seconds. Nothing can be promised of the value.
#[verifier::external_body]
pub fn now_unix() -> i64 {
    time::OffsetDateTime::now_utc().unix_timestamp()
}

} // verus!
