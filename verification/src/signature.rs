//! HMAC-SHA256 request signing and verification over canonical parameter
//! strings, with expiry. Verification is a pure function of the
//! parameters, the presented signature, the secret, and the current time.
use vstd::prelude::*;
use vstd::utf8::encode_utf8;
use crate::canonical::spec_canonical;
use crate::canonical::views_of;
use crate::canonical::canonical_string;
use crate::canonical::lemma_canonical_commutative;
use crate::crypto::spec_hmac_sha256;
use crate::crypto::hmac_sha256;
use crate::crypto::hex_encode;
use crate::crypto::now_unix;
use crate::errors::SignatureError;
use crate::text::spec_hex;
use crate::text::spec_int_shape;
use crate::text::spec_int_value;
use crate::text::parse_i64;
use crate::text::ct_str_eq;

verus! {

/// The hex-encoded HMAC-SHA256 signature of the canonical string of `ps`
/// under `secret`.
pub open spec fn spec_signature(secret: Seq<char>, ps: Seq<(Seq<char>, Seq<char>)>) -> Seq<char> {
    spec_hex(spec_hmac_sha256(encode_utf8(secret), encode_utf8(spec_canonical(ps))))
}

/// The value bound to the first occurrence of key `k`, if any.
pub open spec fn spec_first_value(ps: Seq<(Seq<char>, Seq<char>)>, k: Seq<char>) -> Option<
    Seq<char>,
>
    decreases ps.len(),
{
    if ps.len() == 0 {
        Option::None
    } else if ps[0].0 == k {
        Option::Some(ps[0].1)
    } else {
        spec_first_value(ps.drop_first(), k)
    }
}

/// Whether the parameters carry a `t` timestamp that parses as an `i64`
/// and lies strictly before `now`. An absent or unparseable timestamp
/// never counts as expired.
pub open spec fn spec_expired(ps: Seq<(Seq<char>, Seq<char>)>, now: int) -> bool {
    match spec_first_value(ps, "t"@) {
        Option::Some(v) => spec_int_shape(v) && i64::MIN <= spec_int_value(v) <= i64::MAX
            && spec_int_value(v) < now,
        Option::None => false,
    }
}

/// The complete verification outcome: a missing signature is reported
/// first, then expiry, then the signature comparison.
pub open spec fn spec_verify(
    ps: Seq<(Seq<char>, Seq<char>)>,
    sig: Seq<char>,
    secret: Seq<char>,
    now: int,
) -> Result<(), SignatureError> {
    if sig.len() == 0 {
        Result::Err(SignatureError::Missing)
    } else if spec_expired(ps, now) {
        Result::Err(SignatureError::Expired)
    } else if sig == spec_signature(secret, ps) {
        Result::Ok(())
    } else {
        Result::Err(SignatureError::Invalid)
    }
}

/// Finds the value of the first pair whose key equals `key`.
fn first_value<'a>(params: &'a Vec<(String, String)>, key: &str) -> (r: Option<&'a String>)
    ensures
        match r {
            Option::Some(v) => spec_first_value(views_of(params@), key@) == Option::Some(v@),
            Option::None => spec_first_value(views_of(params@), key@) is None,
        },
{
    let ghost vs = views_of(params@);
    let mut i: usize = 0;
    proof {
        assert(vs.skip(0) =~= vs);
    }
    while i < params.len()
        invariant
            0 <= i <= params@.len(),
            vs == views_of(params@),
            spec_first_value(vs, key@) == spec_first_value(vs.skip(i as int), key@),
        decreases params@.len() - i,
    {
        if ct_str_eq(params[i].0.as_str(), key) {
            proof {
                assert(vs.skip(i as int)[0] == vs[i as int]);
                assert(vs[i as int].0 == key@);
            }
            return Option::Some(&params[i].1);
        }
        proof {
            assert(vs.skip(i as int)[0] == vs[i as int]);
            assert(vs.skip(i as int).drop_first() =~= vs.skip(i + 1));
        }
        i = i + 1;
    }
    proof {
        assert(vs.skip(params@.len() as int).len() == 0);
    }
    Option::None
}

/// Computes the hex-encoded HMAC-SHA256 signature of the canonical
/// string of `params` under `secret`.
pub fn compute_signature(params: &Vec<(String, String)>, secret: &str) -> (r: String)
    ensures
        r@ == spec_signature(secret@, views_of(params@)),
        r@.len() == 64,
{
    let canonical = canonical_string(params);
    let digest = hmac_sha256(secret.as_bytes(), canonical.as_str().as_bytes());
    let encoded = hex_encode(digest.as_slice());
    proof {
        crate::text::lemma_spec_hex_len(digest@);
    }
    encoded
}

/// Verifies the HMAC-SHA256 signature of `params` as of the instant
/// `now`: fails with `Missing` on an empty signature string, with
/// `Expired` when a parseable `t` parameter lies strictly before `now`,
/// and with `Invalid` when the recomputed signature does not match. The
/// comparison examines every character, not stopping at the first
/// mismatch.
pub fn verify_signature_at(
    params: &Vec<(String, String)>,
    sig: &str,
    secret: &str,
    now: i64,
) -> (r: Result<(), SignatureError>)
    ensures
        r == spec_verify(views_of(params@), sig@, secret@, now as int),
{
    if sig.is_empty() {
        return Result::Err(SignatureError::Missing);
    }
    let t_key = String::from_str("t");
    match first_value(params, t_key.as_str()) {
        Option::Some(ts) => {
            match parse_i64(ts.as_str()) {
                Option::Some(epoch) => {
                    if epoch < now {
                        return Result::Err(SignatureError::Expired);
                    }
                },
                Option::None => {},
            }
        },
        Option::None => {},
    }
    let expected = compute_signature(params, secret);
    if ct_str_eq(expected.as_str(), sig) {
        Result::Ok(())
    } else {
        Result::Err(SignatureError::Invalid)
    }
}

/// Verifies the signature as of the current wall clock. The outcome is
/// that of `spec_verify` at some instant; everything that does not
/// depend on the clock is stated unconditionally.
pub fn verify_signature(params: &Vec<(String, String)>, sig: &str, secret: &str) -> (r: Result<
    (),
    SignatureError,
>)
    ensures
        exists|now: int| r == spec_verify(views_of(params@), sig@, secret@, now),
        (r == Result::<(), SignatureError>::Err(SignatureError::Missing)) <==> sig@.len() == 0,
        spec_first_value(views_of(params@), "t"@) is None ==> r == spec_verify(
            views_of(params@),
            sig@,
            secret@,
            0,
        ),
{
    let now = now_unix();
    let r = verify_signature_at(params, sig, secret, now);
    proof {
        assert(r == spec_verify(views_of(params@), sig@, secret@, now as int));
    }
    r
}

/// Expiry monotonicity: whatever the rest of the request, a parseable
/// `t` strictly before `now` — even by one second — makes verification
/// fail as expired, and a `t` at or after `now` passes the expiry check,
/// leaving the outcome to the signature comparison.
pub proof fn lemma_expiry_monotonic(
    ps: Seq<(Seq<char>, Seq<char>)>,
    sig: Seq<char>,
    secret: Seq<char>,
    now: int,
    t_val: Seq<char>,
)
    requires
        spec_first_value(ps, "t"@) == Option::Some(t_val),
        spec_int_shape(t_val),
        i64::MIN <= spec_int_value(t_val) <= i64::MAX,
        sig.len() > 0,
    ensures
        spec_int_value(t_val) < now ==> spec_verify(ps, sig, secret, now) == Result::<
            (),
            SignatureError,
        >::Err(SignatureError::Expired),
        spec_int_value(t_val) >= now ==> spec_verify(ps, sig, secret, now) != Result::<
            (),
            SignatureError,
        >::Err(SignatureError::Expired),
{
}

/// Canonicalization commutativity carried to signatures: collections
/// holding the same parameter pairs, in whatever order, sign
/// identically, so verification treats them alike.
pub proof fn lemma_signature_commutative(
    ps1: Seq<(Seq<char>, Seq<char>)>,
    ps2: Seq<(Seq<char>, Seq<char>)>,
    secret: Seq<char>,
)
    requires
        ps1.to_multiset() == ps2.to_multiset(),
    ensures
        spec_signature(secret, ps1) == spec_signature(secret, ps2),
{
    lemma_canonical_commutative(ps1, ps2);
}

} // verus!
