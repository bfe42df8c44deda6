//! The request orchestrator's decisions: building the canonical
//! parameter pairs of a request, gating it on its signature and quality,
//! resolving the output format, running the transformation pipeline on
//! fetched bytes, shaping response metadata, signing requests for
//! clients, and counting outcomes. The surrounding transport — routing,
//! cache and network input/output — hands values in and takes values
//! back.
use vstd::prelude::*;
use crate::cache::derive_cache_key;
use crate::cache::etag_for_key;
use crate::cache::spec_cache_key;
use crate::cache::spec_content_type;
use crate::cache::spec_etag;
use crate::cache::content_type_from_format;
use crate::canonical::canonical_string;
use crate::canonical::spec_canonical;
use crate::canonical::views_of;
use crate::config::DEFAULT_CACHE_CONTROL;
use crate::config::DEFAULT_QUALITY;
use crate::config::ImageFormat;
use crate::config::spec_format_name;
use crate::errors::ImageKitError;
use crate::errors::SignatureError;
use crate::signature::spec_signature;
use crate::signature::spec_verify;
use crate::signature::verify_signature_at;
use crate::signature::compute_signature;
use crate::text::spec_dec;
use crate::text::spec_dec_i64;
use crate::text::dec_u64_string;
use crate::text::dec_i64_string;
use crate::transform::decode_image;
use crate::transform::resize_image;
use crate::transform::encode_image;
use crate::transform::spec_webp_magic;
use crate::transform::spec_jpeg_magic;
use crate::transform::spec_decoded_dims;
use crate::transform::spec_target_dims;
use crate::transform::MAX_TARGET_PIXELS;

verus! {

/// The query parameters of a transformation request, as the transport
/// hands them over: source URL, optional dimensions, format, quality
/// and expiry, and the presented signature.
#[derive(Debug, Clone)]
pub struct ImageQuery {
    pub url: String,
    pub w: Option<u32>,
    pub h: Option<u32>,
    pub f: Option<ImageFormat>,
    pub q: Option<u8>,
    pub t: Option<i64>,
    pub sig: String,
}

/// The query parameters of a signing request: a transformation request
/// without its signature.
#[derive(Debug, Clone)]
pub struct SignQuery {
    pub url: String,
    pub w: Option<u32>,
    pub h: Option<u32>,
    pub f: Option<ImageFormat>,
    pub q: Option<u8>,
    pub t: Option<i64>,
}

/// What the signing endpoint returns: the canonical string, the
/// signature over it, and a ready-to-use signed URL.
#[derive(Debug, Clone)]
pub struct SignResponse {
    pub canonical: String,
    pub sig: String,
    pub signed_url: String,
}

/// A single optional parameter pair.
pub open spec fn spec_opt_pair(k: Seq<char>, v: Option<Seq<char>>) -> Seq<(Seq<char>, Seq<char>)> {
    match v {
        Option::Some(x) => seq![(k, x)],
        Option::None => Seq::<(Seq<char>, Seq<char>)>::empty(),
    }
}

/// The parameter pairs of a request: `url` always, then whichever of
/// `w`, `h`, `f`, `q`, `t` are present, rendered in decimal or as the
/// format's name — exactly the pairs that were signed.
pub open spec fn spec_request_pairs(
    url: Seq<char>,
    w: Option<u32>,
    h: Option<u32>,
    f: Option<ImageFormat>,
    q: Option<u8>,
    t: Option<i64>,
) -> Seq<(Seq<char>, Seq<char>)> {
    seq![("url"@, url)] + spec_opt_pair(
        "w"@,
        match w {
            Option::Some(x) => Option::Some(spec_dec(x as int)),
            Option::None => Option::None,
        },
    ) + spec_opt_pair(
        "h"@,
        match h {
            Option::Some(x) => Option::Some(spec_dec(x as int)),
            Option::None => Option::None,
        },
    ) + spec_opt_pair(
        "f"@,
        match f {
            Option::Some(x) => Option::Some(spec_format_name(x)),
            Option::None => Option::None,
        },
    ) + spec_opt_pair(
        "q"@,
        match q {
            Option::Some(x) => Option::Some(spec_dec(x as int)),
            Option::None => Option::None,
        },
    ) + spec_opt_pair(
        "t"@,
        match t {
            Option::Some(x) => Option::Some(spec_dec_i64(x as int)),
            Option::None => Option::None,
        },
    )
}

/// Builds the owned parameter pairs of a request.
pub fn request_pairs(
    url: &String,
    w: Option<u32>,
    h: Option<u32>,
    f: Option<ImageFormat>,
    q: Option<u8>,
    t: Option<i64>,
) -> (r: Vec<(String, String)>)
    ensures
        views_of(r@) == spec_request_pairs(url@, w, h, f, q, t),
{
    let mut pairs: Vec<(String, String)> = Vec::new();
    pairs.push((String::from_str("url"), url.clone()));
    match w {
        Option::Some(x) => pairs.push((String::from_str("w"), dec_u64_string(x as u64))),
        Option::None => {},
    }
    match h {
        Option::Some(x) => pairs.push((String::from_str("h"), dec_u64_string(x as u64))),
        Option::None => {},
    }
    match f {
        Option::Some(x) => pairs.push((String::from_str("f"), x.name())),
        Option::None => {},
    }
    match q {
        Option::Some(x) => pairs.push((String::from_str("q"), dec_u64_string(x as u64))),
        Option::None => {},
    }
    match t {
        Option::Some(x) => pairs.push((String::from_str("t"), dec_i64_string(x))),
        Option::None => {},
    }
    proof {
        assert(views_of(pairs@) =~= spec_request_pairs(url@, w, h, f, q, t));
    }
    pairs
}

/// Builds the canonical parameter string of a set of query pairs; the
/// same canonicalization the signer and the cache-key deriver use, so
/// the three can never drift apart.
pub fn canonical_params(query_map: &Vec<(String, String)>) -> (r: String)
    ensures
        r@ == spec_canonical(views_of(query_map@)),
{
    canonical_string(query_map)
}

/// The output format a request resolves to: the requested one, else the
/// configured default, else WebP.
pub open spec fn spec_resolved_format(f: Option<ImageFormat>, d: Option<ImageFormat>) -> ImageFormat {
    match f {
        Option::Some(x) => x,
        Option::None => match d {
            Option::Some(x) => x,
            Option::None => ImageFormat::webp,
        },
    }
}

/// Everything the verified gate concludes about an admitted request:
/// its canonical string, cache key, resolved output format, and
/// effective quality.
#[derive(Debug, Clone)]
pub struct RequestPlan {
    pub canonical: String,
    pub key: String,
    pub format: ImageFormat,
    pub quality: u8,
}

/// Gates a transformation request as of the instant `now`: verifies the
/// signature over the canonical parameter pairs — rejecting before any
/// fetch or transform work — then enforces the quality bounds, and
/// derives the cache key and response plan. Expired and unauthorized
/// requests are distinguishable, since clients remediate them
/// differently.
pub fn prepare_request(
    query: &ImageQuery,
    secret: &str,
    default_format: Option<ImageFormat>,
    now: i64,
) -> (r: Result<RequestPlan, ImageKitError>)
    ensures
        ({
            let ps = spec_request_pairs(query.url@, query.w, query.h, query.f, query.q, query.t);
            let v = spec_verify(ps, query.sig@, secret@, now as int);
            match r {
                Result::Ok(plan) => {
                    &&& v is Ok
                    &&& (match query.q {
                        Option::Some(qq) => 1 <= qq <= 100,
                        Option::None => true,
                    })
                    &&& plan.canonical@ == spec_canonical(ps)
                    &&& plan.key@ == spec_cache_key(ps)
                    &&& plan.format == spec_resolved_format(query.f, default_format)
                    &&& plan.quality == (match query.q {
                        Option::Some(qq) => qq,
                        Option::None => DEFAULT_QUALITY,
                    })
                },
                Result::Err(e) => {
                    &&& (e is Expired <==> v == Result::<(), SignatureError>::Err(
                        SignatureError::Expired,
                    ))
                    &&& (e is Unauthorized <==> (v == Result::<(), SignatureError>::Err(
                        SignatureError::Missing,
                    ) || v == Result::<(), SignatureError>::Err(SignatureError::Invalid)))
                    &&& (e is InvalidArgument <==> (v is Ok && (match query.q {
                        Option::Some(qq) => qq < 1 || qq > 100,
                        Option::None => false,
                    })))
                    &&& (e is Expired || e is Unauthorized || e is InvalidArgument)
                },
            }
        }),
{
    let pairs = request_pairs(&query.url, query.w, query.h, query.f, query.q, query.t);
    match verify_signature_at(&pairs, query.sig.as_str(), secret, now) {
        Result::Ok(()) => {},
        Result::Err(SignatureError::Expired) => {
            return Result::Err(ImageKitError::Expired(String::from_str("expired")));
        },
        Result::Err(SignatureError::Missing) => {
            return Result::Err(ImageKitError::Unauthorized(String::from_str("missing signature")));
        },
        Result::Err(SignatureError::Invalid) => {
            return Result::Err(ImageKitError::Unauthorized(String::from_str("invalid signature")));
        },
    }
    match query.q {
        Option::Some(qq) => {
            if qq == 0 || qq > 100 {
                return Result::Err(
                    ImageKitError::InvalidArgument(String::from_str("Invalid quality")),
                );
            }
        },
        Option::None => {},
    }
    let canonical = canonical_params(&pairs);
    let key = derive_cache_key(&pairs);
    let format = match query.f {
        Option::Some(x) => x,
        Option::None => match default_format {
            Option::Some(x) => x,
            Option::None => ImageFormat::webp,
        },
    };
    let quality = match query.q {
        Option::Some(qq) => qq,
        Option::None => DEFAULT_QUALITY,
    };
    Result::Ok(RequestPlan { canonical, key, format, quality })
}

/// Runs the transformation pipeline on fetched source bytes: decode,
/// aspect-aware resize, quality-clamped re-encode in the resolved
/// format. Pure compute; the bytes were already size-checked by the
/// fetch validation. Bytes the decoder's verdict rejects always fail;
/// a JPEG request is owed success whenever the decoded source and the
/// planned output lie within the format's and the machine's ranges.
pub fn run_pipeline(
    bytes: &Vec<u8>,
    w: Option<u32>,
    h: Option<u32>,
    format: ImageFormat,
    quality: u8,
) -> (r: Result<Vec<u8>, ImageKitError>)
    ensures
        r is Ok ==> spec_decoded_dims(bytes@) is Some,
        spec_decoded_dims(bytes@) is None ==> r is Err,
        match r {
            Result::Ok(v) => {
                &&& v@.len() > 0
                &&& (format == ImageFormat::webp ==> spec_webp_magic(v@))
                &&& (format == ImageFormat::jpeg ==> spec_jpeg_magic(v@))
            },
            Result::Err(e) => e is TransformError,
        },
        ({
            let dd = spec_decoded_dims(bytes@);
            format == ImageFormat::jpeg && (dd matches Some(d) && d.0 >= 1 && d.1 >= 1 && {
                let target = spec_target_dims(d.0 as int, d.1 as int, w, h);
                &&& target.0 <= 65535
                &&& target.1 <= 65535
                &&& target.0 * target.1 <= MAX_TARGET_PIXELS as int
            }) ==> r is Ok
        }),
{
    let (img, _detected) = match decode_image(bytes) {
        Result::Ok(p) => p,
        Result::Err(e) => {
            return Result::Err(e);
        },
    };
    if img.width() == 0 || img.height() == 0 {
        return Result::Err(
            ImageKitError::TransformError(String::from_str("decoded image has no pixels")),
        );
    }
    let resized = match resize_image(img, w, h) {
        Result::Ok(i) => i,
        Result::Err(e) => {
            return Result::Err(e);
        },
    };
    encode_image(&resized, format, quality)
}

/// The response metadata of a successfully served transformation,
/// whether freshly transformed or a cache hit: OK status, the resolved
/// format's content type, an ETag derived from the cache key, and the
/// long-lived immutable caching directive — transformation parameters
/// are natural cache busters.
#[derive(Debug, Clone)]
pub struct ResponseMeta {
    pub status: u16,
    pub content_type: String,
    pub etag: String,
    pub cache_control: String,
}

/// Builds the response metadata for serving the output cached or
/// computed under `key` in `format`.
pub fn ok_response_meta(key: &str, format: ImageFormat) -> (r: ResponseMeta)
    ensures
        r.status == 200,
        r.content_type@ == spec_content_type(format),
        r.etag@ == spec_etag(key@),
        r.cache_control@ == DEFAULT_CACHE_CONTROL@,
{
    ResponseMeta {
        status: 200,
        content_type: String::from_str(content_type_from_format(format)),
        etag: etag_for_key(key),
        cache_control: String::from_str(DEFAULT_CACHE_CONTROL),
    }
}

/// Signs a request on behalf of a client: canonicalizes its parameters,
/// computes the signature, and assembles the signed URL.
pub fn sign_response(query: &SignQuery, secret: &str) -> (r: SignResponse)
    ensures
        ({
            let ps = spec_request_pairs(query.url@, query.w, query.h, query.f, query.q, query.t);
            &&& r.canonical@ == spec_canonical(ps)
            &&& r.sig@ == spec_signature(secret@, ps)
            &&& r.signed_url@ == "/img?"@ + spec_canonical(ps) + "&sig="@ + spec_signature(
                secret@,
                ps,
            )
        }),
{
    let pairs = request_pairs(&query.url, query.w, query.h, query.f, query.q, query.t);
    let canonical = canonical_params(&pairs);
    let sig = compute_signature(&pairs, secret);
    let mut signed_url = String::from_str("/img?");
    signed_url.append(canonical.as_str());
    signed_url.append("&sig=");
    signed_url.append(sig.as_str());
    proof {
        assert(signed_url@ =~= "/img?"@ + canonical@ + "&sig="@ + sig@);
    }
    SignResponse { canonical, sig, signed_url }
}

/// Outcome counters, tracked by the orchestrator and reported outward;
/// the cache itself stores none of this.
#[derive(Debug, Clone, Copy, PartialEq, Eq, Structural)]
pub struct Metrics {
    pub cache_hits: u64,
    pub cache_misses: u64,
    pub transforms: u64,
    pub errors: u64,
}

impl Metrics {
    /// Fresh counters, all zero.
    pub fn new() -> (r: Self)
        ensures
            r.cache_hits == 0,
            r.cache_misses == 0,
            r.transforms == 0,
            r.errors == 0,
    {
        Metrics { cache_hits: 0, cache_misses: 0, transforms: 0, errors: 0 }
    }

    /// Counts a cache hit; the counter holds at its maximum.
    pub fn record_hit(&mut self)
        ensures
            final(self).cache_hits == (if old(self).cache_hits < u64::MAX {
                old(self).cache_hits + 1
            } else {
                old(self).cache_hits as int
            }),
            final(self).cache_misses == old(self).cache_misses,
            final(self).transforms == old(self).transforms,
            final(self).errors == old(self).errors,
    {
        if self.cache_hits < u64::MAX {
            self.cache_hits = self.cache_hits + 1;
        }
    }

    /// Counts a cache miss; the counter holds at its maximum.
    pub fn record_miss(&mut self)
        ensures
            final(self).cache_misses == (if old(self).cache_misses < u64::MAX {
                old(self).cache_misses + 1
            } else {
                old(self).cache_misses as int
            }),
            final(self).cache_hits == old(self).cache_hits,
            final(self).transforms == old(self).transforms,
            final(self).errors == old(self).errors,
    {
        if self.cache_misses < u64::MAX {
            self.cache_misses = self.cache_misses + 1;
        }
    }

    /// Counts a transformation; the counter holds at its maximum.
    pub fn record_transform(&mut self)
        ensures
            final(self).transforms == (if old(self).transforms < u64::MAX {
                old(self).transforms + 1
            } else {
                old(self).transforms as int
            }),
            final(self).cache_hits == old(self).cache_hits,
            final(self).cache_misses == old(self).cache_misses,
            final(self).errors == old(self).errors,
    {
        if self.transforms < u64::MAX {
            self.transforms = self.transforms + 1;
        }
    }

    /// Counts an error; the counter holds at its maximum.
    pub fn record_error(&mut self)
        ensures
            final(self).errors == (if old(self).errors < u64::MAX {
                old(self).errors + 1
            } else {
                old(self).errors as int
            }),
            final(self).cache_hits == old(self).cache_hits,
            final(self).cache_misses == old(self).cache_misses,
            final(self).transforms == old(self).transforms,
    {
        if self.errors < u64::MAX {
            self.errors = self.errors + 1;
        }
    }
}

} // verus!
