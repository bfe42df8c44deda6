//! Cache backends: content-addressed key derivation, ETag and content
//! type helpers, the backend capability trait, and the unbounded
//! filesystem-backed variant's pure logic. The bounded, evicting variant
//! lives in `sled_cache`.
use vstd::prelude::*;
use vstd::utf8::encode_utf8;
use crate::canonical::spec_canonical;
use crate::canonical::views_of;
use crate::canonical::canonical_string;
use crate::canonical::lemma_canonical_commutative;
use crate::config::ImageFormat;
use crate::config::spec_format_name;
use crate::crypto::spec_sha256;
use crate::crypto::sha256;
use crate::crypto::hex_encode;
use crate::text::spec_hex;
use crate::text::ct_str_eq;

verus! {

/// The cache key of a parameter collection: the hex SHA-256 digest of
/// its canonical parameter string. Deterministic in the parameter pairs
/// regardless of their order.
pub open spec fn spec_cache_key(ps: Seq<(Seq<char>, Seq<char>)>) -> Seq<char> {
    spec_hex(spec_sha256(encode_utf8(spec_canonical(ps))))
}

/// Canonicalization commutativity carried to cache keys: collections
/// holding the same parameter pairs derive the same key, whatever their
/// order — the load-bearing invariant for cache-hit correctness.
pub proof fn lemma_cache_key_commutative(
    ps1: Seq<(Seq<char>, Seq<char>)>,
    ps2: Seq<(Seq<char>, Seq<char>)>,
)
    requires
        ps1.to_multiset() == ps2.to_multiset(),
    ensures
        spec_cache_key(ps1) == spec_cache_key(ps2),
{
    lemma_canonical_commutative(ps1, ps2);
}

/// Derives the cache key of a parameter collection.
pub fn derive_cache_key(params: &Vec<(String, String)>) -> (r: String)
    ensures
        r@ == spec_cache_key(views_of(params@)),
        r@.len() == 64,
{
    let canonical = canonical_string(params);
    let digest = sha256(canonical.as_str().as_bytes());
    let encoded = hex_encode(digest.as_slice());
    proof {
        crate::text::lemma_spec_hex_len(digest@);
    }
    encoded
}

/// The ETag of a cache key: the key in double quotes, per RFC 7232.
pub open spec fn spec_etag(key: Seq<char>) -> Seq<char> {
    "\""@ + key + "\""@
}

/// Generates an ETag header value from a cache key.
pub fn etag_for_key(key: &str) -> (r: String)
    ensures
        r@ == spec_etag(key@),
{
    let mut s = String::from_str("\"");
    s.append(key);
    s.append("\"");
    proof {
        assert(s@ =~= spec_etag(key@));
    }
    s
}

/// The MIME content type of an output format.
pub open spec fn spec_content_type(f: ImageFormat) -> Seq<char> {
    match f {
        ImageFormat::jpeg => "image/jpeg"@,
        ImageFormat::webp => "image/webp"@,
        ImageFormat::avif => "image/avif"@,
    }
}

/// Generates the content type for an output format.
pub fn content_type_from_format(format: ImageFormat) -> (r: &'static str)
    ensures
        r@ == spec_content_type(format),
{
    match format {
        ImageFormat::webp => "image/webp",
        ImageFormat::jpeg => "image/jpeg",
        ImageFormat::avif => "image/avif",
    }
}

/// The format a file extension denotes, with `jpg` accepted for JPEG.
pub open spec fn spec_format_from_extension(ext: Seq<char>) -> Option<ImageFormat> {
    if ext == "webp"@ {
        Option::Some(ImageFormat::webp)
    } else if ext == "jpeg"@ || ext == "jpg"@ {
        Option::Some(ImageFormat::jpeg)
    } else if ext == "avif"@ {
        Option::Some(ImageFormat::avif)
    } else {
        Option::None
    }
}

/// Detects an output format from a file extension.
pub fn format_from_extension(ext: &str) -> (r: Option<ImageFormat>)
    ensures
        r == spec_format_from_extension(ext@),
{
    if ct_str_eq(ext, "webp") {
        Option::Some(ImageFormat::webp)
    } else if ct_str_eq(ext, "jpeg") || ct_str_eq(ext, "jpg") {
        Option::Some(ImageFormat::jpeg)
    } else if ct_str_eq(ext, "avif") {
        Option::Some(ImageFormat::avif)
    } else {
        Option::None
    }
}

/// The index of the last occurrence of `c` in `s`, or `-1` if absent.
pub open spec fn spec_last_index_of(s: Seq<char>, c: char) -> int
    decreases s.len(),
{
    if s.len() == 0 {
        -1
    } else if s.last() == c {
        s.len() - 1
    } else {
        spec_last_index_of(s.drop_last(), c)
    }
}

/// Finds the last occurrence of `c`, returning the string's length when
/// there is none, so the result is always a usable scan bound.
fn last_index_of(s: &str, c: char) -> (r: (bool, usize))
    ensures
        r.0 ==> spec_last_index_of(s@, c) == r.1 as int && r.1 < s@.len(),
        !r.0 ==> spec_last_index_of(s@, c) == -1,
{
    let n = s.unicode_len();
    let mut i: usize = n;
    proof {
        assert(s@.subrange(0, n as int) =~= s@);
    }
    while i > 0
        invariant
            0 <= i <= n,
            n == s@.len(),
            spec_last_index_of(s@, c) == spec_last_index_of(s@.subrange(0, i as int), c),
        decreases i,
    {
        let j = i - 1;
        if s.get_char(j) == c {
            proof {
                assert(s@.subrange(0, j + 1).last() == s@[j as int]);
            }
            return (true, j);
        }
        proof {
            assert(s@.subrange(0, i as int).drop_last() =~= s@.subrange(0, j as int));
            assert(s@.subrange(0, i as int).last() == s@[j as int]);
        }
        i = j;
    }
    proof {
        assert(s@.subrange(0, 0).len() == 0);
    }
    (false, 0)
}

/// The extension of a path: the characters after the last dot, provided
/// that dot lies inside the final path component and does not lead it.
pub open spec fn spec_extension(p: Seq<char>) -> Option<Seq<char>> {
    let dot = spec_last_index_of(p, '.');
    let slash = spec_last_index_of(p, '/');
    if dot >= 0 && dot > slash + 1 {
        Option::Some(p.skip(dot + 1))
    } else {
        Option::None
    }
}

/// The content type a cached file is served with, from its path's
/// extension; `None` for unknown extensions.
pub open spec fn spec_content_type_for_path(p: Seq<char>) -> Option<Seq<char>> {
    match spec_extension(p) {
        Option::Some(ext) => match spec_format_from_extension(ext) {
            Option::Some(f) => Option::Some(spec_content_type(f)),
            Option::None => Option::None,
        },
        Option::None => Option::None,
    }
}

/// The capability interface of a cache backend: deterministic key
/// derivation, lookup, and storage. Lookups and stores may touch
/// persistent state and so may fail; a failure is non-fatal to the
/// request being served.
pub trait Cache: Sized {
    /// Derives the cache key identifying one transformation output.
    fn key_for(&self, params: &Vec<(String, String)>) -> (r: String)
        ensures
            r@ == spec_cache_key(views_of(params@)),
    ;

    /// Fetches the cached payload under `key`, `None` on a miss.
    fn get(&mut self, key: &str) -> Result<Option<Vec<u8>>, String>;

    /// Stores a payload under `key` together with its format and the
    /// diagnostic parameter string.
    fn put(&mut self, key: &str, data: &[u8], format: ImageFormat, params: &str) -> Result<
        (),
        String,
    >;
}

/// The unbounded filesystem-backed cache's pure logic: key and path
/// derivation and response metadata. Reading and writing the files
/// themselves is input/output and sits with the caller.
pub struct DiskCache {
    /// The directory that holds one file per cache key.
    pub dir: String,
}

impl DiskCache {
    /// Creates a disk cache rooted at `dir`; the directory is created on
    /// first write.
    pub fn new(dir: String) -> (r: Self)
        ensures
            r.dir == dir,
    {
        DiskCache { dir }
    }

    /// The filesystem path of a cache key within this cache's directory.
    pub fn path_for(&self, key: &str) -> (r: String)
        ensures
            r@ == self.dir@ + "/"@ + key@,
    {
        let mut s = self.dir.clone();
        s.append("/");
        s.append(key);
        proof {
            assert(s@ =~= self.dir@ + "/"@ + key@);
        }
        s
    }

    /// The filesystem path a payload of the given format is stored
    /// under: the key with the format's extension appended.
    pub fn storage_path_for(&self, key: &str, format: ImageFormat) -> (r: String)
        ensures
            r@ == self.dir@ + "/"@ + key@ + "."@ + spec_format_name(format),
    {
        let mut s = self.path_for(key);
        s.append(".");
        let name = format.name();
        s.append(name.as_str());
        proof {
            assert(s@ =~= self.dir@ + "/"@ + key@ + "."@ + spec_format_name(format));
        }
        s
    }

    /// Derives the cache key of a parameter collection.
    pub fn key_for(&self, params: &Vec<(String, String)>) -> (r: String)
        ensures
            r@ == spec_cache_key(views_of(params@)),
    {
        derive_cache_key(params)
    }

    /// Generates an ETag header value from a cache key.
    pub fn etag_for(&self, key: &str) -> (r: String)
        ensures
            r@ == spec_etag(key@),
    {
        etag_for_key(key)
    }

    /// Determines the content type to serve a cached file with, from its
    /// path's extension.
    pub fn content_type_for_path(&self, path: &str) -> (r: Option<String>)
        ensures
            match r {
                Option::Some(ct) => spec_content_type_for_path(path@) == Option::Some(ct@),
                Option::None => spec_content_type_for_path(path@) is None,
            },
    {
        let n = path.unicode_len();
        let (has_dot, dot) = last_index_of(path, '.');
        let (has_slash, slash) = last_index_of(path, '/');
        if !has_dot {
            return Option::None;
        }
        if has_slash && dot <= slash + 1 {
            return Option::None;
        }
        if !has_slash && dot == 0 {
            return Option::None;
        }
        let ext = path.substring_char(dot + 1, n);
        proof {
            assert(ext@ =~= path@.skip(dot + 1));
        }
        match format_from_extension(ext) {
            Option::Some(f) => Option::Some(String::from_str(content_type_from_format(f))),
            Option::None => Option::None,
        }
    }
}

} // verus!
