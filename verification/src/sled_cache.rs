//! The size-bounded persistent cache: payload and metadata records in an
//! embedded ordered byte-keyed store, least-recently-used eviction with a
//! hysteresis target, and on-demand statistics. Each cache key owns two
//! records, a `meta:`-prefixed header and a `data:`-prefixed payload, so
//! metadata can be scanned independently of payloads.
use vstd::prelude::*;
use vstd::utf8::encode_utf8;
use vstd::string::StringSliceAdditionalSpecFns;
use crate::config::ImageFormat;

verus! {

// ------------------------------------------------------------------
// Lexicographic order on byte sequences, the order record keys are
// scanned in.
// ------------------------------------------------------------------

/// Lexicographic "less or equal" on byte sequences; a proper prefix
/// precedes its extensions.
pub open spec fn byte_le(a: Seq<u8>, b: Seq<u8>) -> bool
    decreases a.len(),
{
    if a.len() == 0 {
        true
    } else if b.len() == 0 {
        false
    } else if a[0] == b[0] {
        byte_le(a.drop_first(), b.drop_first())
    } else {
        a[0] < b[0]
    }
}

/// Strict form of `byte_le`.
pub open spec fn byte_lt(a: Seq<u8>, b: Seq<u8>) -> bool {
    byte_le(a, b) && a != b
}

proof fn lemma_byte_le_antisymmetric(a: Seq<u8>, b: Seq<u8>)
    requires
        byte_le(a, b),
        byte_le(b, a),
    ensures
        a == b,
    decreases a.len(),
{
    if a.len() == 0 {
        assert(b.len() == 0);
        assert(a =~= b);
    } else {
        assert(b.len() > 0);
        lemma_byte_le_antisymmetric(a.drop_first(), b.drop_first());
        assert(a =~= seq![a[0]] + a.drop_first());
        assert(b =~= seq![b[0]] + b.drop_first());
    }
}

// ------------------------------------------------------------------
// The listing of prefixed records: what a prefix scan of the store
// returns, characterized and proved unique.
// ------------------------------------------------------------------

/// Whether `p` is a prefix of `k`.
pub open spec fn is_prefixed(p: Seq<u8>, k: Seq<u8>) -> bool {
    p.len() <= k.len() && k.subrange(0, p.len() as int) == p
}

/// Whether `s` lists exactly the records of `m` whose keys carry prefix
/// `p`, in strictly ascending key order.
pub open spec fn scan_matches(
    m: Map<Seq<u8>, Seq<u8>>,
    p: Seq<u8>,
    s: Seq<(Seq<u8>, Seq<u8>)>,
) -> bool {
    &&& forall|i: int, j: int| 0 <= i < j < s.len() ==> byte_lt(#[trigger] s[i].0, #[trigger] s[j].0)
    &&& forall|i: int|
        0 <= i < s.len() ==> m.contains_pair(#[trigger] s[i].0, s[i].1) && is_prefixed(p, s[i].0)
    &&& forall|k: Seq<u8>|
        m.dom().contains(k) && is_prefixed(p, k) ==> exists|i: int|
            0 <= i < s.len() && (#[trigger] s[i]).0 == k
}

/// Only one sequence lists the prefixed records of a map in ascending
/// order.
pub proof fn lemma_scan_unique(
    m: Map<Seq<u8>, Seq<u8>>,
    p: Seq<u8>,
    s1: Seq<(Seq<u8>, Seq<u8>)>,
    s2: Seq<(Seq<u8>, Seq<u8>)>,
)
    requires
        scan_matches(m, p, s1),
        scan_matches(m, p, s2),
    ensures
        s1 == s2,
    decreases s1.len(),
{
    if s1.len() == 0 {
        if s2.len() > 0 {
            assert(m.dom().contains(s2[0].0) && is_prefixed(p, s2[0].0));
            assert(false);
        }
        assert(s1 =~= s2);
    } else if s2.len() == 0 {
        assert(m.dom().contains(s1[0].0) && is_prefixed(p, s1[0].0));
        assert(false);
    } else {
        let k1 = s1[0].0;
        let k2 = s2[0].0;
        assert(k1 == k2) by {
            if k1 != k2 {
                let i = choose|i: int| 0 <= i < s2.len() && (#[trigger] s2[i]).0 == k1;
                assert(i > 0);
                assert(byte_lt(k2, s2[i].0));
                let j = choose|j: int| 0 <= j < s1.len() && (#[trigger] s1[j]).0 == k2;
                assert(j > 0);
                assert(byte_lt(k1, s1[j].0));
                lemma_byte_le_antisymmetric(k1, k2);
            }
        }
        assert(s1[0].1 == m[k1]);
        assert(s2[0].1 == m[k1]);
        let m2 = m.remove(k1);
        assert(scan_matches(m2, p, s1.drop_first())) by {
            lemma_scan_drop_first(m, p, s1);
        }
        assert(scan_matches(m2, p, s2.drop_first())) by {
            lemma_scan_drop_first(m, p, s2);
        }
        lemma_scan_unique(m2, p, s1.drop_first(), s2.drop_first());
        assert(s1 =~= seq![s1[0]] + s1.drop_first());
        assert(s2 =~= seq![s2[0]] + s2.drop_first());
    }
}

/// Dropping the first listed record matches the map without it.
proof fn lemma_scan_drop_first(m: Map<Seq<u8>, Seq<u8>>, p: Seq<u8>, s: Seq<(Seq<u8>, Seq<u8>)>)
    requires
        scan_matches(m, p, s),
        s.len() > 0,
    ensures
        scan_matches(m.remove(s[0].0), p, s.drop_first()),
{
    let k0 = s[0].0;
    let t = s.drop_first();
    let m2 = m.remove(k0);
    assert forall|i: int| 0 <= i < t.len() implies m2.contains_pair(
        #[trigger] t[i].0,
        t[i].1,
    ) && is_prefixed(p, t[i].0) by {
        assert(t[i] == s[i + 1]);
        assert(byte_lt(k0, s[i + 1].0));
        assert(t[i].0 != k0);
    }
    assert forall|k: Seq<u8>| m2.dom().contains(k) && is_prefixed(p, k) implies exists|i: int|
        0 <= i < t.len() && (#[trigger] t[i]).0 == k by {
        assert(m.dom().contains(k));
        let i = choose|i: int| 0 <= i < s.len() && (#[trigger] s[i]).0 == k;
        assert(k != k0);
        assert(i > 0);
        assert(t[i - 1] == s[i]);
    }
}

/// The unique ascending listing of the records of `m` whose keys carry
/// prefix `p`. Meaningful whenever some listing exists, which the store
/// wrappers guarantee for the maps they produce.
pub open spec fn spec_scan(m: Map<Seq<u8>, Seq<u8>>, p: Seq<u8>) -> Seq<(Seq<u8>, Seq<u8>)> {
    choose|s: Seq<(Seq<u8>, Seq<u8>)>| scan_matches(m, p, s)
}

/// Removing a listed record removes exactly its line from the listing.
pub proof fn lemma_scan_remove_listed(
    m: Map<Seq<u8>, Seq<u8>>,
    p: Seq<u8>,
    s: Seq<(Seq<u8>, Seq<u8>)>,
    i: int,
)
    requires
        scan_matches(m, p, s),
        0 <= i < s.len(),
    ensures
        scan_matches(m.remove(s[i].0), p, s.remove(i)),
{
    let k0 = s[i].0;
    let t = s.remove(i);
    let m2 = m.remove(k0);
    assert forall|a: int, b: int| 0 <= a < b < t.len() implies byte_lt(
        #[trigger] t[a].0,
        #[trigger] t[b].0,
    ) by {
        let a0: int = if a < i {
            a
        } else {
            a + 1
        };
        let b0: int = if b < i {
            b
        } else {
            b + 1
        };
        assert(t[a] == s[a0] && t[b] == s[b0]);
        assert(byte_lt(s[a0].0, s[b0].0));
    }
    assert forall|j: int| 0 <= j < t.len() implies m2.contains_pair(
        #[trigger] t[j].0,
        t[j].1,
    ) && is_prefixed(p, t[j].0) by {
        let j0: int = if j < i {
            j
        } else {
            j + 1
        };
        assert(t[j] == s[j0]);
        assert(j0 != i);
        if j0 < i {
            assert(byte_lt(s[j0].0, s[i].0));
        } else {
            assert(byte_lt(s[i].0, s[j0].0));
        }
        assert(t[j].0 != k0);
    }
    assert forall|k: Seq<u8>| m2.dom().contains(k) && is_prefixed(p, k) implies exists|j: int|
        0 <= j < t.len() && (#[trigger] t[j]).0 == k by {
        assert(m.dom().contains(k));
        let j0 = choose|j0: int| 0 <= j0 < s.len() && (#[trigger] s[j0]).0 == k;
        assert(k != k0);
        assert(j0 != i);
        if j0 < i {
            assert(t[j0] == s[j0]);
        } else {
            assert(t[j0 - 1] == s[j0]);
        }
    }
}

/// Removing a record whose key lacks the prefix leaves the listing as
/// it was, whether or not the key was present.
pub proof fn lemma_scan_remove_other(
    m: Map<Seq<u8>, Seq<u8>>,
    p: Seq<u8>,
    s: Seq<(Seq<u8>, Seq<u8>)>,
    k: Seq<u8>,
)
    requires
        scan_matches(m, p, s),
        !is_prefixed(p, k),
    ensures
        scan_matches(m.remove(k), p, s),
{
    let m2 = m.remove(k);
    assert forall|j: int| 0 <= j < s.len() implies m2.contains_pair(
        #[trigger] s[j].0,
        s[j].1,
    ) && is_prefixed(p, s[j].0) by {
        assert(s[j].0 != k);
    }
}

// ------------------------------------------------------------------
// The metadata record layout: three 8-byte little-endian integers, a
// format byte, then the diagnostic parameter bytes.
// ------------------------------------------------------------------

/// The little-endian value of a byte sequence.
pub open spec fn spec_le_val(s: Seq<u8>) -> int
    decreases s.len(),
{
    if s.len() == 0 {
        0
    } else {
        s[0] + 256 * spec_le_val(s.drop_first())
    }
}

/// Powers of 256.
pub open spec fn spec_pow256(k: nat) -> int
    decreases k,
{
    if k == 0 {
        1
    } else {
        256 * spec_pow256((k - 1) as nat)
    }
}

/// The `k`-byte little-endian rendering of a nonnegative integer.
pub open spec fn spec_le_bytes(n: int, k: nat) -> Seq<u8>
    decreases k,
{
    if k == 0 {
        Seq::<u8>::empty()
    } else {
        seq![(n % 256) as u8] + spec_le_bytes(n / 256, (k - 1) as nat)
    }
}

pub proof fn lemma_le_bytes_len(n: int, k: nat)
    ensures
        spec_le_bytes(n, k).len() == k,
    decreases k,
{
    if k > 0 {
        lemma_le_bytes_len(n / 256, (k - 1) as nat);
    }
}

/// Rendering a value that fits in `k` bytes and reading it back yields
/// the value.
pub proof fn lemma_le_bytes_val(n: int, k: nat)
    requires
        0 <= n < spec_pow256(k),
    ensures
        spec_le_val(spec_le_bytes(n, k)) == n,
    decreases k,
{
    if k > 0 {
        let b = spec_le_bytes(n, k);
        assert(b.drop_first() =~= spec_le_bytes(n / 256, (k - 1) as nat));
        assert(n / 256 < spec_pow256((k - 1) as nat)) by (nonlinear_arith)
            requires
                0 <= n < spec_pow256(k),
                spec_pow256(k) == 256 * spec_pow256((k - 1) as nat),
        ;
        lemma_le_bytes_val(n / 256, (k - 1) as nat);
        assert(spec_le_val(b) == n % 256 + 256 * (n / 256));
    }
}

/// Every little-endian reading is bounded by the byte count's range.
pub proof fn lemma_le_val_bound(s: Seq<u8>)
    ensures
        0 <= spec_le_val(s) < spec_pow256(s.len()),
    decreases s.len(),
{
    if s.len() == 0 {
    } else {
        lemma_le_val_bound(s.drop_first());
        assert(spec_le_val(s) < spec_pow256(s.len())) by (nonlinear_arith)
            requires
                spec_le_val(s) == s[0] + 256 * spec_le_val(s.drop_first()),
                s[0] < 256,
                0 <= spec_le_val(s.drop_first()) < spec_pow256((s.len() - 1) as nat),
                spec_pow256(s.len() as nat) == 256 * spec_pow256((s.len() - 1) as nat),
        ;
    }
}

/// The byte tag of a format inside a metadata record.
pub open spec fn spec_format_byte(f: ImageFormat) -> u8 {
    match f {
        ImageFormat::jpeg => 0,
        ImageFormat::webp => 1,
        ImageFormat::avif => 2,
    }
}

/// The format a byte tag denotes.
pub open spec fn spec_format_of_byte(b: u8) -> ImageFormat {
    if b == 0 {
        ImageFormat::jpeg
    } else if b == 1 {
        ImageFormat::webp
    } else {
        ImageFormat::avif
    }
}

/// Whether a record value is a well-formed metadata record: long enough
/// for the header and carrying a known format tag.
pub open spec fn spec_meta_valid(v: Seq<u8>) -> bool {
    v.len() >= 25 && v[24] <= 2
}

/// The payload size a metadata record declares; malformed records count
/// as zero.
pub open spec fn spec_meta_size(v: Seq<u8>) -> int {
    if spec_meta_valid(v) {
        spec_le_val(v.subrange(0, 8))
    } else {
        0
    }
}

/// The creation time a metadata record declares.
pub open spec fn spec_meta_created(v: Seq<u8>) -> int {
    spec_le_val(v.subrange(8, 16))
}

/// The last-access time a metadata record declares.
pub open spec fn spec_meta_accessed(v: Seq<u8>) -> int {
    spec_le_val(v.subrange(16, 24))
}

/// The encoding of a metadata record from its fields.
pub open spec fn spec_encode_meta(
    size: u64,
    created: u64,
    accessed: u64,
    f: ImageFormat,
    params: Seq<u8>,
) -> Seq<u8> {
    spec_le_bytes(size as int, 8) + spec_le_bytes(created as int, 8) + spec_le_bytes(
        accessed as int,
        8,
    ) + seq![spec_format_byte(f)] + params
}

/// Encoded metadata decodes back to its fields: the record round-trips.
pub proof fn lemma_meta_roundtrip(
    size: u64,
    created: u64,
    accessed: u64,
    f: ImageFormat,
    params: Seq<u8>,
)
    ensures
        spec_meta_valid(spec_encode_meta(size, created, accessed, f, params)),
        spec_meta_size(spec_encode_meta(size, created, accessed, f, params)) == size,
        spec_meta_created(spec_encode_meta(size, created, accessed, f, params)) == created,
        spec_meta_accessed(spec_encode_meta(size, created, accessed, f, params)) == accessed,
        spec_encode_meta(size, created, accessed, f, params)[24] == spec_format_byte(f),
        spec_encode_meta(size, created, accessed, f, params).skip(25) == params,
{
    let v = spec_encode_meta(size, created, accessed, f, params);
    lemma_le_bytes_len(size as int, 8);
    lemma_le_bytes_len(created as int, 8);
    lemma_le_bytes_len(accessed as int, 8);
    assert(spec_pow256(8) == 0x10000000000000000) by {
        assert(spec_pow256(0) == 1);
        assert(spec_pow256(1) == 0x100);
        assert(spec_pow256(2) == 0x10000);
        assert(spec_pow256(3) == 0x1000000);
        assert(spec_pow256(4) == 0x100000000);
        assert(spec_pow256(5) == 0x10000000000);
        assert(spec_pow256(6) == 0x1000000000000);
        assert(spec_pow256(7) == 0x100000000000000);
    }
    lemma_le_bytes_val(size as int, 8);
    lemma_le_bytes_val(created as int, 8);
    lemma_le_bytes_val(accessed as int, 8);
    assert(v.subrange(0, 8) =~= spec_le_bytes(size as int, 8));
    assert(v.subrange(8, 16) =~= spec_le_bytes(created as int, 8));
    assert(v.subrange(16, 24) =~= spec_le_bytes(accessed as int, 8));
    assert(v[24] == spec_format_byte(f));
    assert(v.skip(25) =~= params);
}

// ------------------------------------------------------------------
// Sizes summed over a listing.
// ------------------------------------------------------------------

/// The summed declared sizes of a metadata listing.
pub open spec fn spec_size_sum(s: Seq<(Seq<u8>, Seq<u8>)>) -> int
    decreases s.len(),
{
    if s.len() == 0 {
        0
    } else {
        spec_meta_size(s[0].1) + spec_size_sum(s.drop_first())
    }
}

/// Sizes are nonnegative, so sums are monotone in the listing.
pub proof fn lemma_size_sum_nonneg(s: Seq<(Seq<u8>, Seq<u8>)>)
    ensures
        spec_size_sum(s) >= 0,
    decreases s.len(),
{
    if s.len() > 0 {
        lemma_size_sum_nonneg(s.drop_first());
        if spec_meta_valid(s[0].1) {
            lemma_le_val_bound(s[0].1.subrange(0, 8));
        }
    }
}

/// Removing one record subtracts exactly its declared size.
pub proof fn lemma_size_sum_remove(s: Seq<(Seq<u8>, Seq<u8>)>, i: int)
    requires
        0 <= i < s.len(),
    ensures
        spec_size_sum(s.remove(i)) == spec_size_sum(s) - spec_meta_size(s[i].1),
    decreases s.len(),
{
    if i == 0 {
        assert(s.remove(0) =~= s.drop_first());
    } else {
        assert(s.remove(i).drop_first() =~= s.drop_first().remove(i - 1));
        assert(s.remove(i)[0] == s[0]);
        lemma_size_sum_remove(s.drop_first(), i - 1);
        assert(s.drop_first()[i - 1] == s[i]);
    }
}

// ------------------------------------------------------------------
// The embedded store, behind trusted wrappers. The store's contents
// are named as a byte-keyed map; each wrapper states what one store
// operation does to them.
// ------------------------------------------------------------------

#[verifier::external_type_specification]
#[verifier::external_body]
pub struct ExDb(sled::Db);

/// What the store holds: the map from record keys to record values that
/// the handle currently reaches.
pub uninterp spec fn db_contents(db: sled::Db) -> Map<Seq<u8>, Seq<u8>>;

/// Relies on sled::open: opens or creates a database at the path.
/// Nothing is assumed of the recovered contents.
#[verifier::external_body]
fn db_open(path: &str) -> (r: Result<sled::Db, String>)
{
    sled::open(path).map_err(|e| e.to_string())
}

/// Relies on sled's `Tree::insert` (through `Db`'s deref): on success
/// the key maps to the value and every other record is unchanged.
#[verifier::external_body]
fn db_insert(db: &mut sled::Db, key: &[u8], value: &[u8]) -> (r: Result<(), String>)
    ensures
        r is Ok ==> db_contents(*final(db)) == db_contents(*old(db)).insert(key@, value@),
{
    db.insert(key, value).map(|_| ()).map_err(|e| e.to_string())
}

/// Relies on sled's `Tree::get`: reads the value mapped to the key
/// without changing the store.
#[verifier::external_body]
fn db_get(db: &sled::Db, key: &[u8]) -> (r: Result<Option<Vec<u8>>, String>)
    ensures
        match r {
            Result::Ok(Option::Some(v)) => db_contents(*db).contains_key(key@) && v@ == db_contents(
                *db,
            )[key@],
            Result::Ok(Option::None) => !db_contents(*db).contains_key(key@),
            Result::Err(_) => true,
        },
{
    db.get(key).map(|o| o.map(|v| v.to_vec())).map_err(|e| e.to_string())
}

/// Relies on sled's `Tree::remove`: on success the key is gone and
/// every other record is unchanged; removing an absent key succeeds.
#[verifier::external_body]
fn db_remove(db: &mut sled::Db, key: &[u8]) -> (r: Result<(), String>)
    ensures
        r is Ok ==> db_contents(*final(db)) == db_contents(*old(db)).remove(key@),
{
    db.remove(key).map(|_| ()).map_err(|e| e.to_string())
}

/// Relies on sled's `Tree::flush`: persists dirty buffers without
/// changing the contents.
#[verifier::external_body]
fn db_flush(db: &mut sled::Db) -> (r: Result<(), String>)
    ensures
        db_contents(*final(db)) == db_contents(*old(db)),
{
    db.flush().map(|_| ()).map_err(|e| e.to_string())
}

/// Relies on sled's `Tree::scan_prefix`: yields exactly the records
/// whose keys carry the prefix, in ascending key order, without
/// changing the store.
#[verifier::external_body]
fn db_scan_prefix(db: &sled::Db, prefix: &[u8]) -> (r: Result<Vec<(Vec<u8>, Vec<u8>)>, String>)
    ensures
        match r {
            Result::Ok(pairs) => scan_matches(
                db_contents(*db),
                prefix@,
                pairs@.map_values(|p: (Vec<u8>, Vec<u8>)| (p.0@, p.1@)),
            ),
            Result::Err(_) => true,
        },
{
    db.scan_prefix(prefix).map(
        |item| item.map(|(k, v)| (k.to_vec(), v.to_vec())).map_err(|e| e.to_string()),
    ).collect()
}

// ------------------------------------------------------------------
// Record keys: each cache key owns a `meta:` and a `data:` record.
// ------------------------------------------------------------------

/// The record-key prefix of metadata records, the bytes of `meta:`.
pub open spec fn meta_prefix() -> Seq<u8> {
    seq![109u8, 101u8, 116u8, 97u8, 58u8]
}

/// The record-key prefix of payload records, the bytes of `data:`.
pub open spec fn data_prefix() -> Seq<u8> {
    seq![100u8, 97u8, 116u8, 97u8, 58u8]
}

/// The metadata record key of a cache key.
pub open spec fn spec_meta_key(key: Seq<char>) -> Seq<u8> {
    meta_prefix() + encode_utf8(key)
}

/// The payload record key of a cache key.
pub open spec fn spec_data_key(key: Seq<char>) -> Seq<u8> {
    data_prefix() + encode_utf8(key)
}

/// Payload record keys never carry the metadata prefix: the prefixes
/// differ in their first byte.
pub proof fn lemma_data_key_not_meta_prefixed(key: Seq<char>)
    ensures
        !is_prefixed(meta_prefix(), spec_data_key(key)),
{
    let dk = spec_data_key(key);
    assert(dk[0] == 100u8);
    if is_prefixed(meta_prefix(), dk) {
        assert(dk.subrange(0, 5)[0] == meta_prefix()[0]);
        assert(dk[0] == 109u8);
    }
}

/// Metadata record keys carry the metadata prefix.
pub proof fn lemma_meta_key_prefixed(key: Seq<char>)
    ensures
        is_prefixed(meta_prefix(), spec_meta_key(key)),
{
    assert(spec_meta_key(key).subrange(0, 5) =~= meta_prefix());
}

/// Appends the bytes of `s` to `out`.
fn push_str_bytes(out: &mut Vec<u8>, s: &str)
    ensures
        final(out)@ == old(out)@ + encode_utf8(s@),
{
    let bytes = s.as_bytes();
    let n = bytes.len();
    let mut i: usize = 0;
    while i < n
        invariant
            0 <= i <= n,
            n == bytes@.len(),
            bytes@ == s.spec_bytes(),
            out@ == old(out)@ + bytes@.subrange(0, i as int),
        decreases n - i,
    {
        out.push(bytes[i]);
        proof {
            assert(bytes@.subrange(0, i + 1) =~= bytes@.subrange(0, i as int).push(bytes@[
                i as int
            ]));
            assert(out@ =~= old(out)@ + bytes@.subrange(0, i + 1));
        }
        i = i + 1;
    }
    proof {
        assert(bytes@.subrange(0, n as int) =~= bytes@);
    }
}

/// Builds the metadata record key of a cache key.
fn meta_key_bytes(key: &str) -> (r: Vec<u8>)
    ensures
        r@ == spec_meta_key(key@),
{
    let mut v: Vec<u8> = Vec::new();
    v.push(109);
    v.push(101);
    v.push(116);
    v.push(97);
    v.push(58);
    proof {
        assert(v@ =~= meta_prefix());
    }
    push_str_bytes(&mut v, key);
    v
}

/// Builds the payload record key of a cache key.
fn data_key_bytes(key: &str) -> (r: Vec<u8>)
    ensures
        r@ == spec_data_key(key@),
{
    let mut v: Vec<u8> = Vec::new();
    v.push(100);
    v.push(97);
    v.push(116);
    v.push(97);
    v.push(58);
    proof {
        assert(v@ =~= data_prefix());
    }
    push_str_bytes(&mut v, key);
    v
}

/// Builds the metadata prefix itself, for scans.
fn meta_prefix_bytes() -> (r: Vec<u8>)
    ensures
        r@ == meta_prefix(),
{
    let mut v: Vec<u8> = Vec::new();
    v.push(109);
    v.push(101);
    v.push(116);
    v.push(97);
    v.push(58);
    proof {
        assert(v@ =~= meta_prefix());
    }
    v
}

// ------------------------------------------------------------------
// Executable little-endian codec.
// ------------------------------------------------------------------

/// Appends the 8-byte little-endian rendering of `n` to `out`.
fn push_le64(out: &mut Vec<u8>, n: u64)
    ensures
        final(out)@ == old(out)@ + spec_le_bytes(n as int, 8),
{
    let mut x: u64 = n;
    let mut k: usize = 0;
    while k < 8
        invariant
            0 <= k <= 8,
            old(out)@ + spec_le_bytes(n as int, 8) == out@ + spec_le_bytes(
                x as int,
                (8 - k) as nat,
            ),
        decreases 8 - k,
    {
        proof {
            assert(spec_le_bytes(x as int, (8 - k) as nat) == seq![(x as int % 256) as u8]
                + spec_le_bytes(x as int / 256, (8 - (k + 1)) as nat));
        }
        out.push((x % 256) as u8);
        proof {
            assert(out@ + spec_le_bytes((x / 256) as int, (8 - (k + 1)) as nat) =~= old(out)@
                + spec_le_bytes(n as int, 8));
        }
        x = x / 256;
        k = k + 1;
    }
    proof {
        assert(spec_le_bytes(x as int, 0).len() == 0);
        assert(out@ =~= out@ + spec_le_bytes(x as int, 0));
    }
}

/// Reads the 8-byte little-endian integer at offset `off` of `v`.
fn read_le64(v: &Vec<u8>, off: usize) -> (r: u64)
    requires
        off + 8 <= v@.len(),
    ensures
        r as int == spec_le_val(v@.subrange(off as int, off as int + 8)),
{
    proof {
        assert(spec_pow256(8) == 0x10000000000000000) by {
            assert(spec_pow256(0) == 1);
            assert(spec_pow256(1) == 0x100);
            assert(spec_pow256(2) == 0x10000);
            assert(spec_pow256(3) == 0x1000000);
            assert(spec_pow256(4) == 0x100000000);
            assert(spec_pow256(5) == 0x10000000000);
            assert(spec_pow256(6) == 0x1000000000000);
            assert(spec_pow256(7) == 0x100000000000000);
        }
    }
    let n = v.len();
    let mut acc: u64 = 0;
    let mut j: usize = 8;
    while j > 0
        invariant
            0 <= j <= 8,
            n == v@.len(),
            off + 8 <= n,
            acc as int == spec_le_val(v@.subrange(off + j, off as int + 8)),
            spec_pow256(8) == 0x10000000000000000,
        decreases j,
    {
        let jj = j - 1;
        let b = v[off + jj];
        proof {
            let tail = v@.subrange(off + j, off as int + 8);
            let whole = v@.subrange(off + jj, off as int + 8);
            assert(whole.drop_first() =~= tail);
            assert(whole[0] == v@[off + jj]);
            lemma_le_val_bound(whole);
            assert(spec_pow256(whole.len() as nat) <= spec_pow256(8)) by {
                lemma_pow256_le(whole.len() as nat, 8);
            }
        }
        acc = acc * 256 + (b as u64);
        j = jj;
    }
    proof {
        assert(v@.subrange(off as int, off as int + 8) =~= v@.subrange(
            off + 0,
            off as int + 8,
        ));
    }
    acc
}

/// Powers of 256 grow with the exponent.
proof fn lemma_pow256_le(a: nat, b: nat)
    requires
        a <= b,
    ensures
        spec_pow256(a) <= spec_pow256(b),
    decreases b,
{
    if a < b {
        lemma_pow256_le(a, (b - 1) as nat);
        lemma_pow256_nonneg((b - 1) as nat);
        assert(spec_pow256(b) == 256 * spec_pow256((b - 1) as nat));
        assert(spec_pow256((b - 1) as nat) <= 256 * spec_pow256((b - 1) as nat)) by (
        nonlinear_arith)
            requires
                spec_pow256((b - 1) as nat) >= 0,
        ;
    }
}

proof fn lemma_pow256_nonneg(k: nat)
    ensures
        spec_pow256(k) >= 1,
    decreases k,
{
    if k > 0 {
        lemma_pow256_nonneg((k - 1) as nat);
    }
}

/// Appending one record adds exactly its declared size to the sum.
pub proof fn lemma_size_sum_snoc(s: Seq<(Seq<u8>, Seq<u8>)>, p: (Seq<u8>, Seq<u8>))
    ensures
        spec_size_sum(s.push(p)) == spec_size_sum(s) + spec_meta_size(p.1),
    decreases s.len(),
{
    if s.len() == 0 {
        assert(s.push(p)[0] == p);
        assert(s.push(p).drop_first() =~= Seq::<(Seq<u8>, Seq<u8>)>::empty());
        assert(spec_size_sum(s.push(p)) == spec_meta_size(p.1) + spec_size_sum(
            s.push(p).drop_first(),
        ));
    } else {
        assert(s.push(p).drop_first() =~= s.drop_first().push(p));
        assert(s.push(p)[0] == s[0]);
        lemma_size_sum_snoc(s.drop_first(), p);
        assert(spec_size_sum(s.push(p)) == spec_meta_size(s[0].1) + spec_size_sum(
            s.drop_first().push(p),
        ));
    }
}

// ------------------------------------------------------------------
// Metadata values and cache statistics.
// ------------------------------------------------------------------

/// Default maximum cache size: 10 GiB.
pub const DEFAULT_MAX_CACHE_SIZE: u64 = 10 * 1024 * 1024 * 1024;

/// Metadata stored alongside cached images: the identifying key, output
/// format, payload size, both timestamps, and the raw parameter string
/// kept for diagnostics.
#[derive(Debug, Clone)]
pub struct CacheMetadata {
    pub key: String,
    pub format: ImageFormat,
    pub size: u64,
    pub created_at: u64,
    pub accessed_at: u64,
    pub params: String,
}

/// A read-only snapshot of the cache's occupancy, computed on demand by
/// scanning the metadata records.
#[derive(Debug, Clone, Copy, PartialEq, Eq, Structural)]
pub struct CacheStats {
    pub total_size_bytes: u64,
    pub entry_count: usize,
    pub max_size_bytes: u64,
}

/// Encodes a metadata record value from its fields.
fn encode_meta(m: &CacheMetadata) -> (r: Vec<u8>)
    ensures
        r@ == spec_encode_meta(
            m.size,
            m.created_at,
            m.accessed_at,
            m.format,
            encode_utf8(m.params@),
        ),
{
    let mut v: Vec<u8> = Vec::new();
    push_le64(&mut v, m.size);
    push_le64(&mut v, m.created_at);
    push_le64(&mut v, m.accessed_at);
    let fb: u8 = match m.format {
        ImageFormat::jpeg => 0,
        ImageFormat::webp => 1,
        ImageFormat::avif => 2,
    };
    v.push(fb);
    push_str_bytes(&mut v, m.params.as_str());
    proof {
        assert(v@ =~= spec_encode_meta(
            m.size,
            m.created_at,
            m.accessed_at,
            m.format,
            encode_utf8(m.params@),
        ));
    }
    v
}

/// Reads the header of a metadata record value: the declared payload
/// size and last-access time; `None` for malformed records.
fn meta_header(v: &Vec<u8>) -> (r: Option<(u64, u64)>)
    ensures
        match r {
            Option::Some(h) => spec_meta_valid(v@) && h.0 as int == spec_meta_size(v@)
                && h.1 as int == spec_meta_accessed(v@),
            Option::None => !spec_meta_valid(v@),
        },
{
    if v.len() < 25 {
        return Option::None;
    }
    if v[24] > 2 {
        return Option::None;
    }
    let size = read_le64(v, 0);
    let accessed = read_le64(v, 16);
    Option::Some((size, accessed))
}

// ------------------------------------------------------------------
// Eviction entries: one (record key, declared size, last access) triple
// per well-formed metadata record.
// ------------------------------------------------------------------

/// The views of owned eviction entries.
pub open spec fn entry_views(s: Seq<(Vec<u8>, u64, u64)>) -> Seq<(Seq<u8>, u64, u64)> {
    s.map_values(|e: (Vec<u8>, u64, u64)| (e.0@, e.1, e.2))
}

/// The summed declared sizes of eviction entries.
pub open spec fn spec_esum(s: Seq<(Seq<u8>, u64, u64)>) -> int
    decreases s.len(),
{
    if s.len() == 0 {
        0
    } else {
        s[0].1 + spec_esum(s.drop_first())
    }
}

proof fn lemma_esum_nonneg(s: Seq<(Seq<u8>, u64, u64)>)
    ensures
        spec_esum(s) >= 0,
    decreases s.len(),
{
    if s.len() > 0 {
        lemma_esum_nonneg(s.drop_first());
    }
}

proof fn lemma_esum_snoc(s: Seq<(Seq<u8>, u64, u64)>, p: (Seq<u8>, u64, u64))
    ensures
        spec_esum(s.push(p)) == spec_esum(s) + p.1,
    decreases s.len(),
{
    if s.len() == 0 {
        assert(s.push(p)[0] == p);
        assert(s.push(p).drop_first() =~= Seq::<(Seq<u8>, u64, u64)>::empty());
        assert(spec_esum(s.push(p)) == p.1 + spec_esum(s.push(p).drop_first()));
    } else {
        assert(s.push(p).drop_first() =~= s.drop_first().push(p));
        assert(s.push(p)[0] == s[0]);
        lemma_esum_snoc(s.drop_first(), p);
        assert(spec_esum(s.push(p)) == s[0].1 + spec_esum(s.drop_first().push(p)));
    }
}

proof fn lemma_esum_remove(s: Seq<(Seq<u8>, u64, u64)>, i: int)
    requires
        0 <= i < s.len(),
    ensures
        spec_esum(s.remove(i)) == spec_esum(s) - s[i].1,
    decreases s.len(),
{
    if i == 0 {
        assert(s.remove(0) =~= s.drop_first());
    } else {
        assert(s.remove(i).drop_first() =~= s.drop_first().remove(i - 1));
        assert(s.remove(i)[0] == s[0]);
        lemma_esum_remove(s.drop_first(), i - 1);
        assert(s.drop_first()[i - 1] == s[i]);
    }
}

/// The entry sum is a function of the entries' multiset alone.
proof fn lemma_esum_multiset(s1: Seq<(Seq<u8>, u64, u64)>, s2: Seq<(Seq<u8>, u64, u64)>)
    requires
        s1.to_multiset() == s2.to_multiset(),
    ensures
        spec_esum(s1) == spec_esum(s2),
    decreases s1.len(),
{
    broadcast use vstd::seq_lib::group_to_multiset_ensures;

    if s1.len() == 0 {
        assert(s1.to_multiset().len() == s1.len());
        assert(s2.to_multiset().len() == s2.len());
        assert(s2.len() == 0);
    } else {
        let x = s1[0];
        assert(s1.to_multiset().contains(x));
        assert(s2.to_multiset().contains(x));
        assert(s2.contains(x));
        let i = choose|i: int| 0 <= i < s2.len() && s2[i] == x;
        assert(s1.drop_first() =~= s1.remove(0));
        assert(s1.remove(0).to_multiset() =~= s1.to_multiset().remove(x));
        assert(s2.remove(i).to_multiset() =~= s2.to_multiset().remove(x));
        lemma_esum_multiset(s1.drop_first(), s2.remove(i));
        lemma_esum_remove(s2, i);
        assert(spec_esum(s1) == x.1 + spec_esum(s1.drop_first()));
    }
}

/// Sorts eviction entries by last-access time, oldest first. The result
/// holds the same entries.
#[verifier::loop_isolation(false)]
fn sort_entries(input: Vec<(Vec<u8>, u64, u64)>) -> (r: Vec<(Vec<u8>, u64, u64)>)
    ensures
        entry_views(r@).to_multiset() == entry_views(input@).to_multiset(),
        forall|a: int, b: int|
            0 <= a < b < r@.len() ==> (#[trigger] entry_views(r@)[a]).2 <= (#[trigger] entry_views(
                r@,
            )[b]).2,
{
    broadcast use vstd::seq_lib::to_multiset_insert;
    broadcast use vstd::seq_lib::group_to_multiset_ensures;
    broadcast use vstd::multiset::group_multiset_axioms;

    let mut rest = input;
    let mut r: Vec<(Vec<u8>, u64, u64)> = Vec::new();
    proof {
        assert(entry_views(r@) =~= Seq::<(Seq<u8>, u64, u64)>::empty());
        assert(entry_views(rest@).to_multiset().add(entry_views(r@).to_multiset())
            =~= entry_views(input@).to_multiset());
    }
    while rest.len() > 0
        invariant
            entry_views(rest@).to_multiset().add(entry_views(r@).to_multiset())
                == entry_views(input@).to_multiset(),
            forall|a: int, b: int|
                0 <= a < b < r@.len() ==> (#[trigger] entry_views(r@)[a]).2 <= (
                #[trigger] entry_views(r@)[b]).2,
        decreases rest@.len(),
    {
        let ghost rest_before = rest@;
        let popped = rest.pop();
        match popped {
            Option::Some(x) => {
                let ghost xv = (x.0@, x.1, x.2);
                proof {
                    assert(entry_views(rest_before) =~= entry_views(rest@).push(xv));
                    vstd::seq_lib::to_multiset_build(entry_views(rest@), xv);
                }
                let mut j: usize = 0;
                while j < r.len() && r[j].2 <= x.2
                    invariant
                        0 <= j <= r@.len(),
                        forall|k: int| 0 <= k < j ==> (#[trigger] entry_views(r@)[k]).2 <= xv.2,
                    decreases r@.len() - j,
                {
                    proof {
                        assert(entry_views(r@)[j as int].2 == r@[j as int].2);
                    }
                    j = j + 1;
                }
                proof {
                    if j < r@.len() {
                        assert(!(r@[j as int].2 <= x.2));
                        assert(entry_views(r@)[j as int].2 == r@[j as int].2);
                    }
                }
                let ghost old_r = r@;
                r.insert(j, x);
                proof {
                    let vs = entry_views(old_r);
                    let nvs = entry_views(r@);
                    assert(nvs =~= vs.insert(j as int, xv));
                    assert(forall|p: int| 0 <= p < j ==> nvs[p] == vs[p]);
                    assert(nvs[j as int] == xv);
                    assert(forall|q: int| j < q < nvs.len() ==> nvs[q] == vs[q - 1]);
                    assert forall|a: int, b: int|
                        0 <= a < b < nvs.len() implies (#[trigger] nvs[a]).2 <= (
                    #[trigger] nvs[b]).2 by {
                        if b < j {
                        } else if a < j && b == j {
                        } else if a < j && b > j {
                            assert(vs[a].2 <= xv.2);
                            assert(xv.2 < vs[j as int].2);
                            assert(vs[j as int].2 <= vs[b - 1].2 || j == b - 1);
                        } else if a == j && b > j {
                            assert(xv.2 < vs[j as int].2);
                            assert(vs[j as int].2 <= vs[b - 1].2 || j == b - 1);
                        } else {
                        }
                    }
                    vstd::seq_lib::to_multiset_insert(vs, j as int, xv);
                    assert(entry_views(rest@).to_multiset().add(entry_views(r@).to_multiset())
                        =~= entry_views(input@).to_multiset());
                }
            },
            Option::None => {},
        }
    }
    proof {
        assert(rest@.len() == 0);
        assert(entry_views(rest@) =~= Seq::<(Seq<u8>, u64, u64)>::empty());
        assert(entry_views(rest@).to_multiset().len() == 0);
        assert(entry_views(r@).to_multiset() =~= entry_views(input@).to_multiset());
    }
    r
}

/// The sum over a listing splits at any index.
proof fn lemma_esum_split(s: Seq<(Seq<u8>, u64, u64)>, i: int)
    requires
        0 <= i <= s.len(),
    ensures
        spec_esum(s) == spec_esum(s.subrange(0, i)) + spec_esum(s.subrange(i, s.len() as int)),
    decreases s.len() - i,
{
    if i == s.len() {
        assert(s.subrange(0, i) =~= s);
        assert(s.subrange(i, s.len() as int).len() == 0);
    } else {
        lemma_esum_split(s, i + 1);
        lemma_esum_snoc(s.subrange(0, i), s[i]);
        assert(s.subrange(0, i + 1) =~= s.subrange(0, i).push(s[i]));
        let rest = s.subrange(i, s.len() as int);
        assert(rest[0] == s[i]);
        assert(rest.drop_first() =~= s.subrange(i + 1, s.len() as int));
        assert(spec_esum(rest) == s[i].1 + spec_esum(s.subrange(i + 1, s.len() as int)));
    }
}

/// Builds the payload record key that shares a metadata record key's
/// cache key.
fn data_twin_key(mkey: &Vec<u8>) -> (r: Vec<u8>)
    requires
        mkey@.len() >= 5,
    ensures
        r@ == data_prefix() + mkey@.skip(5),
        !is_prefixed(meta_prefix(), r@),
{
    let mut v: Vec<u8> = Vec::new();
    v.push(100);
    v.push(97);
    v.push(116);
    v.push(97);
    v.push(58);
    proof {
        assert(v@ =~= data_prefix());
    }
    let n = mkey.len();
    let mut i: usize = 5;
    while i < n
        invariant
            5 <= i <= n,
            n == mkey@.len(),
            v@ == data_prefix() + mkey@.subrange(5, i as int),
        decreases n - i,
    {
        v.push(mkey[i]);
        proof {
            assert(mkey@.subrange(5, i + 1) =~= mkey@.subrange(5, i as int).push(mkey@[i as int]));
            assert(v@ =~= data_prefix() + mkey@.subrange(5, i + 1));
        }
        i = i + 1;
    }
    proof {
        assert(mkey@.subrange(5, n as int) =~= mkey@.skip(5));
        assert(v@[0] == 100u8);
        if is_prefixed(meta_prefix(), v@) {
            assert(v@.subrange(0, 5)[0] == meta_prefix()[0]);
        }
    }
    v
}

/// Copies a byte vector.
fn copy_bytes(v: &Vec<u8>) -> (r: Vec<u8>)
    ensures
        r@ == v@,
{
    let mut r: Vec<u8> = Vec::new();
    let n = v.len();
    let mut i: usize = 0;
    while i < n
        invariant
            0 <= i <= n,
            n == v@.len(),
            r@ == v@.subrange(0, i as int),
        decreases n - i,
    {
        r.push(v[i]);
        proof {
            assert(v@.subrange(0, i + 1) =~= v@.subrange(0, i as int).push(v@[i as int]));
        }
        i = i + 1;
    }
    proof {
        assert(v@.subrange(0, n as int) =~= v@);
    }
    r
}

/// What must hold of an eviction entry: it denotes a well-formed
/// metadata record of the store, and carries that record's declared
/// size and last-access time.
pub open spec fn entry_ok(m: Map<Seq<u8>, Seq<u8>>, e: (Seq<u8>, u64, u64)) -> bool {
    &&& m.dom().contains(e.0)
    &&& is_prefixed(meta_prefix(), e.0)
    &&& spec_meta_valid(m[e.0])
    &&& e.1 as int == spec_meta_size(m[e.0])
    &&& e.2 as int == spec_meta_accessed(m[e.0])
}

/// The eviction target: nine tenths of the bound. Evicting down to
/// this, not to the brink, keeps one write past the cap from evicting
/// again on every subsequent write.
pub open spec fn spec_hysteresis(max: u64) -> int {
    (max as int) * 90 / 100
}

/// The payload record key that shares a metadata record key's cache
/// key.
pub open spec fn spec_twin_key(ke: Seq<u8>) -> Seq<u8> {
    data_prefix() + ke.skip(5)
}

/// The least-recently-used discipline between two store states: every
/// well-formed metadata record that disappeared was accessed no later
/// than any well-formed one that survived.
pub open spec fn lru_discipline(m0: Map<Seq<u8>, Seq<u8>>, m1: Map<Seq<u8>, Seq<u8>>) -> bool {
    forall|ke: Seq<u8>, ks: Seq<u8>|
        #![trigger m0[ke], m0[ks]]
        (m0.dom().contains(ke) && is_prefixed(meta_prefix(), ke) && spec_meta_valid(m0[ke])
            && !m1.dom().contains(ke) && m1.dom().contains(ks) && is_prefixed(meta_prefix(), ks)
            && spec_meta_valid(m0[ks])) ==> spec_meta_accessed(m0[ke]) <= spec_meta_accessed(
            m0[ks],
        )
}

/// The current time as nonnegative Unix seconds.
fn now_secs() -> u64 {
    let t = crate::crypto::now_unix();
    if t < 0 {
        0
    } else {
        t as u64
    }
}

// ------------------------------------------------------------------
// The bounded cache itself.
// ------------------------------------------------------------------

/// The size-bounded persistent cache: payloads and metadata in an
/// embedded ordered store, least-recently-used eviction once the summed
/// payload sizes exceed the configured bound.
pub struct SledCache {
    db: sled::Db,
    max_size: u64,
}

impl View for SledCache {
    type V = Map<Seq<u8>, Seq<u8>>;

    closed spec fn view(&self) -> Map<Seq<u8>, Seq<u8>> {
        db_contents(self.db)
    }
}

/// The total size the metadata records of a store declare.
pub open spec fn spec_meta_total(m: Map<Seq<u8>, Seq<u8>>) -> int {
    spec_size_sum(spec_scan(m, meta_prefix()))
}

impl SledCache {
    /// The configured size bound.
    pub closed spec fn spec_max(self) -> u64 {
        self.max_size
    }

    /// Opens or creates the bounded cache at `path`. `max_size` bounds
    /// the summed payload sizes; 10 GiB when absent.
    pub fn new(path: &str, max_size: Option<u64>) -> (r: Result<SledCache, String>)
        ensures
            match r {
                Result::Ok(c) => c.spec_max() == match max_size {
                    Option::Some(m) => m,
                    Option::None => DEFAULT_MAX_CACHE_SIZE,
                },
                Result::Err(_) => true,
            },
    {
        let db = match db_open(path) {
            Result::Ok(db) => db,
            Result::Err(e) => {
                return Result::Err(e);
            },
        };
        let ms: u64 = match max_size {
            Option::Some(m) => m,
            Option::None => DEFAULT_MAX_CACHE_SIZE,
        };
        Result::Ok(SledCache { db, max_size: ms })
    }

    /// The configured size bound in bytes.
    pub fn max_size(&self) -> (r: u64)
        ensures
            r == self.spec_max(),
    {
        self.max_size
    }

    /// Scans the metadata records and computes their summed declared
    /// sizes — the store's current occupancy.
    #[verifier::loop_isolation(false)]
    fn scan_meta(&self) -> (r: Result<(Vec<(Vec<u8>, Vec<u8>)>, u128), String>)
        ensures
            match r {
                Result::Ok(p) => {
                    let listing = p.0@.map_values(|q: (Vec<u8>, Vec<u8>)| (q.0@, q.1@));
                    &&& scan_matches(self@, meta_prefix(), listing)
                    &&& p.1 as int == spec_size_sum(listing)
                    &&& p.1 as int == spec_meta_total(self@)
                    &&& listing == spec_scan(self@, meta_prefix())
                },
                Result::Err(_) => true,
            },
    {
        let prefix = meta_prefix_bytes();
        let pairs = match db_scan_prefix(&self.db, prefix.as_slice()) {
            Result::Ok(p) => p,
            Result::Err(e) => {
                return Result::Err(e);
            },
        };
        let ghost listing = pairs@.map_values(|q: (Vec<u8>, Vec<u8>)| (q.0@, q.1@));
        let mut total: u128 = 0;
        let mut i: usize = 0;
        proof {
            assert(listing.subrange(0, 0) =~= Seq::<(Seq<u8>, Seq<u8>)>::empty());
        }
        while i < pairs.len()
            invariant
                0 <= i <= pairs@.len(),
                total as int == spec_size_sum(listing.subrange(0, i as int)),
                total as int <= i as int * 0xffffffffffffffff,
            decreases pairs@.len() - i,
        {
            let ghost prev = listing.subrange(0, i as int);
            let sz: u64 = match meta_header(&pairs[i].1) {
                Option::Some(h) => h.0,
                Option::None => 0,
            };
            proof {
                assert(listing[i as int] == (pairs@[i as int].0@, pairs@[i as int].1@));
                assert(sz as int == spec_meta_size(listing[i as int].1));
                assert(listing.subrange(0, i + 1) =~= prev.push(listing[i as int]));
                lemma_size_sum_snoc(prev, listing[i as int]);
                assert((i + 1) as int * 0xffffffffffffffff == i as int * 0xffffffffffffffff
                    + 0xffffffffffffffff) by (nonlinear_arith);
                assert(i as int * 0xffffffffffffffff <= 0xffffffffffffffff
                    * 0xffffffffffffffff) by (nonlinear_arith)
                    requires
                        0 <= i as int <= 0xffffffffffffffff,
                ;
            }
            total = total + (sz as u128);
            i = i + 1;
        }
        proof {
            assert(listing.subrange(0, pairs@.len() as int) =~= listing);
            lemma_scan_unique(
                self@,
                meta_prefix(),
                spec_scan(self@, meta_prefix()),
                listing,
            );
        }
        Result::Ok((pairs, total))
    }

    /// A read-only snapshot of the cache: summed declared sizes
    /// (saturating at the counter's range), the number of metadata
    /// records, and the configured bound. Computed by scanning; nothing
    /// is persisted.
    pub fn stats(&self) -> (r: Result<CacheStats, String>)
        ensures
            match r {
                Result::Ok(s) => {
                    &&& s.max_size_bytes == self.spec_max()
                    &&& s.total_size_bytes as int == (if spec_meta_total(self@)
                        <= 0xffffffffffffffff {
                        spec_meta_total(self@)
                    } else {
                        0xffffffffffffffff
                    })
                    &&& s.entry_count == spec_scan(self@, meta_prefix()).len()
                },
                Result::Err(_) => true,
            },
    {
        let (pairs, total) = match self.scan_meta() {
            Result::Ok(p) => p,
            Result::Err(e) => {
                return Result::Err(e);
            },
        };
        let total_u64: u64 = if total > 0xffffffffffffffffu128 {
            0xffffffffffffffff
        } else {
            total as u64
        };
        Result::Ok(
            CacheStats {
                total_size_bytes: total_u64,
                entry_count: pairs.len(),
                max_size_bytes: self.max_size,
            },
        )
    }

    /// Fetches the payload cached under `key` and, on a hit, refreshes
    /// the entry's last-access time, which is what makes eviction
    /// least-recently-used rather than insertion-ordered. On a hit with
    /// a well-formed metadata record, the store afterwards differs from
    /// before in exactly one way: that record's access-time bytes are
    /// rewritten to some single clock reading, its declared size,
    /// creation time, format tag and parameter bytes untouched.
    pub fn get(&mut self, key: &str) -> (r: Result<Option<Vec<u8>>, String>)
        ensures
            final(self).spec_max() == old(self).spec_max(),
            match r {
                Result::Ok(opt) => {
                    let m0 = old(self)@;
                    let m1 = final(self)@;
                    let dk = spec_data_key(key@);
                    let mk = spec_meta_key(key@);
                    match opt {
                        Option::Some(v) => {
                            &&& m0.contains_key(dk) && v@ == m0[dk]
                            &&& (!m0.contains_key(mk) || !spec_meta_valid(m0[mk]) ==> m1 == m0)
                            &&& (m0.contains_key(mk) && spec_meta_valid(m0[mk]) ==> exists|
                                t: u64,
                            |
                                m1 == m0.insert(
                                    mk,
                                    #[trigger] (m0[mk].subrange(0, 16) + spec_le_bytes(
                                        t as int,
                                        8,
                                    ) + m0[mk].skip(24)),
                                ))
                        },
                        Option::None => !m0.contains_key(dk) && m1 == m0,
                    }
                },
                Result::Err(_) => true,
            },
    {
        let dk = data_key_bytes(key);
        let data = match db_get(&self.db, dk.as_slice()) {
            Result::Ok(Option::Some(d)) => d,
            Result::Ok(Option::None) => {
                return Result::Ok(Option::None);
            },
            Result::Err(e) => {
                return Result::Err(e);
            },
        };
        let mk = meta_key_bytes(key);
        match db_get(&self.db, mk.as_slice()) {
            Result::Ok(Option::Some(mv)) => {
                match meta_header(&mv) {
                    Option::Some(_) => {
                        // Rebuild the record with a fresh access time,
                        // leaving every other byte as it was.
                        let ghost m0 = self@;
                        let now = now_secs();
                        let mut nv: Vec<u8> = Vec::new();
                        let mut i: usize = 0;
                        while i < 16
                            invariant
                                0 <= i <= 16,
                                mv@.len() >= 25,
                                nv@ == mv@.subrange(0, i as int),
                            decreases 16 - i,
                        {
                            nv.push(mv[i]);
                            proof {
                                assert(mv@.subrange(0, i + 1) =~= mv@.subrange(0, i as int).push(
                                    mv@[i as int],
                                ));
                            }
                            i = i + 1;
                        }
                        push_le64(&mut nv, now);
                        let mut j: usize = 24;
                        while j < mv.len()
                            invariant
                                24 <= j <= mv@.len(),
                                mv@.len() >= 25,
                                nv@ == mv@.subrange(0, 16) + spec_le_bytes(now as int, 8)
                                    + mv@.subrange(24, j as int),
                            decreases mv@.len() - j,
                        {
                            nv.push(mv[j]);
                            proof {
                                assert(mv@.subrange(24, j + 1) =~= mv@.subrange(24, j as int).push(
                                    mv@[j as int],
                                ));
                                assert(nv@ =~= mv@.subrange(0, 16) + spec_le_bytes(now as int, 8)
                                    + mv@.subrange(24, j + 1));
                            }
                            j = j + 1;
                        }
                        proof {
                            lemma_le_bytes_len(now as int, 8);
                            assert(nv@.subrange(0, 8) =~= mv@.subrange(0, 8));
                            assert(nv@[24] == mv@[24]);
                            assert(nv@.len() == mv@.len());
                            assert(spec_meta_valid(nv@));
                            assert(spec_meta_size(nv@) == spec_meta_size(mv@));
                        }
                        match db_insert(&mut self.db, mk.as_slice(), nv.as_slice()) {
                            Result::Ok(()) => {
                                proof {
                                    assert(m0.contains_key(mk@));
                                    assert(mv@.subrange(24, mv@.len() as int) =~= mv@.skip(24));
                                    assert(nv@ =~= m0[mk@].subrange(0, 16) + spec_le_bytes(
                                        now as int,
                                        8,
                                    ) + m0[mk@].skip(24));
                                    assert(self@ == m0.insert(
                                        mk@,
                                        m0[mk@].subrange(0, 16) + spec_le_bytes(now as int, 8)
                                            + m0[mk@].skip(24),
                                    ));
                                }
                                Result::Ok(Option::Some(data))
                            },
                            Result::Err(e) => Result::Err(e),
                        }
                    },
                    Option::None => Result::Ok(Option::Some(data)),
                }
            },
            Result::Ok(Option::None) => Result::Ok(Option::Some(data)),
            Result::Err(e) => Result::Err(e),
        }
    }

    /// Brings occupancy back under the configured bound. Within the
    /// bound it is a no-op beyond the scan. Past it, records are
    /// removed — payload twin and metadata together — in ascending
    /// last-access order, stopping as soon as the freed bytes reach the
    /// excess over the 90% hysteresis target, or when no well-formed
    /// records remain; so afterwards occupancy is within the target,
    /// one fewer eviction would have left it above, nothing else is
    /// touched, and a strictly most-recently-accessed record that fits
    /// the target always survives.
    #[verifier::loop_isolation(false)]
    #[verifier::rlimit(60)]
    fn evict_if_needed(&mut self) -> (r: Result<(), String>)
        ensures
            final(self).spec_max() == old(self).spec_max(),
            match r {
                Result::Ok(()) => {
                    let m0 = old(self)@;
                    let m1 = final(self)@;
                    let max = old(self).spec_max();
                    &&& spec_meta_total(m1) <= max as int
                    &&& (spec_meta_total(m0) <= max as int ==> m1 == m0)
                    &&& (spec_meta_total(m0) > max as int ==> spec_meta_total(m1)
                        <= spec_hysteresis(max))
                    &&& (spec_meta_total(m0) > max as int ==> exists|ke: Seq<u8>|
                        #![trigger m0[ke]]
                        m0.dom().contains(ke) && is_prefixed(meta_prefix(), ke)
                            && spec_meta_valid(m0[ke]) && !m1.dom().contains(ke)
                            && spec_meta_total(m1) + spec_meta_size(m0[ke]) > spec_hysteresis(
                            max,
                        ))
                    &&& m1.dom().subset_of(m0.dom())
                    &&& (forall|k: Seq<u8>| #[trigger] m1.dom().contains(k) ==> m1[k] == m0[k])
                    &&& lru_discipline(m0, m1)
                    &&& (forall|ke: Seq<u8>|
                        m0.dom().contains(ke) && is_prefixed(meta_prefix(), ke)
                            && spec_meta_valid(m0[ke]) && !m1.dom().contains(ke)
                            ==> !m1.dom().contains(#[trigger] spec_twin_key(ke)))
                    &&& (forall|k: Seq<u8>|
                        #[trigger] m0.dom().contains(k) && !m1.dom().contains(k) ==> (
                        is_prefixed(meta_prefix(), k) && spec_meta_valid(m0[k])) || exists|
                            ke: Seq<u8>,
                        |
                            m0.dom().contains(ke) && is_prefixed(meta_prefix(), ke)
                                && spec_meta_valid(m0[ke]) && !m1.dom().contains(ke) && k
                                == #[trigger] spec_twin_key(ke))
                    &&& (forall|k: Seq<u8>|
                        #![trigger m0[k]]
                        m0.dom().contains(k) && is_prefixed(meta_prefix(), k) && spec_meta_valid(
                            m0[k],
                        ) && spec_meta_size(m0[k]) <= spec_hysteresis(max) && (forall|
                            k2: Seq<u8>,
                        |
                            #![trigger m0[k2]]
                            m0.dom().contains(k2) && is_prefixed(meta_prefix(), k2)
                                && spec_meta_valid(m0[k2]) && k2 != k ==> spec_meta_accessed(
                                m0[k2],
                            ) < spec_meta_accessed(m0[k])) ==> m1.dom().contains(k))
                },
                Result::Err(_) => true,
            },
    {
        let ghost m0 = self@;
        let scanned = self.scan_meta();
        let (pairs, current) = match scanned {
            Result::Ok(p) => p,
            Result::Err(e) => {
                return Result::Err(e);
            },
        };
        let ghost listing = pairs@.map_values(|q: (Vec<u8>, Vec<u8>)| (q.0@, q.1@));
        if current <= self.max_size as u128 {
            proof {
                assert(self@ == m0);
                assert(self@.dom().subset_of(m0.dom()));
            }
            return Result::Ok(());
        }
        // Collect one entry per well-formed metadata record.
        let mut entries: Vec<(Vec<u8>, u64, u64)> = Vec::new();
        let mut i: usize = 0;
        proof {
            assert(entry_views(entries@) =~= Seq::<(Seq<u8>, u64, u64)>::empty());
            assert(listing.subrange(0, 0) =~= Seq::<(Seq<u8>, Seq<u8>)>::empty());
        }
        while i < pairs.len()
            invariant
                0 <= i <= pairs@.len(),
                forall|a: int|
                    0 <= a < entry_views(entries@).len() ==> entry_ok(
                        m0,
                        #[trigger] entry_views(entries@)[a],
                    ),
                forall|a: int, li: int|
                    0 <= a < entry_views(entries@).len() && i <= li < listing.len() ==> byte_lt(
                        (#[trigger] entry_views(entries@)[a]).0,
                        (#[trigger] listing[li]).0,
                    ),
                forall|a: int, b: int|
                    0 <= a < b < entry_views(entries@).len() ==> (#[trigger] entry_views(
                        entries@,
                    )[a]).0 != (#[trigger] entry_views(entries@)[b]).0,
                forall|li: int|
                    0 <= li < i && spec_meta_valid((#[trigger] listing[li]).1) ==> exists|a: int|
                        0 <= a < entry_views(entries@).len() && (#[trigger] entry_views(
                            entries@,
                        )[a]).0 == listing[li].0,
                spec_esum(entry_views(entries@)) == spec_size_sum(listing.subrange(0, i as int)),
            decreases pairs@.len() - i,
        {
            let ghost ev_before = entry_views(entries@);
            let header = meta_header(&pairs[i].1);
            proof {
                assert(listing[i as int] == (pairs@[i as int].0@, pairs@[i as int].1@));
                assert(listing.subrange(0, i + 1) =~= listing.subrange(0, i as int).push(
                    listing[i as int],
                ));
                lemma_size_sum_snoc(listing.subrange(0, i as int), listing[i as int]);
            }
            match header {
                Option::Some(h) => {
                    let rk = copy_bytes(&pairs[i].0);
                    entries.push((rk, h.0, h.1));
                    proof {
                        let ev = entry_views(entries@);
                        assert(ev =~= ev_before.push((listing[i as int].0, h.0, h.1)));
                        assert(m0.contains_pair(listing[i as int].0, listing[i as int].1));
                        assert(m0[listing[i as int].0] == listing[i as int].1);
                        assert(entry_ok(m0, ev[ev.len() - 1]));
                        lemma_esum_snoc(ev_before, (listing[i as int].0, h.0, h.1));
                        assert forall|a: int, li: int|
                            0 <= a < ev.len() && i + 1 <= li < listing.len() implies byte_lt(
                            (#[trigger] ev[a]).0,
                            (#[trigger] listing[li]).0,
                        ) by {
                            if a < ev.len() - 1 {
                                assert(byte_lt(ev_before[a].0, listing[li].0));
                            } else {
                                assert(byte_lt(listing[i as int].0, listing[li].0));
                            }
                        }
                        assert forall|a: int, b: int|
                            0 <= a < b < ev.len() implies (#[trigger] ev[a]).0 != (
                        #[trigger] ev[b]).0 by {
                            if b == ev.len() - 1 {
                                assert(byte_lt(ev_before[a].0, listing[i as int].0));
                            }
                        }
                        assert forall|li: int|
                            0 <= li <= i && spec_meta_valid(
                                (#[trigger] listing[li]).1,
                            ) implies exists|a: int|
                            0 <= a < entry_views(entries@).len() && (#[trigger] entry_views(
                                entries@,
                            )[a]).0 == listing[li].0 by {
                            if li < i {
                                let a = choose|a: int|
                                    0 <= a < ev_before.len() && (#[trigger] ev_before[a]).0
                                        == listing[li].0;
                                assert(ev[a] == ev_before[a]);
                                assert(0 <= a < ev.len() && ev[a].0 == listing[li].0);
                            } else {
                                assert(ev[ev.len() - 1].0 == listing[li].0);
                            }
                        }
                    }
                },
                Option::None => {
                    proof {
                        assert(!spec_meta_valid(listing[i as int].1));
                    }
                },
            }
            i = i + 1;
        }
        proof {
            assert(listing.subrange(0, pairs@.len() as int) =~= listing);
        }
        let sorted = sort_entries(entries);
        let ghost sv = entry_views(sorted@);
        proof {
            broadcast use vstd::seq_lib::group_to_multiset_ensures;

            let iv = entry_views(entries@);
            // every sorted entry is one of the collected entries
            assert forall|a: int| 0 <= a < sv.len() implies entry_ok(m0, #[trigger] sv[a]) by {
                assert(sv.contains(sv[a]));
                assert(sv.to_multiset().contains(sv[a]));
                assert(iv.to_multiset().contains(sv[a]));
                assert(iv.contains(sv[a]));
                let b = choose|b: int| 0 <= b < iv.len() && iv[b] == sv[a];
                assert(entry_ok(m0, iv[b]));
            }
            // every well-formed record still has an entry
            assert forall|li: int|
                0 <= li < listing.len() && spec_meta_valid(
                    (#[trigger] listing[li]).1,
                ) implies exists|a: int|
                0 <= a < sv.len() && (#[trigger] sv[a]).0 == listing[li].0 by {
                let b = choose|b: int|
                    0 <= b < entry_views(entries@).len() && (#[trigger] entry_views(
                        entries@,
                    )[b]).0 == listing[li].0;
                let iv2 = entry_views(entries@);
                assert(iv2.contains(iv2[b]));
                assert(iv2.to_multiset().contains(iv2[b]));
                assert(sv.to_multiset().contains(iv2[b]));
                assert(sv.contains(iv2[b]));
                let a = choose|a: int| 0 <= a < sv.len() && sv[a] == iv2[b];
                assert(sv[a].0 == listing[li].0);
            }
            // keys stay pairwise distinct
            assert(iv.no_duplicates()) by {
                assert forall|a: int, b: int|
                    0 <= a < iv.len() && 0 <= b < iv.len() && a != b implies iv[a] != iv[b] by {
                    if a < b {
                        assert(iv[a].0 != iv[b].0);
                    } else {
                        assert(iv[b].0 != iv[a].0);
                    }
                }
            }
            iv.lemma_multiset_has_no_duplicates();
            sv.lemma_multiset_has_no_duplicates_conv();
            assert forall|a: int, b: int|
                0 <= a < b < sv.len() implies (#[trigger] sv[a]).0 != (#[trigger] sv[b]).0 by {
                if sv[a].0 == sv[b].0 {
                    assert(entry_ok(m0, sv[a]));
                    assert(entry_ok(m0, sv[b]));
                    assert(sv[a].1 == sv[b].1);
                    assert(sv[a].2 == sv[b].2);
                    assert(sv[a] == sv[b]);
                    assert(sv.no_duplicates());
                }
            }
            // the collected sum carries over
            lemma_esum_multiset(sv, iv);
            assert(spec_esum(sv) == current as int);
        }
        let threshold: u128 = (self.max_size as u128) * 90 / 100;
        proof {
            assert(threshold <= self.max_size as u128) by (nonlinear_arith)
                requires
                    threshold == (self.max_size as u128) * 90 / 100,
                    self.max_size as u128 >= 0,
            ;
            assert(threshold as int == spec_hysteresis(old(self).max_size));
        }
        let target: u128 = current - threshold;
        let mut freed: u128 = 0;
        let mut idx: usize = 0;
        let ghost mut remaining = listing;
        proof {
            assert(sv.subrange(0, 0) =~= Seq::<(Seq<u8>, u64, u64)>::empty());
        }
        while idx < sorted.len() && freed < target
            invariant
                0 <= idx <= sorted@.len(),
                self.max_size == old(self).max_size,
                scan_matches(self@, meta_prefix(), remaining),
                spec_size_sum(remaining) == current as int - freed as int,
                freed as int == spec_esum(sv.subrange(0, idx as int)),
                freed <= current,
                idx > 0 ==> spec_esum(sv.subrange(0, idx - 1)) < target as int,
                self@.dom().subset_of(m0.dom()),
                forall|k: Seq<u8>| #[trigger] self@.dom().contains(k) ==> self@[k] == m0[k],
                forall|j: int|
                    0 <= j < idx ==> !self@.dom().contains((#[trigger] sv[j]).0),
                forall|j: int|
                    idx <= j < sv.len() ==> self@.dom().contains((#[trigger] sv[j]).0),
                forall|j: int|
                    0 <= j < idx ==> !self@.dom().contains(spec_twin_key((#[trigger] sv[j]).0)),
                forall|k: Seq<u8>|
                    #[trigger] m0.dom().contains(k) && !self@.dom().contains(k) ==> exists|
                        j: int,
                    |
                        0 <= j < idx && (k == (#[trigger] sv[j]).0 || k == spec_twin_key(
                            sv[j].0,
                        )),
            decreases sorted@.len() - idx,
        {
            let size = sorted[idx].1;
            let ghost k = sv[idx as int].0;
            let ghost pre = self@;
            proof {
                assert(entry_ok(m0, sv[idx as int]));
                assert(pre.dom().contains(k));
                assert(is_prefixed(meta_prefix(), k));
            }
            let removed = db_remove(&mut self.db, sorted[idx].0.as_slice());
            match removed {
                Result::Ok(()) => {},
                Result::Err(e) => {
                    return Result::Err(e);
                },
            }
            proof {
                let li = choose|li: int|
                    0 <= li < remaining.len() && (#[trigger] remaining[li]).0 == k;
                assert(self@ == pre.remove(k));
                assert(remaining[li].1 == pre[k]);
                assert(pre[k] == m0[k]);
                lemma_scan_remove_listed(pre, meta_prefix(), remaining, li);
                lemma_size_sum_remove(remaining, li);
                assert(spec_meta_size(remaining[li].1) == size as int);
                remaining = remaining.remove(li);
            }
            let dkey = data_twin_key(&sorted[idx].0);
            let ghost pre2 = self@;
            let removed2 = db_remove(&mut self.db, dkey.as_slice());
            match removed2 {
                Result::Ok(()) => {},
                Result::Err(e) => {
                    return Result::Err(e);
                },
            }
            proof {
                assert(self@ == pre2.remove(dkey@));
                lemma_scan_remove_other(pre2, meta_prefix(), remaining, dkey@);
                assert(dkey@ == spec_twin_key(sv[idx as int].0));
                // bookkeeping for the freed counter
                assert(sv.subrange(0, idx + 1) =~= sv.subrange(0, idx as int).push(
                    sv[idx as int],
                ));
                lemma_esum_snoc(sv.subrange(0, idx as int), sv[idx as int]);
                lemma_esum_split(sv, idx + 1);
                lemma_esum_nonneg(sv.subrange(idx + 1, sv.len() as int));
                assert(freed as int + size as int <= current as int);
                // one fewer removal would have left the target unmet
                assert(spec_esum(sv.subrange(0, idx as int)) < target as int);
                // records of later entries are untouched
                assert forall|j: int|
                    idx + 1 <= j < sv.len() implies self@.dom().contains(
                    (#[trigger] sv[j]).0,
                ) by {
                    assert(sv[j].0 != k);
                    assert(is_prefixed(meta_prefix(), sv[j].0));
                    if sv[j].0 == dkey@ {
                        assert(!is_prefixed(meta_prefix(), dkey@));
                    }
                }
                // every removal so far is one of the processed records
                // or its payload twin
                assert forall|kk: Seq<u8>|
                    #[trigger] m0.dom().contains(kk) && !self@.dom().contains(kk) implies exists|
                        j: int,
                    |
                        0 <= j < idx + 1 && (kk == (#[trigger] sv[j]).0 || kk == spec_twin_key(
                            sv[j].0,
                        )) by {
                    if pre.dom().contains(kk) {
                        assert(kk == k || kk == dkey@);
                        assert(kk == sv[idx as int].0 || kk == spec_twin_key(sv[idx as int].0));
                    } else {
                        let j = choose|j: int|
                            0 <= j < idx && (kk == (#[trigger] sv[j]).0 || kk == spec_twin_key(
                                sv[j].0,
                            ));
                        assert(0 <= j < idx + 1 && (kk == sv[j].0 || kk == spec_twin_key(
                            sv[j].0,
                        )));
                    }
                }
            }
            freed = freed + (size as u128);
            idx = idx + 1;
        }
        let flushed = db_flush(&mut self.db);
        match flushed {
            Result::Ok(()) => {},
            Result::Err(e) => {
                return Result::Err(e);
            },
        }
        proof {
            lemma_scan_unique(
                self@,
                meta_prefix(),
                spec_scan(self@, meta_prefix()),
                remaining,
            );
            if freed >= target {
                assert(spec_meta_total(self@) <= threshold as int);
            } else {
                assert(idx == sorted@.len());
                assert(sv.subrange(0, sv.len() as int) =~= sv);
                assert(freed as int == spec_esum(sv));
                assert(spec_size_sum(remaining) == 0);
            }
            assert(spec_meta_total(self@) <= old(self).max_size as int);
            // the survivors were accessed no earlier than the evicted
            assert forall|ke: Seq<u8>, ks: Seq<u8>|
                #![trigger m0[ke], m0[ks]]
                (m0.dom().contains(ke) && is_prefixed(meta_prefix(), ke) && spec_meta_valid(
                    m0[ke],
                ) && !self@.dom().contains(ke) && self@.dom().contains(ks) && is_prefixed(
                    meta_prefix(),
                    ks,
                ) && spec_meta_valid(m0[ks])) implies spec_meta_accessed(m0[ke])
                <= spec_meta_accessed(m0[ks]) by {
                let lie = choose|li: int|
                    0 <= li < listing.len() && (#[trigger] listing[li]).0 == ke;
                assert(listing[lie].1 == m0[ke]);
                let a = choose|a: int| 0 <= a < sv.len() && (#[trigger] sv[a]).0 == ke;
                let lis = choose|li: int|
                    0 <= li < listing.len() && (#[trigger] listing[li]).0 == ks;
                assert(listing[lis].1 == m0[ks]);
                let b = choose|b: int| 0 <= b < sv.len() && (#[trigger] sv[b]).0 == ks;
                assert(a < idx);
                assert(b >= idx);
                assert(sv[a].2 <= sv[b].2);
                assert(entry_ok(m0, sv[a]));
                assert(entry_ok(m0, sv[b]));
            }
            // occupancy is within the hysteresis target
            assert(threshold as int >= 0);
            assert(spec_meta_total(self@) <= spec_hysteresis(old(self).max_size));
            assert(spec_meta_total(m0) > old(self).max_size as int);
            // stopping one eviction earlier would have left the target
            // unmet: the last evicted record witnesses it
            assert(idx >= 1) by {
                if idx == 0 {
                    assert(freed == 0);
                    assert(target > 0);
                    assert(spec_esum(sv) == current as int);
                    if sorted@.len() == 0 {
                        assert(sv.len() == 0);
                        assert(spec_esum(sv) == 0);
                    }
                }
            }
            let kl = sv[idx - 1].0;
            assert(entry_ok(m0, sv[idx - 1]));
            assert(sv.subrange(0, idx as int) =~= sv.subrange(0, idx - 1).push(sv[idx - 1]));
            lemma_esum_snoc(sv.subrange(0, idx - 1), sv[idx - 1]);
            assert((freed as int) < (target as int) + (sv[idx - 1].1 as int));
            assert(!self@.dom().contains(kl));
            assert(m0.dom().contains(kl) && is_prefixed(meta_prefix(), kl) && spec_meta_valid(
                m0[kl],
            ) && spec_meta_total(self@) + spec_meta_size(m0[kl]) > spec_hysteresis(
                old(self).max_size,
            ));
            // every evicted record's payload twin is gone too
            assert forall|ke: Seq<u8>|
                m0.dom().contains(ke) && is_prefixed(meta_prefix(), ke) && spec_meta_valid(
                    m0[ke],
                ) && !self@.dom().contains(ke) implies !self@.dom().contains(
                #[trigger] spec_twin_key(ke),
            ) by {
                let li = choose|li: int|
                    0 <= li < listing.len() && (#[trigger] listing[li]).0 == ke;
                assert(listing[li].1 == m0[ke]);
                let a = choose|a: int| 0 <= a < sv.len() && (#[trigger] sv[a]).0 == ke;
                assert(a < idx);
                assert(!self@.dom().contains(spec_twin_key(sv[a].0)));
            }
            // removals are confined to evicted records and their twins
            assert forall|kk: Seq<u8>|
                #[trigger] m0.dom().contains(kk) && !self@.dom().contains(kk) implies (
            is_prefixed(meta_prefix(), kk) && spec_meta_valid(m0[kk])) || exists|ke: Seq<u8>|
                m0.dom().contains(ke) && is_prefixed(meta_prefix(), ke) && spec_meta_valid(
                    m0[ke],
                ) && !self@.dom().contains(ke) && kk == #[trigger] spec_twin_key(ke) by {
                let j = choose|j: int|
                    0 <= j < idx && (kk == (#[trigger] sv[j]).0 || kk == spec_twin_key(
                        sv[j].0,
                    ));
                assert(entry_ok(m0, sv[j]));
                if kk != sv[j].0 {
                    assert(!self@.dom().contains(sv[j].0));
                    assert(kk == spec_twin_key(sv[j].0));
                }
            }
            // a strictly most-recently-accessed record that fits the
            // target is never evicted
            assert forall|k: Seq<u8>|
                #![trigger m0[k]]
                m0.dom().contains(k) && is_prefixed(meta_prefix(), k) && spec_meta_valid(m0[k])
                    && spec_meta_size(m0[k]) <= spec_hysteresis(old(self).max_size) && (forall|
                    k2: Seq<u8>,
                |
                    #![trigger m0[k2]]
                    m0.dom().contains(k2) && is_prefixed(meta_prefix(), k2) && spec_meta_valid(
                        m0[k2],
                    ) && k2 != k ==> spec_meta_accessed(m0[k2]) < spec_meta_accessed(
                        m0[k],
                    )) implies self@.dom().contains(k) by {
                if !self@.dom().contains(k) {
                    let li = choose|li: int|
                        0 <= li < listing.len() && (#[trigger] listing[li]).0 == k;
                    assert(listing[li].1 == m0[k]);
                    let b = choose|b: int| 0 <= b < sv.len() && (#[trigger] sv[b]).0 == k;
                    assert(entry_ok(m0, sv[b]));
                    let last = sv.len() - 1;
                    if b < last {
                        assert(sv[b].2 <= sv[last].2);
                        assert(entry_ok(m0, sv[last]));
                        assert(sv[last].0 != k);
                        assert(m0.dom().contains(sv[last].0) && is_prefixed(
                            meta_prefix(),
                            sv[last].0,
                        ) && spec_meta_valid(m0[sv[last].0]));
                        assert(spec_meta_accessed(m0[sv[last].0]) < spec_meta_accessed(m0[k]));
                        assert(sv[last].2 < sv[b].2);
                    }
                    assert(b == last);
                    assert(b < idx);
                    assert(idx as int == sv.len());
                    assert(spec_esum(sv.subrange(0, idx - 1)) < target as int);
                    assert(sv.subrange(0, sv.len() as int) =~= sv);
                    assert(sv.subrange(0, sv.len() as int) =~= sv.subrange(0, last).push(
                        sv[last],
                    ));
                    lemma_esum_snoc(sv.subrange(0, last), sv[last]);
                    assert(spec_esum(sv) == current as int);
                    assert(spec_esum(sv.subrange(0, last)) == current as int - sv[last].1);
                    assert(target as int == current as int - threshold as int);
                    assert(current as int - sv[last].1 < current as int - threshold as int);
                    assert(spec_meta_size(m0[k]) > spec_hysteresis(old(self).max_size));
                    assert(false);
                }
            }
        }
        Result::Ok(())
    }

    /// Stores a payload under `key`: writes the payload record and a
    /// fresh metadata record — declared size the payload's length, both
    /// timestamps one clock reading — flushes, and then synchronously
    /// brings occupancy back under the bound. On success the store holds
    /// at most the prior records plus exactly these two, none altered;
    /// occupancy is within the bound; a write that already fits needs no
    /// eviction and changes nothing else; anything evicted obeyed the
    /// least-recently-used discipline; and when the fresh record is
    /// strictly the most recently accessed and fits the eviction target,
    /// both new records survive — put then get returns the payload.
    pub fn put(&mut self, key: &str, data: &[u8], format: ImageFormat, params: &str) -> (r:
        Result<(), String>)
        ensures
            final(self).spec_max() == old(self).spec_max(),
            match r {
                Result::Ok(()) => {
                    let m0 = old(self)@;
                    let m1 = final(self)@;
                    let max = old(self).spec_max();
                    let dk = spec_data_key(key@);
                    let mk = spec_meta_key(key@);
                    &&& spec_meta_total(m1) <= max as int
                    &&& exists|t: u64|
                        #![trigger spec_encode_meta(
                            data@.len() as u64,
                            t,
                            t,
                            format,
                            encode_utf8(params@),
                        )]
                        {
                            let rec = spec_encode_meta(
                                data@.len() as u64,
                                t,
                                t,
                                format,
                                encode_utf8(params@),
                            );
                            let mw = m0.insert(dk, data@).insert(mk, rec);
                            &&& (spec_meta_total(mw) <= max as int ==> m1 == mw)
                            &&& m1.dom().subset_of(mw.dom())
                            &&& (forall|k: Seq<u8>|
                                #[trigger] m1.dom().contains(k) ==> m1[k] == mw[k])
                            &&& lru_discipline(mw, m1)
                            &&& ((data@.len() <= spec_hysteresis(max) && (forall|k2: Seq<u8>|
                                #![trigger mw[k2]]
                                mw.dom().contains(k2) && is_prefixed(meta_prefix(), k2)
                                    && spec_meta_valid(mw[k2]) && k2 != mk
                                    ==> spec_meta_accessed(mw[k2]) < t))
                                ==> m1.contains_pair(dk, data@) && m1.contains_pair(mk, rec))
                        }
                },
                Result::Err(_) => true,
            },
    {
        let now = now_secs();
        let meta = CacheMetadata {
            key: String::from_str(key),
            format,
            size: data.len() as u64,
            created_at: now,
            accessed_at: now,
            params: String::from_str(params),
        };
        let mv = encode_meta(&meta);
        proof {
            lemma_meta_roundtrip(
                meta.size,
                meta.created_at,
                meta.accessed_at,
                meta.format,
                encode_utf8(meta.params@),
            );
        }
        let dk = data_key_bytes(key);
        let mk = meta_key_bytes(key);
        let w1 = db_insert(&mut self.db, dk.as_slice(), data);
        match w1 {
            Result::Ok(()) => {},
            Result::Err(e) => {
                return Result::Err(e);
            },
        }
        let w2 = db_insert(&mut self.db, mk.as_slice(), mv.as_slice());
        match w2 {
            Result::Ok(()) => {},
            Result::Err(e) => {
                return Result::Err(e);
            },
        }
        let f = db_flush(&mut self.db);
        match f {
            Result::Ok(()) => {},
            Result::Err(e) => {
                return Result::Err(e);
            },
        }
        let ghost mw = self@;
        let ev = self.evict_if_needed();
        match ev {
            Result::Ok(()) => {},
            Result::Err(e) => {
                return Result::Err(e);
            },
        }
        proof {
            let m0 = old(self)@;
            let m1 = self@;
            let max = old(self).spec_max();
            let dk = spec_data_key(key@);
            let mk = spec_meta_key(key@);
            let rec = spec_encode_meta(data@.len() as u64, now, now, format, encode_utf8(
                params@,
            ));
            assert(mv@ == rec);
            assert(mw == m0.insert(dk, data@).insert(mk, rec));
            assert(m1.dom().subset_of(mw.dom()));
            // the fresh record survives when it is strictly the newest
            // and fits the eviction target
            if data@.len() <= spec_hysteresis(max) && (forall|k2: Seq<u8>|
                #![trigger mw[k2]]
                mw.dom().contains(k2) && is_prefixed(meta_prefix(), k2) && spec_meta_valid(
                    mw[k2],
                ) && k2 != mk ==> spec_meta_accessed(mw[k2]) < now) {
                lemma_meta_key_prefixed(key@);
                lemma_meta_roundtrip(data@.len() as u64, now, now, format, encode_utf8(params@));
                assert(mw.dom().contains(mk) && mw[mk] == rec);
                assert(spec_meta_valid(mw[mk]) && spec_meta_size(mw[mk]) == data@.len()
                    && spec_meta_accessed(mw[mk]) == now);
                assert(m1.dom().contains(mk));
                assert(m1.contains_pair(mk, rec));
                if !m1.dom().contains(dk) {
                    assert(mw.dom().contains(dk)) by {
                        lemma_data_key_not_meta_prefixed(key@);
                        lemma_meta_key_prefixed(key@);
                        assert(dk[0] == 100u8 && mk[0] == 109u8);
                        assert(dk != mk);
                    }
                    lemma_data_key_not_meta_prefixed(key@);
                    let ke = choose|ke: Seq<u8>|
                        mw.dom().contains(ke) && is_prefixed(meta_prefix(), ke)
                            && spec_meta_valid(mw[ke]) && !m1.dom().contains(ke) && dk
                            == #[trigger] spec_twin_key(ke);
                    assert(ke =~= ke.subrange(0, 5) + ke.skip(5));
                    assert(ke.subrange(0, 5) == meta_prefix());
                    assert(dk == data_prefix() + ke.skip(5));
                    assert(dk == data_prefix() + encode_utf8(key@));
                    assert((data_prefix() + ke.skip(5)).skip(5) =~= ke.skip(5));
                    assert((data_prefix() + encode_utf8(key@)).skip(5) =~= encode_utf8(key@));
                    assert(ke.skip(5) == encode_utf8(key@));
                    assert(ke =~= mk);
                    assert(false);
                }
                assert(m1.contains_pair(dk, data@));
            }
        }
        Result::Ok(())
    }
}

/// The bounded store as a cache backend.
impl crate::cache::Cache for SledCache {
    /// Derives the cache key identifying one transformation output.
    fn key_for(&self, params: &Vec<(String, String)>) -> (r: String) {
        crate::cache::derive_cache_key(params)
    }

    /// Fetches the cached payload under `key`, refreshing its
    /// last-access time.
    fn get(&mut self, key: &str) -> Result<Option<Vec<u8>>, String> {
        SledCache::get(self, key)
    }

    /// Stores a payload and its metadata, then evicts if the store has
    /// outgrown its bound.
    fn put(&mut self, key: &str, data: &[u8], format: ImageFormat, params: &str) -> Result<
        (),
        String,
    > {
        SledCache::put(self, key, data, format, params)
    }
}

} // verus!
