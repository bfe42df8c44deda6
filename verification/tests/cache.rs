use imagekit::cache::Cache;
use imagekit::cache::DiskCache;
use imagekit::cache::derive_cache_key;
use imagekit::cache::etag_for_key;
use imagekit::cache::content_type_from_format;
use imagekit::cache::format_from_extension;
use imagekit::config::ImageFormat;
use imagekit::sled_cache::SledCache;
use imagekit::sled_cache::DEFAULT_MAX_CACHE_SIZE;
use sha2::Digest;

fn pairs(kvs: &[(&str, &str)]) -> Vec<(String, String)> {
    kvs.iter().map(|(k, v)| (k.to_string(), v.to_string())).collect()
}

#[test]
fn test_cache_key_consistency() {
    // the same parameters generate the same cache key, in any order
    let canonical1 = "url=https://example.com/cat.jpg&w=400";
    let mut hasher = sha2::Sha256::new();
    hasher.update(canonical1.as_bytes());
    let expected = hex::encode(hasher.finalize());

    let key1 = derive_cache_key(&pairs(&[("url", "https://example.com/cat.jpg"), ("w", "400")]));
    let key2 = derive_cache_key(&pairs(&[("w", "400"), ("url", "https://example.com/cat.jpg")]));

    assert_eq!(key1, expected);
    assert_eq!(key1, key2);
}

#[test]
fn test_cache_key_excludes_signature() {
    let with_sig = derive_cache_key(&pairs(&[("url", "u"), ("sig", "deadbeef")]));
    let without = derive_cache_key(&pairs(&[("url", "u")]));
    assert_eq!(with_sig, without);
}

#[test]
fn test_etag_format() {
    assert_eq!(etag_for_key("abc123"), "\"abc123\"");
}

#[test]
fn test_content_type_from_format() {
    assert_eq!(content_type_from_format(ImageFormat::webp), "image/webp");
    assert_eq!(content_type_from_format(ImageFormat::jpeg), "image/jpeg");
    assert_eq!(content_type_from_format(ImageFormat::avif), "image/avif");
}

#[test]
fn test_format_from_extension() {
    assert_eq!(format_from_extension("webp"), Some(ImageFormat::webp));
    assert_eq!(format_from_extension("jpeg"), Some(ImageFormat::jpeg));
    assert_eq!(format_from_extension("jpg"), Some(ImageFormat::jpeg));
    assert_eq!(format_from_extension("avif"), Some(ImageFormat::avif));
    assert_eq!(format_from_extension("png"), None);
    assert_eq!(format_from_extension(""), None);
}

#[test]
fn test_disk_cache_paths() {
    let cache = DiskCache::new("./cache".to_string());
    assert_eq!(cache.path_for("k1"), "./cache/k1");
    assert_eq!(cache.storage_path_for("k1", ImageFormat::webp), "./cache/k1.webp");
    assert_eq!(cache.etag_for("k1"), "\"k1\"");
}

#[test]
fn test_disk_cache_content_type_for_path() {
    let cache = DiskCache::new("./cache".to_string());
    assert_eq!(cache.content_type_for_path("./cache/a.webp"), Some("image/webp".to_string()));
    assert_eq!(cache.content_type_for_path("./cache/a.jpg"), Some("image/jpeg".to_string()));
    assert_eq!(cache.content_type_for_path("a.jpeg"), Some("image/jpeg".to_string()));
    assert_eq!(cache.content_type_for_path("./cache/a.avif"), Some("image/avif".to_string()));
    assert_eq!(cache.content_type_for_path("./cache/a.png"), None);
    assert_eq!(cache.content_type_for_path("./cache/noext"), None);
    assert_eq!(cache.content_type_for_path(".webp"), None);
    assert_eq!(cache.content_type_for_path("./cache/.webp"), None);
}

#[test]
fn test_sled_put_get_roundtrip() {
    let mut cache = SledCache::new("/tmp/imagekit-test-store-roundtrip", None).unwrap();
    let payload = vec![1u8, 2, 3, 4, 5];
    cache.put("key-a", &payload, ImageFormat::webp, "w=1").unwrap();
    let got = cache.get("key-a").unwrap();
    assert_eq!(got, Some(payload));
    assert_eq!(cache.get("key-absent").unwrap(), None);
}

#[test]
fn test_sled_default_max_size() {
    let cache = SledCache::new("/tmp/imagekit-test-store-default", None).unwrap();
    assert_eq!(cache.max_size(), DEFAULT_MAX_CACHE_SIZE);
    let bounded = SledCache::new("/tmp/imagekit-test-store-bounded", Some(4096)).unwrap();
    assert_eq!(bounded.max_size(), 4096);
}

#[test]
fn test_sled_eviction_bounded() {
    // eviction boundedness: after any sequence of puts to a store
    // bounded by M, the occupancy stats report at most M
    let mut cache = SledCache::new("/tmp/imagekit-test-store-evict", Some(1000)).unwrap();
    for i in 0..8u32 {
        let payload = vec![i as u8; 400];
        let key = format!("key-{}", i);
        cache.put(&key, &payload, ImageFormat::jpeg, "p").unwrap();
        let stats = cache.stats().unwrap();
        assert!(
            stats.total_size_bytes <= 1000,
            "occupancy {} exceeds the bound after put {}",
            stats.total_size_bytes,
            i
        );
    }
    let stats = cache.stats().unwrap();
    assert!(stats.entry_count >= 1);
    assert_eq!(stats.max_size_bytes, 1000);
}

#[test]
fn test_sled_trait_interface() {
    let mut cache = SledCache::new("/tmp/imagekit-test-store-trait", None).unwrap();
    let key = Cache::key_for(&cache, &pairs(&[("url", "u"), ("w", "10")]));
    assert_eq!(key.len(), 64);
    Cache::put(&mut cache, &key, &[9u8, 9, 9], ImageFormat::avif, "w=10").unwrap();
    assert_eq!(Cache::get(&mut cache, &key).unwrap(), Some(vec![9u8, 9, 9]));
}

#[test]
fn test_disk_cache_key_matches_free_function() {
    let cache = DiskCache::new("d".to_string());
    let ps = pairs(&[("url", "https://example.com/x.png"), ("h", "3")]);
    assert_eq!(cache.key_for(&ps), derive_cache_key(&ps));
}
