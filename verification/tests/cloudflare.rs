use imagekit::cloudflare::CloudflareCacheConfig;

#[test]
fn test_default_cache_control() {
    let config = CloudflareCacheConfig::default();
    let value = config.cache_control_value();

    assert!(value.contains("public"));
    assert!(value.contains("max-age=31536000"));
    assert!(value.contains("s-maxage=86400"));
    assert!(value.contains("immutable"));
    assert!(value.contains("stale-if-error=86400"));
    assert!(value.contains("stale-while-revalidate=60"));
}

#[test]
fn test_no_cache() {
    let config = CloudflareCacheConfig::no_cache();
    let value = config.cache_control_value();

    assert_eq!(value, "no-store, no-cache, must-revalidate");
}

#[test]
fn test_dynamic_cache() {
    let config = CloudflareCacheConfig::for_dynamic(3600);
    let value = config.cache_control_value();

    assert!(value.contains("max-age=3600"));
    assert!(value.contains("s-maxage=3600"));
    assert!(!value.contains("immutable"));
}

#[test]
fn test_cdn_cache_control() {
    let config = CloudflareCacheConfig::default();
    let value = config.cdn_cache_control_value();

    assert_eq!(value, "max-age=86400");
}

#[test]
fn test_default_cache_control_exact() {
    let value = CloudflareCacheConfig::default().cache_control_value();
    assert_eq!(
        value,
        "public, max-age=31536000, s-maxage=86400, immutable, stale-if-error=86400, stale-while-revalidate=60"
    );
}

#[test]
fn test_private_cache_control() {
    let config = CloudflareCacheConfig {
        edge_max_age: 60,
        browser_max_age: 30,
        public: false,
        stale_if_error: None,
        stale_while_revalidate: None,
        immutable: false,
    };
    assert_eq!(config.cache_control_value(), "private, max-age=30, s-maxage=60");
}

#[test]
fn test_no_cache_cdn_value() {
    assert_eq!(CloudflareCacheConfig::no_cache().cdn_cache_control_value(), "no-store");
}

#[test]
fn test_for_images_matches_default() {
    let a = CloudflareCacheConfig::for_images();
    assert_eq!(a.edge_max_age, 86400);
    assert_eq!(a.browser_max_age, 31536000);
    assert!(a.public);
    assert_eq!(a.stale_if_error, Some(86400));
    assert_eq!(a.stale_while_revalidate, Some(60));
    assert!(a.immutable);
}
