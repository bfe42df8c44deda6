use imagekit::service::ImageQuery;
use imagekit::service::SignQuery;
use imagekit::service::Metrics;
use imagekit::service::prepare_request;
use imagekit::service::sign_response;
use imagekit::service::run_pipeline;
use imagekit::service::ok_response_meta;
use imagekit::service::request_pairs;
use imagekit::service::canonical_params;
use imagekit::signature::compute_signature;
use imagekit::config::ImageFormat;
use imagekit::config::ImageKitConfig;
use imagekit::errors::ConfigError;
use imagekit::errors::ImageKitError;

fn query(sig: &str) -> ImageQuery {
    ImageQuery {
        url: "https://example.com/test.jpg".to_string(),
        w: Some(400),
        h: None,
        f: Some(ImageFormat::webp),
        q: Some(80),
        t: None,
        sig: sig.to_string(),
    }
}

fn signed_query() -> ImageQuery {
    let mut q = query("");
    let pairs = request_pairs(&q.url, q.w, q.h, q.f, q.q, q.t);
    q.sig = compute_signature(&pairs, "test-secret-key");
    q
}

#[test]
fn test_prepare_request_accepts_valid() {
    let q = signed_query();
    let plan = prepare_request(&q, "test-secret-key", Some(ImageFormat::webp), 1000).unwrap();
    assert_eq!(plan.format, ImageFormat::webp);
    assert_eq!(plan.quality, 80);
    assert_eq!(plan.canonical, "f=webp&q=80&url=https://example.com/test.jpg&w=400");
    assert_eq!(plan.key.len(), 64);
}

#[test]
fn test_img_without_signature_fails() {
    let q = query("");
    let e = prepare_request(&q, "test-secret-key", None, 1000).unwrap_err();
    assert!(matches!(e, ImageKitError::Unauthorized(_)));
}

#[test]
fn test_img_with_invalid_signature_fails() {
    let q = query("invalid");
    let e = prepare_request(&q, "test-secret-key", None, 1000).unwrap_err();
    assert!(matches!(e, ImageKitError::Unauthorized(_)));
    assert_eq!(e.status_code(), 401);
}

#[test]
fn test_img_with_expired_signature_fails() {
    let mut q = query("");
    q.t = Some(1000000000);
    let pairs = request_pairs(&q.url, q.w, q.h, q.f, q.q, q.t);
    q.sig = compute_signature(&pairs, "test-secret-key");
    // verification time is one second past the timestamp
    let e = prepare_request(&q, "test-secret-key", None, 1000000001).unwrap_err();
    assert!(matches!(e, ImageKitError::Expired(_)));
    assert_eq!(e.status_code(), 410);
    // at the timestamp itself the request is not expired
    assert!(prepare_request(&q, "test-secret-key", None, 1000000000).is_ok());
}

#[test]
fn test_img_with_invalid_quality_fails() {
    let mut q = query("");
    q.q = Some(150);
    let pairs = request_pairs(&q.url, q.w, q.h, q.f, q.q, q.t);
    q.sig = compute_signature(&pairs, "test-secret-key");
    let e = prepare_request(&q, "test-secret-key", None, 1000).unwrap_err();
    assert!(matches!(e, ImageKitError::InvalidArgument(_)));
    assert_eq!(e.status_code(), 400);
}

#[test]
fn test_quality_parameter_variations() {
    for quality in [1u8, 50, 80, 100] {
        let mut q = query("");
        q.q = Some(quality);
        let pairs = request_pairs(&q.url, q.w, q.h, q.f, q.q, q.t);
        let sig = compute_signature(&pairs, "test-secret-key");
        assert_eq!(sig.len(), 64);
        q.sig = sig;
        assert!(prepare_request(&q, "test-secret-key", None, 0).is_ok());
    }
}

#[test]
fn test_format_parameter_validation() {
    for f in [ImageFormat::jpeg, ImageFormat::webp, ImageFormat::avif] {
        let mut q = query("");
        q.f = Some(f);
        let pairs = request_pairs(&q.url, q.w, q.h, q.f, q.q, q.t);
        let sig = compute_signature(&pairs, "test-secret-key");
        assert_eq!(sig.len(), 64);
        q.sig = sig;
        let plan = prepare_request(&q, "test-secret-key", None, 0).unwrap();
        assert_eq!(plan.format, f);
    }
}

#[test]
fn test_signature_canonicalization() {
    // signatures are based on sorted parameters, whatever the insertion order
    let a: Vec<(String, String)> = vec![
        ("url".to_string(), "https://example.com/a.jpg".to_string()),
        ("w".to_string(), "400".to_string()),
        ("h".to_string(), "300".to_string()),
    ];
    let b: Vec<(String, String)> = vec![
        ("h".to_string(), "300".to_string()),
        ("url".to_string(), "https://example.com/a.jpg".to_string()),
        ("w".to_string(), "400".to_string()),
    ];
    assert_eq!(compute_signature(&a, "secret"), compute_signature(&b, "secret"));
    assert_eq!(canonical_params(&a), "h=300&url=https://example.com/a.jpg&w=400");
}

#[test]
fn test_sign_endpoint() {
    let q = SignQuery {
        url: "https://example.com/test.jpg".to_string(),
        w: Some(400),
        h: None,
        f: Some(ImageFormat::webp),
        q: Some(80),
        t: None,
    };
    let r = sign_response(&q, "test-secret-key");
    assert!(r.canonical.contains("url="));
    assert!(r.canonical.contains("w=400"));
    assert_eq!(r.sig.len(), 64);
    assert_eq!(r.signed_url, format!("/img?{}&sig={}", r.canonical, r.sig));
}

#[test]
fn test_run_pipeline_webp() {
    let img = image::DynamicImage::new_rgb8(100, 80);
    let mut png = Vec::new();
    img.write_to(&mut std::io::Cursor::new(&mut png), image::ImageFormat::Png).unwrap();
    let out = run_pipeline(&png, Some(50), None, ImageFormat::webp, 80).unwrap();
    assert!(out.starts_with(b"RIFF"));
    assert_eq!(&out[8..12], b"WEBP");
}

#[test]
fn test_run_pipeline_rejects_garbage() {
    let garbage = vec![7u8; 64];
    let e = run_pipeline(&garbage, None, None, ImageFormat::jpeg, 80).unwrap_err();
    assert!(matches!(e, ImageKitError::TransformError(_)));
}

#[test]
fn test_ok_response_meta() {
    let meta = ok_response_meta("k0", ImageFormat::avif);
    assert_eq!(meta.status, 200);
    assert_eq!(meta.content_type, "image/avif");
    assert_eq!(meta.etag, "\"k0\"");
    assert_eq!(meta.cache_control, "public, max-age=31536000, immutable");
}

#[test]
fn test_metrics_counters() {
    let mut m = Metrics::new();
    m.record_hit();
    m.record_hit();
    m.record_miss();
    m.record_transform();
    m.record_error();
    assert_eq!(m.cache_hits, 2);
    assert_eq!(m.cache_misses, 1);
    assert_eq!(m.transforms, 1);
    assert_eq!(m.errors, 1);
}

#[test]
fn test_config_validate() {
    let mut cfg = ImageKitConfig::default();
    assert_eq!(cfg.validate(), Err(ConfigError::EmptySecret));
    cfg.secret = "   ".to_string();
    assert_eq!(cfg.validate(), Err(ConfigError::EmptySecret));
    cfg.secret = "s3cr3t".to_string();
    assert!(cfg.validate().is_ok());
    cfg.max_input_size = 0;
    assert_eq!(cfg.validate(), Err(ConfigError::InvalidMaxInput));
}

#[test]
fn test_config_defaults() {
    let cfg = ImageKitConfig::default();
    assert_eq!(cfg.cache_dir, "./cache");
    assert_eq!(cfg.max_input_size, 8 * 1024 * 1024);
    assert_eq!(cfg.max_cache_size, Some(10 * 1024 * 1024 * 1024));
    assert_eq!(cfg.default_format, Some(ImageFormat::webp));
    assert_eq!(
        cfg.allowed_formats,
        vec![ImageFormat::jpeg, ImageFormat::webp, ImageFormat::avif]
    );
}

#[test]
fn test_error_messages() {
    let e = ImageKitError::NetworkError("boom".to_string());
    assert_eq!(e.message(), "Network error: boom");
    assert_eq!(e.status_code(), 400);
    let e = ImageKitError::CacheError("disk".to_string());
    assert_eq!(e.message(), "Cache error: disk");
    assert_eq!(e.status_code(), 500);
    let e = ImageKitError::NotFound("x".to_string());
    assert_eq!(e.status_code(), 404);
}
