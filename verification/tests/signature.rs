use hmac::Mac;
use imagekit::signature::verify_signature;
use imagekit::signature::verify_signature_at;
use imagekit::signature::compute_signature;
use imagekit::errors::SignatureError;

fn pairs(kvs: &[(&str, &str)]) -> Vec<(String, String)> {
    kvs.iter().map(|(k, v)| (k.to_string(), v.to_string())).collect()
}

/// The canonical string as an independent oracle: sorted, `&`-joined.
fn oracle_canonical(kvs: &[(&str, &str)]) -> String {
    let mut sorted: Vec<(String, String)> =
        kvs.iter().map(|(k, v)| (k.to_string(), v.to_string())).collect();
    sorted.sort();
    sorted
        .iter()
        .filter(|(k, _)| k != "sig")
        .map(|(k, v)| format!("{}={}", k, v))
        .collect::<Vec<_>>()
        .join("&")
}

fn oracle_sign(kvs: &[(&str, &str)], secret: &str) -> String {
    let canonical = oracle_canonical(kvs);
    let mut mac = hmac::Hmac::<sha2::Sha256>::new_from_slice(secret.as_bytes()).unwrap();
    mac.update(canonical.as_bytes());
    hex::encode(mac.finalize().into_bytes())
}

#[test]
fn signature_validates() {
    let params = pairs(&[("url", "https://example.com/a.jpg"), ("w", "400")]);
    let secret = "s";
    let sig = oracle_sign(&[("url", "https://example.com/a.jpg"), ("w", "400")], secret);
    assert!(verify_signature(&params, &sig, secret).is_ok());
}

#[test]
fn signature_rejects_tamper() {
    let params = pairs(&[("url", "https://example.com/a.jpg")]);
    let secret = "s";
    let mut mac = hmac::Hmac::<sha2::Sha256>::new_from_slice(secret.as_bytes()).unwrap();
    mac.update(b"bad=param");
    let sig = hex::encode(mac.finalize().into_bytes());
    assert!(verify_signature(&params, &sig, secret).is_err());
}

#[test]
fn signature_matches_oracle() {
    let kvs = [("url", "https://example.com/a.jpg"), ("w", "400"), ("h", "300")];
    let sig = compute_signature(&pairs(&kvs), "secret");
    assert_eq!(sig, oracle_sign(&kvs, "secret"));
    assert_eq!(sig.len(), 64);
}

#[test]
fn signature_order_independent() {
    // canonicalization commutativity: two insertion orders, same signature
    let a = pairs(&[("url", "https://example.com/a.jpg"), ("w", "400"), ("h", "300")]);
    let b = pairs(&[("h", "300"), ("url", "https://example.com/a.jpg"), ("w", "400")]);
    assert_eq!(compute_signature(&a, "secret"), compute_signature(&b, "secret"));
}

#[test]
fn signature_missing_is_rejected() {
    let params = pairs(&[("url", "https://example.com/a.jpg")]);
    assert_eq!(verify_signature(&params, "", "s"), Err(SignatureError::Missing));
}

#[test]
fn expired_one_second_in_past() {
    let kvs = [("url", "https://example.com/a.jpg"), ("t", "999")];
    let params = pairs(&kvs);
    let sig = oracle_sign(&kvs, "s");
    // expiry is checked before the signature comparison
    assert_eq!(verify_signature_at(&params, &sig, "s", 1000), Err(SignatureError::Expired));
}

#[test]
fn valid_one_second_in_future() {
    let kvs = [("url", "https://example.com/a.jpg"), ("t", "1001")];
    let params = pairs(&kvs);
    let sig = oracle_sign(&kvs, "s");
    assert_eq!(verify_signature_at(&params, &sig, "s", 1000), Ok(()));
    // the signature must still match even when the expiry check passes
    assert_eq!(
        verify_signature_at(&params, "0000", "s", 1000),
        Err(SignatureError::Invalid)
    );
}

#[test]
fn unparseable_timestamp_is_tolerated() {
    let kvs = [("url", "https://example.com/a.jpg"), ("t", "soon")];
    let params = pairs(&kvs);
    let sig = oracle_sign(&kvs, "s");
    assert_eq!(verify_signature_at(&params, &sig, "s", i64::MAX), Ok(()));
}

#[test]
fn tampered_value_changes_signature() {
    // tamper sensitivity: changing one canonical parameter value
    // invalidates a previously valid signature
    let kvs = [("url", "https://example.com/a.jpg"), ("w", "400")];
    let sig = oracle_sign(&kvs, "secret");
    let tampered = pairs(&[("url", "https://example.com/a.jpg"), ("w", "401")]);
    assert_eq!(
        verify_signature_at(&tampered, &sig, "secret", 0),
        Err(SignatureError::Invalid)
    );
}
