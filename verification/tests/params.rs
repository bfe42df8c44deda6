use imagekit::params::Format;
use imagekit::params::FitMode;
use imagekit::params::TransformParams;
use imagekit::fetch::check_status;
use imagekit::fetch::check_content_type;
use imagekit::fetch::check_declared_length;
use imagekit::fetch::accept_chunk;
use imagekit::fetch::validate_image_bytes;
use imagekit::errors::ImageKitError;

#[test]
fn test_format_from_str() {
    assert_eq!(Format::from_str("JPEG"), Ok(Format::JPEG));
    assert_eq!(Format::from_str("jpeg"), Ok(Format::JPEG));
    assert_eq!(Format::from_str("WebP"), Ok(Format::WEBP));
    assert_eq!(Format::from_str("AVIF"), Ok(Format::AVIF));
    assert_eq!(Format::from_str("gif"), Err("Invalid format: gif".to_string()));
    assert_eq!(Format::JPEG.name(), "JPEG");
}

#[test]
fn test_fit_mode_from_str() {
    assert_eq!(FitMode::from_str("cover"), Ok(FitMode::Cover));
    assert_eq!(FitMode::from_str("Contain"), Ok(FitMode::Contain));
    assert_eq!(FitMode::from_str("fill"), Err("Invalid fit mode: fill".to_string()));
    assert_eq!(FitMode::Cover.name(), "cover");
}

#[test]
fn test_parse_full_query() {
    let params =
        TransformParams::from_str("width=800&height=600&format=jpeg&quality=80&fit=cover")
            .unwrap();
    assert_eq!(params.width, Some(800));
    assert_eq!(params.height, Some(600));
    assert_eq!(params.format, Some(Format::JPEG));
    assert_eq!(params.quality, Some(80));
    assert_eq!(params.fit_mode, Some(FitMode::Cover));
}

#[test]
fn test_parse_partial_query() {
    let params = TransformParams::from_str("width=120").unwrap();
    assert_eq!(params.width, Some(120));
    assert_eq!(params.height, None);
    assert_eq!(params.format, None);
    assert_eq!(params.quality, None);
    assert_eq!(params.fit_mode, None);
}

#[test]
fn test_parse_empty_query() {
    let params = TransformParams::from_str("").unwrap();
    assert_eq!(params.width, None);
    assert_eq!(params.height, None);
}

#[test]
fn test_parse_ignores_unknown_keys() {
    let params = TransformParams::from_str("width=10&other=zzz&height=20").unwrap();
    assert_eq!(params.width, Some(10));
    assert_eq!(params.height, Some(20));
}

#[test]
fn test_parse_rejects_bad_number() {
    assert!(TransformParams::from_str("width=abc").is_err());
    assert!(TransformParams::from_str("quality=300").is_err());
    assert!(TransformParams::from_str("width=-5").is_err());
}

#[test]
fn test_parse_rejects_duplicate_key() {
    assert!(TransformParams::from_str("width=10&width=20").is_err());
}

#[test]
fn test_parse_rejects_bad_format() {
    assert!(TransformParams::from_str("format=bmp").is_err());
    assert!(TransformParams::from_str("fit=stretch").is_err());
}

#[test]
fn test_parse_skips_empty_segments() {
    let params = TransformParams::from_str("&&width=5&&").unwrap();
    assert_eq!(params.width, Some(5));
}

#[test]
fn test_check_status() {
    assert!(check_status(200).is_ok());
    assert!(check_status(204).is_ok());
    assert!(check_status(299).is_ok());
    assert!(matches!(check_status(404), Err(ImageKitError::NetworkError(_))));
    assert!(matches!(check_status(301), Err(ImageKitError::NetworkError(_))));
    assert!(matches!(check_status(500), Err(ImageKitError::NetworkError(_))));
}

#[test]
fn test_check_content_type() {
    assert!(check_content_type("image/png").is_ok());
    assert!(check_content_type("IMAGE/JPEG").is_ok());
    assert!(check_content_type("image/webp; charset=binary").is_ok());
    assert!(matches!(
        check_content_type("text/html"),
        Err(ImageKitError::InvalidArgument(_))
    ));
    assert!(matches!(
        check_content_type("application/json"),
        Err(ImageKitError::InvalidArgument(_))
    ));
    // absent or unparseable declarations are tolerated; decode decides
    assert!(check_content_type("").is_ok());
    assert!(check_content_type("not a mime type").is_ok());
    assert!(check_content_type("/missing-top").is_ok());
}

#[test]
fn test_check_declared_length() {
    assert!(check_declared_length(None, 100).is_ok());
    assert!(check_declared_length(Some(100), 100).is_ok());
    assert!(matches!(
        check_declared_length(Some(101), 100),
        Err(ImageKitError::InvalidArgument(_))
    ));
}

#[test]
fn test_accept_chunk() {
    assert_eq!(accept_chunk(0, 40, 100).unwrap(), 40);
    assert_eq!(accept_chunk(40, 60, 100).unwrap(), 100);
    assert!(matches!(
        accept_chunk(41, 60, 100),
        Err(ImageKitError::InvalidArgument(_))
    ));
}

#[test]
fn test_validate_image_bytes() {
    let img = image::DynamicImage::new_rgb8(12, 34);
    let mut png = Vec::new();
    img.write_to(&mut std::io::Cursor::new(&mut png), image::ImageFormat::Png).unwrap();
    let validated = validate_image_bytes(&png).unwrap();
    assert_eq!(validated.width(), 12);
    assert_eq!(validated.height(), 34);

    let garbage = vec![0u8; 50];
    assert!(matches!(
        validate_image_bytes(&garbage),
        Err(ImageKitError::InvalidArgument(_))
    ));
}
