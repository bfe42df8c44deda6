use imagekit::transform::Image;
use imagekit::transform::decode_image;
use imagekit::transform::resize_image;
use imagekit::transform::encode_image;
use imagekit::transform::webp_round_trip;
use imagekit::transform::clamp_quality;
use imagekit::config::ImageFormat;

fn rgb(w: u32, h: u32) -> Image {
    Image::from_dynamic(image::DynamicImage::new_rgb8(w, h))
}

fn dims(img: &Image) -> (u32, u32) {
    (img.width(), img.height())
}

#[test]
fn test_resize_dimensions_width_only() {
    // Resizing with only the width preserves the aspect ratio
    let img = rgb(800, 600);
    let resized = resize_image(img, Some(400), None).unwrap();
    assert_eq!(dims(&resized), (400, 300), "Aspect ratio not preserved when resizing with width only");
}

#[test]
fn test_resize_dimensions_height_only() {
    let img = rgb(800, 600);
    let resized = resize_image(img, None, Some(300)).unwrap();
    assert_eq!(dims(&resized), (400, 300), "Aspect ratio not preserved when resizing with height only");
}

#[test]
fn test_resize_both_dimensions() {
    let img = rgb(800, 600);
    let resized = resize_image(img, Some(400), Some(300)).unwrap();
    assert_eq!(dims(&resized), (400, 300), "Explicit dimensions not respected");
}

#[test]
fn test_resize_preserves_aspect_ratio_non_standard() {
    let img = rgb(1920, 1080);
    let resized = resize_image(img, Some(960), None).unwrap();
    assert_eq!(dims(&resized), (960, 540), "Non-standard aspect ratio not preserved");
}

#[test]
fn test_no_resize_when_no_dimensions() {
    let img = rgb(800, 600);
    let original_dims = dims(&img);
    let resized = resize_image(img, None, None).unwrap();
    assert_eq!(dims(&resized), original_dims, "Image should not be resized when no dimensions specified");
}

#[test]
fn test_resize_larger_than_original() {
    let img = rgb(100, 100);
    let resized = resize_image(img, Some(200), Some(200)).unwrap();
    assert_eq!(dims(&resized), (200, 200), "Upscaling should work");
}

#[test]
fn test_resize_minimum_dimensions() {
    let img = rgb(800, 600);
    let resized = resize_image(img, Some(1), Some(1)).unwrap();
    assert_eq!(dims(&resized), (1, 1), "Should handle minimum dimensions (1x1)");
}

#[test]
fn test_resize_very_small_to_large() {
    let img = rgb(2, 2);
    let resized = resize_image(img, Some(200), Some(200)).unwrap();
    assert_eq!(dims(&resized), (200, 200), "Extreme upscaling should work");
}

#[test]
fn test_decode_invalid_data() {
    let invalid_data = vec![0u8; 100];
    let result = decode_image(&invalid_data);
    assert!(result.is_err(), "Should fail on invalid image data");
}

#[test]
fn test_decode_empty_data() {
    let empty_data: Vec<u8> = vec![];
    let result = decode_image(&empty_data);
    assert!(result.is_err(), "Should fail on empty data");
}

#[test]
fn decode_then_webp() {
    // Generate a simple PNG in memory to test the decode path
    let img = image::DynamicImage::new_rgba8(64, 64);
    let mut png = Vec::new();
    img.write_to(&mut std::io::Cursor::new(&mut png), image::ImageFormat::Png).unwrap();
    let (decoded, _) = decode_image(&png).unwrap();
    let out = encode_image(&decoded, ImageFormat::webp, 75).unwrap();
    assert!(out.len() > 0);
}

#[test]
fn test_all_format_encodings() {
    let img = rgb(100, 100);

    let jpeg = encode_image(&img, ImageFormat::jpeg, 80).unwrap();
    assert!(jpeg.len() > 0, "JPEG encoding should produce output");
    assert!(jpeg.starts_with(&[0xFF, 0xD8]), "Should have valid JPEG header");

    let webp = encode_image(&img, ImageFormat::webp, 80).unwrap();
    assert!(webp.len() > 0, "WebP encoding should produce output");

    let avif = encode_image(&img, ImageFormat::avif, 80).unwrap();
    assert!(avif.len() > 0, "AVIF encoding should produce output");
}

#[test]
fn test_format_conversion_round_trip() {
    let original = rgb(50, 50);
    let original_dims = dims(&original);

    let encoded = encode_image(&original, ImageFormat::webp, 80).unwrap();
    let (decoded, format) = decode_image(&encoded).unwrap();

    assert_eq!(dims(&decoded), original_dims, "Dimensions should be preserved in round trip");
    assert_eq!(format, Some(ImageFormat::webp), "Format should be correctly detected");
}

#[test]
fn test_quality_affects_jpeg_size() {
    let low_img = rgb(500, 500);
    let high_img = rgb(500, 500);

    let low_quality = encode_image(&low_img, ImageFormat::jpeg, 10).unwrap();
    let high_quality = encode_image(&high_img, ImageFormat::jpeg, 95).unwrap();

    assert!(
        high_quality.len() > low_quality.len(),
        "Higher quality JPEG should produce larger file. Low: {} bytes, High: {} bytes",
        low_quality.len(),
        high_quality.len()
    );
}

#[test]
fn test_quality_affects_webp_size() {
    // For solid colors WebP is efficient enough that quality may not
    // change the size much; both qualities must still produce output
    let img = rgb(500, 500);

    let low_quality = encode_image(&img, ImageFormat::webp, 10).unwrap();
    let high_quality = encode_image(&img, ImageFormat::webp, 95).unwrap();

    assert!(low_quality.len() > 0, "Low quality WebP should produce output");
    assert!(high_quality.len() > 0, "High quality WebP should produce output");
}

#[test]
fn test_quality_clamping_jpeg() {
    let img = rgb(100, 100);

    // Quality 0 is clamped to 1
    let result = encode_image(&img, ImageFormat::jpeg, 0);
    assert!(result.is_ok(), "Should clamp quality 0 to valid range");

    // Quality 101 is clamped to 100
    let result = encode_image(&img, ImageFormat::jpeg, 101);
    assert!(result.is_ok(), "Should clamp quality 101 to valid range");
}

#[test]
fn test_quality_clamp_values() {
    assert_eq!(clamp_quality(0), 1);
    assert_eq!(clamp_quality(1), 1);
    assert_eq!(clamp_quality(100), 100);
    assert_eq!(clamp_quality(101), 100);
    assert_eq!(clamp_quality(255), 100);
    assert_eq!(clamp_quality(80), 80);
}

#[test]
fn resize_and_encode_jpeg() {
    let img = rgb(800, 600);
    let resized = resize_image(img, Some(400), None).unwrap();

    assert_eq!(dims(&resized), (400, 300), "Resize should produce correct dimensions");

    let out = encode_image(&resized, ImageFormat::jpeg, 80).unwrap();
    assert!(out.len() > 0, "Encoded JPEG should have non-zero size");
}

#[test]
fn test_full_pipeline_webp() {
    // When both dimensions are given they are honored exactly, even at
    // the cost of distortion
    let img = rgb(1920, 1080);

    let resized = resize_image(img, Some(640), Some(480)).unwrap();
    assert_eq!(dims(&resized), (640, 480));

    let encoded = encode_image(&resized, ImageFormat::webp, 85).unwrap();
    assert!(encoded.len() > 0);

    let (decoded, format) = decode_image(&encoded).unwrap();
    assert_eq!(dims(&decoded), (640, 480));
    assert_eq!(format, Some(ImageFormat::webp));
}

#[test]
fn test_full_pipeline_avif() {
    let img = rgb(800, 600);

    let resized = resize_image(img, Some(400), None).unwrap();
    assert_eq!(dims(&resized), (400, 300));

    let encoded = encode_image(&resized, ImageFormat::avif, 80).unwrap();
    assert!(encoded.len() > 0);
}

#[test]
fn test_resize_reduces_size() {
    let original = rgb(1000, 1000);
    let original_encoded = encode_image(&original, ImageFormat::jpeg, 80).unwrap();

    let resized = resize_image(rgb(1000, 1000), Some(100), Some(100)).unwrap();
    let resized_encoded = encode_image(&resized, ImageFormat::jpeg, 80).unwrap();

    assert!(
        resized_encoded.len() < original_encoded.len(),
        "Resized image should produce smaller file. Original: {} bytes, Resized: {} bytes",
        original_encoded.len(),
        resized_encoded.len()
    );
}

#[test]
fn test_webp_round_trip_detects_format() {
    let img = rgb(40, 30);
    for q in [0u8, 1, 50, 100, 101] {
        let (decoded, format) = webp_round_trip(&img, q).unwrap();
        assert_eq!(format, Some(ImageFormat::webp));
        assert_eq!(dims(&decoded), (40, 30));
    }
}

#[test]
fn test_jpeg_magic_detected() {
    let img = rgb(16, 16);
    let jpeg = encode_image(&img, ImageFormat::jpeg, 50).unwrap();
    let (_, format) = decode_image(&jpeg).unwrap();
    assert_eq!(format, Some(ImageFormat::jpeg));
}

#[test]
fn test_png_detected_as_none() {
    // a decodable format outside the output set is reported as None
    let img = image::DynamicImage::new_rgb8(8, 8);
    let mut png = Vec::new();
    img.write_to(&mut std::io::Cursor::new(&mut png), image::ImageFormat::Png).unwrap();
    let (_, format) = decode_image(&png).unwrap();
    assert_eq!(format, None);
}

#[test]
fn test_rounding_half_away_from_zero() {
    // 1000 * 333 / 1000 = 333 exactly; 3x2 scaled to width 2 gives
    // height round(2*2/3) = round(1.33) = 1
    let img = rgb(3, 2);
    let resized = resize_image(img, Some(2), None).unwrap();
    assert_eq!(dims(&resized), (2, 1));
    // 3x2 to width 5: round(2*5/3) = round(3.33) = 3
    let resized2 = resize_image(rgb(3, 2), Some(5), None).unwrap();
    assert_eq!(dims(&resized2), (5, 3));
}

#[test]
fn test_scaled_dimension_clamps_to_one() {
    // 800x600 to width 1: round(600/800) = 1 after the minimum clamp
    let img = rgb(800, 600);
    let resized = resize_image(img, Some(1), None).unwrap();
    assert_eq!(dims(&resized), (1, 1));
}
