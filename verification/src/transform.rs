//! The transformation pipeline: decode with format detection, aspect-
//! ratio-aware resize, and quality-controlled re-encode. The pixel work
//! is the codecs'; every decision around it — detected formats, target
//! dimensions, quality clamping, failure conditions — is specified here.
use vstd::prelude::*;
use crate::config::ImageFormat;
use crate::errors::ImageKitError;

verus! {

/// A decoded image: the codec's pixel buffer together with its
/// dimensions as plain values, which is what the resize planning reads.
pub struct Image {
    inner: image::DynamicImage,
    width: u32,
    height: u32,
}

#[verifier::external_type_specification]
#[verifier::external_body]
pub struct ExDynamicImage(image::DynamicImage);

impl Image {
    /// The width recorded for this image.
    pub closed spec fn spec_width(self) -> u32 {
        self.width
    }

    /// The height recorded for this image.
    pub closed spec fn spec_height(self) -> u32 {
        self.height
    }

    /// The image's width in pixels.
    pub fn width(&self) -> (r: u32)
        ensures
            r == self.spec_width(),
    {
        self.width
    }

    /// The image's height in pixels.
    pub fn height(&self) -> (r: u32)
        ensures
            r == self.spec_height(),
    {
        self.height
    }

    /// Relies on `GenericImageView::dimensions`: wraps a codec image,
    /// recording its actual dimensions.
    #[verifier::external_body]
    pub fn from_dynamic(inner: image::DynamicImage) -> Image {
        let (width, height) = image::GenericImageView::dimensions(&inner);
        Image { inner, width, height }
    }
}

/// Whether a byte sequence opens with the WebP container magic: `RIFF`,
/// four free bytes, `WEBP`.
pub open spec fn spec_webp_magic(b: Seq<u8>) -> bool {
    b.len() >= 12 && b.subrange(0, 4) == seq![82u8, 73u8, 70u8, 70u8] && b.subrange(8, 12)
        == seq![87u8, 69u8, 66u8, 80u8]
}

/// Whether a byte sequence opens with the JPEG start-of-image marker.
pub open spec fn spec_jpeg_magic(b: Seq<u8>) -> bool {
    b.len() >= 3 && b[0] == 0xffu8 && b[1] == 0xd8u8 && b[2] == 0xffu8
}

/// Whether a byte sequence opens like an AVIF file: a box length whose
/// two high bytes are zero, then `ftypavif`; the third-and-fourth-byte
/// exclusion keeps icon files, matched earlier by the detector, apart.
pub open spec fn spec_avif_magic(b: Seq<u8>) -> bool {
    b.len() >= 12 && b[0] == 0u8 && b[1] == 0u8 && !(b[2] == 1u8 && b[3] == 0u8) && b.subrange(
        4,
        12,
    ) == seq![102u8, 116u8, 121u8, 112u8, 97u8, 118u8, 105u8, 102u8]
}

/// The decoder's verdict on a byte sequence: `None` when format
/// detection or decoding rejects it, otherwise the decoded image's
/// width and height. Detection and decoding read nothing but the bytes,
/// so the verdict is a function of them alone; it is named, not written
/// out.
pub uninterp spec fn spec_decoded_dims(b: Seq<u8>) -> Option<(u32, u32)>;

/// Relies on image's `guess_format` and `load_from_memory_with_format`:
/// together they succeed exactly on the byte sequences the named verdict
/// accepts, yielding an image of the verdict's dimensions; the detected
/// format is a function of the leading bytes — the listed magic
/// predicates mirror the detector's signature table.
#[verifier::external_body]
fn decode_dynamic(bytes: &[u8]) -> (r: Result<(Image, Option<ImageFormat>), String>)
    ensures
        r is Ok <==> spec_decoded_dims(bytes@) is Some,
        match r {
            Result::Ok(p) => {
                &&& spec_decoded_dims(bytes@) == Option::Some(
                    (p.0.spec_width(), p.0.spec_height()),
                )
                &&& (p.1 == Option::Some(ImageFormat::webp) <==> spec_webp_magic(bytes@))
                &&& (p.1 == Option::Some(ImageFormat::jpeg) <==> spec_jpeg_magic(bytes@))
                &&& (p.1 == Option::Some(ImageFormat::avif) <==> spec_avif_magic(bytes@))
            },
            Result::Err(_) => true,
        },
{
    let guessed = image::guess_format(bytes).map_err(|e| e.to_string())?;
    let img = image::load_from_memory_with_format(bytes, guessed).map_err(|e| e.to_string())?;
    let fmt = match guessed {
        image::ImageFormat::WebP => Some(ImageFormat::webp),
        image::ImageFormat::Jpeg => Some(ImageFormat::jpeg),
        image::ImageFormat::Avif => Some(ImageFormat::avif),
        _ => None,
    };
    Ok((Image::from_dynamic(img), fmt))
}

/// Decodes raw image bytes, detecting the source format from the
/// leading bytes. Succeeds exactly when the decoder's verdict accepts
/// the bytes, and then returns the verdict's dimensions. The detected
/// format is reported only when it is one of the three output formats;
/// other decodable sources yield `None` and still decode.
pub fn decode_image(bytes: &Vec<u8>) -> (r: Result<(Image, Option<ImageFormat>), ImageKitError>)
    ensures
        r is Ok <==> spec_decoded_dims(bytes@) is Some,
        match r {
            Result::Ok(p) => {
                &&& spec_decoded_dims(bytes@) == Option::Some(
                    (p.0.spec_width(), p.0.spec_height()),
                )
                &&& (p.1 == Option::Some(ImageFormat::webp) <==> spec_webp_magic(bytes@))
                &&& (p.1 == Option::Some(ImageFormat::jpeg) <==> spec_jpeg_magic(bytes@))
                &&& (p.1 == Option::Some(ImageFormat::avif) <==> spec_avif_magic(bytes@))
            },
            Result::Err(e) => e is TransformError,
        },
{
    match decode_dynamic(bytes.as_slice()) {
        Result::Ok(p) => Result::Ok(p),
        Result::Err(e) => Result::Err(ImageKitError::TransformError(e)),
    }
}

/// The largest pixel count a resize target may have; past this, the
/// output buffer's byte length could overflow the address arithmetic of
/// a supported machine, which the codec library treats as fatal.
pub const MAX_TARGET_PIXELS: u64 = 268435456;

/// Relies on `DynamicImage::resize_exact`: the result has exactly the
/// requested dimensions. The pixel-count bound keeps the output
/// buffer's byte length representable, so allocation arithmetic cannot
/// overflow.
#[verifier::external_body]
fn resize_dynamic(img: &Image, w: u32, h: u32) -> (r: Image)
    requires
        w >= 1,
        h >= 1,
        w as int * h as int <= MAX_TARGET_PIXELS as int,
    ensures
        r.spec_width() == w,
        r.spec_height() == h,
{
    let resized = img.inner.resize_exact(w, h, image::imageops::FilterType::Lanczos3);
    Image { inner: resized, width: w, height: h }
}

/// Whether a planned pixel count exceeds the output-buffer bound.
fn target_too_large(w: u32, h: u32) -> (r: bool)
    ensures
        r == (w as int * h as int > MAX_TARGET_PIXELS as int),
{
    proof {
        assert((w as int) * (h as int) <= 0xffffffff * 0xffffffff) by (nonlinear_arith)
            requires
                0 <= w as int <= 0xffffffff,
                0 <= h as int <= 0xffffffff,
        ;
    }
    let p: u64 = (w as u64) * (h as u64);
    p > MAX_TARGET_PIXELS
}

/// Rounding division to the nearest integer, halves away from zero.
pub open spec fn spec_round_div(a: int, b: int) -> int {
    (2 * a + b) / (2 * b)
}

/// A computed dimension, clamped to at least one pixel and to the pixel
/// coordinate range.
pub open spec fn spec_clamp_dim(x: int) -> int {
    if x < 1 {
        1
    } else if x > 0xffffffff {
        0xffffffff
    } else {
        x
    }
}

/// The output dimensions of a resize: both absent leaves the image
/// untouched; both present are honored exactly (no aspect correction,
/// clamped to one pixel); one present scales the other proportionally,
/// rounded to the nearest pixel and clamped to one.
pub open spec fn spec_target_dims(ow: int, oh: int, w: Option<u32>, h: Option<u32>) -> (int, int) {
    match (w, h) {
        (Option::None, Option::None) => (ow, oh),
        (Option::Some(tw), Option::Some(th)) => (spec_clamp_dim(tw as int), spec_clamp_dim(
            th as int,
        )),
        (Option::Some(tw), Option::None) => (spec_clamp_dim(tw as int), spec_clamp_dim(
            spec_round_div(oh * (tw as int), ow),
        )),
        (Option::None, Option::Some(th)) => (spec_clamp_dim(
            spec_round_div(ow * (th as int), oh),
        ), spec_clamp_dim(th as int)),
    }
}

/// Computes a proportionally scaled dimension: `other * target / base`,
/// rounded to the nearest pixel, clamped to at least one.
fn scaled_dim(other: u32, target: u32, base: u32) -> (r: u32)
    requires
        base >= 1,
    ensures
        r as int == spec_clamp_dim(spec_round_div((other as int) * (target as int), base as int)),
{
    proof {
        assert((other as int) * (target as int) <= 0xffffffff * 0xffffffff) by (nonlinear_arith)
            requires
                0 <= other as int <= 0xffffffff,
                0 <= target as int <= 0xffffffff,
        ;
    }
    let ot: u128 = (other as u128) * (target as u128);
    let num: u128 = 2u128 * ot + (base as u128);
    let den: u128 = 2u128 * (base as u128);
    let q: u128 = num / den;
    proof {
        assert(q as int == spec_round_div((other as int) * (target as int), base as int)) by (
        nonlinear_arith)
            requires
                q == num / den,
                ot as int == (other as int) * (target as int),
                num as int == 2 * (ot as int) + (base as int),
                den as int == 2 * (base as int),
                base as int >= 1,
        ;
        assert(q as int >= 0);
    }
    if q < 1 {
        1
    } else if q > 0xffffffffu128 {
        0xffffffff
    } else {
        q as u32
    }
}

/// Resizes an image. Both dimensions absent is a no-op returning the
/// image unchanged; exactly one given preserves the aspect ratio; both
/// given are honored exactly, possibly distorting. Fails only when the
/// target pixel count exceeds what an output buffer can hold.
pub fn resize_image(img: Image, w: Option<u32>, h: Option<u32>) -> (r: Result<
    Image,
    ImageKitError,
>)
    requires
        img.spec_width() >= 1,
        img.spec_height() >= 1,
    ensures
        ({
            let target = spec_target_dims(
                img.spec_width() as int,
                img.spec_height() as int,
                w,
                h,
            );
            &&& (r is Ok <==> ((w is None && h is None) || target.0 * target.1
                <= MAX_TARGET_PIXELS as int))
            &&& match r {
                Result::Ok(out) => {
                    &&& (out.spec_width() as int, out.spec_height() as int) == target
                    &&& (w is None && h is None ==> out == img)
                },
                Result::Err(e) => e is TransformError,
            }
        }),
{
    match (w, h) {
        (Option::None, Option::None) => Result::Ok(img),
        (Option::Some(tw), Option::Some(th)) => {
            let cw: u32 = if tw < 1 {
                1
            } else {
                tw
            };
            let ch: u32 = if th < 1 {
                1
            } else {
                th
            };
            if target_too_large(cw, ch) {
                return Result::Err(
                    ImageKitError::TransformError(String::from_str("resize target too large")),
                );
            }
            Result::Ok(resize_dynamic(&img, cw, ch))
        },
        (Option::Some(tw), Option::None) => {
            let ch = scaled_dim(img.height(), tw, img.width());
            let cw: u32 = if tw < 1 {
                1
            } else {
                tw
            };
            if target_too_large(cw, ch) {
                return Result::Err(
                    ImageKitError::TransformError(String::from_str("resize target too large")),
                );
            }
            Result::Ok(resize_dynamic(&img, cw, ch))
        },
        (Option::None, Option::Some(th)) => {
            let cw = scaled_dim(img.width(), th, img.height());
            let ch: u32 = if th < 1 {
                1
            } else {
                th
            };
            if target_too_large(cw, ch) {
                return Result::Err(
                    ImageKitError::TransformError(String::from_str("resize target too large")),
                );
            }
            Result::Ok(resize_dynamic(&img, cw, ch))
        },
    }
}

/// The quality actually used by the encoders: the requested one clamped
/// into `1..=100`.
pub open spec fn spec_clamp_quality(q: u8) -> u8 {
    if q < 1 {
        1
    } else if q > 100 {
        100
    } else {
        q
    }
}

/// Clamps a requested quality into the valid `1..=100` range.
pub fn clamp_quality(q: u8) -> (r: u8)
    ensures
        r == spec_clamp_quality(q),
        1 <= r <= 100,
{
    if q < 1 {
        1
    } else if q > 100 {
        100
    } else {
        q
    }
}

/// Quality clamping: a quality of zero behaves exactly as one, and any
/// quality above one hundred exactly as one hundred, so an out-of-range
/// quality never causes a failure — the encoders only ever see the
/// clamped value.
pub proof fn lemma_quality_clamping()
    ensures
        spec_clamp_quality(0) == spec_clamp_quality(1),
        spec_clamp_quality(101) == spec_clamp_quality(100),
        forall|q: u8| 1 <= #[trigger] spec_clamp_quality(q) <= 100,
{
}

/// Relies on image's `JpegEncoder` with explicit quality: baseline JPEG
/// output opens with the start-of-image marker, and encoding fails only
/// for dimensions outside JPEG's `1..=65535` range.
#[verifier::external_body]
fn encode_jpeg_dynamic(img: &Image, quality: u8) -> (r: Result<Vec<u8>, String>)
    requires
        1 <= quality <= 100,
    ensures
        1 <= img.spec_width() <= 65535 && 1 <= img.spec_height() <= 65535 ==> r is Ok,
        match r {
            Result::Ok(v) => spec_jpeg_magic(v@),
            Result::Err(_) => true,
        },
{
    let mut out = Vec::new();
    let rgb = img.inner.to_rgb8();
    let (w, h) = rgb.dimensions();
    let enc = image::codecs::jpeg::JpegEncoder::new_with_quality(&mut out, quality);
    image::ImageEncoder::write_image(enc, rgb.as_raw(), w, h, image::ExtendedColorType::Rgb8)
        .map_err(|e| e.to_string())?;
    Ok(out)
}

/// Relies on the webp crate's `Encoder::from_rgb`/`encode_simple`:
/// lossy encoding at the given quality; on success the output is a WebP
/// container, opening `RIFF…WEBP`. The codec itself may refuse an image
/// — a coefficient partition can overflow the format's cap even within
/// the dimension range — so success is not promised; its error is
/// surfaced, never unwrapped.
#[verifier::external_body]
fn encode_webp_dynamic(img: &Image, quality: u8) -> (r: Result<Vec<u8>, String>)
    requires
        1 <= quality <= 100,
        1 <= img.spec_width() <= 16383,
        1 <= img.spec_height() <= 16383,
    ensures
        r matches Ok(v) ==> spec_webp_magic(v@),
{
    let rgb = img.inner.to_rgb8();
    let (w, h) = rgb.dimensions();
    let encoder = webp::Encoder::from_rgb(rgb.as_raw(), w, h);
    let encoded = encoder.encode_simple(false, quality.into()).map_err(|e| format!("{:?}", e))?;
    Ok(encoded.to_vec())
}

/// Relies on image's `AvifEncoder` at speed 4: alpha-preserving AVIF
/// encoding of a four-channel buffer.
#[verifier::external_body]
fn encode_avif_dynamic(img: &Image, quality: u8) -> (r: Result<Vec<u8>, String>)
    requires
        1 <= quality <= 100,
        img.spec_width() >= 1,
        img.spec_height() >= 1,
    ensures
        match r {
            Result::Ok(v) => v@.len() > 0,
            Result::Err(_) => true,
        },
{
    let mut out = Vec::new();
    let rgba = img.inner.to_rgba8();
    let (w, h) = rgba.dimensions();
    let enc = image::codecs::avif::AvifEncoder::new_with_speed_quality(&mut out, 4, quality);
    image::ImageEncoder::write_image(enc, rgba.as_raw(), w, h, image::ExtendedColorType::Rgba8)
        .map_err(|e| e.to_string())?;
    Ok(out)
}

/// Encodes an image in the requested format. The quality is clamped
/// into `1..=100` before it reaches any encoder, so out-of-range
/// qualities cannot cause a failure; the only failures are dimensions a
/// format cannot represent, or a codec error, surfaced as a
/// transformation error.
pub fn encode_image(img: &Image, fmt: ImageFormat, quality: u8) -> (r: Result<
    Vec<u8>,
    ImageKitError,
>)
    requires
        img.spec_width() >= 1,
        img.spec_height() >= 1,
    ensures
        match r {
            Result::Ok(v) => {
                &&& (fmt == ImageFormat::webp ==> spec_webp_magic(v@))
                &&& (fmt == ImageFormat::jpeg ==> spec_jpeg_magic(v@))
                &&& v@.len() > 0
            },
            Result::Err(e) => e is TransformError,
        },
        fmt == ImageFormat::webp && (img.spec_width() > 16383 || img.spec_height() > 16383)
            ==> r is Err,
        fmt == ImageFormat::jpeg && img.spec_width() <= 65535 && img.spec_height() <= 65535
            ==> r is Ok,
{
    let q = clamp_quality(quality);
    match fmt {
        ImageFormat::jpeg => {
            match encode_jpeg_dynamic(img, q) {
                Result::Ok(v) => Result::Ok(v),
                Result::Err(e) => Result::Err(ImageKitError::TransformError(e)),
            }
        },
        ImageFormat::webp => {
            if img.width() <= 16383 && img.height() <= 16383 {
                match encode_webp_dynamic(img, q) {
                    Result::Ok(v) => Result::Ok(v),
                    Result::Err(e) => Result::Err(ImageKitError::TransformError(e)),
                }
            } else {
                Result::Err(
                    ImageKitError::TransformError(
                        String::from_str("image too large for WebP encoding"),
                    ),
                )
            }
        },
        ImageFormat::avif => {
            match encode_avif_dynamic(img, q) {
                Result::Ok(v) => Result::Ok(v),
                Result::Err(e) => Result::Err(ImageKitError::TransformError(e)),
            }
        },
    }
}

/// Round trip, format half: encoding to WebP and decoding the result
/// detects the WebP format — the encoder emits the container magic the
/// detector keys on. (That the pixel dimensions survive the trip is a
/// property of the codec itself, exercised by test.)
pub fn webp_round_trip(img: &Image, quality: u8) -> (r: Result<
    (Image, Option<ImageFormat>),
    ImageKitError,
>)
    requires
        1 <= img.spec_width() <= 16383,
        1 <= img.spec_height() <= 16383,
    ensures
        match r {
            Result::Ok(p) => p.1 == Option::Some(ImageFormat::webp),
            Result::Err(e) => e is TransformError,
        },
{
    let encoded = match encode_image(img, ImageFormat::webp, quality) {
        Result::Ok(v) => v,
        Result::Err(e) => {
            return Result::Err(e);
        },
    };
    decode_image(&encoded)
}

} // verus!
