//! Service configuration: supported output formats, default settings, and
//! validation of the security-critical fields.
use vstd::prelude::*;
use crate::errors::ConfigError;
use crate::text::spec_is_blank;
use crate::text::is_blank;

verus! {

/// Supported output image formats for transformations.
///
/// Format selection impacts both file size and encoding performance:
/// JPEG encodes fastest, WebP compresses better, AVIF compresses best but
/// encodes slowest.
#[allow(non_camel_case_types)]
#[derive(Debug, Clone, Copy, PartialEq, Eq, Structural)]
pub enum ImageFormat {
    jpeg,
    webp,
    avif,
}

/// The lowercase name of a format, as it appears in query parameters and
/// file extensions.
pub open spec fn spec_format_name(f: ImageFormat) -> Seq<char> {
    match f {
        ImageFormat::jpeg => "jpeg"@,
        ImageFormat::webp => "webp"@,
        ImageFormat::avif => "avif"@,
    }
}

impl ImageFormat {
    /// The lowercase name of the format.
    pub fn name(&self) -> (r: String)
        ensures
            r@ == spec_format_name(*self),
    {
        match self {
            ImageFormat::jpeg => String::from_str("jpeg"),
            ImageFormat::webp => String::from_str("webp"),
            ImageFormat::avif => String::from_str("avif"),
        }
    }
}

/// Default quality setting balancing file size and visual fidelity.
pub const DEFAULT_QUALITY: u8 = 80;

/// Minimum quality threshold to prevent excessive compression artifacts.
pub const MIN_QUALITY: u8 = 1;

/// Maximum quality setting for near-lossless encoding.
pub const MAX_QUALITY: u8 = 100;

/// Aggressive browser cache directive for transformed images. A one-year
/// max-age is safe because transformation parameters act as natural cache
/// busters.
pub const DEFAULT_CACHE_CONTROL: &'static str = "public, max-age=31536000, immutable";

/// Cache bypass directive for dynamic or user-specific content.
pub const NO_CACHE_CONTROL: &'static str = "no-store";

/// Core configuration for the transformation service: the signing secret,
/// cache location and bound, input size limit, and format policy.
#[derive(Debug, Clone)]
pub struct ImageKitConfig {
    /// HMAC secret for URL signature verification.
    pub secret: String,
    /// Filesystem path for persistent cache storage.
    pub cache_dir: String,
    /// Maximum input image size in bytes, to prevent memory exhaustion.
    pub max_input_size: usize,
    /// Maximum cache size in bytes before eviction begins; `None` allows
    /// unbounded growth.
    pub max_cache_size: Option<u64>,
    /// Permitted output formats for transformations.
    pub allowed_formats: Vec<ImageFormat>,
    /// Default format when the client does not specify one.
    pub default_format: Option<ImageFormat>,
}

impl Default for ImageKitConfig {
    /// The development-friendly default configuration: an empty secret
    /// (which fails validation until set), an 8 MiB input cap, and a
    /// 10 GiB cache bound.
    fn default() -> (r: Self)
        ensures
            r.secret@ == Seq::<char>::empty(),
            r.cache_dir@ == "./cache"@,
            r.max_input_size == 8 * 1024 * 1024,
            r.max_cache_size == Option::<u64>::Some(10737418240u64),
            r.allowed_formats@ == seq![ImageFormat::jpeg, ImageFormat::webp, ImageFormat::avif],
            r.default_format == Option::Some(ImageFormat::webp),
    {
        let mut formats: Vec<ImageFormat> = Vec::new();
        formats.push(ImageFormat::jpeg);
        formats.push(ImageFormat::webp);
        formats.push(ImageFormat::avif);
        proof {
            assert(formats@ =~= seq![ImageFormat::jpeg, ImageFormat::webp, ImageFormat::avif]);
        }
        ImageKitConfig {
            secret: String::new(),
            cache_dir: String::from_str("./cache"),
            max_input_size: 8 * 1024 * 1024,
            max_cache_size: Option::Some(10 * 1024 * 1024 * 1024),
            allowed_formats: formats,
            default_format: Option::Some(ImageFormat::webp),
        }
    }
}

impl ImageKitConfig {
    /// Validates the configuration for production readiness: the secret
    /// must not be blank and the input size limit must be positive.
    /// Succeeds exactly when both hold.
    pub fn validate(&self) -> (r: Result<(), ConfigError>)
        ensures
            r is Ok <==> (!spec_is_blank(self.secret@) && self.max_input_size > 0),
            r == Result::<(), ConfigError>::Err(ConfigError::EmptySecret) <==> spec_is_blank(
                self.secret@,
            ),
            r == Result::<(), ConfigError>::Err(ConfigError::InvalidMaxInput) <==> (
            !spec_is_blank(self.secret@) && self.max_input_size == 0),
    {
        if is_blank(self.secret.as_str()) {
            return Result::Err(ConfigError::EmptySecret);
        }
        if self.max_input_size == 0 {
            return Result::Err(ConfigError::InvalidMaxInput);
        }
        Result::Ok(())
    }
}

} // verus!
