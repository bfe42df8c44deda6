//! Error taxonomy of the service: signature failures, configuration
//! failures, and the terminal per-request error kinds.
use vstd::prelude::*;

verus! {

/// Signature verification errors.
///
/// These indicate authentication failures or expired request timestamps;
/// every verification failure is terminal for the request.
#[derive(Debug, Clone, Copy, PartialEq, Eq, Structural)]
pub enum SignatureError {
    Missing,
    Invalid,
    Expired,
}

/// Configuration validation errors, reported before service start.
#[derive(Debug, Clone, Copy, PartialEq, Eq, Structural)]
pub enum ConfigError {
    EmptySecret,
    InvalidMaxInput,
}

/// Terminal request errors. None of these is retried internally; each
/// carries a diagnostic message.
#[derive(Debug, Clone)]
pub enum ImageKitError {
    CacheError(String),
    TransformError(String),
    NetworkError(String),
    InvalidArgument(String),
    NotFound(String),
    Unauthorized(String),
    Expired(String),
    InternalError(String),
}

/// The HTTP status that a terminal error maps to: expired signatures are
/// distinguishable from other authorization failures so that clients know
/// to re-sign rather than give up.
pub open spec fn spec_status_code(e: ImageKitError) -> u16 {
    match e {
        ImageKitError::CacheError(_) => 500,
        ImageKitError::TransformError(_) => 400,
        ImageKitError::NetworkError(_) => 400,
        ImageKitError::InvalidArgument(_) => 400,
        ImageKitError::NotFound(_) => 404,
        ImageKitError::Unauthorized(_) => 401,
        ImageKitError::Expired(_) => 410,
        ImageKitError::InternalError(_) => 500,
    }
}

impl ImageKitError {
    /// The HTTP status code this error is reported with.
    pub fn status_code(&self) -> (r: u16)
        ensures
            r == spec_status_code(*self),
    {
        match self {
            ImageKitError::CacheError(_) => 500,
            ImageKitError::TransformError(_) => 400,
            ImageKitError::NetworkError(_) => 400,
            ImageKitError::InvalidArgument(_) => 400,
            ImageKitError::NotFound(_) => 404,
            ImageKitError::Unauthorized(_) => 401,
            ImageKitError::Expired(_) => 410,
            ImageKitError::InternalError(_) => 500,
        }
    }

    /// The diagnostic message carried by the error, prefixed with its kind.
    pub fn message(&self) -> (r: String)
        ensures
            r@ == spec_error_prefix(*self) + spec_error_detail(*self),
    {
        let mut s: String;
        match self {
            ImageKitError::CacheError(m) => {
                s = String::from_str("Cache error: ");
                s.append(m.as_str());
            },
            ImageKitError::TransformError(m) => {
                s = String::from_str("Transformation error: ");
                s.append(m.as_str());
            },
            ImageKitError::NetworkError(m) => {
                s = String::from_str("Network error: ");
                s.append(m.as_str());
            },
            ImageKitError::InvalidArgument(m) => {
                s = String::from_str("Invalid argument: ");
                s.append(m.as_str());
            },
            ImageKitError::NotFound(m) => {
                s = String::from_str("Not found: ");
                s.append(m.as_str());
            },
            ImageKitError::Unauthorized(m) => {
                s = String::from_str("Unauthorized: ");
                s.append(m.as_str());
            },
            ImageKitError::Expired(m) => {
                s = String::from_str("Expired: ");
                s.append(m.as_str());
            },
            ImageKitError::InternalError(m) => {
                s = String::from_str("Internal server error: ");
                s.append(m.as_str());
            },
        }
        s
    }
}

/// The fixed kind prefix of an error message.
pub open spec fn spec_error_prefix(e: ImageKitError) -> Seq<char> {
    match e {
        ImageKitError::CacheError(_) => "Cache error: "@,
        ImageKitError::TransformError(_) => "Transformation error: "@,
        ImageKitError::NetworkError(_) => "Network error: "@,
        ImageKitError::InvalidArgument(_) => "Invalid argument: "@,
        ImageKitError::NotFound(_) => "Not found: "@,
        ImageKitError::Unauthorized(_) => "Unauthorized: "@,
        ImageKitError::Expired(_) => "Expired: "@,
        ImageKitError::InternalError(_) => "Internal server error: "@,
    }
}

/// The free-form detail text of an error message.
pub open spec fn spec_error_detail(e: ImageKitError) -> Seq<char> {
    match e {
        ImageKitError::CacheError(m) => m@,
        ImageKitError::TransformError(m) => m@,
        ImageKitError::NetworkError(m) => m@,
        ImageKitError::InvalidArgument(m) => m@,
        ImageKitError::NotFound(m) => m@,
        ImageKitError::Unauthorized(m) => m@,
        ImageKitError::Expired(m) => m@,
        ImageKitError::InternalError(m) => m@,
    }
}

} // verus!
