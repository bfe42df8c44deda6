//! Core of an on-demand image transformation service: signed-request
//! verification, canonical parameter handling, content-addressed cache keys,
//! a size-bounded cache store with least-recently-used eviction, fetch
//! validation, and the decode/resize/encode pipeline.
pub mod cache;
pub mod canonical;
pub mod cloudflare;
pub mod config;
pub mod crypto;
pub mod errors;
pub mod fetch;
pub mod params;
pub mod service;
pub mod signature;
pub mod sled_cache;
pub mod text;
pub mod transform;

pub use errors::ImageKitError;
pub use errors::SignatureError;
pub use errors::ConfigError;
pub use service::ImageQuery;
pub use service::SignQuery;
pub use service::SignResponse;
pub use service::Metrics;
