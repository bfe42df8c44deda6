//! CDN-compatible HTTP caching directives: configuration presets and
//! RFC 7234 `Cache-Control` / `CDN-Cache-Control` header rendering.
use vstd::prelude::*;
use crate::text::spec_dec;
use crate::text::append_dec_u64;

verus! {

/// Configuration for CDN-compatible HTTP caching directives, supporting
/// separate edge and browser TTLs and stale content policies.
#[derive(Clone, Debug)]
pub struct CloudflareCacheConfig {
    /// CDN edge cache time-to-live in seconds (the `s-maxage` directive).
    pub edge_max_age: u32,
    /// Browser cache time-to-live in seconds (the `max-age` directive).
    pub browser_max_age: u32,
    /// Enable public caching by intermediaries.
    pub public: bool,
    /// Serve stale content for this long when the origin is unreachable
    /// (`stale-if-error`).
    pub stale_if_error: Option<u32>,
    /// Serve stale content while revalidating in the background
    /// (`stale-while-revalidate`).
    pub stale_while_revalidate: Option<u32>,
    /// Mark content as immutable for its cache lifetime.
    pub immutable: bool,
}

/// The rendering of an optional directive with a numeric argument:
/// nothing when absent, `<prefix><n>` when present.
pub open spec fn spec_opt_directive(prefix: Seq<char>, v: Option<u32>) -> Seq<char> {
    match v {
        Option::Some(n) => prefix + spec_dec(n as int),
        Option::None => Seq::<char>::empty(),
    }
}

/// The full `Cache-Control` header value for a configuration: a bypass
/// directive when the edge TTL is zero, otherwise the comma-joined
/// directives in a fixed order.
pub open spec fn spec_cache_control(c: CloudflareCacheConfig) -> Seq<char> {
    if c.edge_max_age == 0 {
        "no-store, no-cache, must-revalidate"@
    } else {
        (if c.public {
            "public"@
        } else {
            "private"@
        }) + ", max-age="@ + spec_dec(c.browser_max_age as int) + ", s-maxage="@ + spec_dec(
            c.edge_max_age as int,
        ) + (if c.immutable {
            ", immutable"@
        } else {
            Seq::<char>::empty()
        }) + spec_opt_directive(", stale-if-error="@, c.stale_if_error) + spec_opt_directive(
            ", stale-while-revalidate="@,
            c.stale_while_revalidate,
        )
    }
}

/// The `CDN-Cache-Control` header value: `no-store` when the edge TTL is
/// zero, otherwise `max-age=<edge TTL>`.
pub open spec fn spec_cdn_cache_control(c: CloudflareCacheConfig) -> Seq<char> {
    if c.edge_max_age == 0 {
        "no-store"@
    } else {
        "max-age="@ + spec_dec(c.edge_max_age as int)
    }
}

impl Default for CloudflareCacheConfig {
    /// Defaults tuned for transformed image assets: one day at the edge,
    /// one year in browsers, public, immutable, with stale fallbacks.
    fn default() -> (r: Self)
        ensures
            r.edge_max_age == 86400,
            r.browser_max_age == 31536000,
            r.public == true,
            r.stale_if_error == Option::<u32>::Some(86400),
            r.stale_while_revalidate == Option::<u32>::Some(60),
            r.immutable == true,
    {
        CloudflareCacheConfig {
            edge_max_age: 86400,
            browser_max_age: 31536000,
            public: true,
            stale_if_error: Option::Some(86400),
            stale_while_revalidate: Option::Some(60),
            immutable: true,
        }
    }
}

impl CloudflareCacheConfig {
    /// The configuration for transformed image assets; transformation
    /// parameters act as cache busters, so aggressive caching is safe.
    pub fn for_images() -> (r: Self)
        ensures
            r.edge_max_age == 86400,
            r.browser_max_age == 31536000,
            r.public == true,
            r.stale_if_error == Option::<u32>::Some(86400),
            r.stale_while_revalidate == Option::<u32>::Some(60),
            r.immutable == true,
    {
        Self::default()
    }

    /// A configuration for short-lived dynamic content, with the given TTL
    /// for both edge and browser caches.
    pub fn for_dynamic(ttl_seconds: u32) -> (r: Self)
        requires
            ttl_seconds <= u32::MAX / 2,
        ensures
            r.edge_max_age == ttl_seconds,
            r.browser_max_age == ttl_seconds,
            r.public == true,
            r.stale_if_error == Option::<u32>::Some((ttl_seconds * 2) as u32),
            r.stale_while_revalidate == Option::<u32>::Some(60),
            r.immutable == false,
    {
        CloudflareCacheConfig {
            edge_max_age: ttl_seconds,
            browser_max_age: ttl_seconds,
            public: true,
            stale_if_error: Option::Some(ttl_seconds * 2),
            stale_while_revalidate: Option::Some(60),
            immutable: false,
        }
    }

    /// A configuration that bypasses all caching layers, for sensitive or
    /// personalized content.
    pub fn no_cache() -> (r: Self)
        ensures
            r.edge_max_age == 0,
            r.browser_max_age == 0,
            r.public == false,
            r.stale_if_error is None,
            r.stale_while_revalidate is None,
            r.immutable == false,
    {
        CloudflareCacheConfig {
            edge_max_age: 0,
            browser_max_age: 0,
            public: false,
            stale_if_error: Option::None,
            stale_while_revalidate: Option::None,
            immutable: false,
        }
    }

    /// Renders the RFC 7234 `Cache-Control` header value for this
    /// configuration.
    pub fn cache_control_value(&self) -> (r: String)
        ensures
            r@ == spec_cache_control(*self),
    {
        if self.edge_max_age == 0 {
            return String::from_str("no-store, no-cache, must-revalidate");
        }
        let mut s: String;
        if self.public {
            s = String::from_str("public");
        } else {
            s = String::from_str("private");
        }
        s.append(", max-age=");
        append_dec_u64(&mut s, self.browser_max_age as u64);
        s.append(", s-maxage=");
        append_dec_u64(&mut s, self.edge_max_age as u64);
        if self.immutable {
            s.append(", immutable");
        }
        match &self.stale_if_error {
            Option::Some(n) => {
                s.append(", stale-if-error=");
                append_dec_u64(&mut s, *n as u64);
            },
            Option::None => {},
        }
        match &self.stale_while_revalidate {
            Option::Some(n) => {
                s.append(", stale-while-revalidate=");
                append_dec_u64(&mut s, *n as u64);
            },
            Option::None => {},
        }
        proof {
            assert(s@ =~= spec_cache_control(*self));
        }
        s
    }

    /// Renders the CDN-specific `CDN-Cache-Control` header value, which
    /// controls the edge independently of downstream caches.
    pub fn cdn_cache_control_value(&self) -> (r: String)
        ensures
            r@ == spec_cdn_cache_control(*self),
    {
        if self.edge_max_age == 0 {
            return String::from_str("no-store");
        }
        let mut s = String::from_str("max-age=");
        append_dec_u64(&mut s, self.edge_max_age as u64);
        proof {
            assert(s@ =~= spec_cdn_cache_control(*self));
        }
        s
    }
}

} // verus!
