//! Middleware building blocks of the request path: the security
//! headers stamped on every response, and the per-process rate-limit
//! configuration. The transport layer owns the service plumbing and
//! calls in here for the decisions and values.

use vstd::prelude::*;

verus! {

/// Length of the rate window, in milliseconds.
pub const RATE_LIMIT_WINDOW_MS: u64 = 60000;

/// Requests permitted per client identity within one window.
pub const MAX_REQUESTS_PER_WINDOW: u32 = 60;

/// Marks the middleware that stamps security headers on responses; the
/// transport crate's service plumbing around it lives with the binary.
#[derive(Clone, Copy, Debug, Default)]
pub struct SecurityHeadersLayer;

/// The security-headers middleware wrapped around an inner service.
#[derive(Clone, Copy, Debug)]
pub struct SecurityHeadersService<S> {
    pub inner: S,
}

/// The header name/value pairs added to every response.
pub fn security_headers() -> (headers: Vec<(&'static str, &'static str)>)
    ensures
        headers@.len() == 2,
        headers@[0].0@ == "X-Content-Type-Options"@,
        headers@[0].1@ == "nosniff"@,
        headers@[1].0@ == "Strict-Transport-Security"@,
        headers@[1].1@ == "max-age=31536000; includeSubDomains"@,
{
    let mut headers: Vec<(&'static str, &'static str)> = Vec::new();
    headers.push(("X-Content-Type-Options", "nosniff"));
    headers.push(("Strict-Transport-Security", "max-age=31536000; includeSubDomains"));
    headers
}

} // verus!
