//! The vetted list of HTTP header names that are already in canonical form.

use vstd::prelude::*;
use crate::text::{is_text, lit};

verus! {

/// `s` is one of the vetted, already-canonical header names.  The match is
/// exact-case: `ETag` is not canonical (`CanonicalHeaderKey` gives `Etag`).
pub open spec fn canonical_header(s: Seq<u8>) -> bool {
    s == lit("Accept")
        || s == lit("Accept-Charset")
        || s == lit("Accept-Encoding")
        || s == lit("Accept-Language")
        || s == lit("Authorization")
        || s == lit("Cache-Control")
        || s == lit("Content-Length")
        || s == lit("Content-Type")
        || s == lit("Cookie")
        || s == lit("Date")
        || s == lit("Etag")
        || s == lit("Expect")
        || s == lit("Expires")
        || s == lit("From")
        || s == lit("Host")
        || s == lit("If-Match")
        || s == lit("If-Modified-Since")
        || s == lit("If-None-Match")
        || s == lit("If-Range")
        || s == lit("If-Unmodified-Since")
        || s == lit("Keep-Alive")
        || s == lit("Last-Modified")
        || s == lit("Location")
        || s == lit("Origin")
        || s == lit("Pragma")
        || s == lit("Range")
        || s == lit("Referer")
        || s == lit("Retry-After")
        || s == lit("Server")
        || s == lit("Set-Cookie")
        || s == lit("Transfer-Encoding")
        || s == lit("User-Agent")
        || s == lit("Vary")
        || s == lit("Via")
        || s == lit("Warning")
        || s == lit("Www-Authenticate")
        || s == lit("X-Forwarded-For")
        || s == lit("X-Forwarded-Host")
        || s == lit("X-Forwarded-Proto")
        || s == lit("X-Request-Id")
        || s == lit("X-Csrf-Token")
}

/// Whether `s` is one of the vetted, already-canonical header names.
pub fn is_canonical_header(s: &str) -> (r: bool)
    ensures
        r == canonical_header(lit(s)),
{
    canonical_header_bytes(s.as_bytes())
}

/// Whether the bytes `s` spell one of the vetted header names.
pub fn canonical_header_bytes(s: &[u8]) -> (r: bool)
    ensures
        r == canonical_header(s@),
{
    is_text(s, "Accept")
        || is_text(s, "Accept-Charset")
        || is_text(s, "Accept-Encoding")
        || is_text(s, "Accept-Language")
        || is_text(s, "Authorization")
        || is_text(s, "Cache-Control")
        || is_text(s, "Content-Length")
        || is_text(s, "Content-Type")
        || is_text(s, "Cookie")
        || is_text(s, "Date")
        || is_text(s, "Etag")
        || is_text(s, "Expect")
        || is_text(s, "Expires")
        || is_text(s, "From")
        || is_text(s, "Host")
        || is_text(s, "If-Match")
        || is_text(s, "If-Modified-Since")
        || is_text(s, "If-None-Match")
        || is_text(s, "If-Range")
        || is_text(s, "If-Unmodified-Since")
        || is_text(s, "Keep-Alive")
        || is_text(s, "Last-Modified")
        || is_text(s, "Location")
        || is_text(s, "Origin")
        || is_text(s, "Pragma")
        || is_text(s, "Range")
        || is_text(s, "Referer")
        || is_text(s, "Retry-After")
        || is_text(s, "Server")
        || is_text(s, "Set-Cookie")
        || is_text(s, "Transfer-Encoding")
        || is_text(s, "User-Agent")
        || is_text(s, "Vary")
        || is_text(s, "Via")
        || is_text(s, "Warning")
        || is_text(s, "Www-Authenticate")
        || is_text(s, "X-Forwarded-For")
        || is_text(s, "X-Forwarded-Host")
        || is_text(s, "X-Forwarded-Proto")
        || is_text(s, "X-Request-Id")
        || is_text(s, "X-Csrf-Token")
}

} // verus!
