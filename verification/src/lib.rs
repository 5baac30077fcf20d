//! A stateless relay for HLS (`.m3u8`) media playlists.
//!
//! The library holds the verified request-processing pipeline: origin
//! gating, query parsing, header validation, content classification and
//! the playlist line-rewriting algorithm. All data crossing the API is
//! plain bytes; the surrounding HTTP server lives outside the library.

use vstd::prelude::*;

pub mod bytestr;
pub mod classify;
pub mod headers;
pub mod origin;
pub mod percent;
pub mod pipeline;
pub mod query;
pub mod rewrite;
pub mod urlres;

verus! {

/// Largest playlist body, in bytes, that the rewriter accepts.
pub const MAX_BODY_BYTES: usize = 10000000;

/// Number of playlist lines processed; lines beyond the cap are dropped.
pub const MAX_LINES: usize = 200000;

/// Largest number of entries accepted in a forwarded-header set.
pub const MAX_FORWARD_HEADERS: usize = 50;

/// Every way a relayed request can fail before or after the upstream
/// fetch, each mapped to one terminal HTTP status and message.
#[derive(Clone, Copy, Debug, PartialEq, Eq, Structural)]
pub enum RelayError {
    /// The caller's origin is not on the allow-list while restriction
    /// is enabled.
    OriginDenied,
    /// The query string itself does not parse into the expected
    /// parameters.
    InvalidQuery,
    /// The `url` parameter is no absolute URL.
    InvalidUrl,
    /// The `headers` parameter is no JSON object of strings.
    InvalidHeadersJson,
    /// The `headers` object holds more entries than the cap allows.
    TooManyHeaders,
    /// A forwarded header has an invalid name or value.
    InvalidHeaderFormat,
    /// The `origin` parameter is no valid header value.
    InvalidOrigin,
    /// A classified playlist body exceeds the size cap.
    PlaylistTooLarge,
}

impl RelayError {
    /// The HTTP status this error is reported with.
    pub open spec fn status_spec(self) -> u16 {
        match self {
            RelayError::OriginDenied => 403,
            RelayError::PlaylistTooLarge => 400,
            RelayError::InvalidQuery => 400,
            RelayError::InvalidUrl => 400,
            RelayError::InvalidHeadersJson => 400,
            RelayError::TooManyHeaders => 400,
            RelayError::InvalidHeaderFormat => 400,
            RelayError::InvalidOrigin => 400,
        }
    }

    /// The HTTP status this error is reported with.
    pub fn status(&self) -> (r: u16)
        ensures
            r == self.status_spec(),
    {
        match self {
            RelayError::OriginDenied => 403,
            RelayError::PlaylistTooLarge => 400,
            RelayError::InvalidQuery => 400,
            RelayError::InvalidUrl => 400,
            RelayError::InvalidHeadersJson => 400,
            RelayError::TooManyHeaders => 400,
            RelayError::InvalidHeaderFormat => 400,
            RelayError::InvalidOrigin => 400,
        }
    }

    /// The plain-text body this error is reported with.
    pub open spec fn message_spec(self) -> Seq<char> {
        match self {
            RelayError::OriginDenied => "Access denied: Origin not allowed"@,
            RelayError::InvalidQuery => "Invalid query parameters"@,
            RelayError::InvalidUrl => "Invalid URL format"@,
            RelayError::InvalidHeadersJson => "Invalid headers JSON"@,
            RelayError::TooManyHeaders => "Too many headers"@,
            RelayError::InvalidHeaderFormat => "Invalid header format"@,
            RelayError::InvalidOrigin => "Invalid Origin header"@,
            RelayError::PlaylistTooLarge => "m3u8 file too large"@,
        }
    }

    /// The plain-text body this error is reported with.
    pub fn message(&self) -> (r: &'static str)
        ensures
            r@ == self.message_spec(),
    {
        match self {
            RelayError::OriginDenied => "Access denied: Origin not allowed",
            RelayError::InvalidQuery => "Invalid query parameters",
            RelayError::InvalidUrl => "Invalid URL format",
            RelayError::InvalidHeadersJson => "Invalid headers JSON",
            RelayError::TooManyHeaders => "Too many headers",
            RelayError::InvalidHeaderFormat => "Invalid header format",
            RelayError::InvalidOrigin => "Invalid Origin header",
            RelayError::PlaylistTooLarge => "m3u8 file too large",
        }
    }
}

} // verus!
