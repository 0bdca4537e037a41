//! Errors of the MEGA API client and the classification of the API's
//! numeric error codes.

use vstd::prelude::*;
use vstd::string::StringExecFns;
use crate::text::{signed_decimal, signed_decimal_string};
use crate::config::{FATAL_API_ERROR_CODES, MEGA_ERROR_NO_EXCEPTION_CODES};

verus! {

/// Why a MEGA API call failed.
#[derive(Debug)]
pub enum MegaApiError {
    /// The API answered with a negative error code that is neither fatal nor retried.
    ApiError(i32),
    /// The server answered with an unexpected HTTP status, too many times.
    HttpError(u16),
    /// The request could not be sent or its answer could not be read.
    NetworkError(String),
    /// The answer is not the JSON that was expected.
    JsonError(String),
    /// A key or an identifier could not be decrypted.
    CryptoError(String),
    /// The answer lacks a field the request needs.
    InvalidResponse(String),
    /// The server refused for bandwidth (HTTP 509).
    BandwidthLimitExceeded,
    /// The server refused for the request rate (HTTP 429), too many times.
    TooManyRequests,
    /// The server refused access (HTTP 403).
    Forbidden,
    /// The API answered with an error code that retrying cannot fix.
    FatalApiError(i32),
}

/// A MEGA API error, its texts taken by value.
pub enum ApiErrorView {
    ApiError(i32),
    HttpError(u16),
    NetworkError(Seq<char>),
    JsonError(Seq<char>),
    CryptoError(Seq<char>),
    InvalidResponse(Seq<char>),
    BandwidthLimitExceeded,
    TooManyRequests,
    Forbidden,
    FatalApiError(i32),
}

impl View for MegaApiError {
    type V = ApiErrorView;

    open spec fn view(&self) -> ApiErrorView {
        match self {
            MegaApiError::ApiError(c) => ApiErrorView::ApiError(*c),
            MegaApiError::HttpError(s) => ApiErrorView::HttpError(*s),
            MegaApiError::NetworkError(m) => ApiErrorView::NetworkError(m@),
            MegaApiError::JsonError(m) => ApiErrorView::JsonError(m@),
            MegaApiError::CryptoError(m) => ApiErrorView::CryptoError(m@),
            MegaApiError::InvalidResponse(m) => ApiErrorView::InvalidResponse(m@),
            MegaApiError::BandwidthLimitExceeded => ApiErrorView::BandwidthLimitExceeded,
            MegaApiError::TooManyRequests => ApiErrorView::TooManyRequests,
            MegaApiError::Forbidden => ApiErrorView::Forbidden,
            MegaApiError::FatalApiError(c) => ApiErrorView::FatalApiError(*c),
        }
    }
}

/// The text that describes a MEGA API error.
pub open spec fn api_error_text(e: ApiErrorView) -> Seq<char> {
    match e {
        ApiErrorView::ApiError(c) => "MEGA API error code: "@ + signed_decimal(c as int),
        ApiErrorView::HttpError(s) => "HTTP error: "@ + signed_decimal(s as int),
        ApiErrorView::NetworkError(m) => "Network error: "@ + m,
        ApiErrorView::JsonError(m) => "JSON error: "@ + m,
        ApiErrorView::CryptoError(m) => "Crypto error: "@ + m,
        ApiErrorView::InvalidResponse(m) => "Invalid response: "@ + m,
        ApiErrorView::BandwidthLimitExceeded => "Rate limited (509)"@,
        ApiErrorView::TooManyRequests => "Too many requests (429)"@,
        ApiErrorView::Forbidden => "Forbidden (403)"@,
        ApiErrorView::FatalApiError(c) => "Fatal API error: "@ + signed_decimal(c as int),
    }
}

/// `prefix` followed by `rest`.
fn joined(prefix: &str, rest: &str) -> (r: String)
    ensures
        r@ == prefix@ + rest@,
{
    let mut s = String::from_str(prefix);
    s.append(rest);
    s
}

impl MegaApiError {
    /// The text that describes this error.
    pub fn message(&self) -> (r: String)
        ensures
            r@ == api_error_text(self@),
    {
        match self {
            MegaApiError::ApiError(c) => {
                let n = signed_decimal_string(*c as i64);
                joined("MEGA API error code: ", n.as_str())
            },
            MegaApiError::HttpError(s) => {
                let n = signed_decimal_string(*s as i64);
                joined("HTTP error: ", n.as_str())
            },
            MegaApiError::NetworkError(m) => joined("Network error: ", m.as_str()),
            MegaApiError::JsonError(m) => joined("JSON error: ", m.as_str()),
            MegaApiError::CryptoError(m) => joined("Crypto error: ", m.as_str()),
            MegaApiError::InvalidResponse(m) => joined("Invalid response: ", m.as_str()),
            MegaApiError::BandwidthLimitExceeded => String::from_str("Rate limited (509)"),
            MegaApiError::TooManyRequests => String::from_str("Too many requests (429)"),
            MegaApiError::Forbidden => String::from_str("Forbidden (403)"),
            MegaApiError::FatalApiError(c) => {
                let n = signed_decimal_string(*c as i64);
                joined("Fatal API error: ", n.as_str())
            },
        }
    }
}

/// The API error codes that retrying cannot fix: those of
/// `FATAL_API_ERROR_CODES`.
pub open spec fn spec_is_fatal_error(code: i32) -> bool {
    code == -2 || code == -4 || code == -8 || code == -14 || code == -15 || code == -16 || code == -17
        || code == 22 || code == 23 || code == 24
}

/// The API error codes that ask for the request to be repeated.
pub open spec fn spec_is_no_exception_code(code: i32) -> bool {
    code == -1 || code == -3
}

/// The fatal codes are exactly those listed in `FATAL_API_ERROR_CODES`, and
/// the codes to repeat exactly those in `MEGA_ERROR_NO_EXCEPTION_CODES`.
pub proof fn lemma_error_codes_listed(code: i32)
    ensures
        spec_is_fatal_error(code) <==> exists|i: int| 0 <= i < 10 && #[trigger] FATAL_API_ERROR_CODES[i] == code,
        spec_is_no_exception_code(code) <==> exists|i: int| 0 <= i < 2 && #[trigger] MEGA_ERROR_NO_EXCEPTION_CODES[i] == code,
{
    let f = FATAL_API_ERROR_CODES;
    let n = MEGA_ERROR_NO_EXCEPTION_CODES;
    assert(f[0] == -2 && f[1] == -4 && f[2] == -8 && f[3] == -14 && f[4] == -15);
    assert(f[5] == -16 && f[6] == -17 && f[7] == 22 && f[8] == 23 && f[9] == 24);
    assert(n[0] == -1 && n[1] == -3);
    if exists|i: int| 0 <= i < 10 && #[trigger] f[i] == code {
        let i = choose|i: int| 0 <= i < 10 && #[trigger] f[i] == code;
        assert(0 <= i < 10);
    }
    if exists|i: int| 0 <= i < 2 && #[trigger] n[i] == code {
        let i = choose|i: int| 0 <= i < 2 && #[trigger] n[i] == code;
    }
}

/// Whether an API error code is fatal (the request is not retried).
pub fn is_fatal_error(code: i32) -> (r: bool)
    ensures
        r == spec_is_fatal_error(code),
{
    code == -2 || code == -4 || code == -8 || code == -14 || code == -15 || code == -16 || code == -17
        || code == 22 || code == 23 || code == 24
}

/// Whether an API error code only asks for the request to be repeated.
pub fn is_no_exception_code(code: i32) -> (r: bool)
    ensures
        r == spec_is_no_exception_code(code),
{
    code == -1 || code == -3
}

} // verus!
