//! The retry discipline of a MEGA API request: what to do after each
//! attempt, given what the server answered.

use vstd::prelude::*;
use vstd::string::StringExecFns;
use crate::text::{
    parse_i32, spec_parse_i32, str_chars, strip_leading, strip_leading_chars, strip_trailing,
    strip_trailing_chars, trim_chars, trimmed,
};
use crate::util::{spec_backoff, wait_time_exp_backoff};
use crate::config::FATAL_API_ERROR_CODES;
use super::errors::{
    is_fatal_error, is_no_exception_code, spec_is_fatal_error, spec_is_no_exception_code,
    ApiErrorView, MegaApiError,
};

verus! {

/// Network failures tolerated before a request fails.
pub const MAX_NETWORK_RETRIES: u32 = 10;
/// Other failed attempts tolerated before a request fails.
pub const MAX_RETRIES: u32 = 5;

/// What an attempt brought back.
pub enum RequestEvent {
    /// The request could not be sent; the text describes why.
    NetworkFailure(String),
    /// The server answered with this HTTP status.
    Status(u16),
    /// The body of a successful answer.
    Body(String),
    /// The body of a successful answer could not be read; the text describes why.
    BodyFailure(String),
}

/// What to do next.
#[derive(Debug)]
pub enum RequestAction {
    /// Send the request again after waiting this many seconds.
    Retry { wait_secs: u64 },
    /// Read the body of the answer.
    ReadBody,
    /// Give up with this error.
    Fail(MegaApiError),
    /// The request succeeded with this body.
    Done(String),
}

/// An attempt's outcome, its texts taken by value.
pub enum RequestEventView {
    NetworkFailure(Seq<char>),
    Status(u16),
    Body(Seq<char>),
    BodyFailure(Seq<char>),
}

/// A next step, its texts taken by value.
pub enum RequestActionView {
    Retry { wait_secs: u64 },
    ReadBody,
    Fail(ApiErrorView),
    Done(Seq<char>),
}

impl View for RequestEvent {
    type V = RequestEventView;

    open spec fn view(&self) -> RequestEventView {
        match self {
            RequestEvent::NetworkFailure(m) => RequestEventView::NetworkFailure(m@),
            RequestEvent::Status(s) => RequestEventView::Status(*s),
            RequestEvent::Body(b) => RequestEventView::Body(b@),
            RequestEvent::BodyFailure(m) => RequestEventView::BodyFailure(m@),
        }
    }
}

impl View for RequestAction {
    type V = RequestActionView;

    open spec fn view(&self) -> RequestActionView {
        match self {
            RequestAction::Retry { wait_secs } => RequestActionView::Retry { wait_secs: *wait_secs },
            RequestAction::ReadBody => RequestActionView::ReadBody,
            RequestAction::Fail(e) => RequestActionView::Fail(e@),
            RequestAction::Done(b) => RequestActionView::Done(b@),
        }
    }
}

/// The error code a body holds, if it is one: the body trimmed, stripped of
/// leading `[` and trailing `]`, read as an `i32`.
pub open spec fn body_error_code(body: Seq<char>) -> Option<int> {
    spec_parse_i32(strip_trailing(strip_leading(trimmed(body), seq!['[']), ']'))
}

/// The next step after an attempt, with the number of retries made so far,
/// and the number of retries after it.
pub open spec fn request_step(retries: nat, event: RequestEventView) -> (nat, RequestActionView) {
    let retry = (retries + 1, RequestActionView::Retry { wait_secs: spec_backoff(retries) as u64 });
    let retry_now = (retries + 1, RequestActionView::Retry { wait_secs: 0 });
    match event {
        RequestEventView::NetworkFailure(m) => if retries >= 10 {
            (retries, RequestActionView::Fail(ApiErrorView::NetworkError(m)))
        } else {
            retry
        },
        RequestEventView::Status(s) => if s == 509 {
            (retries, RequestActionView::Fail(ApiErrorView::BandwidthLimitExceeded))
        } else if s == 429 {
            if retries >= 5 { (retries, RequestActionView::Fail(ApiErrorView::TooManyRequests)) } else { retry }
        } else if s == 403 {
            (retries, RequestActionView::Fail(ApiErrorView::Forbidden))
        } else if s == 200 || s == 201 {
            (retries, RequestActionView::ReadBody)
        } else {
            if retries >= 5 { (retries, RequestActionView::Fail(ApiErrorView::HttpError(s))) } else { retry_now }
        },
        RequestEventView::Body(b) => if b.len() == 0 {
            if retries >= 5 {
                (retries, RequestActionView::Fail(ApiErrorView::InvalidResponse("Empty body"@)))
            } else {
                retry_now
            }
        } else {
            match body_error_code(b) {
                Some(c) => if c < 0 {
                    if spec_is_fatal_error(c as i32) {
                        (retries, RequestActionView::Fail(ApiErrorView::FatalApiError(c as i32)))
                    } else if spec_is_no_exception_code(c as i32) {
                        retry
                    } else {
                        (retries, RequestActionView::Fail(ApiErrorView::ApiError(c as i32)))
                    }
                } else {
                    (retries, RequestActionView::Done(b))
                },
                None => (retries, RequestActionView::Done(b)),
            }
        },
        RequestEventView::BodyFailure(m) => (retries, RequestActionView::Fail(ApiErrorView::NetworkError(m))),
    }
}

/// The error code a body holds, if it is one.
fn body_code(body: &String) -> (r: Option<i32>)
    ensures
        r matches Some(c) ==> body_error_code(body@) == Some(c as int),
        r is None ==> body_error_code(body@) is None,
{
    let chars = str_chars(body.as_str());
    let t = trim_chars(chars.as_slice());
    let open: Vec<char> = vec!['['];
    assert(open@ =~= seq!['[']);
    let s = strip_leading_chars(t.as_slice(), open.as_slice());
    let u = strip_trailing_chars(s.as_slice(), ']');
    parse_i32(u.as_slice())
}

/// The attempts made at one API request.
pub struct RequestAttempts {
    /// Retries made so far.
    pub retry_count: u32,
}

impl RequestAttempts {
    /// No attempt made yet.
    pub fn new() -> (r: Self)
        ensures
            r.retry_count == 0,
    {
        RequestAttempts { retry_count: 0 }
    }

    /// Decides what follows an attempt and counts the retry it asks for.
    /// Back-off delays are computed for at most 63 retries.
    pub fn step(&mut self, event: RequestEvent) -> (r: RequestAction)
        requires
            old(self).retry_count < 64,
        ensures
            (final(self).retry_count as nat, r@) == request_step(old(self).retry_count as nat, event@),
    {
        let retries = self.retry_count;
        match event {
            RequestEvent::NetworkFailure(m) => {
                if retries >= MAX_NETWORK_RETRIES {
                    RequestAction::Fail(MegaApiError::NetworkError(m))
                } else {
                    self.retry_count = retries + 1;
                    RequestAction::Retry { wait_secs: wait_time_exp_backoff(retries) }
                }
            },
            RequestEvent::Status(s) => {
                if s == 509 {
                    RequestAction::Fail(MegaApiError::BandwidthLimitExceeded)
                } else if s == 429 {
                    if retries >= MAX_RETRIES {
                        RequestAction::Fail(MegaApiError::TooManyRequests)
                    } else {
                        self.retry_count = retries + 1;
                        RequestAction::Retry { wait_secs: wait_time_exp_backoff(retries) }
                    }
                } else if s == 403 {
                    RequestAction::Fail(MegaApiError::Forbidden)
                } else if s == 200 || s == 201 {
                    RequestAction::ReadBody
                } else if retries >= MAX_RETRIES {
                    RequestAction::Fail(MegaApiError::HttpError(s))
                } else {
                    self.retry_count = retries + 1;
                    RequestAction::Retry { wait_secs: 0 }
                }
            },
            RequestEvent::Body(b) => {
                if b.as_str().is_empty() {
                    if retries >= MAX_RETRIES {
                        RequestAction::Fail(MegaApiError::InvalidResponse(String::from_str("Empty body")))
                    } else {
                        self.retry_count = retries + 1;
                        RequestAction::Retry { wait_secs: 0 }
                    }
                } else {
                    match body_code(&b) {
                        Some(c) => {
                            if c < 0 {
                                if is_fatal_error(c) {
                                    RequestAction::Fail(MegaApiError::FatalApiError(c))
                                } else if is_no_exception_code(c) {
                                    self.retry_count = retries + 1;
                                    RequestAction::Retry { wait_secs: wait_time_exp_backoff(retries) }
                                } else {
                                    RequestAction::Fail(MegaApiError::ApiError(c))
                                }
                            } else {
                                RequestAction::Done(b)
                            }
                        },
                        None => RequestAction::Done(b),
                    }
                }
            },
            RequestEvent::BodyFailure(m) => RequestAction::Fail(MegaApiError::NetworkError(m)),
        }
    }
}

/// Retries are counted one by one and never wait more than eight seconds;
/// a request stops being retried after ten network failures, and after
/// five retries of a refused status.
pub proof fn lemma_request_retries_bounded(retries: nat, event: RequestEventView)
    ensures
        ({
            let (n, a) = request_step(retries, event);
            &&& a matches RequestActionView::Retry { wait_secs } ==> wait_secs <= 8 && n == retries + 1
            &&& !(a is Retry) ==> n == retries
            &&& (event is NetworkFailure && retries >= 10) ==> a is Fail
            &&& (event matches RequestEventView::Status(s) && s != 200 && s != 201 && retries >= 5) ==> a is Fail
        }),
{
    crate::util::lemma_backoff_monotone_bounded(retries, retries);
}


/// What an answer leads to: a bandwidth refusal (509) and a forbidden
/// answer (403) fail at once, a success (200, 201) has its body read; a
/// body holding one of the codes of `FATAL_API_ERROR_CODES` fails with that
/// code, one holding -1 or -3 is retried, and a body that holds no error
/// code (or a code of zero or more) is the answer.
pub proof fn lemma_request_answers(retries: nat, event: RequestEventView)
    ensures
        event == RequestEventView::Status(509) ==>
            request_step(retries, event).1 == RequestActionView::Fail(ApiErrorView::BandwidthLimitExceeded),
        event == RequestEventView::Status(403) ==>
            request_step(retries, event).1 == RequestActionView::Fail(ApiErrorView::Forbidden),
        (event == RequestEventView::Status(200) || event == RequestEventView::Status(201)) ==>
            request_step(retries, event).1 == RequestActionView::ReadBody,
        event matches RequestEventView::Body(b) ==> (b.len() > 0 ==> match body_error_code(b) {
            Some(c) => (c < 0 && (exists|i: int| 0 <= i < 10 && #[trigger] FATAL_API_ERROR_CODES[i] == c)
                    ==> request_step(retries, event).1 == RequestActionView::Fail(ApiErrorView::FatalApiError(c as i32)))
                && ((c == -1 || c == -3) ==> request_step(retries, event).1 is Retry)
                && (c >= 0 ==> request_step(retries, event).1 == RequestActionView::Done(b)),
            None => request_step(retries, event).1 == RequestActionView::Done(b),
        }),
{
    if let RequestEventView::Body(b) = event {
        if let Some(c) = body_error_code(b) {
            if c < 0 && (exists|i: int| 0 <= i < 10 && #[trigger] FATAL_API_ERROR_CODES[i] == c) {
                let i = choose|i: int| 0 <= i < 10 && #[trigger] FATAL_API_ERROR_CODES[i] == c;
                assert(FATAL_API_ERROR_CODES[i] as int == c);
                assert(c as i32 as int == c);
                crate::mega_api::errors::lemma_error_codes_listed(c as i32);
            }
            if c == -1 || c == -3 {
                crate::mega_api::errors::lemma_error_codes_listed(c as i32);
            }
        }
    }
}

} // verus!
