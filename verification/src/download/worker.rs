//! The decisions of a chunk worker: what range to ask for next, and what to
//! do with the server's answer (retry after a while, switch proxies, give
//! up, or stream the chunk).

use vstd::prelude::*;
use vstd::string::StringExecFns;
use crate::config::MAX_CHUNK_ERRORS;
use crate::proxy::{available, with_blocked, ProxyType, SmartProxyManager};
use crate::text::{chars_to_string, decimal, push_decimal};
use crate::util::{spec_backoff, wait_time_exp_backoff};
use super::chunk::{
    calculate_chunk_offset, calculate_chunk_size, chunk_offset_fits, gen_chunk_url, spec_chunk_offset,
    spec_chunk_size, spec_chunk_url,
};
use super::dispenser::{lemma_reject_then_dispense, spec_dispense, spec_reject, ChunkIdDispenser, DispenserView};

verus! {

/// What a worker asks the server for: a chunk's byte range.
pub struct ChunkRequest {
    pub chunk_id: u64,
    pub offset: u64,
    pub size: u64,
    /// The URL of the range.
    pub url: String,
}

/// The request for a chunk of a file, or `None` where the chunk lies past
/// the end of the file (the worker then stops).
pub fn chunk_request(chunk_id: u64, file_size: u64, size_multi: u32, file_url: &str) -> (r: Option<ChunkRequest>)
    requires
        chunk_offset_fits(chunk_id as nat, size_multi as nat),
    ensures
        spec_chunk_size(chunk_id as nat, file_size as nat, size_multi as nat) == 0 <==> r is None,
        r matches Some(q) ==> q.chunk_id == chunk_id
            && q.offset == spec_chunk_offset(chunk_id as nat, size_multi as nat)
            && q.size == spec_chunk_size(chunk_id as nat, file_size as nat, size_multi as nat)
            && q.url@ == spec_chunk_url(file_url@, q.offset as nat, q.size as nat),
{
    let offset = calculate_chunk_offset(chunk_id, size_multi);
    let size = calculate_chunk_size(chunk_id, file_size, size_multi);
    if size == 0 {
        return None;
    }
    let url = gen_chunk_url(file_url, offset, size);
    Some(ChunkRequest { chunk_id, offset, size, url })
}

/// The name of a finished chunk file: `.chunk` and the chunk number.
pub fn chunk_file_name(chunk_id: u64) -> (r: String)
    ensures
        r@ == ".chunk"@ + decimal(chunk_id as nat),
{
    let mut digits: Vec<char> = Vec::new();
    push_decimal(&mut digits, chunk_id);
    assert(digits@ =~= decimal(chunk_id as nat));
    let n = chars_to_string(digits.as_slice());
    let mut s = String::from_str(".chunk");
    s.append(n.as_str());
    s
}

/// The name of a chunk file being written: the finished name and `.tmp`.
pub fn chunk_tmp_file_name(chunk_id: u64) -> (r: String)
    ensures
        r@ == ".chunk"@ + decimal(chunk_id as nat) + ".tmp"@,
{
    let mut s = chunk_file_name(chunk_id);
    s.append(".tmp");
    s
}

/// How the server answered a chunk request.
pub enum ChunkResponse {
    /// The request could not be sent.
    NetworkError,
    /// The server answered with this HTTP status.
    Status(u16),
}

/// What the worker does next.
#[derive(Debug, PartialEq, Eq, Structural)]
pub enum ChunkAction {
    /// The chunk went back to the dispenser; wait this many seconds, having
    /// switched proxies first where asked, then carry on.
    Retry { wait_secs: u64, switch_proxy: bool },
    /// Stream the answer's body into the chunk file.
    Stream,
    /// Too many errors: the worker gives up.
    Fail,
}

/// The worker's next step after an answer with `errors` consecutive errors
/// so far, and the error count after it. Every refusal gives the chunk back.
pub open spec fn spec_on_response(errors: nat, response: ChunkResponse) -> (nat, ChunkAction) {
    match response {
        ChunkResponse::NetworkError => if errors + 1 >= MAX_CHUNK_ERRORS {
            (errors + 1, ChunkAction::Fail)
        } else {
            (errors + 1, ChunkAction::Retry { wait_secs: spec_backoff(errors + 1) as u64, switch_proxy: false })
        },
        ChunkResponse::Status(s) => if s == 509 {
            (errors, ChunkAction::Retry { wait_secs: 5, switch_proxy: true })
        } else if s == 429 {
            (errors + 1, ChunkAction::Retry { wait_secs: spec_backoff(errors) as u64, switch_proxy: false })
        } else if s == 403 {
            (errors, ChunkAction::Retry { wait_secs: 2, switch_proxy: false })
        } else if s == 200 || s == 206 {
            (errors, ChunkAction::Stream)
        } else {
            (errors + 1, ChunkAction::Retry { wait_secs: spec_backoff(errors + 1) as u64, switch_proxy: false })
        },
    }
}

/// The state a chunk worker keeps between chunks.
pub struct ChunkWorker {
    /// Consecutive failed attempts.
    pub error_count: u32,
    /// Proxies this worker no longer uses.
    pub excluded_proxies: Vec<String>,
    /// The proxy in use, if any.
    pub current_proxy: Option<String>,
}

impl ChunkWorker {
    /// A worker that has not failed yet and uses no proxy.
    pub fn new() -> (r: Self)
        ensures
            r.error_count == 0,
            r.excluded_proxies@.len() == 0,
            r.current_proxy is None,
    {
        ChunkWorker { error_count: 0, excluded_proxies: Vec::new(), current_proxy: None }
    }

    /// Decides what follows the answer to the request for `chunk_id`.
    /// Whatever is not streamed goes back to the dispenser. Back-off delays
    /// are computed for at most 63 errors.
    pub fn on_response(&mut self, chunk_id: u64, response: ChunkResponse, dispenser: &mut ChunkIdDispenser) -> (r: ChunkAction)
        requires
            old(self).error_count < 63,
        ensures
            (final(self).error_count as nat, r) == spec_on_response(old(self).error_count as nat, response),
            r == ChunkAction::Stream ==> final(dispenser)@ == old(dispenser)@,
            r != ChunkAction::Stream ==> final(dispenser)@ == spec_reject(old(dispenser)@, chunk_id),
            final(self).excluded_proxies@ == old(self).excluded_proxies@,
            final(self).current_proxy == old(self).current_proxy,
    {
        match response {
            ChunkResponse::NetworkError => {
                dispenser.reject(chunk_id);
                self.error_count = self.error_count + 1;
                if self.error_count >= MAX_CHUNK_ERRORS {
                    ChunkAction::Fail
                } else {
                    ChunkAction::Retry { wait_secs: wait_time_exp_backoff(self.error_count), switch_proxy: false }
                }
            },
            ChunkResponse::Status(s) => {
                if s == 509 {
                    dispenser.reject(chunk_id);
                    ChunkAction::Retry { wait_secs: 5, switch_proxy: true }
                } else if s == 429 {
                    dispenser.reject(chunk_id);
                    let wait = wait_time_exp_backoff(self.error_count);
                    self.error_count = self.error_count + 1;
                    ChunkAction::Retry { wait_secs: wait, switch_proxy: false }
                } else if s == 403 {
                    dispenser.reject(chunk_id);
                    ChunkAction::Retry { wait_secs: 2, switch_proxy: false }
                } else if s == 200 || s == 206 {
                    ChunkAction::Stream
                } else {
                    dispenser.reject(chunk_id);
                    self.error_count = self.error_count + 1;
                    ChunkAction::Retry { wait_secs: wait_time_exp_backoff(self.error_count), switch_proxy: false }
                }
            },
        }
    }

    /// Leaves the current proxy for another one of the pool: the current
    /// one is blocked and excluded, and the pool is asked for one that is
    /// neither blocked at `now` nor excluded (none where there is none).
    /// Returns the kind of the new proxy, to route the requests through it.
    pub fn switch_proxy(&mut self, pool: &mut SmartProxyManager, now: u64) -> (r: Option<ProxyType>)
        requires
            now + old(pool).config.ban_time_secs * 1000 <= u64::MAX,
        ensures
            r is Some <==> final(self).current_proxy is Some,
            final(self).current_proxy matches Some(p) ==> r matches Some(t) && exists|k: int|
                0 <= k < available(final(pool).entries(), final(self).excluded_proxies@, now).len()
                && #[trigger] available(final(pool).entries(), final(self).excluded_proxies@, now)[k].address == p@
                && available(final(pool).entries(), final(self).excluded_proxies@, now)[k].proxy_type == t,
            final(self).error_count == old(self).error_count,
            final(self).excluded_proxies@ == (match old(self).current_proxy {
                Some(p) => old(self).excluded_proxies@.push(p),
                None => old(self).excluded_proxies@,
            }),
            final(self).current_proxy matches Some(p) ==> exists|k: int|
                0 <= k < available(final(pool).entries(), final(self).excluded_proxies@, now).len()
                && #[trigger] available(final(pool).entries(), final(self).excluded_proxies@, now)[k].address == p@,
            final(self).current_proxy is None ==>
                available(final(pool).entries(), final(self).excluded_proxies@, now).len() == 0,
            final(pool).config == old(pool).config,
            final(pool).entries() == (match old(self).current_proxy {
                Some(p) => with_blocked(old(pool).entries(), p@, (now + old(pool).config.ban_time_secs * 1000) as u64),
                None => old(pool).entries(),
            }),
    {
        match self.current_proxy.take() {
            Some(p) => {
                pool.block_proxy(p.as_str(), now);
                self.excluded_proxies.push(p);
            },
            None => {},
        }
        let picked = pool.get_proxy(self.excluded_proxies.as_slice(), now);
        match picked {
            Some((addr, kind)) => {
                self.current_proxy = Some(addr);
                assert(self.current_proxy matches Some(p) && exists|k: int|
                    0 <= k < available(pool.entries(), self.excluded_proxies@, now).len()
                    && #[trigger] available(pool.entries(), self.excluded_proxies@, now)[k].address == p@
                    && available(pool.entries(), self.excluded_proxies@, now)[k].proxy_type == kind);
                Some(kind)
            },
            None => None,
        }
    }

    /// A chunk was streamed whole: the error count starts over.
    pub fn chunk_done(&mut self)
        ensures
            final(self).error_count == 0,
            final(self).excluded_proxies@ == old(self).excluded_proxies@,
            final(self).current_proxy == old(self).current_proxy,
    {
        self.error_count = 0;
    }

    /// Settles a chunk whose body was being streamed: a chunk whose file was
    /// written whole is done (the error count starts over); one whose
    /// streaming was cancelled or failed goes back to the dispenser. Returns
    /// whether the chunk was written.
    pub fn after_stream(&mut self, chunk_id: u64, outcome: StreamOutcome, dispenser: &mut ChunkIdDispenser) -> (r: bool)
        ensures
            r == (outcome == StreamOutcome::Written),
            r ==> final(self).error_count == 0 && final(dispenser)@ == old(dispenser)@,
            !r ==> final(self).error_count == old(self).error_count
                && final(dispenser)@ == spec_reject(old(dispenser)@, chunk_id),
            final(self).excluded_proxies@ == old(self).excluded_proxies@,
            final(self).current_proxy == old(self).current_proxy,
    {
        match outcome {
            StreamOutcome::Written => {
                self.chunk_done();
                true
            },
            _ => {
                dispenser.reject(chunk_id);
                false
            },
        }
    }
}

/// How streaming a chunk's body into its file ended.
#[derive(Clone, Copy, Debug, PartialEq, Eq, Structural)]
pub enum StreamOutcome {
    /// The whole body was written and the file renamed into place.
    Written,
    /// The download was cancelled meanwhile.
    Cancelled,
    /// Reading the body, or writing or renaming the file, failed.
    Failed,
}

/// What becomes of a chunk handed out to a worker: the dispenser afterwards,
/// and whether the chunk's file was written. An answer that is not streamed
/// gives the chunk back, as does a stream that does not end written.
pub open spec fn spec_settle(d: DispenserView, chunk_id: u64, action: ChunkAction, outcome: StreamOutcome) -> (DispenserView, bool) {
    if action != ChunkAction::Stream {
        (spec_reject(d, chunk_id), false)
    } else if outcome == StreamOutcome::Written {
        (d, true)
    } else {
        (spec_reject(d, chunk_id), false)
    }
}

/// No chunk is lost: a chunk handed out to a worker either ends written or
/// is the next one the dispenser hands out, which leaves the dispenser as it
/// was before the worker took the chunk back.
pub proof fn lemma_no_chunk_lost(d: DispenserView, chunk_id: u64, action: ChunkAction, outcome: StreamOutcome)
    ensures
        ({
            let (after, written) = spec_settle(d, chunk_id, action, outcome);
            written || spec_dispense(after) == (d, Some(chunk_id))
        }),
{
    lemma_reject_then_dispense(d, chunk_id);
}

/// Only a successful answer (200 or 206) is streamed; only a bandwidth
/// refusal (509) makes the worker switch proxies, and it waits five seconds
/// for it without counting an error; a forbidden answer (403) waits two
/// seconds without counting one; every other refusal and every network
/// error counts one more consecutive error.
pub proof fn lemma_worker_answers(errors: nat, response: ChunkResponse)
    ensures
        spec_on_response(errors, response).1 == ChunkAction::Stream <==>
            (response == ChunkResponse::Status(200) || response == ChunkResponse::Status(206)),
        (spec_on_response(errors, response).1 matches ChunkAction::Retry { switch_proxy, .. } && switch_proxy)
            <==> response == ChunkResponse::Status(509),
        response == ChunkResponse::Status(509) ==>
            spec_on_response(errors, response) == (errors, ChunkAction::Retry { wait_secs: 5, switch_proxy: true }),
        response == ChunkResponse::Status(403) ==>
            spec_on_response(errors, response) == (errors, ChunkAction::Retry { wait_secs: 2, switch_proxy: false }),
        response == ChunkResponse::NetworkError ==> spec_on_response(errors, response).0 == errors + 1,
        (response matches ChunkResponse::Status(st) && st != 200 && st != 206 && st != 509 && st != 403)
            ==> spec_on_response(errors, response).0 == errors + 1,
        (response == ChunkResponse::Status(200) || response == ChunkResponse::Status(206))
            ==> spec_on_response(errors, response).0 == errors,
{
}

/// Every wait a worker is told to make lasts at most eight seconds, and the
/// worker gives up exactly when its consecutive network errors reach the limit.
pub proof fn lemma_worker_waits_bounded(errors: nat, response: ChunkResponse)
    ensures
        spec_on_response(errors, response).1 matches ChunkAction::Retry { wait_secs, .. } ==> wait_secs <= 8,
        spec_on_response(errors, response).1 == ChunkAction::Fail <==>
            (response == ChunkResponse::NetworkError && errors + 1 >= MAX_CHUNK_ERRORS),
{
    crate::util::lemma_backoff_monotone_bounded(errors, errors + 1);
}

} // verus!
