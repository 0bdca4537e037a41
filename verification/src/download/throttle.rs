//! Bandwidth limit shared by the chunk workers of all downloads.

use vstd::prelude::*;
use crate::config::THROTTLE_SLICE_SIZE;

verus! {

/// A bandwidth limit in bytes per second (0 = unlimited), and the size of
/// the slices in which downloads are paced.
pub struct BandwidthThrottler {
    max_bytes_per_sec: u64,
    slice_size: usize,
}

/// Milliseconds that `bytes` take at `limit` bytes per second (none when unlimited).
pub open spec fn spec_delay_ms(limit: u64, bytes: nat) -> nat {
    if limit == 0 || bytes == 0 { 0 } else { (bytes * 1000) / (limit as nat) }
}

impl BandwidthThrottler {
    /// The current limit in bytes per second.
    pub closed spec fn limit(&self) -> u64 {
        self.max_bytes_per_sec
    }

    /// The pacing slice size in bytes.
    pub closed spec fn slice(&self) -> usize {
        self.slice_size
    }

    /// A throttler with the given limit and slice size.
    pub fn new(max_bytes_per_sec: u64, slice_size: usize) -> (r: Self)
        ensures
            r.limit() == max_bytes_per_sec,
            r.slice() == slice_size,
    {
        BandwidthThrottler { max_bytes_per_sec, slice_size }
    }

    /// A throttler without a limit.
    pub fn unlimited() -> (r: Self)
        ensures
            r.limit() == 0,
            r.slice() == THROTTLE_SLICE_SIZE,
    {
        Self::new(0, THROTTLE_SLICE_SIZE)
    }

    /// Changes the limit.
    pub fn set_limit(&mut self, max_bytes_per_sec: u64)
        ensures
            final(self).limit() == max_bytes_per_sec,
            final(self).slice() == old(self).slice(),
    {
        self.max_bytes_per_sec = max_bytes_per_sec;
    }

    /// The current limit.
    pub fn get_limit(&self) -> (r: u64)
        ensures
            r == self.limit(),
    {
        self.max_bytes_per_sec
    }

    /// Whether a limit is set.
    pub fn is_limited(&self) -> (r: bool)
        ensures
            r == (self.limit() > 0),
    {
        self.get_limit() > 0
    }

    /// How long to wait, in milliseconds, before `bytes` more may be
    /// transmitted under the current limit.
    pub fn delay_ms(&self, bytes: usize) -> (r: u64)
        requires
            bytes * 1000 <= u64::MAX,
        ensures
            r == spec_delay_ms(self.limit(), bytes as nat),
    {
        let limit = self.get_limit();
        if limit == 0 || bytes == 0 {
            return 0;
        }
        (bytes as u64 * 1000) / limit
    }
}


/// The delay paces the bytes at the limit: sending `bytes` at `limit` bytes
/// per second takes the delay in whole milliseconds, rounded down; there is
/// no delay without a limit or without bytes.
pub proof fn lemma_delay_paces(limit: u64, bytes: nat)
    ensures
        (limit == 0 || bytes == 0) ==> spec_delay_ms(limit, bytes) == 0,
        limit > 0 ==> spec_delay_ms(limit, bytes) * limit <= bytes * 1000
            < (spec_delay_ms(limit, bytes) + 1) * limit,
{
    if limit > 0 && bytes == 0 {
        assert(spec_delay_ms(limit, bytes) == 0);
        assert(0 * limit <= 0 < (0 + 1) * limit) by (nonlinear_arith)
            requires
                limit > 0;
    }
    if limit > 0 && bytes > 0 {
        let d = spec_delay_ms(limit, bytes);
        assert(d * limit <= bytes * 1000 < (d + 1) * limit) by (nonlinear_arith)
            requires
                d == (bytes * 1000) / (limit as nat),
                limit > 0;
    }
}

} // verus!
