//! Progress accounting for one download: bytes confirmed on disk plus a
//! pending delta that chunk workers add to (and roll back) as they go.

use vstd::prelude::*;

verus! {

/// Bytes downloaded so far for one download.
pub struct ProgressTracker {
    /// Bytes confirmed written to disk.
    confirmed: u64,
    /// Pending change, negative for a rollback.
    pending: i64,
}

/// The total that `confirmed` and `pending` make together: their sum, not
/// below zero.
pub open spec fn spec_total(confirmed: u64, pending: i64) -> int {
    if pending >= 0 {
        confirmed + pending
    } else if confirmed + pending < 0 {
        0
    } else {
        confirmed + pending
    }
}

/// Whether the total of `confirmed` and `pending` can be computed without
/// overflow (the sum fits in 64 bits, and a negative pending change can be negated).
pub open spec fn total_computable(confirmed: u64, pending: i64) -> bool {
    if pending >= 0 { confirmed + pending <= u64::MAX } else { pending != i64::MIN }
}

/// The confirmed count after a flush of `pending` into `confirmed`: their
/// sum, wrapping below zero like an atomic counter.
pub open spec fn spec_flushed(confirmed: u64, pending: i64) -> u64 {
    if pending >= 0 {
        (confirmed + pending) as u64
    } else {
        vstd::wrapping::u64_specs::wrapping_sub(confirmed, (-pending) as u64)
    }
}

impl ProgressTracker {
    /// Bytes confirmed written to disk.
    pub closed spec fn confirmed(&self) -> u64 {
        self.confirmed
    }

    /// Pending change not yet flushed.
    pub closed spec fn pending(&self) -> i64 {
        self.pending
    }

    /// A tracker starting at `initial_bytes`, with nothing pending.
    pub fn new(initial_bytes: u64) -> (r: Self)
        ensures
            r.confirmed() == initial_bytes,
            r.pending() == 0,
    {
        ProgressTracker { confirmed: initial_bytes, pending: 0 }
    }

    /// Adds a partial update from a chunk worker to the pending change
    /// (wrapping on overflow).
    pub fn add_partial(&mut self, bytes: i64)
        ensures
            final(self).confirmed() == old(self).confirmed(),
            final(self).pending() == vstd::wrapping::i64_specs::wrapping_add(old(self).pending(), bytes),
    {
        self.pending = self.pending.wrapping_add(bytes);
    }

    /// Moves the pending change into the confirmed count and returns the new
    /// total. The confirmed count wraps like an atomic counter; the returned
    /// total does not fall below zero.
    pub fn flush(&mut self) -> (r: u64)
        requires
            total_computable(old(self).confirmed(), old(self).pending()),
        ensures
            r == spec_total(old(self).confirmed(), old(self).pending()),
            final(self).pending() == 0,
            final(self).confirmed() == spec_flushed(old(self).confirmed(), old(self).pending()),
    {
        let delta = self.pending;
        self.pending = 0;
        if delta >= 0 {
            let before = self.confirmed;
            self.confirmed = before + delta as u64;
            before + delta as u64
        } else {
            let sub = (-delta) as u64;
            let before = self.confirmed;
            self.confirmed = before.wrapping_sub(sub);
            before.saturating_sub(sub)
        }
    }

    /// The current total: confirmed plus pending, not below zero.
    pub fn get(&self) -> (r: u64)
        requires
            total_computable(self.confirmed(), self.pending()),
        ensures
            r == spec_total(self.confirmed(), self.pending()),
    {
        let confirmed = self.confirmed;
        let pending = self.pending;
        if pending >= 0 {
            confirmed + pending as u64
        } else {
            confirmed.saturating_sub((-pending) as u64)
        }
    }

    /// Whether the current total can be computed (see [`get`](Self::get)).
    pub fn total_in_range(&self) -> (r: bool)
        ensures
            r == total_computable(self.confirmed(), self.pending()),
    {
        if self.pending >= 0 {
            self.confirmed as u128 + self.pending as u128 <= u64::MAX as u128
        } else {
            self.pending != i64::MIN
        }
    }

    /// Sets the confirmed count and drops anything pending.
    pub fn set(&mut self, value: u64)
        ensures
            final(self).confirmed() == value,
            final(self).pending() == 0,
    {
        self.confirmed = value;
        self.pending = 0;
    }
}

/// Flushing does not change the total, unless a rollback exceeds what was
/// confirmed (then the returned total stops at zero while the count wraps).
pub proof fn lemma_flush_keeps_total(confirmed: u64, pending: i64)
    requires
        total_computable(confirmed, pending),
        pending >= 0 || confirmed + pending >= 0,
    ensures
        spec_total(spec_flushed(confirmed, pending), 0) == spec_total(confirmed, pending),
{
}

/// The pending change after adding each of `adds` in turn (wrapping).
pub open spec fn pending_after(pending: i64, adds: Seq<i64>) -> i64
    decreases adds.len(),
{
    if adds.len() == 0 {
        pending
    } else {
        pending_after(vstd::wrapping::i64_specs::wrapping_add(pending, adds[0]), adds.drop_first())
    }
}

/// The sum of a sequence of changes.
pub open spec fn sum_of(adds: Seq<i64>) -> int
    decreases adds.len(),
{
    if adds.len() == 0 { 0 } else { adds[0] + sum_of(adds.drop_first()) }
}

/// Whether `start` plus every running sum of `adds` fits in an `i64`.
pub open spec fn running_sums_fit(start: int, adds: Seq<i64>) -> bool {
    forall|k: int| 0 <= k <= adds.len() ==> i64::MIN <= #[trigger] (start + sum_of(adds.take(k))) <= i64::MAX
}

proof fn lemma_pending_after_sum(start: i64, adds: Seq<i64>)
    requires
        running_sums_fit(start as int, adds),
    ensures
        pending_after(start, adds) == start + sum_of(adds),
    decreases adds.len(),
{
    if adds.len() > 0 {
        let rest = adds.drop_first();
        assert(adds.take(1).drop_first() =~= Seq::<i64>::empty());
        assert(sum_of(adds.take(1)) == adds[0] + sum_of(adds.take(1).drop_first()));
        assert(i64::MIN <= start + sum_of(adds.take(1)) <= i64::MAX);
        let next = vstd::wrapping::i64_specs::wrapping_add(start, adds[0]);
        assert(next == start + adds[0]);
        assert forall|k: int| 0 <= k <= rest.len() implies i64::MIN <= #[trigger] (next + sum_of(rest.take(k))) <= i64::MAX by {
            assert(adds.take(k + 1).drop_first() =~= rest.take(k));
            assert(sum_of(adds.take(k + 1)) == adds[0] + sum_of(rest.take(k)));
            assert(i64::MIN <= start + sum_of(adds.take(k + 1)) <= i64::MAX);
        }
        lemma_pending_after_sum(next, rest);
    }
}

/// A download's progress over a run of updates: started at `initial` and
/// given the updates `adds` in turn (their running sums fitting in an
/// `i64`), the pending change is their sum and the total is
/// `initial + sum`. A flush returns that total and leaves it as the
/// confirmed count with nothing pending, so the total stays the same and a
/// second flush returns it again. (Where the sum would take the total below
/// zero, the flush's count wraps instead; that case is left out.)
pub proof fn lemma_flush_after_adds(initial: u64, adds: Seq<i64>)
    requires
        running_sums_fit(0, adds),
        initial + sum_of(adds) >= 0,
        initial + sum_of(adds) <= u64::MAX,
        sum_of(adds) > i64::MIN,
    ensures
        pending_after(0, adds) == sum_of(adds),
        total_computable(initial, pending_after(0, adds)),
        spec_total(initial, pending_after(0, adds)) == initial + sum_of(adds),
        spec_flushed(initial, pending_after(0, adds)) == initial + sum_of(adds),
        total_computable(spec_flushed(initial, pending_after(0, adds)), 0),
        spec_total(spec_flushed(initial, pending_after(0, adds)), 0) == initial + sum_of(adds),
        spec_flushed(spec_flushed(initial, pending_after(0, adds)), 0) == initial + sum_of(adds),
{
    lemma_pending_after_sum(0, adds);
}

} // verus!
