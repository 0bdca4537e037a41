//! Download speeds: each download keeps the bytes it gained with the time
//! they arrived, and its speed is what arrived in the last three seconds.
//! Times are milliseconds on a clock the caller chooses.

use vstd::prelude::*;
use super::eta_secs;

verus! {

/// The span over which speeds are measured, in milliseconds.
pub const SAMPLE_WINDOW_MS: u64 = 3000;

/// The bytes a download gained, each amount with the time it arrived.
pub struct DownloadSamples {
    /// `(bytes, time)` pairs, oldest first.
    pub samples: Vec<(u64, u64)>,
    /// The progress at the last update.
    pub last_progress: u64,
}

/// The bytes of the samples that arrived at or after `cutoff`.
pub open spec fn window_sum(samples: Seq<(u64, u64)>, cutoff: u64) -> nat
    decreases samples.len(),
{
    if samples.len() == 0 {
        0
    } else {
        window_sum(samples.drop_last(), cutoff) + (if samples.last().1 >= cutoff { samples.last().0 as nat } else { 0 })
    }
}

/// The samples that arrived at or after `cutoff`, in order.
pub open spec fn recent(samples: Seq<(u64, u64)>, cutoff: u64) -> Seq<(u64, u64)> {
    samples.filter(|s: (u64, u64)| s.1 >= cutoff)
}

/// The speed in bytes per second that a window of `sum` bytes gives.
pub open spec fn speed_of(sum: nat) -> nat {
    (sum * 1000) / (SAMPLE_WINDOW_MS as nat)
}

/// Speeds of the downloads being measured.
pub struct SpeedMeter {
    /// The samples of each download, by id.
    pub downloads: Vec<(u128, DownloadSamples)>,
}

/// The position of the entry of `id` at or after `k`.
pub open spec fn entry_from(d: Seq<(u128, DownloadSamples)>, id: u128, k: int) -> Option<int>
    decreases d.len() - k,
{
    if k < 0 || k >= d.len() {
        None
    } else if d[k].0 == id {
        Some(k)
    } else {
        entry_from(d, id, k + 1)
    }
}

/// The position of the entry of `id`.
pub open spec fn entry_of(d: Seq<(u128, DownloadSamples)>, id: u128) -> Option<int> {
    entry_from(d, id, 0)
}

proof fn lemma_entry_from(d: Seq<(u128, DownloadSamples)>, id: u128, k: int)
    requires
        0 <= k,
    ensures
        entry_from(d, id, k) matches Some(p) ==> k <= p < d.len() && d[p].0 == id
            && forall|j: int| k <= j < p ==> d[j].0 != id,
        entry_from(d, id, k) is None ==> forall|j: int| k <= j < d.len() ==> d[j].0 != id,
    decreases d.len() - k,
{
    if 0 <= k < d.len() && d[k].0 != id {
        lemma_entry_from(d, id, k + 1);
    }
}

impl SpeedMeter {
    /// No download measured.
    pub fn new() -> (r: Self)
        ensures
            r.downloads@.len() == 0,
    {
        SpeedMeter { downloads: Vec::new() }
    }

    fn position(&self, id: u128) -> (r: Option<usize>)
        ensures
            match r {
                Some(p) => entry_of(self.downloads@, id) == Some(p as int) && p < self.downloads@.len(),
                None => entry_of(self.downloads@, id) is None,
            },
    {
        let mut i: usize = 0;
        while i < self.downloads.len()
            invariant
                i <= self.downloads@.len(),
                entry_of(self.downloads@, id) == entry_from(self.downloads@, id, i as int),
            decreases self.downloads@.len() - i,
        {
            if self.downloads[i].0 == id {
                return Some(i);
            }
            i = i + 1;
        }
        None
    }

    /// Starts measuring a download from `initial_progress`, with no samples
    /// (starting over where it was measured already).
    pub fn attach(&mut self, id: u128, initial_progress: u64)
        ensures
            entry_of(final(self).downloads@, id) matches Some(p)
                && final(self).downloads@[p].1.samples@.len() == 0
                && final(self).downloads@[p].1.last_progress == initial_progress,
            forall|k: int| 0 <= k < old(self).downloads@.len() && old(self).downloads@[k].0 != id
                ==> #[trigger] final(self).downloads@[k] == old(self).downloads@[k],
    {
        let fresh = DownloadSamples { samples: Vec::new(), last_progress: initial_progress };
        match self.position(id) {
            Some(p) => {
                self.downloads.set(p, (id, fresh));
                proof {
                    lemma_entry_from(old(self).downloads@, id, 0);
                    lemma_entry_unchanged_prefix(old(self).downloads@, self.downloads@, id, p as int, 0);
                }
            },
            None => {
                self.downloads.push((id, fresh));
                proof {
                    lemma_entry_from(old(self).downloads@, id, 0);
                    lemma_entry_at_end(self.downloads@, id, 0);
                }
            },
        }
    }

    /// Stops measuring a download.
    pub fn detach(&mut self, id: u128)
        ensures
            final(self).downloads@ == (match entry_of(old(self).downloads@, id) {
                Some(p) => old(self).downloads@.remove(p),
                None => old(self).downloads@,
            }),
    {
        if let Some(p) = self.position(id) {
            self.downloads.remove(p);
        }
    }

    /// Records a download's progress at time `now`: what it gained since the
    /// last update becomes a sample (a loss counts as nothing gained), and
    /// samples older than the window are dropped. Unknown ids are ignored.
    pub fn update(&mut self, id: u128, current_progress: u64, now: u64)
        requires
            now >= SAMPLE_WINDOW_MS,
        ensures
            match entry_of(old(self).downloads@, id) {
                Some(p) => {
                    let old_e = old(self).downloads@[p].1;
                    let gained = if current_progress > old_e.last_progress { current_progress - old_e.last_progress } else { 0 };
                    let with_new = if gained > 0 { old_e.samples@.push((gained as u64, now)) } else { old_e.samples@ };
                    &&& final(self).downloads@.len() == old(self).downloads@.len()
                    &&& final(self).downloads@[p].0 == id
                    &&& final(self).downloads@[p].1.last_progress == current_progress
                    &&& final(self).downloads@[p].1.samples@ == recent(with_new, (now - SAMPLE_WINDOW_MS) as u64)
                    &&& forall|k: int| 0 <= k < old(self).downloads@.len() && k != p
                        ==> #[trigger] final(self).downloads@[k] == old(self).downloads@[k]
                },
                None => final(self).downloads@ == old(self).downloads@,
            },
    {
        let p = match self.position(id) {
            Some(p) => p,
            None => {
                return;
            },
        };
        let (_, entry) = self.downloads.remove(p);
        let gained = if current_progress > entry.last_progress { current_progress - entry.last_progress } else { 0 };
        let mut samples = entry.samples;
        if gained > 0 {
            samples.push((gained, now));
        }
        let ghost with_new = samples@;
        let cutoff = now - SAMPLE_WINDOW_MS;
        let mut kept: Vec<(u64, u64)> = Vec::new();
        let mut i: usize = 0;
        while i < samples.len()
            invariant
                i <= samples@.len(),
                samples@ == with_new,
                kept@ == recent(with_new.subrange(0, i as int), cutoff),
            decreases samples@.len() - i,
        {
            let s = samples[i];
            proof {
                lemma_recent_push(with_new.subrange(0, i as int), s, cutoff);
                assert(with_new.subrange(0, i as int).push(s) =~= with_new.subrange(0, i + 1));
            }
            if s.1 >= cutoff {
                kept.push(s);
            }
            i = i + 1;
        }
        assert(with_new.subrange(0, i as int) =~= with_new);
        self.downloads.insert(p, (id, DownloadSamples { samples: kept, last_progress: current_progress }));
        proof {
            assert forall|k: int| 0 <= k < old(self).downloads@.len() && k != p implies
                #[trigger] self.downloads@[k] == old(self).downloads@[k] by {
                if k < p {
                    assert(self.downloads@[k] == old(self).downloads@.remove(p as int)[k]);
                } else {
                    assert(self.downloads@[k] == old(self).downloads@.remove(p as int)[k - 1]);
                }
            }
        }
    }

    /// The bytes a download gained in the window ending at `now`, where it
    /// is measured.
    pub fn window_bytes(&self, id: u128, now: u64) -> (r: Option<u128>)
        requires
            now >= SAMPLE_WINDOW_MS,
        ensures
            match entry_of(self.downloads@, id) {
                Some(p) => r == Some(window_sum(self.downloads@[p].1.samples@, (now - SAMPLE_WINDOW_MS) as u64) as u128),
                None => r is None,
            },
    {
        let p = match self.position(id) {
            Some(p) => p,
            None => {
                return None;
            },
        };
        Some(samples_window_sum(&self.downloads[p].1.samples, now - SAMPLE_WINDOW_MS))
    }

    /// A download's speed in bytes per second over the window ending at
    /// `now`, where it is measured. The window's bytes times 1000 must fit
    /// in 64 bits (see [`window_bytes`](Self::window_bytes)).
    pub fn get_speed(&self, id: u128, now: u64) -> (r: Option<u64>)
        requires
            now >= SAMPLE_WINDOW_MS,
            entry_of(self.downloads@, id) matches Some(p)
                ==> window_sum(self.downloads@[p].1.samples@, (now - SAMPLE_WINDOW_MS) as u64) * 1000 <= u64::MAX,
        ensures
            match entry_of(self.downloads@, id) {
                Some(p) => r == Some(speed_of(window_sum(self.downloads@[p].1.samples@, (now - SAMPLE_WINDOW_MS) as u64)) as u64),
                None => r is None,
            },
    {
        match self.window_bytes(id, now) {
            Some(sum) => {
                let bytes = sum as u64;
                Some(bytes * 1000 / SAMPLE_WINDOW_MS)
            },
            None => None,
        }
    }

    /// Whether the speeds at `now` can be computed in 64 bits: each
    /// download's window bytes times 1000, and their sum of speeds.
    pub fn speeds_in_range(&self, now: u64) -> (r: bool)
        requires
            now >= SAMPLE_WINDOW_MS,
        ensures
            r == speeds_fit(self.downloads@, (now - SAMPLE_WINDOW_MS) as u64),
    {
        let cutoff = now - SAMPLE_WINDOW_MS;
        let mut total: u128 = 0;
        let mut i: usize = 0;
        while i < self.downloads.len()
            invariant
                i <= self.downloads@.len(),
                cutoff == (now - SAMPLE_WINDOW_MS) as u64,
                speeds_fit(self.downloads@.subrange(0, i as int), cutoff),
                total == total_speed(self.downloads@.subrange(0, i as int), cutoff),
                total <= u64::MAX,
            decreases self.downloads@.len() - i,
        {
            let sum = samples_window_sum(&self.downloads[i].1.samples, cutoff);
            let ghost d = self.downloads@.subrange(0, i + 1);
            proof {
                assert(d.drop_last() =~= self.downloads@.subrange(0, i as int));
                assert(d.last() == self.downloads@[i as int]);
            }
            if sum > u64::MAX as u128 / 1000 {
                proof {
                    assert(sum * 1000 > u64::MAX) by (nonlinear_arith)
                        requires sum > u64::MAX as u128 / 1000;
                    assert(!speeds_fit(d, cutoff));
                    lemma_speeds_fit_extend(self.downloads@, cutoff, i as int);
                }
                return false;
            }
            let speed = sum * 1000 / 3000;
            if total + speed > u64::MAX as u128 {
                proof {
                    assert(total_speed(d, cutoff) == total + speed);
                    assert(!speeds_fit(d, cutoff));
                    lemma_speeds_fit_extend(self.downloads@, cutoff, i as int);
                }
                return false;
            }
            total = total + speed;
            i = i + 1;
        }
        assert(self.downloads@.subrange(0, i as int) =~= self.downloads@);
        true
    }

    /// The sum of the speeds of all downloads at `now`, in bytes per second.
    pub fn get_global_speed(&self, now: u64) -> (r: u64)
        requires
            now >= SAMPLE_WINDOW_MS,
            speeds_fit(self.downloads@, (now - SAMPLE_WINDOW_MS) as u64),
        ensures
            r == total_speed(self.downloads@, (now - SAMPLE_WINDOW_MS) as u64),
    {
        let cutoff = now - SAMPLE_WINDOW_MS;
        let mut total: u64 = 0;
        let mut i: usize = 0;
        while i < self.downloads.len()
            invariant
                i <= self.downloads@.len(),
                speeds_fit(self.downloads@, cutoff),
                total == total_speed(self.downloads@.subrange(0, i as int), cutoff),
            decreases self.downloads@.len() - i,
        {
            proof {
                lemma_speeds_fit_prefix(self.downloads@, cutoff, i + 1);
                let d = self.downloads@.subrange(0, i + 1);
                assert(d.drop_last() =~= self.downloads@.subrange(0, i as int));
            }
            let sum = samples_window_sum(&self.downloads[i].1.samples, cutoff) as u64;
            total = total + sum * 1000 / SAMPLE_WINDOW_MS;
            i = i + 1;
        }
        assert(self.downloads@.subrange(0, i as int) =~= self.downloads@);
        total
    }

    /// The time left for a download's remaining bytes at a speed.
    pub fn eta_secs(remaining_bytes: u64, speed_bps: u64) -> (r: Option<u64>)
        ensures
            speed_bps == 0 ==> r is None,
            speed_bps > 0 ==> r == Some((remaining_bytes / speed_bps) as u64),
    {
        eta_secs(remaining_bytes, speed_bps)
    }
}

/// The sum of the speeds of the downloads over windows from `cutoff`.
pub open spec fn total_speed(d: Seq<(u128, DownloadSamples)>, cutoff: u64) -> nat
    decreases d.len(),
{
    if d.len() == 0 {
        0
    } else {
        total_speed(d.drop_last(), cutoff) + speed_of(window_sum(d.last().1.samples@, cutoff))
    }
}

/// Whether every download's window bytes times 1000, and every partial sum
/// of speeds, fit in 64 bits.
pub open spec fn speeds_fit(d: Seq<(u128, DownloadSamples)>, cutoff: u64) -> bool
    decreases d.len(),
{
    if d.len() == 0 {
        true
    } else {
        &&& speeds_fit(d.drop_last(), cutoff)
        &&& window_sum(d.last().1.samples@, cutoff) * 1000 <= u64::MAX
        &&& total_speed(d, cutoff) <= u64::MAX
    }
}

proof fn lemma_speeds_fit_prefix(d: Seq<(u128, DownloadSamples)>, cutoff: u64, n: int)
    requires
        0 <= n <= d.len(),
        speeds_fit(d, cutoff),
    ensures
        speeds_fit(d.subrange(0, n), cutoff),
    decreases d.len() - n,
{
    if n < d.len() {
        lemma_speeds_fit_prefix(d.drop_last(), cutoff, n);
        assert(d.drop_last().subrange(0, n) =~= d.subrange(0, n));
    } else {
        assert(d.subrange(0, n) =~= d);
    }
}

proof fn lemma_speeds_fit_extend(d: Seq<(u128, DownloadSamples)>, cutoff: u64, i: int)
    requires
        0 <= i < d.len(),
        !speeds_fit(d.subrange(0, i + 1), cutoff),
    ensures
        !speeds_fit(d, cutoff),
{
    if speeds_fit(d, cutoff) {
        lemma_speeds_fit_prefix(d, cutoff, i + 1);
    }
}

/// The bytes of the samples that arrived at or after `cutoff`.
fn samples_window_sum(samples: &Vec<(u64, u64)>, cutoff: u64) -> (r: u128)
    ensures
        r == window_sum(samples@, cutoff),
{
    let mut sum: u128 = 0;
    let mut i: usize = 0;
    while i < samples.len()
        invariant
            i <= samples@.len(),
            sum == window_sum(samples@.subrange(0, i as int), cutoff),
            sum <= i * (u64::MAX as nat),
        decreases samples@.len() - i,
    {
        let s = samples[i];
        proof {
            assert(samples@.subrange(0, i + 1).drop_last() =~= samples@.subrange(0, i as int));
            assert(samples@.subrange(0, i + 1).last() == s);
            assert(i * (u64::MAX as nat) + u64::MAX <= u128::MAX) by (nonlinear_arith)
                requires i < usize::MAX, usize::MAX <= u64::MAX;
            assert((i + 1) * (u64::MAX as nat) == i * (u64::MAX as nat) + u64::MAX) by (nonlinear_arith);
        }
        if s.1 >= cutoff {
            sum = sum + s.0 as u128;
        }
        i = i + 1;
    }
    assert(samples@.subrange(0, i as int) =~= samples@);
    sum
}

proof fn lemma_recent_push(s: Seq<(u64, u64)>, x: (u64, u64), cutoff: u64)
    ensures
        recent(s.push(x), cutoff) == (if x.1 >= cutoff { recent(s, cutoff).push(x) } else { recent(s, cutoff) }),
{
    reveal(Seq::filter);
    assert(s.push(x).drop_last() =~= s);
}

proof fn lemma_entry_unchanged_prefix(a: Seq<(u128, DownloadSamples)>, b: Seq<(u128, DownloadSamples)>, id: u128, p: int, k: int)
    requires
        0 <= k <= p < a.len(),
        a.len() == b.len(),
        a[p].0 == id,
        b[p].0 == id,
        forall|j: int| 0 <= j < p ==> a[j].0 != id && b[j] == a[j],
    ensures
        entry_from(b, id, k) == Some(p),
    decreases p - k,
{
    if k < p {
        lemma_entry_unchanged_prefix(a, b, id, p, k + 1);
    }
}

proof fn lemma_entry_at_end(d: Seq<(u128, DownloadSamples)>, id: u128, k: int)
    requires
        d.len() > 0,
        d.last().0 == id,
        0 <= k < d.len(),
        forall|j: int| k <= j < d.len() - 1 ==> d[j].0 != id,
    ensures
        entry_from(d, id, k) == Some(d.len() - 1),
    decreases d.len() - k,
{
    if k < d.len() - 1 {
        lemma_entry_at_end(d, id, k + 1);
    }
}

} // verus!
