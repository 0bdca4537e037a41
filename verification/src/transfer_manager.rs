//! The transfer queue: downloads wait in order for a free slot, at most a
//! set number run at once, and waiting downloads can be moved up or down.

use vstd::prelude::*;
use vstd::string::StringExecFns;
use crate::download::DownloadParams;

verus! {

/// Counts of the downloads by state, with their speed and progress.
pub struct TransferSummary {
    pub queued: usize,
    pub running: usize,
    pub paused: usize,
    pub finished: usize,
    pub failed: usize,
    pub global_speed: u64,
    pub total_progress: u64,
    pub total_size: u64,
}

/// Fewest downloads allowed to run at once.
pub const MIN_RUNNING: u32 = 1;
/// Most downloads allowed to run at once.
pub const MAX_RUNNING: u32 = 50;

/// A queue entry: a download's id and what it fetches.
pub type QueueEntry = (u128, DownloadParams);

/// `uuid::Uuid::new_v4`, as a number: a fresh random identifier.
#[verifier::external_body]
fn fresh_id() -> (r: u128) {
    uuid::Uuid::new_v4().as_u128()
}

/// The position of the first entry at or after `k` with this id.
pub open spec fn position_from(q: Seq<QueueEntry>, id: u128, k: int) -> Option<int>
    decreases q.len() - k,
{
    if k < 0 || k >= q.len() {
        None
    } else if q[k].0 == id {
        Some(k)
    } else {
        position_from(q, id, k + 1)
    }
}

/// The position of the first entry with this id.
pub open spec fn position_of(q: Seq<QueueEntry>, id: u128) -> Option<int> {
    position_from(q, id, 0)
}

/// The queue with the entry of `id` moved to the front.
pub open spec fn spec_move_to_top(q: Seq<QueueEntry>, id: u128) -> Seq<QueueEntry> {
    match position_of(q, id) {
        Some(p) => q.remove(p).insert(0, q[p]),
        None => q,
    }
}

/// The queue with the entry of `id` moved one place towards the front.
pub open spec fn spec_move_up(q: Seq<QueueEntry>, id: u128) -> Seq<QueueEntry> {
    match position_of(q, id) {
        Some(p) => if p > 0 { q.remove(p).insert(p - 1, q[p]) } else { q },
        None => q,
    }
}

/// The queue with the entry of `id` moved one place towards the back.
pub open spec fn spec_move_down(q: Seq<QueueEntry>, id: u128) -> Seq<QueueEntry> {
    match position_of(q, id) {
        Some(p) => if p + 1 < q.len() { q.remove(p).insert(p + 1, q[p]) } else { q },
        None => q,
    }
}

/// The queue with the entry of `id` moved to the back.
pub open spec fn spec_move_to_bottom(q: Seq<QueueEntry>, id: u128) -> Seq<QueueEntry> {
    match position_of(q, id) {
        Some(p) => q.remove(p).push(q[p]),
        None => q,
    }
}

/// How many waiting downloads may start when `running` are running and at
/// most `max` may: the difference, or none.
pub open spec fn free_slots(max: u32, running: nat) -> nat {
    if running >= max { 0 } else { (max - running) as nat }
}

/// How many of `waiting` queued downloads start when `running` are running
/// and at most `max` may: as many as there are free slots and downloads.
pub open spec fn start_count(max: u32, running: nat, waiting: nat) -> nat {
    if free_slots(max, running) < waiting { free_slots(max, running) } else { waiting }
}

/// The waiting downloads and how many may run at once.
pub struct TransferManager {
    /// Downloads allowed to run at once.
    pub max_running: u32,
    /// The waiting downloads, the next to start first.
    pub wait_queue: Vec<QueueEntry>,
}

impl TransferManager {
    /// An empty queue allowing `max_running` downloads at once.
    pub fn new(max_running: u32) -> (r: Self)
        ensures
            r.max_running == max_running,
            r.wait_queue@.len() == 0,
    {
        TransferManager { max_running, wait_queue: Vec::new() }
    }

    /// Puts downloads at the back of the queue, in order, each under a
    /// fresh id; returns the ids.
    pub fn add_downloads(&mut self, params_list: Vec<DownloadParams>) -> (r: Vec<u128>)
        ensures
            r@.len() == params_list@.len(),
            final(self).max_running == old(self).max_running,
            final(self).wait_queue@ == old(self).wait_queue@
                + Seq::new(params_list@.len(), |i: int| (r@[i], params_list@[i])),
    {
        let mut ids: Vec<u128> = Vec::new();
        let mut pending = params_list;
        let ghost all = pending@;
        let ghost before = self.wait_queue@;
        assert(all.len() == pending.len());
        let mut k: usize = 0;
        while pending.len() > 0
            invariant
                k <= all.len(),
                all.len() <= usize::MAX,
                pending@ == all.subrange(k as int, all.len() as int),
                ids@.len() == k,
                self.max_running == old(self).max_running,
                self.wait_queue@ == before + Seq::new(k as nat, |i: int| (ids@[i], all[i])),
            decreases pending@.len(),
        {
            let p = pending.remove(0);
            let id = fresh_id();
            ids.push(id);
            self.wait_queue.push((id, p));
            k = k + 1;
            assert(pending@ =~= all.subrange(k as int, all.len() as int));
            assert(self.wait_queue@ =~= before + Seq::new(k as nat, |i: int| (ids@[i], all[i])));
        }
        ids
    }

    /// Takes the downloads that may start now, `running` being under way:
    /// as many as there are free slots, from the front of the queue.
    pub fn take_startable(&mut self, running: usize) -> (r: Vec<QueueEntry>)
        ensures
            ({
                let n = start_count(old(self).max_running, running as nat, old(self).wait_queue@.len()) as int;
                &&& r@ == old(self).wait_queue@.subrange(0, n)
                &&& final(self).wait_queue@ == old(self).wait_queue@.subrange(n, old(self).wait_queue@.len() as int)
            }),
            final(self).max_running == old(self).max_running,
    {
        let max = self.max_running as usize;
        let slots = if running >= max { 0 } else { max - running };
        let mut out: Vec<QueueEntry> = Vec::new();
        let ghost q = self.wait_queue@;
        let mut taken: usize = 0;
        while taken < slots && self.wait_queue.len() > 0
            invariant
                taken <= slots,
                slots == free_slots(self.max_running, running as nat),
                self.max_running == old(self).max_running,
                q == old(self).wait_queue@,
                taken <= q.len(),
                out@ == q.subrange(0, taken as int),
                self.wait_queue@ == q.subrange(taken as int, q.len() as int),
            decreases slots - taken,
        {
            let e = self.wait_queue.remove(0);
            out.push(e);
            taken = taken + 1;
            assert(out@ =~= q.subrange(0, taken as int));
            assert(self.wait_queue@ =~= q.subrange(taken as int, q.len() as int));
        }
        out
    }

    /// Sets how many downloads may run at once, kept between 1 and 50.
    pub fn set_max_running(&mut self, max: u32)
        ensures
            final(self).max_running == (if max < MIN_RUNNING { MIN_RUNNING } else if max > MAX_RUNNING { MAX_RUNNING } else { max }),
            final(self).wait_queue@ == old(self).wait_queue@,
    {
        self.max_running = if max < MIN_RUNNING { MIN_RUNNING } else if max > MAX_RUNNING { MAX_RUNNING } else { max };
    }

    /// The number of waiting downloads.
    pub fn get_queued_count(&self) -> (r: usize)
        ensures
            r == self.wait_queue@.len(),
    {
        self.wait_queue.len()
    }

    fn position(&self, id: u128) -> (r: Option<usize>)
        ensures
            match r {
                Some(p) => position_of(self.wait_queue@, id) == Some(p as int) && p < self.wait_queue@.len(),
                None => position_of(self.wait_queue@, id) is None,
            },
    {
        let mut i: usize = 0;
        while i < self.wait_queue.len()
            invariant
                i <= self.wait_queue@.len(),
                position_of(self.wait_queue@, id) == position_from(self.wait_queue@, id, i as int),
            decreases self.wait_queue@.len() - i,
        {
            if self.wait_queue[i].0 == id {
                return Some(i);
            }
            i = i + 1;
        }
        None
    }

    /// Moves a waiting download to the front of the queue.
    pub fn move_to_top(&mut self, id: u128)
        ensures
            final(self).wait_queue@ == spec_move_to_top(old(self).wait_queue@, id),
            final(self).max_running == old(self).max_running,
    {
        if let Some(p) = self.position(id) {
            let e = self.wait_queue.remove(p);
            self.wait_queue.insert(0, e);
        }
    }

    /// Moves a waiting download one place towards the front.
    pub fn move_up(&mut self, id: u128)
        ensures
            final(self).wait_queue@ == spec_move_up(old(self).wait_queue@, id),
            final(self).max_running == old(self).max_running,
    {
        if let Some(p) = self.position(id) {
            if p > 0 {
                let e = self.wait_queue.remove(p);
                self.wait_queue.insert(p - 1, e);
            }
        }
    }

    /// Moves a waiting download one place towards the back.
    pub fn move_down(&mut self, id: u128)
        ensures
            final(self).wait_queue@ == spec_move_down(old(self).wait_queue@, id),
            final(self).max_running == old(self).max_running,
    {
        if let Some(p) = self.position(id) {
            if p < self.wait_queue.len() - 1 {
                let e = self.wait_queue.remove(p);
                self.wait_queue.insert(p + 1, e);
            }
        }
    }

    /// Moves a waiting download to the back of the queue.
    pub fn move_to_bottom(&mut self, id: u128)
        ensures
            final(self).wait_queue@ == spec_move_to_bottom(old(self).wait_queue@, id),
            final(self).max_running == old(self).max_running,
    {
        if let Some(p) = self.position(id) {
            let e = self.wait_queue.remove(p);
            self.wait_queue.push(e);
        }
    }
}

/// Where a waiting download is to be moved.
#[derive(Clone, Copy, Debug, PartialEq, Eq, Structural)]
pub enum MoveDirection {
    Top,
    Up,
    Down,
    Bottom,
}

/// The direction a text names: `top`, `up`, `down` or `bottom`.
pub open spec fn spec_direction(text: Seq<char>) -> Option<MoveDirection> {
    if text == "top"@ {
        Some(MoveDirection::Top)
    } else if text == "up"@ {
        Some(MoveDirection::Up)
    } else if text == "down"@ {
        Some(MoveDirection::Down)
    } else if text == "bottom"@ {
        Some(MoveDirection::Bottom)
    } else {
        None
    }
}

/// The queue after moving the entry of `id` in a direction.
pub open spec fn spec_move(q: Seq<QueueEntry>, id: u128, d: MoveDirection) -> Seq<QueueEntry> {
    match d {
        MoveDirection::Top => spec_move_to_top(q, id),
        MoveDirection::Up => spec_move_up(q, id),
        MoveDirection::Down => spec_move_down(q, id),
        MoveDirection::Bottom => spec_move_to_bottom(q, id),
    }
}

impl MoveDirection {
    /// The direction a text names; other texts are refused with
    /// `Unknown direction: ` and the text.
    pub fn parse(text: &str) -> (r: Result<MoveDirection, String>)
        ensures
            match spec_direction(text@) {
                Some(d) => r == Ok::<MoveDirection, String>(d),
                None => r matches Err(m) && m@ == "Unknown direction: "@ + text@,
            },
    {
        let t = String::from_str(text);
        if t == String::from_str("top") {
            Ok(MoveDirection::Top)
        } else if t == String::from_str("up") {
            Ok(MoveDirection::Up)
        } else if t == String::from_str("down") {
            Ok(MoveDirection::Down)
        } else if t == String::from_str("bottom") {
            Ok(MoveDirection::Bottom)
        } else {
            let mut m = String::from_str("Unknown direction: ");
            m.append(text);
            Err(m)
        }
    }
}

impl TransferManager {
    /// Moves a waiting download in the direction a text names.
    pub fn move_download(&mut self, id: u128, direction: &str) -> (r: Result<(), String>)
        ensures
            match spec_direction(direction@) {
                Some(d) => r is Ok && final(self).wait_queue@ == spec_move(old(self).wait_queue@, id, d),
                None => r matches Err(m) && m@ == "Unknown direction: "@ + direction@
                    && final(self).wait_queue@ == old(self).wait_queue@,
            },
            final(self).max_running == old(self).max_running,
    {
        match MoveDirection::parse(direction) {
            Ok(MoveDirection::Top) => self.move_to_top(id),
            Ok(MoveDirection::Up) => self.move_up(id),
            Ok(MoveDirection::Down) => self.move_down(id),
            Ok(MoveDirection::Bottom) => self.move_to_bottom(id),
            Err(m) => {
                return Err(m);
            },
        }
        Ok(())
    }
}

/// Starting what the queue hands out never takes the number of running
/// downloads above the limit (nor further above it where it already was),
/// and fills every free slot while downloads wait.
pub proof fn lemma_start_respects_limit(max: u32, running: nat, waiting: nat)
    ensures
        running + start_count(max, running, waiting) <= (if running > max { running } else { max as nat }),
        start_count(max, running, waiting) <= waiting,
        start_count(max, running, waiting) < waiting ==> running + start_count(max, running, waiting) >= max,
{
}

/// Reordering keeps the queue's entries: every move gives a permutation of it.
pub proof fn lemma_moves_permute(q: Seq<QueueEntry>, id: u128)
    ensures
        spec_move_to_top(q, id).to_multiset() == q.to_multiset(),
        spec_move_up(q, id).to_multiset() == q.to_multiset(),
        spec_move_down(q, id).to_multiset() == q.to_multiset(),
        spec_move_to_bottom(q, id).to_multiset() == q.to_multiset(),
{
    broadcast use vstd::seq_lib::group_to_multiset_ensures, vstd::multiset::group_multiset_axioms;
    match position_of(q, id) {
        Some(p) => {
            lemma_position_in_range(q, id, 0);
            assert(q.to_multiset().remove(q[p]).insert(q[p]) =~= q.to_multiset());
        },
        None => {},
    }
}

proof fn lemma_position_in_range(q: Seq<QueueEntry>, id: u128, k: int)
    ensures
        position_from(q, id, k) matches Some(p) ==> k <= p < q.len() && q[p].0 == id
            && forall|j: int| k <= j < p ==> q[j].0 != id,
    decreases q.len() - k,
{
    if 0 <= k < q.len() && q[k].0 != id {
        lemma_position_in_range(q, id, k + 1);
    }
}

/// Whether no two entries share an id.
pub open spec fn unique_ids(q: Seq<QueueEntry>) -> bool {
    forall|i: int, j: int| 0 <= i < q.len() && 0 <= j < q.len() && i != j ==> q[i].0 != q[j].0
}

proof fn lemma_position_unique(q: Seq<QueueEntry>, id: u128, p: int)
    requires
        unique_ids(q),
        0 <= p < q.len(),
        q[p].0 == id,
    ensures
        position_of(q, id) == Some(p),
{
    lemma_position_from_unique(q, id, p, 0);
}

proof fn lemma_position_from_unique(q: Seq<QueueEntry>, id: u128, p: int, k: int)
    requires
        unique_ids(q),
        0 <= k <= p < q.len(),
        q[p].0 == id,
    ensures
        position_from(q, id, k) == Some(p),
    decreases p - k,
{
    if k < p {
        assert(q[k].0 != id);
        lemma_position_from_unique(q, id, p, k + 1);
    }
}

/// Moving a download up and then down again restores the queue, where ids
/// are unique and the download was not already first.
pub proof fn lemma_move_up_then_down(q: Seq<QueueEntry>, id: u128)
    requires
        unique_ids(q),
        position_of(q, id) matches Some(p) && p > 0,
    ensures
        spec_move_down(spec_move_up(q, id), id) == q,
{
    lemma_position_in_range(q, id, 0);
    let p = position_of(q, id)->0;
    let q1 = spec_move_up(q, id);
    assert(q1 =~= q.remove(p).insert(p - 1, q[p]));
    assert(q1[p - 1] == q[p]);
    assert(unique_ids(q1)) by {
        assert forall|i: int, j: int| 0 <= i < q1.len() && 0 <= j < q1.len() && i != j implies q1[i].0 != q1[j].0 by {
            let oi = if i == p - 1 { p } else if i == p { p - 1 } else { i };
            let oj = if j == p - 1 { p } else if j == p { p - 1 } else { j };
            assert(q1[i] == q[oi]);
            assert(q1[j] == q[oj]);
        }
    }
    lemma_position_unique(q1, id, p - 1);
    assert(spec_move_down(q1, id) =~= q);
}

/// Moving a download to the top puts it first and keeps the others in their order.
pub proof fn lemma_move_to_top_front(q: Seq<QueueEntry>, id: u128)
    requires
        position_of(q, id) is Some,
    ensures
        ({
            let p = position_of(q, id)->0;
            let r = spec_move_to_top(q, id);
            &&& r[0] == q[p]
            &&& r.subrange(1, r.len() as int) == q.remove(p)
        }),
{
    lemma_position_in_range(q, id, 0);
    let p = position_of(q, id)->0;
    let r = spec_move_to_top(q, id);
    assert(r.subrange(1, r.len() as int) =~= q.remove(p));
}


proof fn lemma_position_is(q: Seq<QueueEntry>, id: u128, p: int, k: int)
    requires
        0 <= k <= p < q.len(),
        q[p].0 == id,
        forall|j: int| 0 <= j < p ==> q[j].0 != id,
    ensures
        position_from(q, id, k) == Some(p),
    decreases p - k,
{
    if k < p {
        lemma_position_is(q, id, p, k + 1);
    }
}

proof fn lemma_position_none(q: Seq<QueueEntry>, id: u128, k: int)
    requires
        0 <= k,
        forall|j: int| 0 <= j < q.len() ==> q[j].0 != id,
    ensures
        position_from(q, id, k) is None,
    decreases q.len() - k,
{
    if k < q.len() {
        lemma_position_none(q, id, k + 1);
    }
}

/// Where the moves put a download, `p` being the place of the first entry
/// with its id: to the bottom puts it last and keeps the others in order;
/// up swaps it with the entry before it (nothing changes when it is first);
/// down swaps it with the entry after it (nothing changes when it is last);
/// all other entries stay where they were.
pub proof fn lemma_move_places(q: Seq<QueueEntry>, id: u128, p: int)
    requires
        0 <= p < q.len(),
        q[p].0 == id,
        forall|j: int| 0 <= j < p ==> q[j].0 != id,
    ensures
        spec_move_to_bottom(q, id).len() == q.len(),
        spec_move_to_bottom(q, id)[q.len() - 1] == q[p],
        spec_move_to_bottom(q, id).subrange(0, q.len() - 1) == q.remove(p),
        spec_move_to_top(q, id)[0] == q[p],
        p == 0 ==> spec_move_up(q, id) == q,
        p > 0 ==> spec_move_up(q, id).len() == q.len() && spec_move_up(q, id)[p - 1] == q[p]
            && spec_move_up(q, id)[p] == q[p - 1]
            && forall|i: int| 0 <= i < q.len() && i != p - 1 && i != p ==> #[trigger] spec_move_up(q, id)[i] == q[i],
        p + 1 == q.len() ==> spec_move_down(q, id) == q,
        p + 1 < q.len() ==> spec_move_down(q, id).len() == q.len() && spec_move_down(q, id)[p + 1] == q[p]
            && spec_move_down(q, id)[p] == q[p + 1]
            && forall|i: int| 0 <= i < q.len() && i != p && i != p + 1 ==> #[trigger] spec_move_down(q, id)[i] == q[i],
{
    lemma_position_is(q, id, p, 0);
    let b = spec_move_to_bottom(q, id);
    assert(b.subrange(0, q.len() - 1) =~= q.remove(p));
    if p > 0 {
        let u = spec_move_up(q, id);
        assert forall|i: int| 0 <= i < q.len() && i != p - 1 && i != p implies #[trigger] u[i] == q[i] by {
            if i < p - 1 {
                assert(u[i] == q.remove(p)[i]);
            } else {
                assert(u[i] == q.remove(p)[i - 1]);
            }
        }
        assert(u[p] == q.remove(p)[p - 1]);
    }
    if p + 1 < q.len() {
        let d = spec_move_down(q, id);
        assert forall|i: int| 0 <= i < q.len() && i != p && i != p + 1 implies #[trigger] d[i] == q[i] by {
            if i < p {
                assert(d[i] == q.remove(p)[i]);
            } else {
                assert(d[i] == q.remove(p)[i - 1]);
            }
        }
        assert(d[p] == q.remove(p)[p]);
    }
}

/// Moving a download that is not queued leaves the queue as it is, in any
/// direction.
pub proof fn lemma_move_absent(q: Seq<QueueEntry>, id: u128, d: MoveDirection)
    requires
        forall|j: int| 0 <= j < q.len() ==> q[j].0 != id,
    ensures
        spec_move(q, id, d) == q,
{
    lemma_position_none(q, id, 0);
}

} // verus!
