//! The dispenser that hands chunk numbers to the workers of a download:
//! numbers given back after a failure first (last given back, first out),
//! then fresh numbers in increasing order while they lie inside the file.

use vstd::prelude::*;
use super::chunk::{chunk_offset_fits, chunk_offset_in_range, is_valid_chunk_id, spec_chunk_offset};

verus! {

/// The shared source of chunk numbers of one download.
pub struct ChunkIdDispenser {
    /// The next fresh chunk number.
    pub next: u64,
    /// Chunk numbers given back, to be handed out again.
    pub rejected: Vec<u64>,
    pub file_size: u64,
    pub size_multi: u32,
}

/// A dispenser's state, taken by value.
pub struct DispenserView {
    pub next: u64,
    pub rejected: Seq<u64>,
    pub file_size: u64,
    pub size_multi: u32,
}

impl View for ChunkIdDispenser {
    type V = DispenserView;

    open spec fn view(&self) -> DispenserView {
        DispenserView { next: self.next, rejected: self.rejected@, file_size: self.file_size, size_multi: self.size_multi }
    }
}

/// Whether the dispenser can decide on its next number: one was given
/// back, or the next fresh one's offset can be computed.
pub open spec fn can_dispense(s: DispenserView) -> bool {
    s.rejected.len() > 0 || chunk_offset_fits(s.next as nat, s.size_multi as nat)
}

/// The next number handed out and the dispenser after it: the last number
/// given back, or else the next fresh number, which is handed out only
/// while it starts inside the file (the counter moves on either way).
pub open spec fn spec_dispense(s: DispenserView) -> (DispenserView, Option<u64>) {
    if s.rejected.len() > 0 {
        (DispenserView { rejected: s.rejected.drop_last(), ..s }, Some(s.rejected.last()))
    } else {
        (
            DispenserView { next: (s.next + 1) as u64, ..s },
            if spec_chunk_offset(s.next as nat, s.size_multi as nat) < s.file_size { Some(s.next) } else { None },
        )
    }
}

/// The dispenser after a number is given back.
pub open spec fn spec_reject(s: DispenserView, id: u64) -> DispenserView {
    DispenserView { rejected: s.rejected.push(id), ..s }
}

impl ChunkIdDispenser {
    /// A dispenser whose first fresh number is `start_chunk`.
    pub fn new(start_chunk: u64, file_size: u64, size_multi: u32) -> (r: Self)
        ensures
            r@ == (DispenserView { next: start_chunk, rejected: Seq::empty(), file_size, size_multi }),
    {
        ChunkIdDispenser { next: start_chunk, rejected: Vec::new(), file_size, size_multi }
    }

    /// Whether [`next`](Self::next) can be called.
    pub fn can_dispense(&self) -> (r: bool)
        ensures
            r == can_dispense(self@),
    {
        self.rejected.len() > 0 || chunk_offset_in_range(self.next, self.size_multi)
    }

    /// The next chunk number to download, or `None` where the file has no
    /// more chunks.
    pub fn next(&mut self) -> (r: Option<u64>)
        requires
            can_dispense(old(self)@),
        ensures
            (final(self)@, r) == spec_dispense(old(self)@),
    {
        match self.rejected.pop() {
            Some(id) => Some(id),
            None => {
                let id = self.next;
                assert(id < u64::MAX) by (nonlinear_arith)
                    requires
                        chunk_offset_fits(id as nat, self.size_multi as nat),
                        id >= 8 ==> ((id - 8) as nat) * 1024 <= u64::MAX;
                self.next = id + 1;
                if is_valid_chunk_id(id, self.file_size, self.size_multi) {
                    Some(id)
                } else {
                    None
                }
            },
        }
    }

    /// Gives a chunk number back, to be handed out again first.
    pub fn reject(&mut self, id: u64)
        ensures
            final(self)@ == spec_reject(old(self)@, id),
    {
        self.rejected.push(id);
    }
}

/// A number given back is the next one handed out, and handing it out
/// leaves the dispenser as it was before.
pub proof fn lemma_reject_then_dispense(s: DispenserView, id: u64)
    ensures
        spec_dispense(spec_reject(s, id)) == (s, Some(id)),
{
    assert(s.rejected.push(id).drop_last() =~= s.rejected);
}

/// Fresh numbers are handed out in increasing order: once none is given
/// back, each call moves the counter on by one.
pub proof fn lemma_fresh_numbers_increase(s: DispenserView)
    requires
        s.rejected.len() == 0,
        can_dispense(s),
    ensures
        spec_dispense(s).0.next == s.next + 1,
        spec_dispense(s).1 matches Some(id) ==> id == s.next,
{
    assert(s.next < u64::MAX) by (nonlinear_arith)
        requires
            chunk_offset_fits(s.next as nat, s.size_multi as nat),
            s.next >= 8 ==> ((s.next - 8) as nat) * 1024 <= u64::MAX;
}

} // verus!
