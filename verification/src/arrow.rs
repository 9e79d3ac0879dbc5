use vstd::prelude::*;

verus! {

/// The id handed out `k` calls after a counter stood at `start`: ids count up and wrap
/// around at 2^64.
pub open spec fn nth_arrow_id(start: u64, k: nat) -> u64 {
    ((start + k) % 0x1_0000_0000_0000_0000) as u64
}

/// Source of unique arrow marker ids, so that several arrows in one SVG document
/// never share a marker id.
pub struct ArrowIds {
    next: u64,
}

impl View for ArrowIds {
    type V = u64;

    closed spec fn view(&self) -> u64 {
        self.next
    }
}

impl ArrowIds {
    /// A counter whose first id is 0.
    pub fn new() -> (ids: ArrowIds)
        ensures
            ids@ == 0,
    {
        ArrowIds { next: 0 }
    }

    /// Hand out the current id and advance the counter by one (wrapping at 2^64).
    pub fn next_arrow_id(&mut self) -> (id: u64)
        ensures
            id == old(self)@,
            final(self)@ == nth_arrow_id(old(self)@, 1),
    {
        let id = self.next;
        self.next = if self.next == u64::MAX {
            0
        } else {
            self.next + 1
        };
        id
    }
}

/// Advancing by one id, `k` times over, is advancing by `k` ids.
pub proof fn lemma_arrow_ids_advance(start: u64, k: nat)
    ensures
        nth_arrow_id(nth_arrow_id(start, k), 1) == nth_arrow_id(start, k + 1),
{
    let m: int = 0x1_0000_0000_0000_0000;
    assert(((start + k) % m + 1) % m == (start + k + 1) % m) by (nonlinear_arith)
        requires
            m > 0,
    ;
}

/// Ids handed out by fewer than 2^64 successive calls are pairwise distinct.
pub proof fn lemma_arrow_ids_distinct(start: u64, a: nat, b: nat)
    requires
        a < b < 0x1_0000_0000_0000_0000,
    ensures
        nth_arrow_id(start, a) != nth_arrow_id(start, b),
{
    let m: int = 0x1_0000_0000_0000_0000;
    assert((start + a) % m != (start + b) % m) by (nonlinear_arith)
        requires
            m > 0,
            0 <= a < b < m,
            0 <= start < m,
    ;
}

} // verus!
