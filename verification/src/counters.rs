//! Statistics of a search: nodes visited, cutoffs, and transposition table traffic.
use vstd::prelude::*;

verus! {

/// How often the search visited a node, cut off a branch, and read or wrote the
/// transposition table. The counts wrap around on overflow.
#[derive(Clone, Copy, Debug, PartialEq, Eq, Structural)]
pub struct Counters {
    pub iters: u64,
    pub breaks: u64,
    pub reads: u64,
    pub exactreads: u64,
    pub writes: u64,
    pub collisions: u64,
}

/// The sum of two counts, wrapping around at the end of the range.
pub open spec fn sum_count(x: u64, y: u64) -> u64 {
    if x + y > u64::MAX {
        (x + y - 0x1_0000_0000_0000_0000) as u64
    } else {
        (x + y) as u64
    }
}

/// One more, wrapping around at the end of the range.
pub open spec fn next_count(x: u64) -> u64 {
    sum_count(x, 1)
}

impl Counters {
    /// All counts zero.
    pub fn new() -> (r: Counters)
        ensures
            r == (Counters {
                iters: 0,
                breaks: 0,
                reads: 0,
                exactreads: 0,
                writes: 0,
                collisions: 0,
            }),
    {
        Counters { iters: 0, breaks: 0, reads: 0, exactreads: 0, writes: 0, collisions: 0 }
    }

    /// Counts a visited node.
    pub fn inc_iters(&mut self)
        ensures
            *final(self) == (Counters { iters: next_count(old(self).iters), ..*old(self) }),
    {
        self.iters = self.iters.wrapping_add(1);
    }

    /// Counts a cutoff.
    pub fn inc_breaks(&mut self)
        ensures
            *final(self) == (Counters { breaks: next_count(old(self).breaks), ..*old(self) }),
    {
        self.breaks = self.breaks.wrapping_add(1);
    }

    /// Counts a successful read of the transposition table.
    pub fn inc_reads(&mut self)
        ensures
            *final(self) == (Counters { reads: next_count(old(self).reads), ..*old(self) }),
    {
        self.reads = self.reads.wrapping_add(1);
    }

    /// Counts a read of an exact value.
    pub fn inc_exactreads(&mut self)
        ensures
            *final(self) == (Counters {
                exactreads: next_count(old(self).exactreads),
                ..*old(self)
            }),
    {
        self.exactreads = self.exactreads.wrapping_add(1);
    }

    /// Counts a write to the transposition table.
    pub fn inc_writes(&mut self)
        ensures
            *final(self) == (Counters { writes: next_count(old(self).writes), ..*old(self) }),
    {
        self.writes = self.writes.wrapping_add(1);
    }

    /// Counts a slot that held another position.
    pub fn inc_collisions(&mut self)
        ensures
            *final(self) == (Counters {
                collisions: next_count(old(self).collisions),
                ..*old(self)
            }),
    {
        self.collisions = self.collisions.wrapping_add(1);
    }

    /// Adds the counts of another search.
    pub fn add(&mut self, other: Counters)
        ensures
            final(self).iters == sum_count(old(self).iters, other.iters),
            final(self).breaks == sum_count(old(self).breaks, other.breaks),
            final(self).reads == sum_count(old(self).reads, other.reads),
            final(self).exactreads == sum_count(old(self).exactreads, other.exactreads),
            final(self).writes == sum_count(old(self).writes, other.writes),
            final(self).collisions == sum_count(old(self).collisions, other.collisions),
    {
        self.iters = self.iters.wrapping_add(other.iters);
        self.breaks = self.breaks.wrapping_add(other.breaks);
        self.reads = self.reads.wrapping_add(other.reads);
        self.exactreads = self.exactreads.wrapping_add(other.exactreads);
        self.writes = self.writes.wrapping_add(other.writes);
        self.collisions = self.collisions.wrapping_add(other.collisions);
    }
}

} // verus!
