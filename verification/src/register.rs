//! The aggregate kept per category and its merge operation.

use vstd::prelude::*;

verus! {

/// The mathematical value of an aggregate: how many lines, and how many bytes they held.
pub struct Tally {
    pub lines: nat,
    pub bytes: nat,
}

impl Tally {
    /// The aggregate of no line at all.
    pub open spec fn zero() -> Tally {
        Tally { lines: 0, bytes: 0 }
    }

    /// The contribution of a single line of `bytes` bytes.
    pub open spec fn one_line(bytes: nat) -> Tally {
        Tally { lines: 1, bytes }
    }

    /// The merge of two aggregates: both components add up.
    pub open spec fn plus(self, delta: Tally) -> Tally {
        Tally { lines: self.lines + delta.lines, bytes: self.bytes + delta.bytes }
    }
}

/// The aggregate of one category: a line counter and the total size of those lines.
#[derive(Hash, Eq, PartialEq, Debug, Clone, Copy, Structural)]
pub struct LogRegister {
    pub counter: u32,
    pub num_of_bytes: u64,
}

impl View for LogRegister {
    type V = Tally;

    open spec fn view(&self) -> Tally {
        Tally { lines: self.counter as nat, bytes: self.num_of_bytes as nat }
    }
}

impl LogRegister {
    /// Whether merging `rhs` into `self` stays within the counters' ranges.
    pub open spec fn can_add(self, rhs: LogRegister) -> bool {
        &&& self.counter + rhs.counter <= u32::MAX
        &&& self.num_of_bytes + rhs.num_of_bytes <= u64::MAX
    }

    /// The delta of one line of `num_of_bytes` bytes.
    pub fn new(num_of_bytes: u64) -> (r: Self)
        ensures
            r.counter == 1,
            r.num_of_bytes == num_of_bytes,
            r@ == Tally::one_line(num_of_bytes as nat),
    {
        Self { counter: 1, num_of_bytes }
    }

    /// The aggregate a category starts from.
    pub fn zero() -> (r: Self)
        ensures
            r.counter == 0,
            r.num_of_bytes == 0,
            r@ == Tally::zero(),
    {
        Self { counter: 0, num_of_bytes: 0 }
    }

    /// Merges `rhs` into `self`, component by component.
    pub fn add_assign(&mut self, rhs: Self)
        requires
            old(self).can_add(rhs),
        ensures
            final(self).counter == old(self).counter + rhs.counter,
            final(self).num_of_bytes == old(self).num_of_bytes + rhs.num_of_bytes,
            final(self)@ == old(self)@.plus(rhs@),
    {
        *self = Self {
            counter: self.counter + rhs.counter,
            num_of_bytes: self.num_of_bytes + rhs.num_of_bytes,
        }
    }
}

/// Merging is commutative: two deltas folded into the zero aggregate give the
/// same aggregate in either order.
pub proof fn lemma_merge_commutative(d1: Tally, d2: Tally)
    ensures
        Tally::zero().plus(d1).plus(d2) == Tally::zero().plus(d2).plus(d1),
{
}

/// Merging is associative, and the zero aggregate is its neutral element.
pub proof fn lemma_merge_associative(a: Tally, b: Tally, c: Tally)
    ensures
        a.plus(b).plus(c) == a.plus(b.plus(c)),
        a.plus(b) == b.plus(a),
        Tally::zero().plus(a) == a,
        a.plus(Tally::zero()) == a,
{
}

} // verus!
