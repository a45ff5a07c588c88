//! The order in which a pairwise sum reduces its terms.
//!
//! Up to 7 terms are added left to right; up to 128 terms go through eight
//! accumulators that take eight consecutive terms per step, after which the
//! remaining terms are added one by one; longer runs are split in two halves,
//! the split rounded down to a multiple of eight, and each half is reduced the
//! same way.

use vstd::prelude::*;

verus! {

/// How a run of terms is reduced.
#[derive(Debug, Clone, Copy, PartialEq, Eq, Structural)]
pub enum Reduction {
    /// No term: the sum is zero.
    Empty,
    /// Fewer than eight terms, added left to right.
    Sequential,
    /// Eight accumulators over the terms before `tail`, combined as
    /// `((a0 + a1) + (a2 + a3)) + ((a4 + a5) + (a6 + a7))`; the terms from
    /// `tail` on are then added left to right.
    Blocked { tail: usize },
    /// The terms before `half` and those from `half` on are reduced apart and
    /// the two sums added.
    Split { half: usize },
}

/// The reduction used for a run of `n` terms.
pub open spec fn reduction(n: nat) -> Reduction {
    if n == 0 {
        Reduction::Empty
    } else if n < 8 {
        Reduction::Sequential
    } else if n <= 128 {
        Reduction::Blocked { tail: (8 * (n / 8)) as usize }
    } else {
        Reduction::Split { half: ((n / 2) - (n / 2) % 8) as usize }
    }
}

/// How to reduce a run of `n` terms.
pub fn pairwise_plan(n: usize) -> (r: Reduction)
    ensures
        r == reduction(n as nat),
        r matches Reduction::Blocked { tail } ==> 8 <= tail <= n < tail + 8 && tail % 8 == 0,
        r matches Reduction::Split { half } ==> 64 <= half && half + 64 < n && half % 8 == 0,
        (r == Reduction::Empty) <==> n == 0,
        (r == Reduction::Sequential) <==> 1 <= n < 8,
        (r is Blocked) <==> 8 <= n <= 128,
        (r is Split) <==> n > 128,
        r matches Reduction::Split { half } ==> half <= n / 2 < half + 8,
{
    proof {
        lemma_reduction_covers(n as nat);
    }
    if n == 0 {
        Reduction::Empty
    } else if n < 8 {
        Reduction::Sequential
    } else if n <= 128 {
        Reduction::Blocked { tail: 8 * (n / 8) }
    } else {
        let h = n / 2;
        Reduction::Split { half: h - h % 8 }
    }
}

/// Law: every term is reduced. No term is dropped for any run that has one:
/// the sum is zero only for an empty run; fewer than eight terms are all added
/// left to right; a run of 8 to 128 terms goes through the eight accumulators
/// up to the largest multiple of eight and adds the rest one by one; a longer
/// run is split at the largest multiple of eight not above half its length,
/// and both halves keep terms.
pub proof fn lemma_reduction_covers(n: nat)
    ensures
        (reduction(n) == Reduction::Empty) <==> n == 0,
        (reduction(n) == Reduction::Sequential) <==> 1 <= n < 8,
        (reduction(n) is Blocked) <==> 8 <= n <= 128,
        (reduction(n) is Split) <==> n > 128,
        reduction(n) matches Reduction::Blocked { tail } ==> tail % 8 == 0 && 8 <= tail <= n
            < tail + 8,
        n <= usize::MAX ==> (reduction(n) matches Reduction::Split { half } ==> half % 8 == 0
            && half <= n / 2 < half + 8 && 0 < half < n),
{
}

} // verus!
