//! Estimates of how many items are left.

use vstd::prelude::*;

verus! {

/// A producer's estimate, widened by the `depth` entries that stand in front
/// of the producer. Both bounds stop at `usize::MAX`; an upper bound that the
/// producer does not give stays absent.
pub open spec fn widened(inner: (usize, Option<usize>), depth: nat) -> (usize, Option<usize>) {
    (
        if inner.0 + depth <= usize::MAX {
            (inner.0 + depth) as usize
        } else {
            usize::MAX
        },
        match inner.1 {
            Some(upper) => Some(
                if upper + depth <= usize::MAX {
                    (upper + depth) as usize
                } else {
                    usize::MAX
                },
            ),
            None => None,
        },
    )
}

/// Widens a producer's estimate by `depth` entries.
pub fn widen_bounds(inner: (usize, Option<usize>), depth: usize) -> (r: (usize, Option<usize>))
    ensures
        r == widened(inner, depth as nat),
{
    let lower: usize = inner.0.saturating_add(depth);
    let upper: Option<usize> = match inner.1 {
        Some(upper) => Some(upper.saturating_add(depth)),
        None => None,
    };
    (lower, upper)
}

} // verus!
