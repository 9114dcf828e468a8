//! A verified store for user-captured screenshots.
//!
//! The library keeps a searchable catalog of screenshot items, models the
//! on-disk blob directories that back them, and evicts the oldest items once
//! total usage exceeds a fixed byte budget.

pub mod capture;
pub mod export;
pub mod laws;
pub mod meta;
pub mod model;
pub mod order;
pub mod paths;
pub mod query;
pub mod save;
pub mod store;
pub mod text;
pub mod upload;

use vstd::prelude::*;

verus! {

/// Sum of a sequence of byte counts, as an unbounded integer.
pub open spec fn sum_of(sizes: Seq<u64>) -> int
    decreases sizes.len(),
{
    if sizes.len() == 0 {
        0
    } else {
        sum_of(sizes.drop_last()) + sizes.last()
    }
}

/// Saturating total of measured file sizes; the size accountant's summation.
pub fn total_of_sizes(sizes: &Vec<u64>) -> (total: u64)
    ensures
        sum_of(sizes@) <= u64::MAX ==> total == sum_of(sizes@),
        sum_of(sizes@) > u64::MAX ==> total == u64::MAX,
{
    let mut total: u64 = 0;
    let mut i: usize = 0;
    while i < sizes.len()
        invariant
            i <= sizes.len(),
            sum_of(sizes@.take(i as int)) <= u64::MAX ==> total == sum_of(sizes@.take(i as int)),
            sum_of(sizes@.take(i as int)) > u64::MAX ==> total == u64::MAX,
        decreases sizes.len() - i,
    {
        proof {
            assert(sizes@.take(i + 1 as int).drop_last() =~= sizes@.take(i as int));
        }
        total = total.saturating_add(sizes[i]);
        i = i + 1;
    }
    proof {
        assert(sizes@.take(sizes@.len() as int) =~= sizes@);
    }
    total
}

} // verus!
