//! The candidate scorer: the value a pool achieves under a given budget.

use vstd::prelude::*;
use vstd::arithmetic::mul::{lemma_mul_nonnegative, lemma_mul_upper_bound};
use crate::model::{LibraryModel, lemma_sum_of_first_mono, sum_of_first};
use crate::entities::Library;

verus! {

/// A pool is feasible under budget `d` when its activation fits: the time
/// remaining after signup is non-negative.
pub open spec fn feasible(l: LibraryModel, d: int) -> bool {
    l.signup_time <= d
}

/// Items processable in the time remaining once the pool is active.
pub open spec fn capacity(l: LibraryModel, d: int) -> int {
    (d - l.signup_time) * l.books_per_day
}

/// How many books of the inventory the pool can actually deliver: its
/// capacity, clamped to the inventory size (and to zero from below).
pub open spec fn take_count(l: LibraryModel, d: int) -> int {
    let c = capacity(l, d);
    if c < 0 {
        0
    } else if c < l.books.len() as int {
        c
    } else {
        l.books.len() as int
    }
}

/// The value a pool achieves under budget `d`: the sum of the values of its
/// first `take_count` books. The inventory is sorted by descending value, so
/// these are its most valuable books.
pub open spec fn score_spec(l: LibraryModel, d: int) -> int {
    sum_of_first(l.books, take_count(l, d))
}

/// A well-formed library has non-negative book values.
pub proof fn lemma_wf_scores_nonneg(l: LibraryModel)
    requires
        l.wf(),
    ensures
        forall|k: int| 0 <= k < l.books.len() ==> 0 <= (#[trigger] l.books[k]).score,
{
    assert forall|k: int| 0 <= k < l.books.len() implies 0 <= (#[trigger] l.books[k]).score by {
        assert(l.books[k].wf());
    }
}

/// The scorer. Pure: the result is a function of the pool and the budget
/// alone, and the pool is left untouched.
pub fn score(lib: &Library, days_left: i64) -> (r: i64)
    requires
        lib@.wf(),
        feasible(lib@, days_left as int),
    ensures
        r == score_spec(lib@, days_left as int),
        0 <= r,
{
    let ghost d0: int = days_left as int;
    let days_after: i64 = days_left - lib.signup_time;
    proof {
        lemma_mul_nonnegative(days_after as int, lib.books_per_day as int);
        lemma_mul_upper_bound(days_after as int, i64::MAX as int, lib.books_per_day as int,
            i64::MAX as int);
    }
    let cap: u128 = (days_after as u128) * (lib.books_per_day as u128);
    proof {
        assert(cap as int == capacity(lib@, d0));
    }
    let n: usize = lib.books.len();
    let take: usize = if (n as u128) <= cap {
        n
    } else {
        cap as usize
    };
    proof {
        assert(take as int == take_count(lib@, d0));
        lemma_wf_scores_nonneg(lib@);
    }
    let mut sum: i64 = 0;
    let mut i: usize = 0;
    while i < take
        invariant
            lib@.wf(),
            i <= take,
            take <= lib.books.len(),
            take as int == take_count(lib@, d0),
            sum == sum_of_first(lib@.books, i as int),
            0 <= sum,
        decreases take - i,
    {
        proof {
            lemma_wf_scores_nonneg(lib@);
            lemma_sum_of_first_mono(lib@.books, 0, i as int + 1);
            lemma_sum_of_first_mono(lib@.books, i as int + 1, lib@.books.len() as int);
            assert(lib@.books[i as int] == lib.books@[i as int]@);
        }
        sum = sum + lib.books[i].score;
        i = i + 1;
    }
    sum
}

} // verus!
