//! Mathematical model of books and libraries.
//!
//! Contracts throughout the crate are stated over these spec-level records
//! rather than over the executable types directly.

use vstd::prelude::*;

verus! {

/// Model of a book: its identifier and its value.
#[verifier::ext_equal]
pub struct BookModel {
    pub id: int,
    pub score: int,
}

/// Model of a library: identifier, activation cost (signup time), per-day
/// throughput, and its inventory in its current order.
#[verifier::ext_equal]
pub struct LibraryModel {
    pub id: int,
    pub signup_time: int,
    pub books_per_day: int,
    pub books: Seq<BookModel>,
}

impl BookModel {
    /// Identifiers and values are non-negative.
    pub open spec fn wf(self) -> bool {
        0 <= self.id && 0 <= self.score
    }
}

/// Sum of the values of the first `n` books of `s`.
pub open spec fn sum_of_first(s: Seq<BookModel>, n: int) -> int
    decreases n,
{
    if n <= 0 {
        0
    } else {
        sum_of_first(s, n - 1) + s[n - 1].score
    }
}

/// Sum of the values of all books of `s`.
pub open spec fn total_score(s: Seq<BookModel>) -> int {
    sum_of_first(s, s.len() as int)
}

/// The inventory order: book values never increase along the sequence.
pub open spec fn sorted_desc(s: Seq<BookModel>) -> bool {
    forall|i: int, j: int|
        0 <= i <= j < s.len() ==> #[trigger] s[i].score >= #[trigger] s[j].score
}

impl LibraryModel {
    /// Well-formedness: non-negative fields, well-formed books, the whole
    /// inventory's value fits in an `i64`, and the inventory is sorted by
    /// descending value.
    pub open spec fn wf(self) -> bool {
        &&& 0 <= self.id
        &&& 0 <= self.signup_time
        &&& 0 <= self.books_per_day
        &&& forall|k: int| 0 <= k < self.books.len() ==> (#[trigger] self.books[k]).wf()
        &&& total_score(self.books) <= i64::MAX as int
        &&& sorted_desc(self.books)
    }
}

/// Every library of the sequence is well-formed.
pub open spec fn all_wf(s: Seq<LibraryModel>) -> bool {
    forall|k: int| 0 <= k < s.len() ==> (#[trigger] s[k]).wf()
}

/// A prefix sum only reads the books before `n`: two sequences that agree
/// there have the same prefix sum.
pub proof fn lemma_sum_of_first_agree(s: Seq<BookModel>, t: Seq<BookModel>, n: int)
    requires
        n <= s.len(),
        n <= t.len(),
        forall|k: int| 0 <= k < n ==> s[k] == t[k],
    ensures
        sum_of_first(s, n) == sum_of_first(t, n),
    decreases n,
{
    if n > 0 {
        lemma_sum_of_first_agree(s, t, n - 1);
        assert(s[n - 1] == t[n - 1]);
    }
}

/// A sequence whose adjacent pairs never increase is sorted by descending
/// value.
pub proof fn lemma_desc_from_adjacent(s: Seq<BookModel>, p: int, q: int)
    requires
        0 <= p <= q < s.len(),
        forall|k: int| 0 <= k && k + 1 < s.len() ==> (#[trigger] s[k]).score >= s[k + 1].score,
    ensures
        s[p].score >= s[q].score,
    decreases q - p,
{
    if p < q {
        lemma_desc_from_adjacent(s, p + 1, q);
        assert(s[p].score >= s[p + 1].score);
    }
}

/// With non-negative book values, prefix sums grow with the prefix length.
pub proof fn lemma_sum_of_first_mono(s: Seq<BookModel>, a: int, b: int)
    requires
        0 <= a <= b <= s.len(),
        forall|k: int| 0 <= k < s.len() ==> 0 <= (#[trigger] s[k]).score,
    ensures
        sum_of_first(s, a) <= sum_of_first(s, b),
    decreases b - a,
{
    if a < b {
        lemma_sum_of_first_mono(s, a, b - 1);
        assert(0 <= s[b - 1].score);
    }
}

} // verus!
