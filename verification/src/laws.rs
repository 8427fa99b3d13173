//! The laws of the greedy run, proved over `greedy_spec` — and so, through
//! `main_loop`'s contract, over every run of the driver.

use vstd::prelude::*;
use crate::model::LibraryModel;
use crate::scorer::{feasible, score_spec};
use crate::selector::{best_index_spec, lemma_best_in_prefix_props};
use crate::dedup::{contains_id, dedup_all, lemma_keep_elems, lemma_keep_not_claimed};
use crate::driver::{cost_prefix, greedy_spec};

verus! {

/// Prepending the selected library: the cost of an output prefix is its
/// activation cost plus the cost of the rest of the prefix.
proof fn lemma_cost_prefix_cons(h: LibraryModel, t: Seq<LibraryModel>, n: int)
    requires
        1 <= n <= t.len() + 1,
    ensures
        cost_prefix(seq![h] + t, n) == h.signup_time + cost_prefix(t, n - 1),
    decreases n,
{
    if n == 1 {
        assert((seq![h] + t)[0] == h);
        assert(cost_prefix(seq![h] + t, 0) == 0);
        assert(cost_prefix(t, 0) == 0);
    } else {
        lemma_cost_prefix_cons(h, t, n - 1);
        assert((seq![h] + t)[n - 1] == t[n - 2]);
    }
}

/// Budget feasibility: at no prefix of the output does the running sum of
/// activation costs exceed the initial budget.
pub proof fn lemma_budget_feasibility(libs: Seq<LibraryModel>, d: int, n: int)
    requires
        0 <= d,
        0 <= n <= greedy_spec(libs, d).len(),
    ensures
        cost_prefix(greedy_spec(libs, d), n) <= d,
    decreases libs.len(),
{
    if d > 0 && best_index_spec(libs, d) is Some {
        let i = best_index_spec(libs, d)->Some_0;
        lemma_best_in_prefix_props(libs, d, libs.len() as int);
        let next = dedup_all(libs.remove(i), libs[i].books);
        let dd = d - libs[i].signup_time;
        let tail = greedy_spec(next, dd);
        if n > 0 {
            lemma_budget_feasibility(next, dd, n - 1);
            lemma_cost_prefix_cons(libs[i], tail, n);
        }
    }
}

/// An identifier held by no candidate's inventory is held by no output
/// inventory: output books come only from the input.
proof fn lemma_greedy_no_foreign_id(libs: Seq<LibraryModel>, d: int, x: int)
    requires
        forall|k: int| 0 <= k < libs.len() ==> !contains_id((#[trigger] libs[k]).books, x),
    ensures
        forall|a: int| 0 <= a < greedy_spec(libs, d).len() ==> !contains_id(
            (#[trigger] greedy_spec(libs, d)[a]).books, x),
    decreases libs.len(),
{
    if d > 0 && best_index_spec(libs, d) is Some {
        let i = best_index_spec(libs, d)->Some_0;
        lemma_best_in_prefix_props(libs, d, libs.len() as int);
        let removed = libs.remove(i);
        let next = dedup_all(removed, libs[i].books);
        let dd = d - libs[i].signup_time;
        let out = greedy_spec(libs, d);
        let tail = greedy_spec(next, dd);
        assert forall|k: int| 0 <= k < next.len() implies !contains_id(
            (#[trigger] next[k]).books, x) by {
            let orig = removed[k];
            assert(!contains_id(orig.books, x));
            lemma_keep_elems(orig.books, libs[i].books);
            if contains_id(next[k].books, x) {
                let m = choose|m: int| 0 <= m < next[k].books.len() && (
                #[trigger] next[k].books[m]).id == x;
                assert(orig.books.contains(next[k].books[m]));
                let k2 = choose|k2: int|
                    0 <= k2 < orig.books.len() && orig.books[k2] == next[k].books[m];
                assert(orig.books[k2].id == x);
                assert(false);
            }
        }
        lemma_greedy_no_foreign_id(next, dd, x);
        assert forall|a: int| 0 <= a < out.len() implies !contains_id(
            (#[trigger] out[a]).books, x) by {
            if a == 0 {
                assert(out[0] == libs[i]);
            } else {
                assert(out[a] == tail[a - 1]);
            }
        }
    }
}

/// No double counting: a book identifier appears in at most one output
/// inventory across the whole output sequence.
pub proof fn lemma_no_double_counting(libs: Seq<LibraryModel>, d: int)
    ensures
        forall|a: int, b: int, x: int, y: int|
            0 <= a < b < greedy_spec(libs, d).len() && 0 <= x < greedy_spec(libs, d)[a].books.len()
                && 0 <= y < greedy_spec(libs, d)[b].books.len() ==> (
            #[trigger] greedy_spec(libs, d)[a].books[x]).id != (
            #[trigger] greedy_spec(libs, d)[b].books[y]).id,
    decreases libs.len(),
{
    if d > 0 && best_index_spec(libs, d) is Some {
        let i = best_index_spec(libs, d)->Some_0;
        lemma_best_in_prefix_props(libs, d, libs.len() as int);
        let removed = libs.remove(i);
        let claimed = libs[i].books;
        let next = dedup_all(removed, claimed);
        let dd = d - libs[i].signup_time;
        let out = greedy_spec(libs, d);
        let tail = greedy_spec(next, dd);
        lemma_no_double_counting(next, dd);
        assert forall|a: int, b: int, x: int, y: int|
            0 <= a < b < out.len() && 0 <= x < out[a].books.len() && 0 <= y
                < out[b].books.len() implies (#[trigger] out[a].books[x]).id != (
        #[trigger] out[b].books[y]).id by {
            if a == 0 {
                assert(out[0] == libs[i]);
                let x0 = out[0].books[x].id;
                assert(contains_id(claimed, x0));
                assert forall|k: int| 0 <= k < next.len() implies !contains_id(
                    (#[trigger] next[k]).books, x0) by {
                    lemma_keep_not_claimed(removed[k].books, claimed);
                    if contains_id(next[k].books, x0) {
                        let m = choose|m: int|
                            0 <= m < next[k].books.len() && (#[trigger] next[k].books[m]).id == x0;
                        assert(!contains_id(claimed, next[k].books[m].id));
                        assert(false);
                    }
                }
                lemma_greedy_no_foreign_id(next, dd, x0);
                assert(out[b] == tail[b - 1]);
                assert(!contains_id(tail[b - 1].books, x0));
                if out[b].books[y].id == x0 {
                    assert(contains_id(tail[b - 1].books, x0));
                    assert(false);
                }
            } else {
                assert(out[a] == tail[a - 1]);
                assert(out[b] == tail[b - 1]);
            }
        }
    }
}

/// Non-negative-score termination, first half: every activated pool was
/// feasible and scored strictly above zero at its own activation budget (the
/// initial budget less the costs already committed before it).
pub proof fn lemma_positive_score_activation(libs: Seq<LibraryModel>, d: int, n: int)
    requires
        0 <= n < greedy_spec(libs, d).len(),
    ensures
        feasible(greedy_spec(libs, d)[n], d - cost_prefix(greedy_spec(libs, d), n)),
        score_spec(greedy_spec(libs, d)[n], d - cost_prefix(greedy_spec(libs, d), n)) > 0,
    decreases libs.len(),
{
    let out = greedy_spec(libs, d);
    if d <= 0 {
        assert(false);
    } else {
        match best_index_spec(libs, d) {
            None => {
                assert(false);
            },
            Some(i) => {
                lemma_best_in_prefix_props(libs, d, libs.len() as int);
                let next = dedup_all(libs.remove(i), libs[i].books);
                let dd = d - libs[i].signup_time;
                let tail = greedy_spec(next, dd);
                if n == 0 {
                    assert(out[0] == libs[i]);
                } else {
                    lemma_positive_score_activation(next, dd, n - 1);
                    lemma_cost_prefix_cons(libs[i], tail, n);
                    assert(out[n] == tail[n - 1]);
                }
            },
        }
    }
}

/// Non-negative-score termination, second half: the run is empty exactly
/// when the budget is spent or no feasible candidate scores above zero — the
/// loop halts the first time that holds, and never activates a pool
/// otherwise.
pub proof fn lemma_halting(libs: Seq<LibraryModel>, d: int)
    ensures
        greedy_spec(libs, d).len() == 0 <==> (d <= 0 || best_index_spec(libs, d) is None),
{
}

/// Activation-order monotonicity: the head of the output is the first
/// round's selection, and the rest is exactly the continuation run on the
/// purged candidate set under the reduced budget — the output is built in
/// activation order and never re-sorted afterwards.
pub proof fn lemma_activation_order(libs: Seq<LibraryModel>, d: int)
    requires
        0 < d,
        best_index_spec(libs, d) is Some,
    ensures
        ({
            let i = best_index_spec(libs, d)->Some_0;
            let out = greedy_spec(libs, d);
            &&& out.len() > 0
            &&& out[0] == libs[i]
            &&& out.skip(1) == greedy_spec(
                dedup_all(libs.remove(i), libs[i].books),
                d - libs[i].signup_time,
            )
        }),
{
    let i = best_index_spec(libs, d)->Some_0;
    let tail = greedy_spec(dedup_all(libs.remove(i), libs[i].books), d - libs[i].signup_time);
    assert((seq![libs[i]] + tail)[0] == libs[i]);
    assert((seq![libs[i]] + tail).skip(1) =~= tail);
}

/// Determinism: the run is a function of the candidate set and the budget
/// alone; any two results of the contract of `main_loop` on the same input
/// are equal.
pub proof fn lemma_determinism(
    libs: Seq<LibraryModel>,
    d: int,
    r1: Seq<LibraryModel>,
    r2: Seq<LibraryModel>,
)
    requires
        r1 == greedy_spec(libs, d),
        r2 == greedy_spec(libs, d),
    ensures
        r1 == r2,
{
}

/// Idempotent scoring: the score is a pure function of the pool and the
/// budget; any two results of the contract of `score` on an unchanged pool
/// and budget are equal.
pub proof fn lemma_score_idempotent(l: LibraryModel, d: int, r1: int, r2: int)
    requires
        r1 == score_spec(l, d),
        r2 == score_spec(l, d),
    ensures
        r1 == r2,
{
}

} // verus!
