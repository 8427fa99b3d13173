//! The selector: pick the best feasible, positive-score candidate.

use vstd::prelude::*;
use crate::model::{LibraryModel, all_wf};
use crate::entities::{Library, lib_views};
use crate::scorer::{feasible, score, score_spec};

verus! {

/// The selection over the first `n` candidates, scanned in order: the index
/// of the feasible candidate with the strictly highest positive score, the
/// earliest such index on ties, or `None` when no feasible candidate scores
/// above zero.
pub open spec fn best_in_prefix(libs: Seq<LibraryModel>, d: int, n: int) -> Option<int>
    decreases n,
{
    if n <= 0 {
        None
    } else {
        let prev = best_in_prefix(libs, d, n - 1);
        let j = n - 1;
        if feasible(libs[j], d) && score_spec(libs[j], d) > 0 && (prev is None
            || score_spec(libs[j], d) > score_spec(libs[prev->Some_0], d)) {
            Some(j)
        } else {
            prev
        }
    }
}

/// The selection over the whole candidate sequence.
pub open spec fn best_index_spec(libs: Seq<LibraryModel>, d: int) -> Option<int> {
    best_in_prefix(libs, d, libs.len() as int)
}

/// What the selection guarantees: a `Some` index is in range, feasible, of
/// positive score, no feasible candidate beats it, and every earlier feasible
/// positive-score candidate scores strictly less (the tie-break towards the
/// candidate met first); `None` means no feasible candidate scores above
/// zero.
pub proof fn lemma_best_in_prefix_props(libs: Seq<LibraryModel>, d: int, n: int)
    requires
        0 <= n <= libs.len(),
    ensures
        best_in_prefix(libs, d, n) is None ==> forall|j: int|
            0 <= j < n ==> !(feasible(#[trigger] libs[j], d) && score_spec(libs[j], d) > 0),
        best_in_prefix(libs, d, n) matches Some(i) ==> {
            &&& 0 <= i < n
            &&& feasible(libs[i], d)
            &&& score_spec(libs[i], d) > 0
            &&& forall|j: int| 0 <= j < n && feasible(#[trigger] libs[j], d) ==> score_spec(
                libs[j], d) <= score_spec(libs[i], d)
            &&& forall|j: int| 0 <= j < i && feasible(#[trigger] libs[j], d) && score_spec(
                libs[j], d) > 0 ==> score_spec(libs[j], d) < score_spec(libs[i], d)
        },
    decreases n,
{
    if n > 0 {
        lemma_best_in_prefix_props(libs, d, n - 1);
    }
}

/// Candidate identifiers strictly grow along the sequence (the ingestion
/// order: identifiers are assigned by position).
pub open spec fn ids_ascending(libs: Seq<LibraryModel>) -> bool {
    forall|p: int, q: int| 0 <= p < q < libs.len() ==> #[trigger] libs[p].id < #[trigger] libs[q].id
}

/// The tie-break rule: among candidates with ascending identifiers, the
/// selected candidate carries the smallest identifier of all feasible
/// candidates that reach the maximal positive score.
pub proof fn lemma_tie_break_smallest_id(libs: Seq<LibraryModel>, d: int)
    requires
        ids_ascending(libs),
        best_index_spec(libs, d) is Some,
    ensures
        ({
            let i = best_index_spec(libs, d)->Some_0;
            forall|j: int|
                0 <= j < libs.len() && feasible(#[trigger] libs[j], d) && score_spec(libs[j], d)
                    > 0 && score_spec(libs[j], d) == score_spec(libs[i], d) ==> libs[i].id
                    <= libs[j].id
        }),
{
    let i = best_index_spec(libs, d)->Some_0;
    lemma_best_in_prefix_props(libs, d, libs.len() as int);
    assert forall|j: int|
        0 <= j < libs.len() && feasible(#[trigger] libs[j], d) && score_spec(libs[j], d) > 0
            && score_spec(libs[j], d) == score_spec(libs[i], d) implies libs[i].id
        <= libs[j].id by {
        if j < i {
            assert(score_spec(libs[j], d) < score_spec(libs[i], d));
        }
    }
}

/// The selector: scan the candidates in their fixed order and return the
/// index of the best feasible, positive-score one, or `None` when no such
/// candidate exists. Candidates are kept in ascending identifier order, so
/// the tie-break towards the earliest index is the tie-break towards the
/// smallest identifier.
pub fn calc_best_lib_score(libraries: &Vec<Library>, days_left: i64) -> (r: Option<usize>)
    requires
        all_wf(lib_views(libraries@)),
        0 <= days_left,
    ensures
        r is None ==> best_index_spec(lib_views(libraries@), days_left as int) is None,
        r matches Some(i) ==> best_index_spec(lib_views(libraries@), days_left as int) == Some(
            i as int),
        r matches Some(i) ==> {
            let v = lib_views(libraries@);
            let d = days_left as int;
            &&& i < libraries@.len()
            &&& feasible(v[i as int], d)
            &&& score_spec(v[i as int], d) > 0
            &&& forall|j: int| 0 <= j < v.len() && feasible(#[trigger] v[j], d) ==> score_spec(
                v[j], d) <= score_spec(v[i as int], d)
        },
        r is None ==> forall|j: int|
            0 <= j < lib_views(libraries@).len() ==> !(feasible(
                #[trigger] lib_views(libraries@)[j], days_left as int) && score_spec(
                lib_views(libraries@)[j], days_left as int) > 0),
{
    let ghost v = lib_views(libraries@);
    let ghost d = days_left as int;
    let mut best: Option<usize> = None;
    let mut best_score: i64 = 0;
    let mut n: usize = 0;
    while n < libraries.len()
        invariant
            all_wf(v),
            v == lib_views(libraries@),
            d == days_left as int,
            0 <= days_left,
            n <= libraries@.len(),
            v.len() == libraries@.len(),
            best is None ==> best_in_prefix(v, d, n as int) is None,
            best matches Some(b) ==> {
                &&& b < n
                &&& best_in_prefix(v, d, n as int) == Some(b as int)
                &&& best_score == score_spec(v[b as int], d)
            },
        decreases libraries.len() - n,
    {
        let lib = &libraries[n];
        proof {
            assert(v[n as int] == libraries@[n as int]@);
            assert(v[n as int].wf());
        }
        if lib.signup_time <= days_left {
            let s = score(lib, days_left);
            if s > 0 && (best.is_none() || s > best_score) {
                best = Some(n);
                best_score = s;
            }
        }
        n = n + 1;
    }
    proof {
        lemma_best_in_prefix_props(v, d, v.len() as int);
    }
    best
}

} // verus!
