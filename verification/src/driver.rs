//! The greedy driver: the control loop tying selector, commit, deduplicator
//! and budget decrement into a terminating process.

use vstd::prelude::*;
use crate::model::{LibraryModel, all_wf};
use crate::entities::{Library, book_views, lib_views};
use crate::selector::{best_index_spec, calc_best_lib_score, lemma_best_in_prefix_props};
use crate::dedup::{dedup_all, deduplicate, lemma_dedup_all_wf};

verus! {

/// The whole greedy run as one function of the candidate set and the budget.
/// While budget remains and some feasible candidate scores above zero: commit
/// to the best one (inventory intact, as held at activation time), purge its
/// books from the remaining candidates, and go on under the budget less its
/// activation cost.
pub open spec fn greedy_spec(libs: Seq<LibraryModel>, d: int) -> Seq<LibraryModel>
    decreases libs.len()
    via greedy_spec_decreases
{
    if d <= 0 {
        Seq::empty()
    } else {
        match best_index_spec(libs, d) {
            None => Seq::empty(),
            Some(i) => seq![libs[i]] + greedy_spec(
                dedup_all(libs.remove(i), libs[i].books),
                d - libs[i].signup_time,
            ),
        }
    }
}

#[via_fn]
proof fn greedy_spec_decreases(libs: Seq<LibraryModel>, d: int) {
    if d > 0 && best_index_spec(libs, d) is Some {
        lemma_best_in_prefix_props(libs, d, libs.len() as int);
    }
}

/// Sum of the activation costs of the first `n` libraries of `s`.
pub open spec fn cost_prefix(s: Seq<LibraryModel>, n: int) -> int
    decreases n,
{
    if n <= 0 {
        0
    } else {
        cost_prefix(s, n - 1) + s[n - 1].signup_time
    }
}

/// The greedy driver. Returns the activated libraries in activation order,
/// each carrying the full inventory it held at activation time; the result
/// is exactly the run that `greedy_spec` describes.
pub fn main_loop(libraries: Vec<Library>, days_left: i64) -> (r: Vec<Library>)
    requires
        all_wf(lib_views(libraries@)),
    ensures
        lib_views(r@) == greedy_spec(lib_views(libraries@), days_left as int),
{
    let ghost v0 = lib_views(libraries@);
    let ghost d0 = days_left as int;
    let mut libraries = libraries;
    let mut days_left = days_left;
    let mut signup_queue: Vec<Library> = Vec::new();
    proof {
        assert(lib_views(signup_queue@) =~= Seq::<LibraryModel>::empty());
        assert(lib_views(signup_queue@) + greedy_spec(v0, d0) =~= greedy_spec(v0, d0));
    }
    loop
        invariant
            all_wf(lib_views(libraries@)),
            lib_views(signup_queue@) + greedy_spec(lib_views(libraries@), days_left as int)
                == greedy_spec(v0, d0),
        ensures
            lib_views(signup_queue@) == greedy_spec(v0, d0),
        decreases libraries@.len(),
    {
        if days_left <= 0 {
            proof {
                assert(greedy_spec(lib_views(libraries@), days_left as int)
                    == Seq::<LibraryModel>::empty());
                assert(lib_views(signup_queue@) + Seq::<LibraryModel>::empty() =~= lib_views(
                    signup_queue@));
            }
            break;
        }
        let best = calc_best_lib_score(&libraries, days_left);
        match best {
            None => {
                proof {
                    assert(greedy_spec(lib_views(libraries@), days_left as int)
                        == Seq::<LibraryModel>::empty());
                    assert(lib_views(signup_queue@) + Seq::<LibraryModel>::empty() =~= lib_views(
                        signup_queue@));
                }
                break;
            },
            Some(i) => {
                let ghost v = lib_views(libraries@);
                let ghost d = days_left as int;
                let lib = libraries.remove(i);
                proof {
                    assert(lib@ == v[i as int]);
                    assert(lib_views(libraries@) =~= v.remove(i as int));
                    assert(all_wf(v.remove(i as int)));
                }
                deduplicate(&mut libraries, &lib.books);
                proof {
                    lemma_dedup_all_wf(v.remove(i as int), book_views(lib.books@));
                    assert(v[i as int].books == book_views(lib.books@));
                    assert(greedy_spec(v, d) == seq![v[i as int]] + greedy_spec(
                        dedup_all(v.remove(i as int), v[i as int].books),
                        d - v[i as int].signup_time,
                    ));
                }
                days_left = days_left - lib.signup_time;
                let ghost qprev = signup_queue@;
                signup_queue.push(lib);
                proof {
                    assert(lib_views(signup_queue@) =~= lib_views(qprev) + seq![v[i as int]]);
                    assert((lib_views(qprev) + seq![v[i as int]]) + greedy_spec(
                        lib_views(libraries@), days_left as int) =~= lib_views(qprev) + (
                    seq![v[i as int]] + greedy_spec(lib_views(libraries@), days_left as int)));
                }
            },
        }
    }
    signup_queue
}

} // verus!
