//! The deduplicator: once a pool is committed, its books are claimed
//! globally and purged from every other candidate pool's inventory.

use vstd::prelude::*;
use crate::model::{BookModel, LibraryModel, all_wf, lemma_sum_of_first_agree, sorted_desc,
    total_score};
use crate::entities::{Book, Library, book_views, lib_views};

verus! {

/// Whether some book of `s` carries identifier `id`.
pub open spec fn contains_id(s: Seq<BookModel>, id: int) -> bool {
    exists|k: int| 0 <= k < s.len() && (#[trigger] s[k]).id == id
}

/// The books of `s` whose identifiers appear nowhere in `claimed`, kept in
/// their original order.
pub open spec fn keep_unclaimed(s: Seq<BookModel>, claimed: Seq<BookModel>) -> Seq<BookModel>
    decreases s.len(),
{
    if s.len() == 0 {
        Seq::empty()
    } else {
        let pre = keep_unclaimed(s.drop_last(), claimed);
        if contains_id(claimed, s.last().id) {
            pre
        } else {
            pre.push(s.last())
        }
    }
}

/// A library once the claimed books are purged from its inventory. Only the
/// inventory changes; identifier, signup time and throughput stay.
pub open spec fn pool_after_dedup(l: LibraryModel, claimed: Seq<BookModel>) -> LibraryModel {
    LibraryModel { books: keep_unclaimed(l.books, claimed), ..l }
}

/// Every candidate library once the claimed books are purged.
pub open spec fn dedup_all(libs: Seq<LibraryModel>, claimed: Seq<BookModel>) -> Seq<LibraryModel> {
    Seq::new(libs.len(), |k: int| pool_after_dedup(libs[k], claimed))
}

/// Whether some book of `claimed` carries identifier `id`.
fn contains_book_id(claimed: &Vec<Book>, id: i64) -> (r: bool)
    ensures
        r == contains_id(book_views(claimed@), id as int),
{
    let ghost c = book_views(claimed@);
    let mut k: usize = 0;
    while k < claimed.len()
        invariant
            k <= claimed@.len(),
            c == book_views(claimed@),
            c.len() == claimed@.len(),
            forall|j: int| 0 <= j < k ==> (#[trigger] c[j]).id != id as int,
        decreases claimed.len() - k,
    {
        proof {
            assert(c[k as int] == claimed@[k as int]@);
        }
        if claimed[k].id == id {
            return true;
        }
        k = k + 1;
    }
    false
}

/// A copy of `books` without the books whose identifiers appear in
/// `claimed`, in the original order.
fn prune_books(books: &Vec<Book>, claimed: &Vec<Book>) -> (r: Vec<Book>)
    ensures
        book_views(r@) == keep_unclaimed(book_views(books@), book_views(claimed@)),
{
    let ghost s0 = book_views(books@);
    let ghost c = book_views(claimed@);
    let mut out: Vec<Book> = Vec::new();
    proof {
        assert(s0.take(0) =~= Seq::<BookModel>::empty());
        assert(book_views(out@) =~= keep_unclaimed(s0.take(0), c));
    }
    let mut i: usize = 0;
    while i < books.len()
        invariant
            i <= books@.len(),
            s0 == book_views(books@),
            c == book_views(claimed@),
            s0.len() == books@.len(),
            book_views(out@) == keep_unclaimed(s0.take(i as int), c),
        decreases books@.len() - i,
    {
        let keep = !contains_book_id(claimed, books[i].id);
        proof {
            assert(s0[i as int] == books@[i as int]@);
            assert(s0.take(i as int + 1).drop_last() =~= s0.take(i as int));
            assert(s0.take(i as int + 1).last() == s0[i as int]);
        }
        if keep {
            let b = books[i].clone();
            out.push(b);
            proof {
                assert(book_views(out@) =~= keep_unclaimed(s0.take(i as int), c).push(
                    s0[i as int]));
            }
        }
        i = i + 1;
    }
    proof {
        assert(s0.take(s0.len() as int) =~= s0);
    }
    out
}

/// Purge the claimed books from every candidate library's inventory, in
/// place. Libraries keep their order; books not claimed keep theirs.
pub fn deduplicate(libraries: &mut Vec<Library>, claimed: &Vec<Book>)
    ensures
        lib_views(final(libraries)@) == dedup_all(lib_views(old(libraries)@), book_views(
            claimed@)),
{
    let ghost v0 = lib_views(libraries@);
    let ghost c = book_views(claimed@);
    let mut out: Vec<Library> = Vec::new();
    proof {
        assert(lib_views(libraries@) =~= v0.skip(0));
    }
    while libraries.len() > 0
        invariant
            c == book_views(claimed@),
            out@.len() + libraries@.len() == v0.len(),
            lib_views(libraries@) == v0.skip(out@.len() as int),
            forall|j: int| 0 <= j < out@.len() ==> (#[trigger] out@[j])@ == pool_after_dedup(
                v0[j], c),
        decreases libraries@.len(),
    {
        let ghost k = out@.len() as int;
        let ghost prevs = libraries@;
        let lib = libraries.remove(0);
        proof {
            assert(lib@ == lib_views(prevs)[0]);
            assert(lib@ == v0[k]);
            assert(libraries@ =~= prevs.skip(1));
            assert forall|j: int| 0 <= j < libraries@.len() implies lib_views(libraries@)[j]
                == v0.skip(k + 1)[j] by {
                assert(libraries@[j] == prevs[j + 1]);
                assert(lib_views(prevs)[j + 1] == v0.skip(k)[j + 1]);
                assert(v0.skip(k)[j + 1] == v0[k + 1 + j]);
            }
        }
        let Library { id, signup_time, books_per_day, books } = lib;
        let pruned = prune_books(&books, claimed);
        let lib2 = Library { id, signup_time, books_per_day, books: pruned };
        proof {
            assert(lib2@ == pool_after_dedup(v0[k], c));
            assert(lib_views(libraries@) =~= v0.skip(k + 1));
        }
        out.push(lib2);
    }
    *libraries = out;
    proof {
        assert(lib_views(libraries@) =~= dedup_all(v0, c));
    }
}

/// Every book kept by the purge is a book of the original inventory.
pub proof fn lemma_keep_elems(s: Seq<BookModel>, c: Seq<BookModel>)
    ensures
        forall|m: int| 0 <= m < keep_unclaimed(s, c).len() ==> s.contains(
            #[trigger] keep_unclaimed(s, c)[m]),
    decreases s.len(),
{
    if s.len() > 0 {
        lemma_keep_elems(s.drop_last(), c);
        let pre = keep_unclaimed(s.drop_last(), c);
        assert forall|m: int| 0 <= m < keep_unclaimed(s, c).len() implies s.contains(
            #[trigger] keep_unclaimed(s, c)[m]) by {
            if m < pre.len() {
                assert(keep_unclaimed(s, c)[m] == pre[m]);
                assert(s.drop_last().contains(pre[m]));
                let k0 = choose|k: int| 0 <= k < s.drop_last().len() && s.drop_last()[k] == pre[m];
                assert(s[k0] == pre[m]);
            } else {
                assert(keep_unclaimed(s, c)[m] == s.last());
                assert(s[s.len() - 1] == s.last());
            }
        }
    }
}

/// No book kept by the purge is among the claimed ones.
pub proof fn lemma_keep_not_claimed(s: Seq<BookModel>, c: Seq<BookModel>)
    ensures
        forall|m: int| 0 <= m < keep_unclaimed(s, c).len() ==> !contains_id(c, (
        #[trigger] keep_unclaimed(s, c)[m]).id),
    decreases s.len(),
{
    if s.len() > 0 {
        lemma_keep_not_claimed(s.drop_last(), c);
        let pre = keep_unclaimed(s.drop_last(), c);
        assert forall|m: int| 0 <= m < keep_unclaimed(s, c).len() implies !contains_id(c, (
        #[trigger] keep_unclaimed(s, c)[m]).id) by {
            if m < pre.len() {
                assert(keep_unclaimed(s, c)[m] == pre[m]);
            } else {
                assert(keep_unclaimed(s, c)[m] == s.last());
            }
        }
    }
}

/// With non-negative book values, the purge never increases the inventory's
/// total value, and never drives it negative.
pub proof fn lemma_keep_sum(s: Seq<BookModel>, c: Seq<BookModel>)
    requires
        forall|k: int| 0 <= k < s.len() ==> 0 <= (#[trigger] s[k]).score,
    ensures
        0 <= total_score(keep_unclaimed(s, c)) <= total_score(s),
    decreases s.len(),
{
    if s.len() > 0 {
        let d = s.drop_last();
        lemma_keep_sum(d, c);
        let pre = keep_unclaimed(d, c);
        lemma_sum_of_first_agree(s, d, s.len() - 1);
        assert(total_score(s) == total_score(d) + s.last().score);
        assert(0 <= s[s.len() - 1].score);
        if !contains_id(c, s.last().id) {
            let p = pre.push(s.last());
            lemma_sum_of_first_agree(p, pre, pre.len() as int);
            assert(p[p.len() - 1] == s.last());
            assert(total_score(p) == total_score(pre) + s.last().score);
        }
    }
}

/// The purge keeps the inventory sorted by descending value: removal never
/// disturbs the relative order of what stays.
pub proof fn lemma_keep_sorted(s: Seq<BookModel>, c: Seq<BookModel>)
    requires
        sorted_desc(s),
    ensures
        sorted_desc(keep_unclaimed(s, c)),
    decreases s.len(),
{
    if s.len() > 0 {
        let d = s.drop_last();
        assert forall|i: int, j: int| 0 <= i <= j < d.len() implies #[trigger] d[i].score
            >= #[trigger] d[j].score by {
            assert(d[i] == s[i]);
            assert(d[j] == s[j]);
        }
        lemma_keep_sorted(d, c);
        if !contains_id(c, s.last().id) {
            lemma_keep_elems(d, c);
            let pre = keep_unclaimed(d, c);
            let p = pre.push(s.last());
            assert forall|i: int, j: int| 0 <= i <= j < p.len() implies #[trigger] p[i].score
                >= #[trigger] p[j].score by {
                if j < pre.len() {
                    assert(p[i] == pre[i]);
                    assert(p[j] == pre[j]);
                } else {
                    assert(p[j] == s.last());
                    if i < pre.len() {
                        assert(p[i] == pre[i]);
                        assert(d.contains(pre[i]));
                        let k0 = choose|k: int| 0 <= k < d.len() && d[k] == pre[i];
                        assert(d[k0] == s[k0]);
                        assert(s[k0].score >= s[s.len() - 1].score);
                    }
                }
            }
        }
    }
}

/// A well-formed library stays well-formed under the purge.
pub proof fn lemma_pool_after_dedup_wf(l: LibraryModel, c: Seq<BookModel>)
    requires
        l.wf(),
    ensures
        pool_after_dedup(l, c).wf(),
{
    let kept = keep_unclaimed(l.books, c);
    lemma_keep_elems(l.books, c);
    assert forall|m: int| 0 <= m < kept.len() implies (#[trigger] kept[m]).wf() by {
        assert(l.books.contains(kept[m]));
        let k0 = choose|k: int| 0 <= k < l.books.len() && l.books[k] == kept[m];
        assert(l.books[k0].wf());
    }
    assert forall|k: int| 0 <= k < l.books.len() implies 0 <= (#[trigger] l.books[k]).score by {
        assert(l.books[k].wf());
    }
    lemma_keep_sum(l.books, c);
    lemma_keep_sorted(l.books, c);
}

/// Every candidate stays well-formed under the purge, and the candidate
/// count stays.
pub proof fn lemma_dedup_all_wf(libs: Seq<LibraryModel>, c: Seq<BookModel>)
    requires
        all_wf(libs),
    ensures
        all_wf(dedup_all(libs, c)),
        dedup_all(libs, c).len() == libs.len(),
{
    assert forall|k: int| 0 <= k < dedup_all(libs, c).len() implies (#[trigger] dedup_all(libs,
        c)[k]).wf() by {
        assert(libs[k].wf());
        lemma_pool_after_dedup_wf(libs[k], c);
    }
}

} // verus!
