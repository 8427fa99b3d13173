//! The executable entity types: books and libraries.

use vstd::prelude::*;
use crate::model::{BookModel, LibraryModel, lemma_desc_from_adjacent, lemma_sum_of_first_mono,
    sum_of_first};

verus! {

/// A unit of value (book). `libraries` is an advisory back-reference set:
/// the identifiers of the pools whose inventories held this book at
/// ingestion. Inventories are the source of truth; a stale back-reference
/// is ignored, so the set plays no part in the contracts of this crate.
#[derive(Debug)]
pub struct Book {
    pub id: i64,
    pub score: i64,
    pub libraries: Vec<i64>,
}

impl View for Book {
    type V = BookModel;

    open spec fn view(&self) -> BookModel {
        BookModel { id: self.id as int, score: self.score as int }
    }
}

/// The models of a sequence of books.
pub open spec fn book_views(s: Seq<Book>) -> Seq<BookModel> {
    s.map_values(|b: Book| b@)
}

/// A resource pool (library) with an activation cost, a throughput, and an
/// inventory of books kept sorted by descending value.
#[derive(Debug)]
pub struct Library {
    pub id: i64,
    pub signup_time: i64,
    pub books_per_day: i64,
    pub books: Vec<Book>,
}

impl View for Library {
    type V = LibraryModel;

    open spec fn view(&self) -> LibraryModel {
        LibraryModel {
            id: self.id as int,
            signup_time: self.signup_time as int,
            books_per_day: self.books_per_day as int,
            books: book_views(self.books@),
        }
    }
}

/// The models of a sequence of libraries.
pub open spec fn lib_views(s: Seq<Library>) -> Seq<LibraryModel> {
    s.map_values(|l: Library| l@)
}

impl Book {
    /// A fresh book with an empty back-reference set.
    pub fn new(id: i64, score: i64) -> (b: Book)
        ensures
            b.id == id,
            b.score == score,
            b.libraries@ == Seq::<i64>::empty(),
            b@ == (BookModel { id: id as int, score: score as int }),
    {
        let libraries: Vec<i64> = Vec::new();
        Book { id, score, libraries }
    }
}

impl Clone for Book {
    /// A field-for-field copy, back-reference set included.
    fn clone(&self) -> (r: Book)
        ensures
            r.id == self.id,
            r.score == self.score,
            r.libraries@ == self.libraries@,
            r@ == self@,
    {
        let mut libraries: Vec<i64> = Vec::new();
        let mut i: usize = 0;
        while i < self.libraries.len()
            invariant
                i <= self.libraries.len(),
                libraries@ == self.libraries@.take(i as int),
            decreases self.libraries.len() - i,
        {
            libraries.push(self.libraries[i]);
            proof {
                assert(self.libraries@.take(i as int + 1) =~= self.libraries@.take(i as int).push(
                    self.libraries@[i as int]));
            }
            i = i + 1;
        }
        proof {
            assert(self.libraries@.take(self.libraries@.len() as int) =~= self.libraries@);
        }
        Book { id: self.id, score: self.score, libraries }
    }
}

impl Library {
    /// A fresh library with an empty inventory. With non-negative arguments
    /// the result is well-formed.
    pub fn new(id: i64, signup_time: i64, books_per_day: i64) -> (l: Library)
        ensures
            l.id == id,
            l.signup_time == signup_time,
            l.books_per_day == books_per_day,
            l.books@ == Seq::<Book>::empty(),
            l@ == (LibraryModel {
                id: id as int,
                signup_time: signup_time as int,
                books_per_day: books_per_day as int,
                books: Seq::<BookModel>::empty(),
            }),
            0 <= id && 0 <= signup_time && 0 <= books_per_day ==> l@.wf(),
    {
        let books: Vec<Book> = Vec::new();
        let l = Library { id, signup_time, books_per_day, books };
        proof {
            assert(book_views(l.books@) =~= Seq::<BookModel>::empty());
        }
        l
    }

    /// Decides well-formedness: non-negative fields, non-negative book
    /// identifiers and values, the whole inventory's value within `i64`,
    /// and the inventory sorted by descending value.
    pub fn is_well_formed(&self) -> (r: bool)
        ensures
            r == self@.wf(),
    {
        if self.id < 0 || self.signup_time < 0 || self.books_per_day < 0 {
            return false;
        }
        let ghost m = self@.books;
        let mut sum: i64 = 0;
        let mut i: usize = 0;
        while i < self.books.len()
            invariant
                i <= self.books.len(),
                m == self@.books,
                m.len() == self.books.len(),
                forall|k: int| 0 <= k < i ==> (#[trigger] m[k]).wf(),
                forall|p: int| 0 <= p && p + 1 < i ==> (#[trigger] m[p]).score >= m[p + 1].score,
                sum == sum_of_first(m, i as int),
                0 <= sum,
            decreases self.books.len() - i,
        {
            let b = &self.books[i];
            proof {
                assert(m[i as int] == self.books@[i as int]@);
            }
            if b.id < 0 || b.score < 0 {
                return false;
            }
            if i > 0 && self.books[i - 1].score < b.score {
                proof {
                    assert(m[i as int - 1] == self.books@[i as int - 1]@);
                    assert(m[i as int - 1].score < m[i as int].score);
                }
                return false;
            }
            if b.score > i64::MAX - sum {
                proof {
                    assert(sum_of_first(m, i as int + 1) > i64::MAX as int);
                    if self@.wf() {
                        lemma_sum_of_first_mono(m, i as int + 1, m.len() as int);
                        assert(false);
                    }
                }
                return false;
            }
            sum = sum + b.score;
            proof {
                if i > 0 {
                    assert(m[i as int - 1] == self.books@[i as int - 1]@);
                }
            }
            i = i + 1;
        }
        proof {
            assert forall|p: int, q: int| 0 <= p <= q < m.len() implies #[trigger] m[p].score
                >= #[trigger] m[q].score by {
                lemma_desc_from_adjacent(m, p, q);
            }
            assert(self@.wf());
        }
        true
    }
}

} // verus!
