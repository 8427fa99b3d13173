use book_scanning::entities::{Book, Library};
use book_scanning::driver::main_loop;
use book_scanning::selector::calc_best_lib_score;
use book_scanning::dedup::deduplicate;
use book_scanning::scorer::score;

/// A library whose inventory holds the given (id, value) pairs, in order.
/// Callers pass the pairs already sorted by descending value.
fn lib_with(id: i64, signup_time: i64, books_per_day: i64, books: &[(i64, i64)]) -> Library {
    let mut l = Library::new(id, signup_time, books_per_day);
    for (bid, bscore) in books {
        l.books.push(Book::new(*bid, *bscore));
    }
    l
}

fn book_ids(l: &Library) -> Vec<i64> {
    l.books.iter().map(|b| b.id).collect()
}

#[test]
fn book_new_fields() {
    let b = Book::new(7, 42);
    assert_eq!(b.id, 7);
    assert_eq!(b.score, 42);
    assert!(b.libraries.is_empty());
}

#[test]
fn library_new_fields() {
    let l = Library::new(3, 2, 5);
    assert_eq!(l.id, 3);
    assert_eq!(l.signup_time, 2);
    assert_eq!(l.books_per_day, 5);
    assert!(l.books.is_empty());
    assert!(l.is_well_formed());
}

#[test]
fn book_clone_keeps_fields() {
    let mut b = Book::new(1, 9);
    b.libraries.push(4);
    b.libraries.push(6);
    let c = b.clone();
    assert_eq!(c.id, 1);
    assert_eq!(c.score, 9);
    assert_eq!(c.libraries, vec![4, 6]);
}

#[test]
fn well_formed_checks_sorting() {
    let sorted = lib_with(0, 1, 1, &[(0, 5), (1, 3), (2, 3), (3, 1)]);
    assert!(sorted.is_well_formed());
    let unsorted = lib_with(0, 1, 1, &[(0, 3), (1, 5)]);
    assert!(!unsorted.is_well_formed());
}

#[test]
fn well_formed_checks_signs() {
    assert!(!lib_with(-1, 1, 1, &[]).is_well_formed());
    assert!(!lib_with(0, -1, 1, &[]).is_well_formed());
    assert!(!lib_with(0, 1, -1, &[]).is_well_formed());
    assert!(!lib_with(0, 1, 1, &[(0, -2)]).is_well_formed());
    assert!(!lib_with(0, 1, 1, &[(-3, 2)]).is_well_formed());
}

#[test]
fn well_formed_checks_total_value() {
    let too_big = lib_with(0, 1, 1, &[(0, i64::MAX), (1, 1)]);
    assert!(!too_big.is_well_formed());
    let just_fits = lib_with(0, 1, 1, &[(0, i64::MAX)]);
    assert!(just_fits.is_well_formed());
}

#[test]
fn score_takes_best_prefix() {
    // 3 days minus 2 of signup leaves 1 day at 3 books per day: 3 books.
    let l = lib_with(0, 2, 3, &[(0, 10), (1, 7), (2, 5), (3, 2)]);
    assert_eq!(score(&l, 3), 22);
}

#[test]
fn score_zero_capacity_is_zero() {
    // Feasible (signup fits exactly) but no day left to process anything.
    let l = lib_with(0, 5, 4, &[(0, 10), (1, 7)]);
    assert_eq!(score(&l, 5), 0);
}

#[test]
fn score_caps_at_inventory() {
    // Capacity 8 exceeds the inventory: the whole inventory counts.
    let l = lib_with(0, 1, 4, &[(0, 10), (1, 7)]);
    assert_eq!(score(&l, 3), 17);
}

#[test]
fn score_zero_throughput_is_zero() {
    let l = lib_with(0, 1, 0, &[(0, 10), (1, 7)]);
    assert_eq!(score(&l, 9), 0);
}

#[test]
fn score_is_idempotent() {
    let l = lib_with(0, 2, 3, &[(0, 10), (1, 7), (2, 5)]);
    let first = score(&l, 6);
    let second = score(&l, 6);
    assert_eq!(first, second);
}

#[test]
fn selector_picks_highest_score() {
    let pools = vec![
        lib_with(0, 1, 1, &[(0, 1)]),
        lib_with(1, 1, 2, &[(1, 2), (0, 1)]),
    ];
    assert_eq!(calc_best_lib_score(&pools, 5), Some(1));
}

#[test]
fn selector_skips_infeasible() {
    // The first pool's signup exceeds the budget; the scan must skip it and
    // still find the later feasible pool.
    let pools = vec![
        lib_with(0, 10, 1, &[(0, 100)]),
        lib_with(1, 1, 1, &[(1, 2)]),
    ];
    assert_eq!(calc_best_lib_score(&pools, 5), Some(1));
}

#[test]
fn selector_tie_break_smallest_id() {
    // Equal scores: the pool met first in ascending-identifier order wins.
    let pools = vec![
        lib_with(0, 1, 1, &[(0, 5)]),
        lib_with(1, 1, 1, &[(1, 5)]),
    ];
    assert_eq!(calc_best_lib_score(&pools, 5), Some(0));
}

#[test]
fn selector_none_when_nothing_scores() {
    // One infeasible pool, one feasible pool with nothing to deliver.
    let pools = vec![
        lib_with(0, 10, 1, &[(0, 100)]),
        lib_with(1, 5, 4, &[(1, 2)]),
    ];
    assert_eq!(calc_best_lib_score(&pools, 5), None);
    let empty: Vec<Library> = Vec::new();
    assert_eq!(calc_best_lib_score(&empty, 5), None);
}

#[test]
fn dedup_removes_claimed_everywhere() {
    let mut pools = vec![
        lib_with(0, 1, 1, &[(0, 9), (1, 5), (2, 3)]),
        lib_with(1, 2, 2, &[(1, 5), (3, 1)]),
    ];
    let claimed = vec![Book::new(1, 5), Book::new(3, 1)];
    deduplicate(&mut pools, &claimed);
    assert_eq!(book_ids(&pools[0]), vec![0, 2]);
    assert_eq!(book_ids(&pools[1]), Vec::<i64>::new());
}

#[test]
fn dedup_keeps_order_and_others() {
    let mut pools = vec![lib_with(0, 1, 1, &[(4, 9), (2, 5), (7, 3)])];
    let claimed = vec![Book::new(2, 5)];
    deduplicate(&mut pools, &claimed);
    assert_eq!(book_ids(&pools[0]), vec![4, 7]);
    assert_eq!(pools[0].id, 0);
    assert_eq!(pools[0].signup_time, 1);
    assert_eq!(pools[0].books_per_day, 1);
}

#[test]
fn dedup_no_claimed_books_is_noop() {
    let mut pools = vec![lib_with(0, 1, 1, &[(4, 9), (2, 5)])];
    let claimed = vec![Book::new(8, 1)];
    deduplicate(&mut pools, &claimed);
    assert_eq!(book_ids(&pools[0]), vec![4, 2]);
}

/// The worked scenario: two items of values 1 and 2, two pools, budget 5.
/// Pool 1 scores 3 against pool 0's 1 and is activated with its full
/// inventory; deduplication then empties pool 0, so the run halts with a
/// single activated pool.
#[test]
fn scenario_two_pools_budget_five() {
    let pools = vec![
        lib_with(0, 1, 1, &[(0, 1)]),
        lib_with(1, 1, 2, &[(1, 2), (0, 1)]),
    ];
    let out = main_loop(pools, 5);
    assert_eq!(out.len(), 1);
    assert_eq!(out[0].id, 1);
    assert_eq!(book_ids(&out[0]), vec![1, 0]);
}

#[test]
fn main_loop_respects_budget() {
    // Each pool is worth taking, but the budget only covers two signups.
    let pools = vec![
        lib_with(0, 3, 1, &[(0, 10)]),
        lib_with(1, 3, 1, &[(1, 9)]),
        lib_with(2, 3, 1, &[(2, 8)]),
    ];
    let out = main_loop(pools, 7);
    let total_cost: i64 = out.iter().map(|l| l.signup_time).sum();
    assert!(total_cost <= 7);
    assert_eq!(out.len(), 2);
    assert_eq!(out[0].id, 0);
    assert_eq!(out[1].id, 1);
}

#[test]
fn main_loop_zero_budget_is_empty() {
    let pools = vec![lib_with(0, 0, 1, &[(0, 10)])];
    assert_eq!(main_loop(pools, 0).len(), 0);
    let pools = vec![lib_with(0, 0, 1, &[(0, 10)])];
    assert_eq!(main_loop(pools, -3).len(), 0);
}

#[test]
fn main_loop_halts_on_worthless_candidates() {
    // A feasible pool with zero-value throughput is never activated.
    let pools = vec![lib_with(0, 1, 0, &[(0, 10)])];
    assert_eq!(main_loop(pools, 5).len(), 0);
}

#[test]
fn main_loop_no_double_counting() {
    // Item 0 sits in both pools; it must appear in only one output inventory.
    let pools = vec![
        lib_with(0, 1, 2, &[(0, 5), (1, 4)]),
        lib_with(1, 1, 2, &[(0, 5), (2, 3)]),
    ];
    let out = main_loop(pools, 10);
    let mut seen: Vec<i64> = Vec::new();
    for l in &out {
        for b in &l.books {
            assert!(!seen.contains(&b.id));
            seen.push(b.id);
        }
    }
    assert_eq!(out.len(), 2);
}

#[test]
fn main_loop_is_deterministic() {
    let build = || {
        vec![
            lib_with(0, 1, 2, &[(0, 5), (1, 4)]),
            lib_with(1, 1, 2, &[(0, 5), (2, 3)]),
            lib_with(2, 2, 1, &[(3, 5), (4, 4)]),
        ]
    };
    let out1 = main_loop(build(), 9);
    let out2 = main_loop(build(), 9);
    assert_eq!(out1.len(), out2.len());
    for (a, b) in out1.iter().zip(out2.iter()) {
        assert_eq!(a.id, b.id);
        assert_eq!(book_ids(a), book_ids(b));
    }
}
