//! A greedy planner for activating resource pools (libraries) under a total
//! time budget.
//!
//! Each pool has an activation cost (signup time), a per-day throughput, and
//! an inventory of items (books) sorted by descending value. The planner
//! repeatedly scores every remaining pool against the remaining budget,
//! commits to the highest-scoring one (ties broken towards the pool met first
//! in the fixed ascending-identifier order), removes the committed pool's
//! items from every other pool's inventory, and decrements the budget by the
//! activation cost, until no feasible pool has a positive score or the budget
//! is exhausted.

pub mod model;
pub mod entities;
pub mod scorer;
pub mod selector;
pub mod dedup;
pub mod driver;
pub mod laws;
