//! A set of `u64` points, kept as disjoint half-open intervals.
//!
//! A [`RangeSet`] records which points of the `u64` line are covered, such as
//! the byte offsets of a file that have arrived. It keeps the covered points
//! as intervals `start..end` in ascending order, merges intervals that meet
//! when one is inserted, and trims or splits them when one is removed. Up to
//! [`INLINE_CAPACITY`] intervals live inside the set itself; more go to the
//! heap.
//!
//! The modules:
//! - [`cover`]: sequences of intervals, the points they cover, and the
//!   well-formed ones;
//! - [`edit`]: what inserting and removing make of a well-formed sequence;
//! - [`cases`]: what that comes to in the plain cases;
//! - [`history`]: what holds after any run of insertions and removals;
//! - [`set`]: the set itself, each operation proved against `edit`;
//! - [`storage`]: the calls into `tinyvec`, which are trusted, not proved.

pub mod cases;
pub mod cover;
pub mod edit;
pub mod history;
pub mod set;
pub mod storage;

pub use set::RangeSet;
pub use storage::INLINE_CAPACITY;
