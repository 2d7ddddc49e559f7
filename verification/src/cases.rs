//! What inserting and removing come to in the plain cases: intervals that
//! touch, a gap that is filled, points that are covered already, a removal
//! from the middle, a removal of everything.

use crate::cover::{
    interval, lemma_points_empty, lemma_well_formed_unique, points, span, well_formed,
};
use crate::edit::{
    absorb, after_insert, after_remove, carve, insert_reach, lemma_after_insert,
    lemma_after_remove, lemma_insert_reach_bounds,
};
use std::ops::Range;
use vstd::prelude::*;

verus! {

/// Two intervals that touch become one, whichever of them comes first.
pub proof fn lemma_insert_touching(a: u64, b: u64, c: u64)
    requires
        a < b < c,
    ensures
        after_insert(seq![interval(a, b)], b, c) == seq![interval(a, c)],
        after_insert(seq![interval(b, c)], a, b) == seq![interval(a, c)],
{
    reveal_with_fuel(absorb, 2);
}

/// An interval that fills the gap between two others joins them into one.
pub proof fn lemma_insert_bridge(a: u64, b: u64, c: u64, d: u64)
    requires
        a < b < c < d,
    ensures
        after_insert(seq![interval(a, b), interval(c, d)], b, c) == seq![interval(a, d)],
{
    reveal_with_fuel(absorb, 3);
}

/// Inserting an interval whose points are all covered changes nothing.
pub proof fn lemma_insert_covered(s: Seq<Range<u64>>, start: u64, end: u64)
    requires
        well_formed(s),
        span(start, end).subset_of(points(s)),
    ensures
        after_insert(s, start, end) == s,
{
    lemma_after_insert(s, start, end);
    lemma_insert_reach_bounds(s, start, end);
    assert(points(s) + span(start, insert_reach(s, start, end)) =~= points(s));
    lemma_well_formed_unique(after_insert(s, start, end), s);
}

/// Removing from the inside of an interval leaves its two ends.
pub proof fn lemma_remove_interior(a: u64, b: u64, c: u64, d: u64)
    requires
        a < b < c < d,
    ensures
        after_remove(seq![interval(a, d)], b, c) == seq![interval(a, b), interval(c, d)],
{
    reveal_with_fuel(carve, 2);
}

/// Removing an interval that holds every covered point leaves nothing.
pub proof fn lemma_remove_all(s: Seq<Range<u64>>, start: u64, end: u64)
    requires
        well_formed(s),
        points(s).subset_of(span(start, end)),
    ensures
        after_remove(s, start, end) == Seq::<Range<u64>>::empty(),
{
    lemma_after_remove(s, start, end);
    lemma_points_empty();
    assert(points(s) - span(start, end) =~= Set::<u64>::empty());
    lemma_well_formed_unique(after_remove(s, start, end), Seq::<Range<u64>>::empty());
}

/// Removing an interval that holds no covered point changes nothing.
pub proof fn lemma_remove_uncovered(s: Seq<Range<u64>>, start: u64, end: u64)
    requires
        well_formed(s),
        points(s).disjoint(span(start, end)),
    ensures
        after_remove(s, start, end) == s,
{
    lemma_after_remove(s, start, end);
    assert(points(s) - span(start, end) =~= points(s));
    lemma_well_formed_unique(after_remove(s, start, end), s);
}

} // verus!
