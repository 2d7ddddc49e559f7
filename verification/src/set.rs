//! The interval set.
//!
//! A [`RangeSet`] keeps its intervals well-formed at all times: that is the
//! invariant of the type, so no operation asks anything of its caller. What
//! each operation does is stated on the sequence of intervals, `set@`, and on
//! the points that the sequence covers.

use crate::cover::{covers, points, span, well_formed};
use crate::edit::{
    absorb, after_insert, after_remove, carve, insert_reach, lemma_after_insert,
    lemma_after_remove, lemma_carve_before_suffix, lemma_carve_push, lemma_place_after_prefix,
    place,
};
use crate::storage::{
    buf_as_slice, buf_clone, buf_extend_from_slice, buf_get, buf_insert, buf_is_empty,
    buf_is_inline, buf_len, buf_new, buf_push, buf_remove, buf_set, buf_shrink_to_fit,
    held_inline, stored, IntervalBuf, INLINE_CAPACITY,
};
use std::ops::Range;
use vstd::prelude::*;
use vstd::std_specs::iter::IteratorSpec;

verus! {

/// A set of `u64` points, kept as the intervals that make it up.
///
/// The view of a set, `set@`, is the sequence of its intervals. It is
/// [`well_formed`] at all times: no interval is empty, they are in ascending
/// order, and each ends strictly before the next begins. So a set of points
/// has one sequence only, and two sets that cover the same points hold the
/// same intervals.
#[derive(Debug)]
pub struct RangeSet {
    items: IntervalBuf,
}

impl View for RangeSet {
    type V = Seq<Range<u64>>;

    /// The intervals of the set, in the order in which it keeps them.
    closed spec fn view(&self) -> Seq<Range<u64>> {
        stored(self.items)
    }
}

impl RangeSet {
    #[verifier::type_invariant]
    spec fn inv(self) -> bool {
        &&& well_formed(stored(self.items))
        &&& held_inline(self.items) ==> stored(self.items).len() <= INLINE_CAPACITY
    }

    /// Whether the intervals are kept inside the value, without a heap
    /// allocation.
    pub closed spec fn inline(&self) -> bool {
        held_inline(self.items)
    }

    /// An empty set.
    pub fn new() -> (set: Self)
        ensures
            set@ == Seq::<Range<u64>>::empty(),
            set.inline(),
    {
        RangeSet { items: buf_new() }
    }

    /// The number of intervals in the set (not the number of points).
    pub fn len(&self) -> (n: usize)
        ensures
            n == self@.len(),
    {
        buf_len(&self.items)
    }

    /// Whether the set holds no interval, and so no point.
    pub fn empty(&self) -> (none: bool)
        ensures
            none == (self@.len() == 0),
    {
        buf_is_empty(&self.items)
    }

    /// The intervals of the set, in ascending order: an iterator that hands
    /// out a copy of each, from either end, and then ends. What it will hand
    /// out, `remaining()`, is at first all the intervals of the set; they
    /// are well-formed.
    pub fn iter(&self) -> (all: impl DoubleEndedIterator<Item = Range<u64>> + '_)
        ensures
            all.obeys_prophetic_iter_laws(),
            all.remaining() == self@,
            well_formed(all.remaining()),
            all.decrease() is Some,
    {
        proof {
            use_type_invariant(self);
        }
        let items = buf_as_slice(&self.items);
        let mut copies: Vec<Range<u64>> = Vec::new();
        let mut index: usize = 0;
        while index < items.len()
            invariant
                index <= items@.len(),
                copies@ == items@.take(index as int),
            decreases items@.len() - index,
        {
            copies.push(Range { start: items[index].start, end: items[index].end });
            index += 1;
        }
        copies.into_iter()
    }

    /// Whether the set holds the point `num`: whether `num` lies in one of
    /// its intervals.
    pub fn contains(&self, num: u64) -> (found: bool)
        ensures
            found == covers(self@, num),
            found == points(self@).contains(num),
    {
        proof {
            use_type_invariant(self);
        }
        let items = buf_as_slice(&self.items);
        let mut index: usize = 0;
        while index < items.len()
            invariant
                items@ == self@,
                well_formed(items@),
                index <= items@.len(),
                forall|j: int| 0 <= j < index ==> (#[trigger] items@[j]).end <= num,
            decreases items@.len() - index,
        {
            if items[index].start > num {
                proof {
                    assert forall|j: int| 0 <= j < items@.len() implies !((#[trigger] items@[j])
                        .start <= num < items@[j].end) by {
                        if j > index {
                            assert(items@[index as int].end < items@[j].start);
                        }
                    }
                }
                return false;
            } else if num < items[index].end {
                return true;
            }
            index += 1;
        }
        false
    }

    /// Whether the set keeps its intervals inside the value, without a heap
    /// allocation. Only up to [`INLINE_CAPACITY`] intervals fit there.
    pub fn is_inline(&self) -> (inline: bool)
        ensures
            inline == self.inline(),
            inline ==> self@.len() <= INLINE_CAPACITY,
    {
        proof {
            use_type_invariant(self);
        }
        buf_is_inline(&self.items)
    }

    /// Gives up storage that the set does not need. The intervals stay as
    /// they are; afterwards they are kept inline exactly when they fit there.
    pub fn shrink_to_fit(&mut self)
        ensures
            final(self)@ == old(self)@,
            final(self).inline() == (old(self)@.len() <= INLINE_CAPACITY),
    {
        proof {
            use_type_invariant(&*self);
        }
        let mut items = buf_new();
        std::mem::swap(&mut items, &mut self.items);
        buf_shrink_to_fit(&mut items);
        self.items = items;
    }

    /// Inserts the interval from `range.start` up to, not including,
    /// `range.end`. Does the same as [`RangeSet::insert_num`] on the two
    /// bounds.
    pub fn insert(&mut self, range: Range<u64>)
        ensures
            final(self)@ == after_insert(old(self)@, range.start, range.end),
            well_formed(final(self)@),
            points(final(self)@) == points(old(self)@) + span(
                range.start,
                insert_reach(old(self)@, range.start, range.end),
            ),
            final(self).inline() == (old(self).inline() && final(self)@.len()
                <= INLINE_CAPACITY),
    {
        self.insert_num(range.start, range.end);
    }

    /// Inserts the interval from `start` up to, not including, `end`.
    ///
    /// An interval that holds no point (`start >= end`) changes nothing.
    /// Otherwise the set afterwards is [`after_insert`] of the set before:
    /// the new interval is merged with the intervals that it overlaps or
    /// touches, and the set stays well-formed. The points added are those
    /// from `start` up to [`insert_reach`], which is `end` unless the
    /// insertion stops early at an interval that begins inside the new one.
    /// A set that keeps its intervals inline goes on doing so as long as they
    /// fit there; one that has them on the heap leaves them there.
    pub fn insert_num(&mut self, start: u64, end: u64)
        ensures
            final(self)@ == after_insert(old(self)@, start, end),
            well_formed(final(self)@),
            points(final(self)@) == points(old(self)@) + span(
                start,
                insert_reach(old(self)@, start, end),
            ),
            final(self).inline() == (old(self).inline() && final(self)@.len()
                <= INLINE_CAPACITY),
    {
        proof {
            use_type_invariant(&*self);
            lemma_after_insert(self@, start, end);
        }
        if start >= end {
            return ;
        }
        let mut items = buf_new();
        std::mem::swap(&mut items, &mut self.items);
        place_in(&mut items, start, end);
        self.items = items;
    }

    /// Removes the points from `range.start` up to, not including,
    /// `range.end`.
    ///
    /// An interval that holds no point (`range.start >= range.end`) changes
    /// nothing. Otherwise the set afterwards is [`after_remove`] of the set
    /// before: intervals inside the removed one go, those that reach into it
    /// are cut back, one that holds it is split in two, and the set stays
    /// well-formed. A set that keeps its intervals inline goes on doing so as
    /// long as they fit there; one that has them on the heap leaves them
    /// there, however few are left.
    pub fn remove(&mut self, range: Range<u64>)
        ensures
            final(self)@ == after_remove(old(self)@, range.start, range.end),
            well_formed(final(self)@),
            points(final(self)@) == points(old(self)@) - span(range.start, range.end),
            final(self).inline() == (old(self).inline() && final(self)@.len()
                <= INLINE_CAPACITY),
    {
        proof {
            use_type_invariant(&*self);
            lemma_after_remove(self@, range.start, range.end);
        }
        if range.start >= range.end {
            return ;
        }
        let mut items = buf_new();
        std::mem::swap(&mut items, &mut self.items);
        carve_out(&mut items, range.start, range.end);
        self.items = items;
    }
}

impl Clone for RangeSet {
    /// A set of its own with the same intervals. A copy whose intervals fit
    /// inline keeps them inline, also where the set it is made from has them
    /// on the heap.
    fn clone(&self) -> (copy: Self)
        ensures
            copy@ == self@,
            copy.inline() == (self@.len() <= INLINE_CAPACITY),
    {
        proof {
            use_type_invariant(self);
        }
        if buf_is_inline(&self.items) || buf_len(&self.items) > INLINE_CAPACITY {
            return RangeSet { items: buf_clone(&self.items) };
        }
        let mut items = buf_new();
        buf_extend_from_slice(&mut items, buf_as_slice(&self.items));
        RangeSet { items }
    }
}

impl Default for RangeSet {
    /// An empty set.
    fn default() -> (set: Self)
        ensures
            set@ == Seq::<Range<u64>>::empty(),
            set.inline(),
    {
        RangeSet::new()
    }
}

/// Puts the non-empty interval from `start` to `end` into well-formed
/// `items`: one scan from the front, which ends at the first interval that
/// does not end before `start`.
fn place_in(items: &mut IntervalBuf, start: u64, end: u64)
    requires
        start < end,
        well_formed(stored(*old(items))),
        held_inline(*old(items)) ==> stored(*old(items)).len() <= INLINE_CAPACITY,
    ensures
        stored(*final(items)) == place(stored(*old(items)), start, end),
        held_inline(*final(items)) == (held_inline(*old(items)) && stored(*final(items)).len()
            <= INLINE_CAPACITY),
{
    let ghost before = stored(*items);
    let mut index: usize = 0;
    while index != buf_len(items)
        invariant
            start < end,
            stored(*old(items)) == before,
            stored(*items) == before,
            held_inline(*items) == held_inline(*old(items)),
            held_inline(*items) ==> before.len() <= INLINE_CAPACITY,
            well_formed(before),
            index <= before.len(),
            forall|j: int| 0 <= j < index ==> (#[trigger] before[j]).end < start,
        decreases before.len() - index,
    {
        let current = buf_get(items, index);
        proof {
            lemma_place_after_prefix(before, start, end, index as int);
        }
        if current.start > end {
            buf_insert(items, index, Range { start, end });
            return ;
        } else if current.start > start {
            buf_set(items, index, Range { start, end: current.end });
            return ;
        }
        if end <= current.end {
            return ;
        } else if start <= current.end {
            buf_set(items, index, Range { start: current.start, end });
            let ghost stretched = stored(*items);
            absorb_after(items, index);
            proof {
                assert(stretched.skip(index + 1) =~= before.skip(index as int).skip(1));
            }
            return ;
        }
        index += 1;
    }
    buf_push(items, Range { start, end });
    proof {
        lemma_place_after_prefix(before, start, end, index as int);
    }
}

/// Lets the interval at `index`, which has just been stretched forward,
/// swallow the intervals after it that it now reaches.
fn absorb_after(items: &mut IntervalBuf, index: usize)
    requires
        index < stored(*old(items)).len(),
    ensures
        stored(*final(items)) == stored(*old(items)).take(index as int) + absorb(
            stored(*old(items))[index as int].start,
            stored(*old(items))[index as int].end,
            stored(*old(items)).skip(index + 1),
        ),
        stored(*final(items)).len() <= stored(*old(items)).len(),
        held_inline(*final(items)) == held_inline(*old(items)),
{
    let ghost before = stored(*items);
    let ghost lo = before[index as int].start;
    let ghost mut eaten: int = 0;
    while index != buf_len(items) - 1
        invariant
            held_inline(*items) == held_inline(*old(items)),
            index < before.len(),
            0 <= eaten,
            index + 1 + eaten <= before.len(),
            stored(*items).len() == before.len() - eaten,
            stored(*items).take(index as int) == before.take(index as int),
            stored(*items)[index as int].start == lo,
            stored(*items).skip(index + 1) == before.skip(index + 1 + eaten),
            absorb(lo, before[index as int].end, before.skip(index + 1)) == absorb(
                lo,
                stored(*items)[index as int].end,
                before.skip(index + 1 + eaten),
            ),
        ensures
            stored(*items) == before.take(index as int) + absorb(
                lo,
                before[index as int].end,
                before.skip(index + 1),
            ),
            stored(*items).len() <= before.len(),
            held_inline(*items) == held_inline(*old(items)),
        decreases stored(*items).len() - index,
    {
        let curr = buf_get(items, index);
        let next = buf_get(items, index + 1);
        let ghost rest = before.skip(index + 1 + eaten);
        if curr.end >= next.start {
            let end: u64 = if next.end >= curr.end {
                next.end
            } else {
                curr.end
            };
            buf_set(items, index, Range { start: curr.start, end });
            buf_remove(items, index + 1);
            proof {
                assert(rest.skip(1) =~= before.skip(index + 1 + eaten + 1));
                eaten = eaten + 1;
            }
        } else {
            break ;
        }
    }
}

/// Takes the points of the non-empty interval from `start` to `end` out of
/// well-formed `items`: one scan from the front, which ends at the first
/// interval that begins at or after `end`.
fn carve_out(items: &mut IntervalBuf, start: u64, end: u64)
    requires
        start < end,
        well_formed(stored(*old(items))),
        held_inline(*old(items)) ==> stored(*old(items)).len() <= INLINE_CAPACITY,
    ensures
        stored(*final(items)) == carve(stored(*old(items)), start, end),
        held_inline(*final(items)) == (held_inline(*old(items)) && stored(*final(items)).len()
            <= INLINE_CAPACITY),
{
    let ghost before = stored(*items);
    // How many intervals of `before` the scan has dealt with.
    let ghost mut done: int = 0;
    // Whether the scan has split an interval in two. After that it meets no
    // interval that the removal touches.
    let ghost mut split: bool = false;
    let mut index: usize = 0;
    let mut len: usize = buf_len(items);
    while index != len
        invariant
            start < end,
            stored(*old(items)) == before,
            held_inline(*old(items)) ==> before.len() <= INLINE_CAPACITY,
            held_inline(*items) == (held_inline(*old(items)) && len <= INLINE_CAPACITY),
            !split ==> len <= before.len(),
            split && done < before.len() ==> end <= before[done].start,
            well_formed(before),
            0 <= done <= before.len(),
            len == stored(*items).len(),
            index <= len,
            stored(*items).take(index as int) == carve(before.take(done), start, end),
            stored(*items).skip(index as int) == before.skip(done),
        decreases before.len() - done,
    {
        let current = buf_get(items, index);
        let ghost unchanged = stored(*items);
        proof {
            assert(current == unchanged.skip(index as int)[0]);
            assert(unchanged.skip(index as int).len() == before.skip(done).len());
            lemma_carve_push(before.take(done), current, start, end);
            assert(before.take(done + 1) =~= before.take(done).push(current));
            assert(before.skip(done + 1) =~= before.skip(done).skip(1));
        }
        if end <= current.start {
            proof {
                lemma_carve_before_suffix(before, start, end, done);
            }
            return ;
        } else if start >= current.end {
            index += 1;
        } else {
            let left_is_empty = current.start >= start;
            let right_is_empty = end >= current.end;
            if left_is_empty && right_is_empty {
                buf_remove(items, index);
                len -= 1;
            } else if left_is_empty {
                buf_set(items, index, Range { start: end, end: current.end });
                index += 1;
            } else if right_is_empty {
                buf_set(items, index, Range { start: current.start, end: start });
                index += 1;
            } else {
                buf_set(items, index, Range { start: end, end: current.end });
                buf_insert(items, index, Range { start: current.start, end: start });
                len = buf_len(items);
                index += 2;
                proof {
                    split = true;
                    if done + 1 < before.len() {
                        assert(before[done].end < before[done + 1].start);
                    }
                }
            }
        }
        proof {
            done = done + 1;
        }
    }
    proof {
        assert(before.take(done) =~= before);
    }
}

} // verus!
