//! What inserting and removing an interval make of a well-formed sequence.
//!
//! [`after_insert`] and [`after_remove`] give the sequence afterwards; the
//! lemmas show that it is well-formed again and which points it covers.
//!
//! [`place`], [`absorb`], [`carve`] and [`insert_reach`] go through the
//! sequence interval by interval. To work one of them out on given intervals
//! Verus needs fuel for one step more than there are intervals, as in
//! `reveal_with_fuel(carve, 3)` for a sequence of two.

use crate::cover::{
    covers, ends_before, interval, lemma_points_concat, lemma_points_empty, lemma_points_single,
    lemma_points_split_first, lemma_well_formed_concat, lemma_well_formed_cons,
    lemma_well_formed_drop_last, lemma_well_formed_skip, points, span, starts_after, well_formed,
};
use std::ops::Range;
use vstd::prelude::*;

verus! {

/// The smaller of two bounds.
pub open spec fn earlier(a: u64, b: u64) -> u64 {
    if a <= b {
        a
    } else {
        b
    }
}

/// The larger of two bounds.
pub open spec fn later(a: u64, b: u64) -> u64 {
    if a >= b {
        a
    } else {
        b
    }
}

// Insertion

/// The interval from `start` to `end` followed by `rest`, once the interval
/// has swallowed, from the front of `rest`, every interval that begins at or
/// before its own end, growing to the end of each one it swallows.
pub open spec fn absorb(start: u64, end: u64, rest: Seq<Range<u64>>) -> Seq<Range<u64>>
    decreases rest.len(),
{
    if rest.len() == 0 || end < rest[0].start {
        seq![interval(start, end)] + rest
    } else {
        absorb(start, later(end, rest[0].end), rest.skip(1))
    }
}

/// `s` with the non-empty interval from `start` to `end` put in.
///
/// Intervals that end before `start` stay as they are. The first interval
/// that does not decides the rest: if it begins after `end`, the new interval
/// goes in front of it; if it begins after `start`, it is stretched back to
/// `start` and keeps its own end; if it already holds the new interval,
/// nothing changes; otherwise it is stretched forward to `end` and absorbs
/// what follows as far as it then reaches.
pub open spec fn place(s: Seq<Range<u64>>, start: u64, end: u64) -> Seq<Range<u64>>
    decreases s.len(),
{
    if s.len() == 0 {
        seq![interval(start, end)]
    } else if s[0].end < start {
        seq![s[0]] + place(s.skip(1), start, end)
    } else if end < s[0].start {
        seq![interval(start, end)] + s
    } else if start < s[0].start {
        seq![interval(start, s[0].end)] + s.skip(1)
    } else if end <= s[0].end {
        s
    } else {
        absorb(s[0].start, end, s.skip(1))
    }
}

/// The sequence after inserting the interval from `start` to `end` into `s`.
/// An interval with `start >= end` holds no point, and inserting it changes
/// nothing.
pub open spec fn after_insert(s: Seq<Range<u64>>, start: u64, end: u64) -> Seq<Range<u64>> {
    if start < end {
        place(s, start, end)
    } else {
        s
    }
}

/// Up to where an insertion of the interval from `start` to `end` into `s`
/// adds points. This is `end`, but for one case: when the first interval that
/// does not end before `start` begins inside the new interval and ends before
/// `end`, that interval is stretched back to `start` and nothing is added
/// past its end.
pub open spec fn insert_reach(s: Seq<Range<u64>>, start: u64, end: u64) -> u64
    decreases s.len(),
{
    if s.len() == 0 {
        end
    } else if s[0].end < start {
        insert_reach(s.skip(1), start, end)
    } else if start < s[0].start <= end && s[0].end < end {
        s[0].end
    } else {
        end
    }
}

/// Whether inserting the interval from `start` to `end` into `s` adds every
/// point of the interval.
pub open spec fn insert_is_whole(s: Seq<Range<u64>>, start: u64, end: u64) -> bool {
    insert_reach(s, start, end) == end
}

/// Skipping the intervals that end before `start` is all that `place` does
/// with them.
pub proof fn lemma_place_after_prefix(s: Seq<Range<u64>>, start: u64, end: u64, k: int)
    requires
        0 <= k <= s.len(),
        forall|j: int| 0 <= j < k ==> (#[trigger] s[j]).end < start,
    ensures
        place(s, start, end) == s.take(k) + place(s.skip(k), start, end),
    decreases k,
{
    if k == 0 {
        assert(s.skip(0) =~= s);
    } else {
        let rest = s.skip(1);
        assert forall|j: int| 0 <= j < k - 1 implies (#[trigger] rest[j]).end < start by {
            assert(rest[j] == s[j + 1]);
        }
        lemma_place_after_prefix(rest, start, end, k - 1);
        assert(rest.skip(k - 1) =~= s.skip(k));
        assert(seq![s[0]] + rest.take(k - 1) =~= s.take(k));
    }
}

/// Where an insertion stops is decided by the first interval that does not
/// end before `start`, here the one at `k`: the insertion stops at that
/// interval's end if the interval begins after `start`, no later than `end`,
/// and ends before `end`; otherwise, and when there is no such interval, it
/// goes up to `end`.
pub proof fn lemma_insert_reach_at(s: Seq<Range<u64>>, start: u64, end: u64, k: int)
    requires
        0 <= k <= s.len(),
        forall|j: int| 0 <= j < k ==> (#[trigger] s[j]).end < start,
        k < s.len() ==> s[k].end >= start,
    ensures
        insert_reach(s, start, end) == (if k < s.len() && start < s[k].start <= end && s[k].end
            < end {
            s[k].end
        } else {
            end
        }),
    decreases k,
{
    if k > 0 {
        let rest = s.skip(1);
        assert forall|j: int| 0 <= j < k - 1 implies (#[trigger] rest[j]).end < start by {
            assert(rest[j] == s[j + 1]);
        }
        lemma_insert_reach_at(rest, start, end, k - 1);
    }
}

/// An insertion never adds points past `end`, and one of an interval that
/// holds no point is whole.
pub proof fn lemma_insert_reach_bounds(s: Seq<Range<u64>>, start: u64, end: u64)
    ensures
        insert_reach(s, start, end) <= end,
        start >= end ==> insert_is_whole(s, start, end),
    decreases s.len(),
{
    if s.len() > 0 && s[0].end < start {
        lemma_insert_reach_bounds(s.skip(1), start, end);
    }
}

/// Absorbing keeps a sequence well-formed, keeps the start of the absorbing
/// interval, and covers what the interval and the sequence covered.
pub proof fn lemma_absorb(start: u64, end: u64, rest: Seq<Range<u64>>)
    requires
        start < end,
        well_formed(rest),
        starts_after(rest, start as int),
    ensures
        well_formed(absorb(start, end, rest)),
        absorb(start, end, rest).len() > 0,
        absorb(start, end, rest)[0].start == start,
        points(absorb(start, end, rest)) == span(start, end) + points(rest),
    decreases rest.len(),
{
    if rest.len() == 0 || end < rest[0].start {
        lemma_well_formed_cons(interval(start, end), rest);
    } else {
        let first = rest[0];
        let tail = rest.skip(1);
        lemma_well_formed_skip(rest, 1);
        assert(starts_after(tail, start as int)) by {
            assert forall|i: int| 0 <= i < tail.len() implies start < (#[trigger] tail[i])
                .start by {
                assert(tail[i] == rest[i + 1]);
            }
        }
        lemma_absorb(start, later(end, first.end), tail);
        lemma_points_split_first(rest);
        assert(span(start, later(end, first.end)) =~= span(start, end) + span(
            first.start,
            first.end,
        ));
    }
}

/// Inserting a non-empty interval keeps a sequence well-formed. The result
/// begins where the sequence began or at `start`, whichever is first, and
/// covers what the sequence covered and the points from `start` up to
/// `insert_reach`.
pub proof fn lemma_place(s: Seq<Range<u64>>, start: u64, end: u64)
    requires
        well_formed(s),
        start < end,
    ensures
        well_formed(place(s, start, end)),
        place(s, start, end).len() > 0,
        place(s, start, end)[0].start == (if s.len() > 0 && s[0].start < start {
            s[0].start
        } else {
            start
        }),
        start < insert_reach(s, start, end) <= end,
        points(place(s, start, end)) == points(s) + span(start, insert_reach(s, start, end)),
    decreases s.len(),
{
    if s.len() == 0 {
        lemma_well_formed_cons(interval(start, end), s);
    } else {
        let first = s[0];
        let tail = s.skip(1);
        lemma_well_formed_skip(s, 1);
        lemma_points_split_first(s);
        if first.end < start {
            lemma_place(tail, start, end);
            lemma_well_formed_cons(first, place(tail, start, end));
        } else if end < first.start {
            lemma_well_formed_cons(interval(start, end), s);
        } else if start < first.start {
            lemma_well_formed_cons(interval(start, first.end), tail);
            assert(span(start, first.end) =~= span(first.start, first.end) + span(
                start,
                insert_reach(s, start, end),
            ));
        } else if end > first.end {
            assert(starts_after(tail, first.start as int)) by {
                assert forall|i: int| 0 <= i < tail.len() implies first.start
                    < (#[trigger] tail[i]).start by {
                    assert(tail[i] == s[i + 1]);
                }
            }
            lemma_absorb(first.start, end, tail);
            assert(span(first.start, end) =~= span(first.start, first.end) + span(start, end));
        }
    }
}

/// Inserting keeps a sequence well-formed and covers what the sequence
/// covered and the points from `start` up to `insert_reach`.
pub proof fn lemma_after_insert(s: Seq<Range<u64>>, start: u64, end: u64)
    requires
        well_formed(s),
    ensures
        well_formed(after_insert(s, start, end)),
        points(after_insert(s, start, end)) == points(s) + span(
            start,
            insert_reach(s, start, end),
        ),
{
    if start < end {
        lemma_place(s, start, end);
    } else {
        lemma_insert_reach_bounds(s, start, end);
    }
}

/// Where an insertion stops early, it stops at a point of the new interval
/// that the sequence does not cover.
pub proof fn lemma_insert_stops_at_gap(s: Seq<Range<u64>>, start: u64, end: u64)
    requires
        well_formed(s),
        start < end,
        !insert_is_whole(s, start, end),
    ensures
        start < insert_reach(s, start, end) < end,
        !covers(s, insert_reach(s, start, end)),
    decreases s.len(),
{
    let reach = insert_reach(s, start, end);
    if s[0].end < start {
        lemma_well_formed_skip(s, 1);
        lemma_insert_stops_at_gap(s.skip(1), start, end);
        lemma_points_split_first(s);
        assert(!points(s).contains(reach));
    } else {
        assert forall|i: int| 0 <= i < s.len() implies !((#[trigger] s[i]).start <= reach
            < s[i].end) by {
            if i > 0 {
                assert(s[0].end < s[i].start);
            }
        }
    }
}

/// An insertion covers the old points and the whole new interval exactly
/// when it is whole.
pub proof fn lemma_insert_is_whole(s: Seq<Range<u64>>, start: u64, end: u64)
    requires
        well_formed(s),
    ensures
        insert_is_whole(s, start, end) <==> points(after_insert(s, start, end)) == points(s)
            + span(start, end),
{
    lemma_after_insert(s, start, end);
    if !insert_is_whole(s, start, end) {
        lemma_insert_reach_bounds(s, start, end);
        lemma_insert_stops_at_gap(s, start, end);
        let reach = insert_reach(s, start, end);
        assert((points(s) + span(start, end)).contains(reach));
        assert(!(points(s) + span(start, reach)).contains(reach));
    }
}

/// An interval given as a `Range` and the same interval given by its two
/// bounds are inserted alike.
pub proof fn lemma_insert_forms_agree(
    s: Seq<Range<u64>>,
    range: Range<u64>,
    start: u64,
    end: u64,
)
    requires
        range == interval(start, end),
    ensures
        after_insert(s, range.start, range.end) == after_insert(s, start, end),
{
}

// Removal

/// What is left of the interval `r` once the points from `start` up to `end`
/// are taken out of it: its part before `start`, if it has one, and then its
/// part from `end` on, if it has one.
pub open spec fn remainder(r: Range<u64>, start: u64, end: u64) -> Seq<Range<u64>> {
    let left = if r.start < start {
        seq![interval(r.start, earlier(r.end, start))]
    } else {
        Seq::empty()
    };
    let right = if end < r.end {
        seq![interval(later(r.start, end), r.end)]
    } else {
        Seq::empty()
    };
    left + right
}

/// What is left of each interval of `s`, in order, once the points from
/// `start` up to `end` are taken out.
pub open spec fn carve(s: Seq<Range<u64>>, start: u64, end: u64) -> Seq<Range<u64>>
    decreases s.len(),
{
    if s.len() == 0 {
        s
    } else {
        carve(s.drop_last(), start, end) + remainder(s.last(), start, end)
    }
}

/// The sequence after removing the interval from `start` to `end` from `s`.
/// An interval with `start >= end` holds no point, and removing it changes
/// nothing.
pub open spec fn after_remove(s: Seq<Range<u64>>, start: u64, end: u64) -> Seq<Range<u64>> {
    if start < end {
        carve(s, start, end)
    } else {
        s
    }
}

/// Carving a sequence and one more interval is carving the sequence and then
/// the interval.
pub proof fn lemma_carve_push(s: Seq<Range<u64>>, r: Range<u64>, start: u64, end: u64)
    ensures
        carve(s.push(r), start, end) == carve(s, start, end) + remainder(r, start, end),
{
    assert(s.push(r).drop_last() =~= s);
}

/// An interval that begins at or after `end` is left as it is, and so is
/// everything after it.
pub proof fn lemma_carve_before_suffix(s: Seq<Range<u64>>, start: u64, end: u64, k: int)
    requires
        well_formed(s),
        start < end,
        0 <= k <= s.len(),
        k < s.len() ==> end <= s[k].start,
    ensures
        carve(s, start, end) == carve(s.take(k), start, end) + s.skip(k),
    decreases s.len() - k,
{
    if k == s.len() {
        assert(s.take(k) =~= s);
    } else {
        let front = s.drop_last();
        let last = s.last();
        assert(end <= last.start) by {
            if k < s.len() - 1 {
                assert(s[k].end < s[s.len() - 1].start);
            }
        }
        assert(remainder(last, start, end) =~= seq![last]);
        lemma_well_formed_drop_last(s);
        lemma_carve_before_suffix(front, start, end, k);
        assert(front.take(k) =~= s.take(k));
        assert(front.skip(k) + seq![last] =~= s.skip(k));
    }
}

/// What is left of a non-empty interval is well-formed, lies inside the
/// interval, and covers the interval's points outside `start..end`.
pub proof fn lemma_remainder(r: Range<u64>, start: u64, end: u64)
    requires
        r.start < r.end,
        start < end,
    ensures
        well_formed(remainder(r, start, end)),
        starts_after(remainder(r, start, end), r.start - 1),
        ends_before(remainder(r, start, end), r.end + 1),
        points(remainder(r, start, end)) == span(r.start, r.end) - span(start, end),
{
    let left = interval(r.start, earlier(r.end, start));
    let right = interval(later(r.start, end), r.end);
    if r.start < start && end < r.end {
        lemma_points_concat(seq![left], seq![right]);
        lemma_points_single(left);
        lemma_points_single(right);
    } else if r.start < start {
        lemma_points_single(left);
    } else if end < r.end {
        lemma_points_single(right);
    } else {
        lemma_points_empty();
    }
}

/// Removing a non-empty interval keeps a sequence well-formed, lets no
/// interval end later than the intervals did before, and covers what the
/// sequence covered outside `start..end`.
pub proof fn lemma_carve(s: Seq<Range<u64>>, start: u64, end: u64)
    requires
        well_formed(s),
        start < end,
    ensures
        well_formed(carve(s, start, end)),
        forall|hi: int| ends_before(s, hi) ==> #[trigger] ends_before(carve(s, start, end), hi),
        points(carve(s, start, end)) == points(s) - span(start, end),
    decreases s.len(),
{
    if s.len() == 0 {
        lemma_points_empty();
    } else {
        let front = s.drop_last();
        let last = s.last();
        let kept = carve(front, start, end);
        let rem = remainder(last, start, end);
        lemma_well_formed_drop_last(s);
        lemma_carve(front, start, end);
        lemma_remainder(last, start, end);
        assert(ends_before(kept, last.start as int));
        lemma_well_formed_concat(kept, rem, last.start - 1);
        assert forall|hi: int| ends_before(s, hi) implies #[trigger] ends_before(
            kept + rem,
            hi,
        ) by {
            assert(ends_before(front, hi)) by {
                assert forall|i: int| 0 <= i < front.len() implies (#[trigger] front[i]).end
                    < hi by {
                    assert(front[i] == s[i]);
                }
            }
            assert(last.end < hi);
        }
        lemma_points_concat(kept, rem);
    }
}

/// Removing keeps a sequence well-formed and covers what the sequence
/// covered outside `start..end`.
pub proof fn lemma_after_remove(s: Seq<Range<u64>>, start: u64, end: u64)
    requires
        well_formed(s),
    ensures
        well_formed(after_remove(s, start, end)),
        points(after_remove(s, start, end)) == points(s) - span(start, end),
{
    if start < end {
        lemma_carve(s, start, end);
    }
}

/// Inserting or removing an interval that holds no point changes nothing.
pub proof fn lemma_empty_interval_changes_nothing(s: Seq<Range<u64>>, start: u64, end: u64)
    requires
        start >= end,
    ensures
        after_insert(s, start, end) == s,
        after_remove(s, start, end) == s,
{
}

} // verus!
