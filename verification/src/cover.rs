//! Sequences of intervals as mathematics: which points such a sequence
//! covers, and when it is well-formed, the one form in which a set of points
//! is kept.

use std::ops::Range;
use vstd::prelude::*;

verus! {

/// The points from `start` up to, not including, `end`. Empty when
/// `start >= end`.
pub open spec fn span(start: u64, end: u64) -> Set<u64> {
    Set::new(|p: u64| start <= p < end)
}

/// The interval from `start` up to, not including, `end`.
pub open spec fn interval(start: u64, end: u64) -> Range<u64> {
    Range { start, end }
}

/// Whether some interval of `s` holds the point `p`.
pub open spec fn covers(s: Seq<Range<u64>>, p: u64) -> bool {
    exists|i: int| 0 <= i < s.len() && (#[trigger] s[i]).start <= p < s[i].end
}

/// All points that the intervals of `s` hold.
pub open spec fn points(s: Seq<Range<u64>>) -> Set<u64> {
    Set::new(|p: u64| covers(s, p))
}

/// Every interval of `s` starts after `lo`.
pub open spec fn starts_after(s: Seq<Range<u64>>, lo: int) -> bool {
    forall|i: int| 0 <= i < s.len() ==> lo < (#[trigger] s[i]).start
}

/// Every interval of `s` ends before `hi`.
pub open spec fn ends_before(s: Seq<Range<u64>>, hi: int) -> bool {
    forall|i: int| 0 <= i < s.len() ==> (#[trigger] s[i]).end < hi
}

/// The form in which a set keeps its intervals: none of them is empty, and
/// each ends strictly before the next begins, so that they are in ascending
/// order, share no point and do not even touch.
pub open spec fn well_formed(s: Seq<Range<u64>>) -> bool {
    &&& forall|i: int| 0 <= i < s.len() ==> (#[trigger] s[i]).start < s[i].end
    &&& forall|i: int, j: int|
        0 <= i < j < s.len() ==> (#[trigger] s[i]).end < (#[trigger] s[j]).start
}

/// A well-formed sequence is strictly ascending by start, and each interval
/// ends no later than its successor begins.
pub proof fn lemma_well_formed_is_sorted_and_disjoint(s: Seq<Range<u64>>)
    requires
        well_formed(s),
    ensures
        forall|i: int, j: int|
            0 <= i < j < s.len() ==> (#[trigger] s[i]).start < (#[trigger] s[j]).start,
        forall|i: int| 0 <= i && i + 1 < s.len() ==> (#[trigger] s[i]).end <= s[i + 1].start,
{
}

/// The empty sequence covers nothing.
pub proof fn lemma_points_empty()
    ensures
        points(Seq::<Range<u64>>::empty()) == Set::<u64>::empty(),
{
}

/// A single interval covers its span.
pub proof fn lemma_points_single(r: Range<u64>)
    ensures
        points(seq![r]) == span(r.start, r.end),
{
    let s = seq![r];
    assert forall|p: u64| covers(s, p) <==> r.start <= p < r.end by {
        if r.start <= p < r.end {
            assert(s[0].start <= p < s[0].end);
        }
    }
}

/// Two sequences one after the other cover what either covers.
pub proof fn lemma_points_concat(a: Seq<Range<u64>>, b: Seq<Range<u64>>)
    ensures
        points(a + b) == points(a) + points(b),
{
    let ab = a + b;
    assert forall|p: u64| covers(ab, p) <==> covers(a, p) || covers(b, p) by {
        if covers(ab, p) {
            let k = choose|k: int| 0 <= k < ab.len() && (#[trigger] ab[k]).start <= p < ab[k].end;
            if k < a.len() {
                assert(a[k].start <= p < a[k].end);
            } else {
                assert(b[k - a.len()].start <= p < b[k - a.len()].end);
            }
        }
        if covers(a, p) {
            let k = choose|k: int| 0 <= k < a.len() && (#[trigger] a[k]).start <= p < a[k].end;
            assert(ab[k].start <= p < ab[k].end);
        }
        if covers(b, p) {
            let k = choose|k: int| 0 <= k < b.len() && (#[trigger] b[k]).start <= p < b[k].end;
            assert(ab[k + a.len()].start <= p < ab[k + a.len()].end);
        }
    }
}

/// A sequence covers what its first interval covers and what the others
/// cover.
pub proof fn lemma_points_split_first(s: Seq<Range<u64>>)
    requires
        s.len() > 0,
    ensures
        points(s) == span(s[0].start, s[0].end) + points(s.skip(1)),
{
    assert(s =~= seq![s[0]] + s.skip(1));
    lemma_points_concat(seq![s[0]], s.skip(1));
    lemma_points_single(s[0]);
}

/// What is left of a well-formed sequence after its first intervals is
/// well-formed.
pub proof fn lemma_well_formed_skip(s: Seq<Range<u64>>, k: int)
    requires
        well_formed(s),
        0 <= k <= s.len(),
    ensures
        well_formed(s.skip(k)),
{
}

/// An interval put in front of a well-formed sequence that begins after the
/// interval's end gives a well-formed sequence.
pub proof fn lemma_well_formed_cons(r: Range<u64>, s: Seq<Range<u64>>)
    requires
        r.start < r.end,
        well_formed(s),
        s.len() > 0 ==> r.end < s[0].start,
    ensures
        well_formed(seq![r] + s),
        points(seq![r] + s) == span(r.start, r.end) + points(s),
{
    lemma_points_concat(seq![r], s);
    lemma_points_single(r);
}

/// Two well-formed sequences, the first ending at or before `mid` and the
/// second wholly after it, make a well-formed sequence when joined.
pub proof fn lemma_well_formed_concat(a: Seq<Range<u64>>, b: Seq<Range<u64>>, mid: int)
    requires
        well_formed(a),
        well_formed(b),
        ends_before(a, mid + 1),
        starts_after(b, mid),
    ensures
        well_formed(a + b),
{
}

/// The intervals of a well-formed sequence without its last are
/// well-formed, and all end before the last one begins.
pub proof fn lemma_well_formed_drop_last(s: Seq<Range<u64>>)
    requires
        well_formed(s),
        s.len() > 0,
    ensures
        well_formed(s.drop_last()),
        ends_before(s.drop_last(), s.last().start as int),
        points(s) == points(s.drop_last()) + span(s.last().start, s.last().end),
{
    assert(s =~= s.drop_last() + seq![s.last()]);
    lemma_points_concat(s.drop_last(), seq![s.last()]);
    lemma_points_single(s.last());
}

/// The first interval of a well-formed sequence begins at the least point
/// that the sequence covers, and ends at the least point after that which
/// it does not cover.
pub proof fn lemma_first_interval(s: Seq<Range<u64>>)
    requires
        well_formed(s),
        s.len() > 0,
    ensures
        forall|p: u64| covers(s, p) ==> s[0].start <= p,
        forall|p: u64| s[0].start <= p < s[0].end ==> covers(s, p),
        !covers(s, s[0].end),
        points(s.skip(1)) == points(s) - span(s[0].start, s[0].end),
{
    let first = s[0];
    let tail = s.skip(1);
    assert forall|i: int| 1 <= i < s.len() implies first.end < (#[trigger] s[i]).start by {
        assert(s[0].end < s[i].start);
    }
    lemma_points_split_first(s);
    assert forall|p: u64| covers(tail, p) implies !(first.start <= p < first.end) by {
        let k = choose|k: int| 0 <= k < tail.len() && (#[trigger] tail[k]).start <= p < tail[k].end;
        assert(tail[k] == s[k + 1]);
    }
}

/// A set of points has at most one well-formed sequence that covers exactly
/// it: in a well-formed sequence every interval is a whole run of covered
/// points, as long as it can be.
pub proof fn lemma_well_formed_unique(a: Seq<Range<u64>>, b: Seq<Range<u64>>)
    requires
        well_formed(a),
        well_formed(b),
        points(a) == points(b),
    ensures
        a == b,
    decreases a.len(),
{
    assert forall|p: u64| covers(a, p) == covers(b, p) by {
        assert(points(a).contains(p) == covers(a, p));
        assert(points(b).contains(p) == covers(b, p));
    }
    if a.len() == 0 {
        if b.len() > 0 {
            lemma_first_interval(b);
            assert(covers(b, b[0].start));
        }
    } else {
        lemma_first_interval(a);
        assert(covers(a, a[0].start));
        lemma_first_interval(b);
        assert(covers(b, b[0].start));
        assert(a[0] == b[0]);
        lemma_well_formed_skip(a, 1);
        lemma_well_formed_skip(b, 1);
        lemma_well_formed_unique(a.skip(1), b.skip(1));
        assert(a =~= seq![a[0]] + a.skip(1));
        assert(b =~= seq![b[0]] + b.skip(1));
    }
}

} // verus!
