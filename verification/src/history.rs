//! Sets as the outcome of a history of insertions and removals: what holds
//! of a set whatever was done to it since it was empty.

use crate::cover::{
    covers, lemma_points_empty, lemma_well_formed_is_sorted_and_disjoint, points, span,
    well_formed,
};
use crate::edit::{
    after_insert, after_remove, insert_is_whole, lemma_after_insert, lemma_after_remove,
    lemma_insert_is_whole,
};
use std::ops::Range;
use vstd::prelude::*;

verus! {

/// One change to a set.
pub enum Edit {
    /// `insert` or `insert_num` of the interval from `start` to `end`.
    Insert { start: u64, end: u64 },
    /// `remove` of the interval from `start` to `end`.
    Remove { start: u64, end: u64 },
}

/// The sequence that `edit` makes of `s`.
pub open spec fn apply(s: Seq<Range<u64>>, edit: Edit) -> Seq<Range<u64>> {
    match edit {
        Edit::Insert { start, end } => after_insert(s, start, end),
        Edit::Remove { start, end } => after_remove(s, start, end),
    }
}

/// The set that a history makes of the empty set.
pub open spec fn replay(edits: Seq<Edit>) -> Seq<Range<u64>>
    decreases edits.len(),
{
    if edits.len() == 0 {
        Seq::empty()
    } else {
        apply(replay(edits.drop_last()), edits.last())
    }
}

/// The points that a history leaves: those of each inserted interval that no
/// later edit removed.
pub open spec fn net_points(edits: Seq<Edit>) -> Set<u64>
    decreases edits.len(),
{
    if edits.len() == 0 {
        Set::empty()
    } else {
        match edits.last() {
            Edit::Insert { start, end } => net_points(edits.drop_last()) + span(start, end),
            Edit::Remove { start, end } => net_points(edits.drop_last()) - span(start, end),
        }
    }
}

/// Whether every insertion of a history is whole at the time it is made.
pub open spec fn all_whole(edits: Seq<Edit>) -> bool
    decreases edits.len(),
{
    edits.len() == 0 || (all_whole(edits.drop_last()) && match edits.last() {
        Edit::Insert { start, end } => insert_is_whole(replay(edits.drop_last()), start, end),
        Edit::Remove { .. } => true,
    })
}

/// Whatever is inserted into and removed from an empty set, in whatever
/// order, the set is well-formed afterwards: its intervals are in strictly
/// ascending order and no two of them overlap or touch.
pub proof fn lemma_replay_well_formed(edits: Seq<Edit>)
    ensures
        well_formed(replay(edits)),
    decreases edits.len(),
{
    if edits.len() > 0 {
        let earlier = replay(edits.drop_last());
        lemma_replay_well_formed(edits.drop_last());
        match edits.last() {
            Edit::Insert { start, end } => lemma_after_insert(earlier, start, end),
            Edit::Remove { start, end } => lemma_after_remove(earlier, start, end),
        }
    }
}

/// Whatever is inserted into and removed from an empty set, the intervals
/// afterwards are strictly ascending by start, and each ends no later than
/// the next begins.
pub proof fn lemma_replay_sorted_and_disjoint(edits: Seq<Edit>)
    ensures
        forall|i: int, j: int|
            #![trigger replay(edits)[i], replay(edits)[j]]
            0 <= i < j < replay(edits).len() ==> replay(edits)[i].start < replay(edits)[j].start,
        forall|i: int|
            #![trigger replay(edits)[i]]
            0 <= i && i + 1 < replay(edits).len() ==> replay(edits)[i].end <= replay(edits)[i
                + 1].start,
{
    lemma_replay_well_formed(edits);
    lemma_well_formed_is_sorted_and_disjoint(replay(edits));
}

/// After a history whose insertions are all whole, the set covers exactly
/// the points that were inserted and not removed afterwards.
pub proof fn lemma_replay_covers_net_points(edits: Seq<Edit>)
    requires
        all_whole(edits),
    ensures
        points(replay(edits)) == net_points(edits),
    decreases edits.len(),
{
    if edits.len() == 0 {
        lemma_points_empty();
    } else {
        let earlier = replay(edits.drop_last());
        lemma_replay_well_formed(edits.drop_last());
        lemma_replay_covers_net_points(edits.drop_last());
        match edits.last() {
            Edit::Insert { start, end } => lemma_insert_is_whole(earlier, start, end),
            Edit::Remove { start, end } => lemma_after_remove(earlier, start, end),
        }
    }
}

/// After a history whose insertions are all whole, the set holds a point
/// exactly when the point was inserted and not removed afterwards.
pub proof fn lemma_replay_covers_net_point(edits: Seq<Edit>, p: u64)
    requires
        all_whole(edits),
    ensures
        covers(replay(edits), p) == net_points(edits).contains(p),
{
    lemma_replay_covers_net_points(edits);
}

/// If a history and every history that it begins with leave exactly their
/// net points covered, then all its insertions are whole.
pub proof fn lemma_all_whole_is_needed(edits: Seq<Edit>)
    requires
        forall|k: int|
            0 <= k <= edits.len() ==> points(replay(#[trigger] edits.take(k))) == net_points(
                edits.take(k),
            ),
    ensures
        all_whole(edits),
    decreases edits.len(),
{
    if edits.len() > 0 {
        let front = edits.drop_last();
        assert forall|k: int| 0 <= k <= front.len() implies points(
            replay(#[trigger] front.take(k)),
        ) == net_points(front.take(k)) by {
            assert(front.take(k) =~= edits.take(k));
        }
        lemma_all_whole_is_needed(front);
        assert(edits.take(edits.len() as int) =~= edits);
        lemma_replay_well_formed(front);
        match edits.last() {
            Edit::Insert { start, end } => lemma_insert_is_whole(replay(front), start, end),
            Edit::Remove { .. } => {},
        }
    }
}

} // verus!
