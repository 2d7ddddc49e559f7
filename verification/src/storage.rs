//! The boundary to `tinyvec`.
//!
//! The intervals of a set live in a `TinyVec` with room for
//! [`INLINE_CAPACITY`] of them inside the value itself; past that the
//! `TinyVec` moves them to the heap. Nothing in this module is proved: each
//! function makes one call into `tinyvec` and states what that call does to
//! the intervals held, as `tinyvec`'s source has it. Everything else in the
//! crate is proved against these statements.

use std::ops::Range;
use tinyvec::TinyVec;
use vstd::prelude::*;

verus! {

/// How many intervals fit without a heap allocation.
pub const INLINE_CAPACITY: usize = 2;

/// A `TinyVec` of intervals. What it holds is [`stored`]; whether it holds
/// them inside itself or on the heap is [`held_inline`]. The `TinyVec` sits
/// in a struct of this crate because Verus cannot be told of `TinyVec`
/// itself: its parameter is bound by `tinyvec`'s trait `Array`.
#[verifier::external_body]
#[derive(Debug)]
pub struct IntervalBuf {
    inner: TinyVec<[Range<u64>; INLINE_CAPACITY]>,
}

/// The intervals that a buffer holds, in storage order.
pub uninterp spec fn stored(buf: IntervalBuf) -> Seq<Range<u64>>;

/// Whether a buffer is in its inline form (`TinyVec::Inline`) rather than on
/// the heap (`TinyVec::Heap`).
pub uninterp spec fn held_inline(buf: IntervalBuf) -> bool;

/// `TinyVec::new`: an empty buffer, which starts in the inline form.
#[verifier::external_body]
pub(crate) fn buf_new() -> (buf: IntervalBuf)
    ensures
        stored(buf) == Seq::<Range<u64>>::empty(),
        held_inline(buf),
{
    IntervalBuf { inner: TinyVec::new() }
}

/// `TinyVec::len`: the number of intervals held.
#[verifier::external_body]
pub(crate) fn buf_len(buf: &IntervalBuf) -> (n: usize)
    ensures
        n == stored(*buf).len(),
{
    buf.inner.len()
}

/// `TinyVec::is_empty`: whether no interval is held.
#[verifier::external_body]
pub(crate) fn buf_is_empty(buf: &IntervalBuf) -> (none: bool)
    ensures
        none == (stored(*buf).len() == 0),
{
    buf.inner.is_empty()
}

/// `TinyVec::is_inline`: whether the buffer is in its inline form.
#[verifier::external_body]
pub(crate) fn buf_is_inline(buf: &IntervalBuf) -> (inline: bool)
    ensures
        inline == held_inline(*buf),
{
    buf.inner.is_inline()
}

/// `TinyVec::as_slice`: the intervals held, as a slice.
#[verifier::external_body]
pub(crate) fn buf_as_slice(buf: &IntervalBuf) -> (items: &[Range<u64>])
    ensures
        items@ == stored(*buf),
{
    buf.inner.as_slice()
}

/// `TinyVec`'s `Index::index`, as in `buf[index]`: the interval at `index`,
/// of which this hands out a copy. `tinyvec` panics when `index` is out of
/// bounds.
#[verifier::external_body]
pub(crate) fn buf_get(buf: &IntervalBuf, index: usize) -> (item: Range<u64>)
    requires
        index < stored(*buf).len(),
    ensures
        item == stored(*buf)[index as int],
{
    buf.inner[index].clone()
}

/// `TinyVec`'s `IndexMut::index_mut`, as in `buf[index] = item`: puts `item`
/// in the place of the interval at `index`, in the form that the buffer is
/// in. `tinyvec` panics when `index` is out of bounds.
#[verifier::external_body]
pub(crate) fn buf_set(buf: &mut IntervalBuf, index: usize, item: Range<u64>)
    requires
        index < stored(*old(buf)).len(),
    ensures
        stored(*final(buf)) == stored(*old(buf)).update(index as int, item),
        held_inline(*final(buf)) == held_inline(*old(buf)),
{
    buf.inner[index] = item;
}

/// `TinyVec::insert`: puts `item` at `index` and moves what was at or after
/// `index` one place up. A heap buffer stays on the heap; an inline one
/// stays inline if it has a free slot, and moves to the heap if it is full.
/// `tinyvec` panics when `index` is past the length.
#[verifier::external_body]
pub(crate) fn buf_insert(buf: &mut IntervalBuf, index: usize, item: Range<u64>)
    requires
        index <= stored(*old(buf)).len(),
    ensures
        stored(*final(buf)) == stored(*old(buf)).insert(index as int, item),
        held_inline(*final(buf)) == (held_inline(*old(buf)) && stored(*old(buf)).len()
            < INLINE_CAPACITY),
{
    buf.inner.insert(index, item);
}

/// `TinyVec::remove`: takes out the interval at `index` and moves what was
/// after it one place down, in the form that the buffer is in: a heap
/// buffer does not come back inline by this. `tinyvec` panics when `index`
/// is out of bounds. The interval taken out is dropped.
#[verifier::external_body]
pub(crate) fn buf_remove(buf: &mut IntervalBuf, index: usize)
    requires
        index < stored(*old(buf)).len(),
    ensures
        stored(*final(buf)) == stored(*old(buf)).remove(index as int),
        held_inline(*final(buf)) == held_inline(*old(buf)),
{
    buf.inner.remove(index);
}

/// `TinyVec::push`: appends `item`. A heap buffer stays on the heap; an
/// inline one stays inline if it has a free slot, and moves to the heap if
/// it is full.
#[verifier::external_body]
pub(crate) fn buf_push(buf: &mut IntervalBuf, item: Range<u64>)
    ensures
        stored(*final(buf)) == stored(*old(buf)).push(item),
        held_inline(*final(buf)) == (held_inline(*old(buf)) && stored(*old(buf)).len()
            < INLINE_CAPACITY),
{
    buf.inner.push(item);
}

/// `TinyVec::extend_from_slice`: appends copies of `items`. A heap buffer
/// stays on the heap; an inline one stays inline exactly when the result
/// still fits the inline slots.
#[verifier::external_body]
pub(crate) fn buf_extend_from_slice(buf: &mut IntervalBuf, items: &[Range<u64>])
    ensures
        stored(*final(buf)) == stored(*old(buf)) + items@,
        held_inline(*final(buf)) == (held_inline(*old(buf)) && stored(*old(buf)).len()
            + items@.len() <= INLINE_CAPACITY),
{
    buf.inner.extend_from_slice(items);
}

/// `TinyVec::shrink_to_fit`: holds the same intervals afterwards. An inline
/// buffer is left alone; a heap buffer goes back to the inline form when its
/// intervals fit there, and otherwise only gives up spare capacity.
#[verifier::external_body]
pub(crate) fn buf_shrink_to_fit(buf: &mut IntervalBuf)
    ensures
        stored(*final(buf)) == stored(*old(buf)),
        held_inline(*final(buf)) == (held_inline(*old(buf)) || stored(*old(buf)).len()
            <= INLINE_CAPACITY),
{
    buf.inner.shrink_to_fit();
}

/// `TinyVec`'s `Clone::clone`: a buffer of its own with the same intervals,
/// in the same form as the one it was copied from.
#[verifier::external_body]
pub(crate) fn buf_clone(buf: &IntervalBuf) -> (copy: IntervalBuf)
    ensures
        stored(copy) == stored(*buf),
        held_inline(copy) == held_inline(*buf),
{
    IntervalBuf { inner: buf.inner.clone() }
}

} // verus!
