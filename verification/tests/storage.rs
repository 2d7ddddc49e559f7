//! Where the set keeps its intervals, and what copying does about it.

use rangeset::{RangeSet, INLINE_CAPACITY};
use std::ops::Range;

fn stored_in(set: &RangeSet) -> Vec<Range<u64>> {
    set.iter().collect()
}

fn spread(count: u64) -> RangeSet {
    let mut set = RangeSet::new();
    for k in 0..count {
        set.insert_num(10 * k, 10 * k + 5);
    }
    set
}

#[test]
fn inline_capacity_is_two() {
    assert_eq!(INLINE_CAPACITY, 2);
}

#[test]
fn small_set_is_inline() {
    assert!(RangeSet::new().is_inline());
    assert!(spread(1).is_inline());
    assert!(spread(2).is_inline());
}

#[test]
fn third_interval_spills_to_the_heap() {
    let set = spread(3);
    assert_eq!(set.len(), 3);
    assert!(!set.is_inline());
    assert_eq!(stored_in(&set), vec![0..5, 10..15, 20..25]);
}

#[test]
fn split_of_second_interval_spills_to_the_heap() {
    let mut set = spread(2);
    set.remove(11..12);
    assert_eq!(stored_in(&set), vec![0..5, 10..11, 12..15]);
    assert!(!set.is_inline());
}

#[test]
fn shrinking_alone_does_not_bring_back_inline() {
    let mut set = spread(3);
    set.remove(0..30);
    assert!(set.empty());
    assert!(!set.is_inline());
}

#[test]
fn shrink_to_fit_brings_a_small_set_back_inline() {
    let mut set = spread(4);
    set.remove(10..40);
    assert_eq!(stored_in(&set), vec![0..5]);
    assert!(!set.is_inline());
    set.shrink_to_fit();
    assert!(set.is_inline());
    assert_eq!(stored_in(&set), vec![0..5]);
    assert_eq!(set.len(), 1);
}

#[test]
fn shrink_to_fit_at_capacity_goes_inline() {
    let mut set = spread(3);
    set.remove(20..25);
    assert_eq!(set.len(), INLINE_CAPACITY);
    assert!(!set.is_inline());
    set.shrink_to_fit();
    assert!(set.is_inline());
    assert_eq!(stored_in(&set), vec![0..5, 10..15]);
}

#[test]
fn shrink_to_fit_keeps_a_large_set_on_the_heap() {
    let mut set = spread(5);
    set.shrink_to_fit();
    assert!(!set.is_inline());
    assert_eq!(stored_in(&set), vec![0..5, 10..15, 20..25, 30..35, 40..45]);
}

#[test]
fn shrink_to_fit_leaves_an_inline_set_alone() {
    let mut set = spread(2);
    set.shrink_to_fit();
    assert!(set.is_inline());
    assert_eq!(stored_in(&set), vec![0..5, 10..15]);
}

#[test]
fn set_works_on_after_shrink_to_fit() {
    let mut set = spread(3);
    set.remove(0..15);
    set.shrink_to_fit();
    set.insert(0..3);
    set.insert(100..110);
    assert_eq!(stored_in(&set), vec![0..3, 20..25, 100..110]);
    assert!(set.contains(104));
}

#[test]
fn clone_has_the_same_intervals() {
    for count in 0..6 {
        let set = spread(count);
        let copy = set.clone();
        assert_eq!(stored_in(&copy), stored_in(&set));
        assert_eq!(copy.len(), set.len());
        assert_eq!(copy.empty(), set.empty());
    }
}

#[test]
fn clone_of_inline_set_is_inline() {
    let copy = spread(2).clone();
    assert!(copy.is_inline());
    assert_eq!(stored_in(&copy), vec![0..5, 10..15]);
}

#[test]
fn clone_of_large_set_is_on_the_heap() {
    let copy = spread(3).clone();
    assert!(!copy.is_inline());
    assert_eq!(stored_in(&copy), vec![0..5, 10..15, 20..25]);
}

#[test]
fn clone_of_shrunken_heap_set_is_inline() {
    let mut set = spread(3);
    set.remove(10..25);
    assert!(!set.is_inline());
    let copy = set.clone();
    assert!(copy.is_inline());
    assert_eq!(stored_in(&copy), vec![0..5]);
    assert!(!set.is_inline());
    assert_eq!(stored_in(&set), vec![0..5]);
}

#[test]
fn clone_of_emptied_heap_set_is_inline_and_empty() {
    let mut set = spread(3);
    set.remove(0..100);
    let copy = set.clone();
    assert!(copy.is_inline());
    assert!(copy.empty());
}

#[test]
fn changing_a_clone_leaves_the_set_as_it_was() {
    let first = spread(2);
    let mut copy = first.clone();
    copy.insert(100..200);
    copy.remove(0..3);
    copy.insert_num(5, 10);
    assert_eq!(stored_in(&copy), vec![3..15, 100..200]);
    assert_eq!(stored_in(&first), vec![0..5, 10..15]);
    assert_eq!(first.len(), 2);
}

#[test]
fn changing_a_clone_on_the_heap_leaves_the_set_as_it_was() {
    let first = spread(4);
    let mut copy = first.clone();
    copy.remove(0..1000);
    assert!(copy.empty());
    assert_eq!(first.len(), 4);
    assert_eq!(stored_in(&first), vec![0..5, 10..15, 20..25, 30..35]);
}

#[test]
fn changing_a_set_leaves_its_clone_as_it_was() {
    let mut first = spread(3);
    let copy = first.clone();
    first.remove(0..12);
    first.insert(50..60);
    assert_eq!(stored_in(&first), vec![12..15, 20..25, 50..60]);
    assert_eq!(stored_in(&copy), vec![0..5, 10..15, 20..25]);
}

#[test]
fn iter_hands_out_copies() {
    let set = spread(2);
    let mut listed: Vec<Range<u64>> = set.iter().collect();
    listed[0].end = 1000;
    listed.clear();
    for mut r in set.iter() {
        r.start = 77;
    }
    assert_eq!(stored_in(&set), vec![0..5, 10..15]);
}

#[test]
fn insert_between_two_spills_to_the_heap() {
    let mut set = RangeSet::new();
    set.insert(0..5);
    set.insert(20..25);
    assert!(set.is_inline());
    set.insert(10..15);
    assert_eq!(stored_in(&set), vec![0..5, 10..15, 20..25]);
    assert!(!set.is_inline());
}

#[test]
fn insert_that_merges_keeps_an_inline_set_inline() {
    let mut set = spread(2);
    set.insert(3..12);
    assert_eq!(stored_in(&set), vec![0..15]);
    assert!(set.is_inline());
    set.insert(15..20);
    set.insert(30..40);
    assert_eq!(stored_in(&set), vec![0..20, 30..40]);
    assert!(set.is_inline());
}

#[test]
fn remove_that_trims_keeps_an_inline_set_inline() {
    let mut set = spread(2);
    set.remove(3..12);
    assert_eq!(stored_in(&set), vec![0..3, 12..15]);
    assert!(set.is_inline());
    set.remove(0..3);
    assert_eq!(stored_in(&set), vec![12..15]);
    assert!(set.is_inline());
    set.remove(13..14);
    assert_eq!(stored_in(&set), vec![12..13, 14..15]);
    assert!(set.is_inline());
}

#[test]
fn set_on_the_heap_stays_there_through_edits() {
    let mut set = spread(3);
    set.insert(0..25);
    assert_eq!(stored_in(&set), vec![0..25]);
    assert!(!set.is_inline());
    set.remove(5..10);
    set.insert_num(40, 50);
    assert_eq!(stored_in(&set), vec![0..5, 10..25, 40..50]);
    assert!(!set.is_inline());
    set.remove(0..100);
    set.insert(1..2);
    assert!(!set.is_inline());
}

#[test]
fn empty_interval_leaves_the_storage_as_it_is() {
    let mut inline = spread(2);
    inline.insert_num(7, 7);
    inline.remove(Range { start: 9, end: 1 });
    assert!(inline.is_inline());
    let mut heap = spread(3);
    heap.remove(5..50);
    heap.insert_num(7, 7);
    heap.remove(Range { start: 9, end: 1 });
    assert!(!heap.is_inline());
    assert_eq!(stored_in(&heap), vec![0..5]);
}
