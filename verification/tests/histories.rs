//! The set after long runs of insertions and removals, held against a plain
//! reckoning of what each of them does.

use rangeset::RangeSet;
use std::ops::Range;

const UNIVERSE: u64 = 48;

/// A small fixed-seed generator, so that the runs are the same every time.
struct Dice(u64);

impl Dice {
    fn roll(&mut self, below: u64) -> u64 {
        self.0 = self.0.wrapping_mul(6364136223846793005).wrapping_add(1442695040888963407);
        (self.0 >> 33) % below
    }
}

fn intervals_of(set: &RangeSet) -> Vec<Range<u64>> {
    set.iter().collect()
}

fn assert_well_formed(intervals: &[Range<u64>]) {
    for r in intervals {
        assert!(r.start < r.end, "empty interval in {:?}", intervals);
    }
    for pair in intervals.windows(2) {
        assert!(pair[0].start < pair[1].start, "not ascending: {:?}", intervals);
        assert!(pair[0].end <= pair[1].start, "overlap in {:?}", intervals);
        assert!(pair[0].end < pair[1].start, "touching intervals in {:?}", intervals);
    }
}

fn covered(intervals: &[Range<u64>]) -> Vec<bool> {
    (0..UNIVERSE).map(|p| intervals.iter().any(|r| r.start <= p && p < r.end)).collect()
}

/// The intervals after an insertion, reckoned from the front.
fn placed(s: &[Range<u64>], start: u64, end: u64) -> Vec<Range<u64>> {
    if start >= end {
        return s.to_vec();
    }
    let Some(first) = s.first() else {
        return vec![start..end];
    };
    let mut out = Vec::new();
    if first.end < start {
        out.push(first.clone());
        out.extend(placed(&s[1..], start, end));
    } else if end < first.start {
        out.push(start..end);
        out.extend_from_slice(s);
    } else if start < first.start {
        out.push(start..first.end);
        out.extend_from_slice(&s[1..]);
    } else if end <= first.end {
        out.extend_from_slice(s);
    } else {
        let mut reach = end;
        let mut next = 1;
        while next < s.len() && s[next].start <= reach {
            reach = reach.max(s[next].end);
            next += 1;
        }
        out.push(first.start..reach);
        out.extend_from_slice(&s[next..]);
    }
    out
}

/// The intervals after a removal: what is left of each, in order.
fn carved(s: &[Range<u64>], start: u64, end: u64) -> Vec<Range<u64>> {
    if start >= end {
        return s.to_vec();
    }
    let mut out = Vec::new();
    for r in s {
        if r.start < start {
            out.push(r.start..r.end.min(start));
        }
        if end < r.end {
            out.push(r.start.max(end)..r.end);
        }
    }
    out
}

/// Whether an insertion adds its whole interval: not when the first interval
/// that does not end before `start` begins inside the new one and ends before
/// `end`.
fn is_whole(s: &[Range<u64>], start: u64, end: u64) -> bool {
    match s.iter().find(|r| r.end >= start) {
        Some(r) => !(start < r.start && r.start <= end && r.end < end),
        None => true,
    }
}

#[test]
fn every_history_keeps_the_set_well_formed() {
    let mut dice = Dice(7);
    for _ in 0..200 {
        let mut set = RangeSet::new();
        for _ in 0..40 {
            let a = dice.roll(UNIVERSE);
            let b = dice.roll(UNIVERSE);
            match dice.roll(3) {
                0 => set.remove(a..b),
                1 => set.insert(a..b),
                _ => set.insert_num(a, b),
            }
            assert_well_formed(&intervals_of(&set));
            assert_eq!(set.len(), set.iter().count());
            assert_eq!(set.empty(), set.iter().next().is_none());
        }
    }
}

#[test]
fn every_edit_gives_the_reckoned_intervals() {
    let mut dice = Dice(11);
    for _ in 0..200 {
        let mut set = RangeSet::new();
        let mut expected: Vec<Range<u64>> = Vec::new();
        for _ in 0..40 {
            let a = dice.roll(UNIVERSE);
            let b = dice.roll(UNIVERSE);
            if dice.roll(3) == 0 {
                set.remove(a..b);
                expected = carved(&expected, a, b);
            } else {
                set.insert_num(a, b);
                expected = placed(&expected, a, b);
            }
            assert_eq!(intervals_of(&set), expected);
        }
    }
}

#[test]
fn contains_agrees_with_the_intervals() {
    let mut dice = Dice(13);
    for _ in 0..100 {
        let mut set = RangeSet::new();
        for _ in 0..30 {
            let a = dice.roll(UNIVERSE);
            let b = dice.roll(UNIVERSE);
            if dice.roll(3) == 0 {
                set.remove(a..b);
            } else {
                set.insert(a..b);
            }
            let held = covered(&intervals_of(&set));
            for p in 0..UNIVERSE {
                assert_eq!(set.contains(p), held[p as usize], "point {} of {:?}", p, set);
            }
        }
    }
}

#[test]
fn whole_insertions_and_removals_leave_the_net_points() {
    let mut dice = Dice(17);
    let mut edits = 0;
    for _ in 0..300 {
        let mut set = RangeSet::new();
        let mut net = vec![false; UNIVERSE as usize];
        for _ in 0..30 {
            let a = dice.roll(UNIVERSE);
            let b = dice.roll(UNIVERSE);
            if dice.roll(3) == 0 {
                set.remove(a..b);
                for p in a..b {
                    net[p as usize] = false;
                }
            } else {
                if !is_whole(&intervals_of(&set), a, b) {
                    continue;
                }
                set.insert_num(a, b);
                for p in a..b {
                    net[p as usize] = true;
                }
            }
            edits += 1;
            for p in 0..UNIVERSE {
                assert_eq!(set.contains(p), net[p as usize], "point {} of {:?}", p, set);
            }
        }
    }
    assert!(edits > 5000);
}

#[test]
fn removal_takes_exactly_its_points() {
    let mut dice = Dice(19);
    for _ in 0..300 {
        let mut set = RangeSet::new();
        for _ in 0..8 {
            let a = dice.roll(UNIVERSE);
            let b = dice.roll(UNIVERSE);
            set.insert_num(a, b);
        }
        let before = covered(&intervals_of(&set));
        let a = dice.roll(UNIVERSE);
        let b = dice.roll(UNIVERSE);
        set.remove(a..b);
        for p in 0..UNIVERSE {
            let expected = before[p as usize] && !(a <= p && p < b);
            assert_eq!(set.contains(p), expected);
        }
    }
}

#[test]
fn insertion_adds_the_points_up_to_where_it_stops() {
    let mut dice = Dice(23);
    let mut stopped_early = 0;
    for _ in 0..300 {
        let mut set = RangeSet::new();
        for _ in 0..6 {
            let a = dice.roll(UNIVERSE);
            let b = dice.roll(UNIVERSE);
            set.insert_num(a, b);
        }
        let intervals = intervals_of(&set);
        let before = covered(&intervals);
        let a = dice.roll(UNIVERSE);
        let b = dice.roll(UNIVERSE);
        let reach = if a < b && !is_whole(&intervals, a, b) {
            stopped_early += 1;
            intervals.iter().find(|r| r.end >= a).map(|r| r.end).unwrap_or(b)
        } else {
            b
        };
        set.insert(a..b);
        for p in 0..UNIVERSE {
            let expected = before[p as usize] || (a <= p && p < reach);
            assert_eq!(set.contains(p), expected);
        }
    }
    assert!(stopped_early > 0);
}

#[test]
fn equal_point_sets_have_equal_intervals() {
    let mut one = RangeSet::new();
    one.insert(0..10);
    one.insert(20..30);
    one.remove(4..6);
    let mut other = RangeSet::new();
    other.insert(24..30);
    other.insert(6..8);
    other.insert(0..4);
    other.insert(8..10);
    other.insert(20..24);
    assert_eq!(covered(&intervals_of(&one)), covered(&intervals_of(&other)));
    assert_eq!(intervals_of(&one), intervals_of(&other));
    assert_eq!(intervals_of(&one), vec![0..4, 6..10, 20..30]);
}

#[test]
fn insert_then_remove_of_the_same_interval_leaves_none_of_its_points() {
    let mut dice = Dice(29);
    for _ in 0..200 {
        let mut set = RangeSet::new();
        for _ in 0..5 {
            let a = dice.roll(UNIVERSE);
            let b = dice.roll(UNIVERSE);
            set.insert_num(a, b);
        }
        let a = dice.roll(UNIVERSE);
        let b = dice.roll(UNIVERSE);
        set.insert_num(a, b);
        set.remove(a..b);
        for p in a..b {
            assert!(!set.contains(p));
        }
        assert_well_formed(&intervals_of(&set));
    }
}

#[test]
fn set_stays_inline_until_it_has_held_too_many_intervals() {
    let mut dice = Dice(31);
    let mut spilled = 0;
    for _ in 0..300 {
        let mut set = RangeSet::new();
        let mut inline = true;
        for _ in 0..12 {
            let a = dice.roll(UNIVERSE);
            let b = dice.roll(UNIVERSE);
            match dice.roll(4) {
                0 => set.remove(a..b),
                1 => set.insert(a..b),
                2 => set.insert_num(a, b),
                _ => {
                    set.shrink_to_fit();
                    inline = true;
                }
            }
            inline = inline && set.len() <= rangeset::INLINE_CAPACITY;
            assert_eq!(set.is_inline(), inline, "{:?}", set);
            let copy = set.clone();
            assert_eq!(copy.is_inline(), copy.len() <= rangeset::INLINE_CAPACITY);
            assert_eq!(intervals_of(&copy), intervals_of(&set));
        }
        if !inline {
            spilled += 1;
        }
    }
    assert!(spilled > 0);
}
