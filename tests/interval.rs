use flexer::interval::IntervalSet;
use flexer::pattern::{class, is_match};

fn build(ranges: &[(u64, u64)]) -> IntervalSet {
    let mut s = IntervalSet::new();
    for &(lo, hi) in ranges {
        s.insert(lo, hi);
    }
    s
}

#[test]
fn interval_merges_overlapping_and_adjacent() {
    let s = build(&[(1, 3), (5, 7), (4, 4)]);
    assert_eq!(s.ranges(), vec![(1, 7)]);
    let t = build(&[(10, 20), (0, 2), (15, 30)]);
    assert_eq!(t.ranges(), vec![(0, 2), (10, 30)]);
}

#[test]
fn interval_order_does_not_matter() {
    let a = build(&[(1, 2), (8, 9), (3, 5), (20, 20)]);
    let b = build(&[(20, 20), (3, 5), (8, 9), (1, 2)]);
    assert_eq!(a.ranges(), b.ranges());
    for x in 0..25u64 {
        assert_eq!(a.contains(x), b.contains(x));
    }
    assert_eq!(a.ranges(), vec![(1, 5), (8, 9), (20, 20)]);
}

#[test]
fn interval_membership() {
    let s = build(&[(97, 97), (99, u64::MAX)]);
    assert!(s.contains(97));
    assert!(!s.contains(98));
    assert!(s.contains(u64::MAX));
    assert!(!s.contains(0));
}

#[test]
fn interval_empty_and_inverted() {
    let mut s = IntervalSet::new();
    assert!(s.ranges().is_empty());
    s.insert(5, 2);
    assert!(s.ranges().is_empty());
    s.insert(0, u64::MAX);
    assert_eq!(s.ranges(), vec![(0, u64::MAX)]);
}

#[test]
fn class_matches_codes_of_the_set() {
    let empty = IntervalSet::new();
    assert!(class(&empty).is_none());
    let s = build(&[('a' as u64, 'c' as u64), ('x' as u64, 'x' as u64)]);
    let p = class(&s).unwrap();
    let input: Vec<char> = "abdxz".chars().collect();
    assert!(is_match(&p, &input, 0, 1));
    assert!(is_match(&p, &input, 1, 2));
    assert!(!is_match(&p, &input, 2, 3));
    assert!(is_match(&p, &input, 3, 4));
    assert!(!is_match(&p, &input, 4, 5));
    assert!(!is_match(&p, &input, 0, 2));
    assert!(!is_match(&p, &input, 5, 6));
}
