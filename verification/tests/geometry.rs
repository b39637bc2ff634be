//! Segment crossing, integer square roots and the small list utilities.

use mood::utils::{get_item, index_of, isqrt, Line, Rect};

#[test]
fn crossing_true_perpendicular() {
    // (0,0)-(10,0) against (5,-5)-(5,5), in fixed-point units.
    let a = Line::new(0, 0, 10_000, 0);
    let b = Line::new(5_000, -5_000, 5_000, 5_000);
    assert!(a.crosses(&b));
    assert!(b.crosses(&a));
}

#[test]
fn crossing_false_parallel() {
    // (0,0)-(10,0) against (0,1)-(10,1).
    let a = Line::new(0, 0, 10_000, 0);
    let b = Line::new(0, 1_000, 10_000, 1_000);
    assert!(!a.crosses(&b));
}

#[test]
fn crossing_false_extensions_only() {
    // Finite segments that do not meet, though their infinite extensions do.
    let a = Line::new(0, 0, 1_000, 0);
    let b = Line::new(2_000, -1_000, 2_000, 1_000);
    assert!(!a.crosses(&b));
}

#[test]
fn crossing_false_endpoint_touch() {
    // Meeting exactly at an endpoint is not a proper crossing.
    let a = Line::new(0, 0, 1_000, 0);
    let b = Line::new(1_000, -1_000, 1_000, 1_000);
    assert!(!a.crosses(&b));
}

#[test]
fn crossing_false_collinear_overlap() {
    let a = Line::new(0, 0, 1_000, 0);
    let b = Line::new(500, 0, 2_000, 0);
    assert!(!a.crosses(&b));
}

#[test]
fn crossing_new_tuples() {
    let a = Line::new_tuples((0, 0), (10_000, 0));
    let b = Line::new_tuples((5_000, -5_000), (5_000, 5_000));
    assert!(a.crosses(&b));
}

#[test]
fn isqrt_exact_squares() {
    assert_eq!(isqrt(0), 0);
    assert_eq!(isqrt(1), 1);
    assert_eq!(isqrt(1_000_000), 1_000);
    assert_eq!(isqrt(2_000_000), 1_414);
    assert_eq!(isqrt(8_000_000_000_000), 2_828_427);
    assert_eq!(isqrt(4_000_000_000_000_000), 63_245_553);
}

#[test]
fn get_item_wraps_both_ways() {
    let v = vec![10, 20, 30];
    assert_eq!(get_item(&v, 0), Some(&10));
    assert_eq!(get_item(&v, 2), Some(&30));
    assert_eq!(get_item(&v, 3), Some(&10));
    assert_eq!(get_item(&v, 4), Some(&20));
    assert_eq!(get_item(&v, -1), Some(&30));
    assert_eq!(get_item(&v, -3), Some(&10));
    assert_eq!(get_item(&v, -4), Some(&30));
}

#[test]
fn get_item_empty_is_none() {
    let v: Vec<i64> = Vec::new();
    assert_eq!(get_item(&v, 0), None);
    assert_eq!(get_item(&v, -7), None);
}

#[test]
fn index_of_finds_first() {
    let v = vec![5i64, 9, 5, 2];
    assert_eq!(index_of(&v, &5), Some(0));
    assert_eq!(index_of(&v, &2), Some(3));
    assert_eq!(index_of(&v, &7), None);
}

#[test]
fn rect_new_keeps_fields() {
    let r = Rect::new(1i64, 2, 3, 4);
    assert_eq!(r.left, 1);
    assert_eq!(r.top, 2);
    assert_eq!(r.right, 3);
    assert_eq!(r.bottom, 4);
}
