use pathfinder::geometry::plot;
use pathfinder::shape::{Circle, Shape, Square, Triangle};
use pathfinder::Coordinate;
use std::collections::HashSet;

fn c(x: i16, y: i16) -> Coordinate {
    Coordinate::new(x, y)
}

#[test]
fn plot_same_point_is_that_point() {
    for p in [c(0, 0), c(-5, 7), c(32767, -32768)] {
        assert_eq!(plot(&p, &p), vec![p]);
    }
}

#[test]
fn plot_backwards_is_reversed() {
    let pairs = [
        (c(0, 0), c(3, 1)),
        (c(0, 0), c(1, 3)),
        (c(5, -2), c(-4, 7)),
        (c(0, 0), c(4, 2)),
        (c(-3, 3), c(3, -3)),
        (c(2, 9), c(2, -9)),
        (c(-7, 1), c(8, 1)),
    ];
    for (a, b) in pairs {
        let mut back = plot(&b, &a);
        back.reverse();
        assert_eq!(plot(&a, &b), back);
    }
}

#[test]
fn plot_shallow_line_exact() {
    assert_eq!(plot(&c(0, 0), &c(3, 1)), vec![c(0, 0), c(1, 0), c(2, 1), c(3, 1)]);
}

#[test]
fn plot_steep_negative_line_exact() {
    assert_eq!(plot(&c(0, 0), &c(-1, -3)), vec![c(0, 0), c(0, -1), c(-1, -2), c(-1, -3)]);
}

#[test]
fn plot_horizontal_vertical_diagonal() {
    assert_eq!(plot(&c(2, 5), &c(-1, 5)), vec![c(2, 5), c(1, 5), c(0, 5), c(-1, 5)]);
    assert_eq!(plot(&c(0, 0), &c(0, 2)), vec![c(0, 0), c(0, 1), c(0, 2)]);
    assert_eq!(plot(&c(0, 0), &c(2, -2)), vec![c(0, 0), c(1, -1), c(2, -2)]);
}

#[test]
fn plot_has_no_duplicates_and_both_ends() {
    let pts = plot(&c(-20, 13), &c(31, -4));
    let set: HashSet<(i16, i16)> = pts.iter().map(|p| (p.x, p.y)).collect();
    assert_eq!(set.len(), pts.len());
    assert_eq!(pts[0], c(-20, 13));
    assert_eq!(*pts.last().unwrap(), c(31, -4));
    assert_eq!(pts.len(), 52);
}

#[test]
fn plot_at_range_ends() {
    let pts = plot(&c(-32768, -32768), &c(32767, 32767));
    assert_eq!(pts.len(), 65536);
    assert_eq!(pts[65535], c(32767, 32767));
}

#[test]
fn coordinate_diff_is_other_minus_self() {
    assert_eq!(c(1, 2).diff(&c(4, -3)), (3, -5));
    assert_eq!(c(-32768, 32767).diff(&c(32767, -32768)), (65535, -65535));
}

#[test]
fn square_of_three_is_nine_points() {
    let a = Square::new().area(3);
    let mut expected = Vec::new();
    for i in 0..3 {
        for j in 0..3 {
            expected.push(c(i, j));
        }
    }
    assert_eq!(a, expected);
    let set: HashSet<(i16, i16)> = a.iter().map(|p| (p.x, p.y)).collect();
    assert_eq!(set.len(), 9);
}

#[test]
fn circle_of_five_is_symmetric() {
    let a = Circle::new().area(5);
    let set: HashSet<(i16, i16)> = a.iter().map(|p| (p.x, p.y)).collect();
    assert!(!set.is_empty());
    for &(x, y) in &set {
        assert!(set.contains(&(-x, y)));
        assert!(set.contains(&(x, -y)));
        assert!(set.contains(&(y, x)));
    }
    assert!(set.contains(&(0, 0)));
    assert!(set.contains(&(4, 0)));
    assert!(set.contains(&(0, -4)));
    assert!(!set.contains(&(5, 0)));
}

#[test]
fn circle_of_one_is_the_origin() {
    let a = Circle::new().area(1);
    let set: HashSet<(i16, i16)> = a.iter().map(|p| (p.x, p.y)).collect();
    assert_eq!(set, HashSet::from([(0, 0)]));
}

#[test]
fn triangle_of_four_fans_from_apex() {
    let a = Triangle::new().area(4);
    let mut expected = Vec::new();
    for i in 0..4 {
        expected.extend(plot(&c(2, 0), &c(i, 4)));
    }
    assert_eq!(a, expected);
    assert_eq!(a[0], c(2, 0));
    assert!(a.contains(&c(0, 4)));
    assert!(a.contains(&c(3, 4)));
}

#[test]
fn zero_size_shapes_are_empty() {
    assert!(Square::new().area(0).is_empty());
    assert!(Circle::new().area(0).is_empty());
    assert!(Triangle::new().area(0).is_empty());
}
