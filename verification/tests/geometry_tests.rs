use wavey::geometry::{near_any, Line, Point};

#[test]
fn midpoint_is_near_with_zero_tolerance() {
    let line = Line::new(Point::new(0, 0), Point::new(10_000, 20_000));
    assert!(line.near(Point::new(5_000, 10_000), 0));
}

#[test]
fn every_lattice_point_on_the_segment_is_near_with_zero_tolerance() {
    let line = Line::new(Point::new(-3_000, 7_000), Point::new(9_000, -5_000));
    for step in 0..=12 {
        let p = Point::new(-3_000 + 1_000 * step, 7_000 - 1_000 * step);
        assert!(line.near(p, 0), "step {}", step);
    }
}

#[test]
fn point_off_the_line_is_not_near() {
    // The segment has length 10_000; a point 5 units off the line has a
    // cross product of 50_000.
    let line = Line::new(Point::new(0, 0), Point::new(10_000, 0));
    assert!(!line.near(Point::new(5_000, 5), 49_999));
    assert!(line.near(Point::new(5_000, 5), 50_000));
    assert!(!line.near(Point::new(5_000, -5), 49_999));
    assert!(line.near(Point::new(5_000, -5), 50_000));
    // Far from the line, wherever the projection falls.
    assert!(!line.near(Point::new(5_000, 1_000), 300_000));
    assert!(!line.near(Point::new(-5_000, 1_000), 300_000));
    assert!(!line.near(Point::new(15_000, 1_000), 300_000));
}

#[test]
fn collinear_point_beyond_either_end_is_not_near() {
    let line = Line::new(Point::new(0, 0), Point::new(10_000, 0));
    assert!(!line.near(Point::new(-1, 0), 0));
    assert!(!line.near(Point::new(10_001, 0), 0));
    assert!(!line.near(Point::new(-1, 0), 300_000));
    assert!(!line.near(Point::new(10_001, 0), 300_000));
    assert!(line.near(Point::new(0, 0), 0));
    assert!(line.near(Point::new(10_000, 0), 0));
}

#[test]
fn larger_tolerance_keeps_a_near_point_near() {
    let line = Line::new(Point::new(0, 0), Point::new(4_000, 0));
    assert!(line.near(Point::new(125, 0), 0));
    assert!(line.near(Point::new(125, 0), 1_000_000));
    assert!(line.near(Point::new(0, 0), 0));
    assert!(line.near(Point::new(0, 0), 1));
    assert!(line.near(Point::new(0, 0), u64::MAX));
    assert!(line.near(Point::new(4_000, 0), 10_000_000));
    // One unit off the line: the cross product is 4_000.
    for tolerance in [4_000u64, 4_001, 300_000, 10_000_000, u64::MAX] {
        assert!(line.near(Point::new(1, 1), tolerance));
        assert!(line.near(Point::new(3_999, -1), tolerance));
    }
    assert!(!line.near(Point::new(1, 1), 3_999));
}

#[test]
fn projection_decides_whatever_the_tolerance() {
    // The dot product of a point one unit before the start is negative, and
    // that of a point one unit past the end exceeds the squared length.
    let line = Line::new(Point::new(0, 0), Point::new(10_000, 0));
    for tolerance in [0u64, 1, 300_000, 10_000_000, u64::MAX] {
        assert!(!line.near(Point::new(-1, 0), tolerance));
        assert!(!line.near(Point::new(10_001, 0), tolerance));
        assert!(line.near(Point::new(0, 0), tolerance));
        assert!(line.near(Point::new(29, 0), tolerance));
        assert!(line.near(Point::new(10_000, 0), tolerance));
    }
}

#[test]
fn near_works_at_the_limits_of_the_coordinates() {
    let low = i32::MIN;
    let high = i32::MAX;
    let line = Line::new(Point::new(low, low), Point::new(high, high));
    assert!(line.near(Point::new(0, 0), 0));
    assert!(line.near(Point::new(low, low), 0));
    assert!(line.near(Point::new(high, high), 0));
    // The corner of the square on that diagonal is as far from the line as
    // a point can be: the cross product is the square of 2^32 - 1.
    let corner = Point::new(high, low);
    assert!(line.near(corner, 18_446_744_065_119_617_025));
    assert!(!line.near(corner, 18_446_744_065_119_617_024));
    assert!(line.near(corner, u64::MAX));
}

#[test]
fn line_keeps_its_endpoints() {
    let a = Point::new(1, 2);
    let b = Point::new(3, 4);
    let line = Line::new(a, b);
    assert_eq!(line.a(), a);
    assert_eq!(line.b(), b);
}

#[test]
fn try_new_refuses_equal_endpoints() {
    let a = Point::new(7, -7);
    assert!(Line::try_new(a, a).is_none());
    let line = Line::try_new(a, Point::new(7, -6)).unwrap();
    assert_eq!(line.a(), a);
    assert_eq!(line.b(), Point::new(7, -6));
}

#[test]
fn within_compares_squared_distance() {
    let origin = Point::new(0, 0);
    assert!(origin.within(Point::new(3, 4), 5));
    assert!(!origin.within(Point::new(3, 4), 4));
    assert!(origin.within(origin, 0));
    assert!(!Point::new(i32::MIN, i32::MIN).within(Point::new(i32::MAX, i32::MAX), u32::MAX));
    assert!(Point::new(i32::MIN, 0).within(Point::new(i32::MAX, 0), u32::MAX));
}

#[test]
fn near_any_finds_a_hit_among_several_edges() {
    let edges = vec![
        Line::new(Point::new(0, 0), Point::new(10_000, 0)),
        Line::new(Point::new(0, 5_000), Point::new(10_000, 5_000)),
    ];
    assert!(near_any(&edges, Point::new(5_000, 5_000), 0));
    assert!(near_any(&edges, Point::new(5_000, 0), 0));
    assert!(!near_any(&edges, Point::new(5_000, 2_500), 300_000));
    assert!(!near_any(&Vec::new(), Point::new(0, 0), u64::MAX));
}
