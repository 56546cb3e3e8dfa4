use wavey::asteroid::Asteroid;
use wavey::compass::{Compass, Direction};
use wavey::geometry::Point;
use wavey::screen::Screen;

fn compass() -> Compass {
    let mut table = Vec::with_capacity(36_000);
    for k in 0..36_000 {
        let angle = (k as f64) * std::f64::consts::PI / 18_000.0;
        table.push(Direction {
            dx: (angle.cos() * 1_000_000.0).round() as i32,
            dy: (angle.sin() * 1_000_000.0).round() as i32,
        });
    }
    Compass::new(table).unwrap()
}

#[test]
fn asteroid_needs_three_sides_a_radius_and_a_rotation_within_a_turn() {
    let pos = Point::new(0, 0);
    assert!(Asteroid::new(pos, 2, 20_000, 0).is_none());
    assert!(Asteroid::new(pos, 0, 20_000, 0).is_none());
    assert!(Asteroid::new(pos, 3, 999, 0).is_none());
    assert!(Asteroid::new(pos, 3, 0, 0).is_none());
    assert!(Asteroid::new(pos, 3, 20_000, 36_000).is_none());
    assert!(Asteroid::new(Point::new(i32::MAX, 0), 3, 1_000, 0).is_none());
    assert!(Asteroid::new(Point::new(0, i32::MIN), 3, 1_000, 0).is_none());
    let asteroid = Asteroid::new(Point::new(5, -6), 255, 1_000, 35_999).unwrap();
    assert_eq!(asteroid.pos(), Point::new(5, -6));
    assert_eq!(asteroid.sides(), 255);
    assert_eq!(asteroid.radius(), 1_000);
    assert_eq!(asteroid.rotation(), 35_999);
}

#[test]
fn vertices_of_a_square() {
    let compass = compass();
    let square = Asteroid::new(Point::new(500_000, 400_000), 4, 20_000, 0).unwrap();
    assert_eq!(
        square.vertices(&compass),
        vec![
            Point::new(520_000, 400_000),
            Point::new(500_000, 420_000),
            Point::new(480_000, 400_000),
            Point::new(500_000, 380_000),
        ]
    );
    let turned = Asteroid::new(Point::new(0, 0), 4, 100_000, 4_500).unwrap();
    assert_eq!(
        turned.vertices(&compass),
        vec![
            Point::new(70_711, 70_711),
            Point::new(-70_711, 70_711),
            Point::new(-70_711, -70_711),
            Point::new(70_711, -70_711),
        ]
    );
}

#[test]
fn vertices_of_a_triangle_round_the_corner_angles_down() {
    let compass = compass();
    // Corners at 0, 120 and 240 degrees.
    let triangle = Asteroid::new(Point::new(0, 0), 3, 10_000, 0).unwrap();
    assert_eq!(
        triangle.vertices(&compass),
        vec![Point::new(10_000, 0), Point::new(-5_000, 8_660), Point::new(-5_000, -8_660)]
    );
    // Seven sides: corner 1 is at 36_000 / 7 = 5_142 steps, rounded down.
    let heptagon = Asteroid::new(Point::new(0, 0), 7, 1_000_000, 0).unwrap();
    let d = compass.direction(5_142);
    assert_eq!(heptagon.vertices(&compass)[1], Point::new(d.dx, d.dy));
    let d = compass.direction(6 * 36_000 / 7);
    assert_eq!(heptagon.vertices(&compass)[6], Point::new(d.dx, d.dy));
}

#[test]
fn vertices_lie_at_the_radius_from_the_centre() {
    let compass = compass();
    for sides in 3..=12u8 {
        for &radius in &[1_000u32, 5_000, 20_000, 39_999, 1_000_000, 123_456_789] {
            for &rotation in &[0u32, 1, 1_234, 17_999, 35_999] {
                let pos = Point::new(300_000, -200_000);
                let asteroid = Asteroid::new(pos, sides, radius, rotation).unwrap();
                let vertices = asteroid.vertices(&compass);
                assert_eq!(vertices.len(), sides as usize);
                let slack = (radius / 1_000_000 + 3) as f64;
                for v in vertices {
                    let dx = (v.x - pos.x) as f64;
                    let dy = (v.y - pos.y) as f64;
                    let distance = (dx * dx + dy * dy).sqrt();
                    assert!((distance - radius as f64).abs() <= slack);
                }
            }
        }
    }
}

#[test]
fn edges_form_a_closed_cycle() {
    let compass = compass();
    for sides in 3..=40u8 {
        let asteroid = Asteroid::new(Point::new(10_000, 20_000), sides, 5_000, 777).unwrap();
        let vertices = asteroid.vertices(&compass);
        let edges = asteroid.edges(&compass);
        let n = sides as usize;
        assert_eq!(edges.len(), n);
        for i in 0..n {
            assert_eq!(edges[i].a(), vertices[i]);
            assert_eq!(edges[i].b(), vertices[(i + 1) % n]);
            assert_eq!(edges[i].b(), edges[(i + 1) % n].a());
            assert_ne!(edges[i].a(), edges[i].b());
        }
        assert_eq!(edges[n - 1].b(), edges[0].a());
    }
}

#[test]
fn smallest_asteroid_with_most_sides_has_distinct_corners() {
    let compass = compass();
    for rotation in (0..36_000).step_by(997) {
        let asteroid = Asteroid::new(Point::new(0, 0), 255, 1_000, rotation).unwrap();
        let edges = asteroid.edges(&compass);
        assert_eq!(edges.len(), 255);
        for edge in edges {
            assert_ne!(edge.a(), edge.b());
        }
    }
}

#[test]
fn clear_of_tells_whether_a_point_touches_a_side() {
    let compass = compass();
    let square = Asteroid::new(Point::new(500_000, 400_000), 4, 20_000, 0).unwrap();
    // The middle of the side from (520_000, 400_000) to (500_000, 420_000).
    assert!(!square.clear_of(Point::new(510_000, 410_000), 0, &compass));
    // A corner.
    assert!(!square.clear_of(Point::new(500_000, 420_000), 0, &compass));
    // The centre, and a point far away.
    assert!(square.clear_of(Point::new(500_000, 400_000), 10_000_000, &compass));
    assert!(square.clear_of(Point::new(500_000, 500_000), 10_000_000, &compass));
}

#[test]
fn random_asteroid_is_on_the_screen_and_clear_of_the_ship() {
    let compass = compass();
    let screen = Screen::new(800_000, 600_000).unwrap();
    let ship = screen.center();
    for _ in 0..50 {
        let asteroid = Asteroid::random_asteroid(ship, &screen, &compass).unwrap();
        assert!(0 <= asteroid.pos().x && asteroid.pos().x <= 800_000);
        assert!(0 <= asteroid.pos().y && asteroid.pos().y <= 600_000);
        assert!(3 <= asteroid.sides() && asteroid.sides() < 8);
        assert!(5_000 <= asteroid.radius() && asteroid.radius() < 40_000);
        assert!(asteroid.rotation() < 36_000);
        assert!(asteroid.clear_of(ship, 10_000_000, &compass));
    }
}

#[test]
fn random_asteroids_differ_from_one_another() {
    let compass = compass();
    let screen = Screen::new(800_000, 600_000).unwrap();
    let ship = screen.center();
    let mut positions = Vec::new();
    let mut radii = Vec::new();
    let mut rotations = Vec::new();
    for _ in 0..50 {
        let asteroid = Asteroid::random_asteroid(ship, &screen, &compass).unwrap();
        if !positions.contains(&asteroid.pos()) {
            positions.push(asteroid.pos());
        }
        if !radii.contains(&asteroid.radius()) {
            radii.push(asteroid.radius());
        }
        if !rotations.contains(&asteroid.rotation()) {
            rotations.push(asteroid.rotation());
        }
    }
    assert!(positions.len() > 1);
    assert!(radii.len() > 1);
    assert!(rotations.len() > 1);
}

#[test]
fn random_asteroid_on_an_empty_screen_sits_at_the_origin() {
    let compass = compass();
    let screen = Screen::new(0, 0).unwrap();
    for _ in 0..20 {
        let asteroid = Asteroid::random_asteroid(Point::new(0, 0), &screen, &compass).unwrap();
        assert_eq!(asteroid.pos(), Point::new(0, 0));
        assert!(asteroid.clear_of(Point::new(0, 0), 10_000_000, &compass));
    }
}

#[test]
fn asteroid_of_last_resort_stands_on_the_far_border() {
    let compass = compass();
    let screen = Screen::new(800_000, 600_000).unwrap();
    let cases = [
        (Point::new(400_000, 300_000), Point::new(800_000, 300_000)),
        (Point::new(400_001, 300_000), Point::new(0, 300_000)),
        (Point::new(0, 0), Point::new(800_000, 300_000)),
        (Point::new(800_000, 600_000), Point::new(0, 300_000)),
        (Point::new(-5_000_000, 7), Point::new(800_000, 300_000)),
        (Point::new(5_000_000, 7), Point::new(0, 300_000)),
    ];
    for (ship, pos) in cases {
        let asteroid = Asteroid::fallback(ship, &screen).unwrap();
        assert_eq!(asteroid.pos(), pos);
        assert_eq!(asteroid.sides(), 4);
        assert_eq!(asteroid.radius(), 5_000);
        assert_eq!(asteroid.rotation(), 0);
        assert!(asteroid.clear_of(ship, 10_000_000, &compass));
    }
    // Too narrow, but high enough: the far border along the height.
    let tall = Screen::new(12_000, 12_001).unwrap();
    assert_eq!(Asteroid::fallback(Point::new(3, 6_000), &tall).unwrap().pos(), Point::new(6_000, 12_001));
    assert_eq!(Asteroid::fallback(Point::new(3, 6_001), &tall).unwrap().pos(), Point::new(6_000, 0));
    // Just wide enough.
    let wide = Screen::new(12_001, 0).unwrap();
    for x in [0, 6_000, 6_001, 12_001] {
        let ship = Point::new(x, 0);
        let asteroid = Asteroid::fallback(ship, &wide).unwrap();
        assert_eq!(asteroid.pos(), Point::new(if x <= 6_000 { 12_001 } else { 0 }, 0));
        assert!(asteroid.clear_of(ship, 10_000_000, &compass));
    }
}

#[test]
fn asteroid_of_last_resort_surrounds_the_ship_on_a_small_screen() {
    let compass = compass();
    let small = Screen::new(12_000, 12_000).unwrap();
    for ship in [Point::new(0, 0), Point::new(6_000, 6_000), Point::new(12_000, 3)] {
        let asteroid = Asteroid::fallback(ship, &small).unwrap();
        assert_eq!(asteroid.pos(), ship);
        assert_eq!(asteroid.sides(), 4);
        assert_eq!(asteroid.radius(), 5_000);
        assert!(asteroid.clear_of(ship, 10_000_000, &compass));
    }
    assert!(Asteroid::fallback(Point::new(12_001, 0), &small).is_none());
    assert!(Asteroid::fallback(Point::new(0, -1), &small).is_none());
}

#[test]
fn square_on_a_corner_is_touched_only_within_its_reach() {
    let compass = compass();
    let square = Asteroid::new(Point::new(0, 0), 4, 5_000, 0).unwrap();
    // Beside the corner at (5_000, 0), as far out as a point can touch the
    // side to (0, 5_000): the cross product is exactly the tolerance and
    // the projection falls on the corner.
    assert!(!square.clear_of(Point::new(6_000, 1_000), 10_000_000, &compass));
    assert!(square.clear_of(Point::new(6_001, 1_000), 10_000_000, &compass));
    assert!(square.clear_of(Point::new(6_001, 999), 10_000_000, &compass));
    assert!(!square.clear_of(Point::new(-6_000, -1_000), 10_000_000, &compass));
    assert!(!square.clear_of(Point::new(1_000, 6_000), 10_000_000, &compass));
    assert!(!square.clear_of(Point::new(-1_000, -6_000), 10_000_000, &compass));
    for far in [6_001, 10_000, 1_000_000] {
        for along in [-7_000, -1_000, 0, 1_000, 7_000] {
            assert!(square.clear_of(Point::new(far, along), 10_000_000, &compass));
            assert!(square.clear_of(Point::new(-far, along), 10_000_000, &compass));
            assert!(square.clear_of(Point::new(along, far), 10_000_000, &compass));
            assert!(square.clear_of(Point::new(along, -far), 10_000_000, &compass));
        }
    }
    assert!(square.clear_of(Point::new(0, 0), 10_000_000, &compass));
    assert!(!square.clear_of(Point::new(3_000, 0), 10_000_000, &compass));
}

#[test]
fn random_asteroid_is_always_placed_when_the_ship_is_out_of_reach() {
    let compass = compass();
    let screen = Screen::new(800_000, 600_000).unwrap();
    // Farther from the screen than the largest radius and the tolerance
    // together, on each of the four sides.
    let far = [
        Point::new(-10_040_000, 300_000),
        Point::new(800_000 + 10_040_000, 300_000),
        Point::new(400_000, -10_040_000),
        Point::new(400_000, 600_000 + 10_040_000),
    ];
    for ship in far {
        for _ in 0..25 {
            let asteroid = Asteroid::random_asteroid(ship, &screen, &compass).unwrap();
            assert!(asteroid.clear_of(ship, 10_000_000, &compass));
            assert!(0 <= asteroid.pos().x && asteroid.pos().x <= 800_000);
            assert!(0 <= asteroid.pos().y && asteroid.pos().y <= 600_000);
        }
    }
}
