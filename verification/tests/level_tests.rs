use wavey::asteroid::Asteroid;
use wavey::compass::{Compass, Direction};
use wavey::geometry::{near_any, Point};
use wavey::level::{
    asteroid_count, interrupted_by_movement, scan_budget, Keys, Level, LevelStatus,
};
use wavey::radar::SweepStatus;
use wavey::screen::Screen;

fn compass() -> Compass {
    let mut table = Vec::with_capacity(36_000);
    for k in 0..36_000 {
        let angle = (k as f64) * std::f64::consts::PI / 18_000.0;
        table.push(Direction {
            dx: (angle.cos() * 1_000_000.0).round() as i32,
            dy: (angle.sin() * 1_000_000.0).round() as i32,
        });
    }
    Compass::new(table).unwrap()
}

fn keys(up: bool, down: bool, left: bool, right: bool) -> Keys {
    Keys { up, down, left, right }
}

fn idle() -> Keys {
    keys(false, false, false, false)
}

#[test]
fn scan_budget_shrinks_every_three_levels() {
    assert_eq!(scan_budget(0), 12);
    assert_eq!(scan_budget(1), 12);
    assert_eq!(scan_budget(2), 12);
    assert_eq!(scan_budget(3), 11);
    assert_eq!(scan_budget(5), 11);
    assert_eq!(scan_budget(6), 10);
    assert_eq!(scan_budget(35), 1);
    assert_eq!(scan_budget(36), 0);
    assert_eq!(scan_budget(49), 0);
    assert_eq!(scan_budget(usize::MAX), 0);
}

#[test]
fn asteroid_count_grows_with_the_level() {
    assert_eq!(asteroid_count(0), 10);
    assert_eq!(asteroid_count(1), 11);
    assert_eq!(asteroid_count(49), 59);
}

#[test]
fn any_movement_key_interrupts() {
    assert!(!interrupted_by_movement(idle()));
    assert!(interrupted_by_movement(keys(true, false, false, false)));
    assert!(interrupted_by_movement(keys(false, true, false, false)));
    assert!(interrupted_by_movement(keys(false, false, true, false)));
    assert!(interrupted_by_movement(keys(false, false, false, true)));
    assert!(interrupted_by_movement(keys(true, true, true, true)));
}

#[test]
fn screen_sides_are_bounded() {
    assert!(Screen::new(-1, 0).is_none());
    assert!(Screen::new(0, -1).is_none());
    assert!(Screen::new(1_000_000_001, 0).is_none());
    assert!(Screen::new(0, 1_000_000_001).is_none());
    let screen = Screen::new(1_000_000_000, 0).unwrap();
    assert_eq!(screen.width(), 1_000_000_000);
    assert_eq!(screen.height(), 0);
    assert_eq!(screen.center(), Point::new(500_000_000, 0));
    assert_eq!(Screen::new(800_001, 600_001).unwrap().center(), Point::new(400_000, 300_000));
}

#[test]
fn new_level_puts_the_ship_in_the_middle() {
    let compass = compass();
    let screen = Screen::new(800_000, 600_000).unwrap();
    let square = Asteroid::new(Point::new(100_000, 100_000), 4, 20_000, 0).unwrap();
    let triangle = Asteroid::new(Point::new(700_000, 500_000), 3, 30_000, 1_500).unwrap();
    let level = Level::new(7, &screen, Point::new(50_000, 60_000), vec![square, triangle], &compass);
    assert_eq!(level.scans(), 10);
    assert_eq!(level.ship(), Point::new(400_000, 300_000));
    assert_eq!(level.destination(), Point::new(50_000, 60_000));
    assert_eq!(level.status(), LevelStatus::Playing);
    assert_eq!(level.asteroids().len(), 2);
    let mut expected = square.edges(&compass);
    expected.extend(triangle.edges(&compass));
    assert_eq!(level.edges().len(), 7);
    for (edge, want) in level.edges().iter().zip(expected.iter()) {
        assert_eq!(edge.a(), want.a());
        assert_eq!(edge.b(), want.b());
    }
}

#[test]
fn ship_moves_one_pixel_per_key_and_frame() {
    let compass = compass();
    let screen = Screen::new(800_000, 600_000).unwrap();
    let mut level = Level::new(1, &screen, Point::new(0, 0), Vec::new(), &compass);
    assert_eq!(level.advance(keys(true, false, false, false), &screen), LevelStatus::Playing);
    assert_eq!(level.ship(), Point::new(400_000, 299_000));
    level.advance(keys(false, true, false, false), &screen);
    assert_eq!(level.ship(), Point::new(400_000, 300_000));
    level.advance(keys(false, false, true, false), &screen);
    assert_eq!(level.ship(), Point::new(399_000, 300_000));
    level.advance(keys(false, false, false, true), &screen);
    assert_eq!(level.ship(), Point::new(400_000, 300_000));
    level.advance(keys(true, false, false, true), &screen);
    assert_eq!(level.ship(), Point::new(401_000, 299_000));
    // Opposite keys cancel.
    level.advance(keys(true, true, true, true), &screen);
    assert_eq!(level.ship(), Point::new(401_000, 299_000));
    level.advance(idle(), &screen);
    assert_eq!(level.ship(), Point::new(401_000, 299_000));
}

#[test]
fn ship_stays_on_the_screen() {
    let compass = compass();
    // The ship starts at (10_500, 10_500): it may move while its centre is a
    // ship's radius inside the border.
    let screen = Screen::new(21_000, 21_000).unwrap();
    let mut level = Level::new(1, &screen, Point::new(500_000, 0), Vec::new(), &compass);
    level.advance(keys(true, false, true, false), &screen);
    assert_eq!(level.ship(), Point::new(9_500, 9_500));
    level.advance(keys(true, false, true, false), &screen);
    assert_eq!(level.ship(), Point::new(9_500, 9_500));
    level.advance(keys(false, true, false, true), &screen);
    assert_eq!(level.ship(), Point::new(10_500, 10_500));
    level.advance(keys(false, true, false, true), &screen);
    assert_eq!(level.ship(), Point::new(11_500, 11_500));
    level.advance(keys(false, true, false, true), &screen);
    assert_eq!(level.ship(), Point::new(11_500, 11_500));
    // A screen too small for the ship: no key moves it.
    let tiny = Screen::new(4_000, 4_000).unwrap();
    let mut stuck = Level::new(1, &tiny, Point::new(500_000, 0), Vec::new(), &compass);
    stuck.advance(keys(true, false, true, false), &tiny);
    stuck.advance(keys(false, true, false, true), &tiny);
    assert_eq!(stuck.ship(), Point::new(2_000, 2_000));
}

#[test]
fn ship_within_reach_of_the_destination_wins() {
    let compass = compass();
    let screen = Screen::new(800_000, 600_000).unwrap();
    // Ship and destination discs touch at a distance of exactly 15 pixels.
    let mut level = Level::new(1, &screen, Point::new(415_000, 300_000), Vec::new(), &compass);
    assert_eq!(level.advance(idle(), &screen), LevelStatus::Won);
    assert_eq!(level.status(), LevelStatus::Won);
    let mut level = Level::new(1, &screen, Point::new(415_001, 300_000), Vec::new(), &compass);
    assert_eq!(level.advance(idle(), &screen), LevelStatus::Playing);
    assert_eq!(level.advance(keys(false, false, false, true), &screen), LevelStatus::Won);
    // A 9-12-15 triangle.
    let mut level = Level::new(1, &screen, Point::new(409_000, 312_000), Vec::new(), &compass);
    assert_eq!(level.advance(idle(), &screen), LevelStatus::Won);
    let mut level = Level::new(1, &screen, Point::new(409_000, 312_001), Vec::new(), &compass);
    assert_eq!(level.advance(idle(), &screen), LevelStatus::Playing);
}

#[test]
fn ship_touching_an_edge_loses() {
    let compass = compass();
    let screen = Screen::new(800_000, 600_000).unwrap();
    // A square whose side from (420_000, 300_000) to (400_000, 320_000)
    // passes within a pixel of the ship after one move to the right and
    // down.
    let square = Asteroid::new(Point::new(400_000, 300_000), 4, 20_000, 0).unwrap();
    let mut level = Level::new(1, &screen, Point::new(0, 0), vec![square], &compass);
    assert!(!near_any(level.edges(), level.ship(), 10_000_000));
    assert_eq!(level.advance(idle(), &screen), LevelStatus::Playing);
    for _ in 0..9 {
        assert_eq!(level.advance(keys(false, true, false, true), &screen), LevelStatus::Playing);
    }
    assert_eq!(level.advance(keys(false, true, false, true), &screen), LevelStatus::Lost);
    assert_eq!(level.ship(), Point::new(410_000, 310_000));
    assert_eq!(level.status(), LevelStatus::Lost);
}

#[test]
fn collision_takes_precedence_over_arrival() {
    let compass = compass();
    let square = Asteroid::new(Point::new(400_000, 300_000), 4, 20_000, 0).unwrap();
    // The middle of the side from (420_000, 300_000) to (400_000, 320_000).
    let on_the_side = Point::new(410_000, 310_000);

    // The ship reaches that spot with the destination far away: lost.
    let screen = Screen::new(800_000, 600_000).unwrap();
    let mut level = Level::new(1, &screen, Point::new(700_000, 500_000), vec![square], &compass);
    let mut status = level.advance(idle(), &screen);
    for _ in 0..10 {
        assert_eq!(status, LevelStatus::Playing);
        status = level.advance(keys(false, true, false, true), &screen);
    }
    assert_eq!(level.ship(), on_the_side);
    assert_eq!(status, LevelStatus::Lost);

    // The ship is on the side and on the destination at once: still lost.
    let shifted = Screen::new(820_000, 620_000).unwrap();
    let mut both = Level::new(1, &shifted, on_the_side, vec![square], &compass);
    assert_eq!(both.ship(), on_the_side);
    assert!(near_any(both.edges(), both.ship(), 10_000_000));
    assert!(both.ship().within(on_the_side, 15_000));
    assert_eq!(both.advance(idle(), &shifted), LevelStatus::Lost);

    // The same destination without the asteroid: won.
    let mut free = Level::new(1, &shifted, on_the_side, Vec::new(), &compass);
    assert_eq!(free.advance(idle(), &shifted), LevelStatus::Won);
}

#[test]
fn finished_level_no_longer_changes() {
    let compass = compass();
    let screen = Screen::new(800_000, 600_000).unwrap();
    let mut level = Level::new(1, &screen, Point::new(400_000, 300_000), Vec::new(), &compass);
    assert_eq!(level.advance(idle(), &screen), LevelStatus::Won);
    assert_eq!(level.advance(keys(true, false, false, false), &screen), LevelStatus::Won);
    assert_eq!(level.ship(), Point::new(400_000, 300_000));
    assert!(level.request_scan(&screen).is_none());
    assert_eq!(level.scans(), 12);
}

#[test]
fn scan_costs_one_unit_of_the_budget() {
    let compass = compass();
    let screen = Screen::new(800_000, 600_000).unwrap();
    let mut level = Level::new(33, &screen, Point::new(0, 0), Vec::new(), &compass);
    assert_eq!(level.scans(), 1);
    let sweep = level.request_scan(&screen).unwrap();
    assert_eq!(level.scans(), 0);
    assert_eq!(sweep.center(), Point::new(400_000, 300_000));
    assert_eq!(sweep.radius(), 10_000);
    assert_eq!(sweep.limit(), 800_000);
    assert_eq!(sweep.status(), SweepStatus::Continue);
    assert!(level.request_scan(&screen).is_none());
    assert_eq!(level.scans(), 0);
    let mut spent = Level::new(36, &screen, Point::new(0, 0), Vec::new(), &compass);
    assert!(spent.request_scan(&screen).is_none());
    assert_eq!(spent.scans(), 0);
}

#[test]
fn scan_starts_from_where_the_ship_is() {
    let compass = compass();
    let screen = Screen::new(800_000, 600_000).unwrap();
    let mut level = Level::new(0, &screen, Point::new(0, 0), Vec::new(), &compass);
    level.advance(keys(true, false, true, false), &screen);
    let sweep = level.request_scan(&screen).unwrap();
    assert_eq!(sweep.center(), Point::new(399_000, 299_000));
    assert_eq!(level.scans(), 11);
}

#[test]
fn generated_level_starts_clear_of_every_asteroid() {
    let compass = compass();
    let screen = Screen::new(800_000, 600_000).unwrap();
    for index in [1usize, 2, 10] {
        let mut level = Level::generate(index, &screen, &compass);
        assert_eq!(level.scans(), scan_budget(index));
        assert_eq!(level.ship(), Point::new(400_000, 300_000));
        assert_eq!(level.status(), LevelStatus::Playing);
        assert!(0 <= level.destination().x && level.destination().x <= 800_000);
        assert!(0 <= level.destination().y && level.destination().y <= 600_000);
        assert_eq!(level.asteroids().len(), 10 + index);
        let sides: usize = level.asteroids().iter().map(|a| a.sides() as usize).sum();
        assert_eq!(level.edges().len(), sides);
        for asteroid in level.asteroids() {
            assert!(asteroid.clear_of(level.ship(), 10_000_000, &compass));
            assert!(3 <= asteroid.sides() && asteroid.sides() < 8);
        }
        assert!(!near_any(level.edges(), level.ship(), 10_000_000));
        assert_ne!(level.advance(idle(), &screen), LevelStatus::Lost);
    }
}

#[test]
fn generated_destinations_differ() {
    let compass = compass();
    let screen = Screen::new(800_000, 600_000).unwrap();
    let mut destinations = Vec::new();
    for _ in 0..20 {
        let level = Level::generate(0, &screen, &compass);
        if !destinations.contains(&level.destination()) {
            destinations.push(level.destination());
        }
    }
    assert!(destinations.len() > 1);
}
