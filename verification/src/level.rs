//! One level of the game: the ship, its destination, the asteroids and the
//! scan budget, advanced one frame at a time.

use vstd::prelude::*;
use crate::asteroid::Asteroid;
use crate::compass::{in_reach, Compass, Direction};
use crate::geometry::{near_any, touches, Line, Point};
use crate::radar::{Sweep, SweepState};
use crate::random::random_between;
use crate::screen::Screen;
use crate::units::{
    DST_SIZE,
    MAX_EXTENT,
    NUM_ASTEROIDS,
    SHIP_SIZE,
    SHIP_SPEED,
    SHIP_TOLERANCE,
};

verus! {

/// Scans granted on the first levels.
pub const SCAN_BUDGET: usize = 12;

/// The scan budget shrinks by one every this many levels.
pub const LEVELS_PER_SCAN: usize = 3;

/// The movement keys that are held down.
#[derive(Clone, Copy, Debug, PartialEq, Eq, Structural)]
pub struct Keys {
    /// The key that moves the ship towards smaller y.
    pub up: bool,
    /// The key that moves the ship towards larger y.
    pub down: bool,
    /// The key that moves the ship towards smaller x.
    pub left: bool,
    /// The key that moves the ship towards larger x.
    pub right: bool,
}

/// Whether a movement key is held, which ends a radar sweep early.
pub fn interrupted_by_movement(keys: Keys) -> (interrupted: bool)
    ensures
        interrupted == (keys.up || keys.down || keys.left || keys.right),
{
    keys.up || keys.down || keys.left || keys.right
}

/// How a level stands.
#[derive(Clone, Copy, Debug, PartialEq, Eq, Structural)]
pub enum LevelStatus {
    /// The ship is under way.
    Playing,
    /// The ship has reached the destination.
    Won,
    /// The ship has struck an asteroid.
    Lost,
}

/// The scans granted on level `level`: one fewer every three levels, and
/// never fewer than none.
pub open spec fn budget_for(level: nat) -> nat {
    if level / (LEVELS_PER_SCAN as nat) >= SCAN_BUDGET {
        0
    } else {
        (SCAN_BUDGET - level / (LEVELS_PER_SCAN as nat)) as nat
    }
}

/// Computes [`budget_for`].
pub fn scan_budget(level: usize) -> (scans: usize)
    ensures
        scans == budget_for(level as nat),
{
    let spent = level / LEVELS_PER_SCAN;
    if spent >= SCAN_BUDGET {
        0
    } else {
        SCAN_BUDGET - spent
    }
}

/// The asteroids placed on level `level`.
pub fn asteroid_count(level: usize) -> (count: usize)
    requires
        NUM_ASTEROIDS + level <= usize::MAX,
    ensures
        count == NUM_ASTEROIDS + level,
{
    NUM_ASTEROIDS + level
}

/// Where the ship is after one frame with `keys` held. Each key moves the
/// ship by `SHIP_SPEED` unless the ship's body would leave the screen; up is
/// applied before down, and left before right.
pub open spec fn moved(ship: Point, keys: Keys, screen: Screen) -> Point {
    let y1 = if keys.up && ship.y >= SHIP_SIZE {
        ship.y - SHIP_SPEED
    } else {
        ship.y as int
    };
    let y2 = if keys.down && y1 <= screen.height() - SHIP_SIZE {
        y1 + SHIP_SPEED
    } else {
        y1
    };
    let x1 = if keys.left && ship.x >= SHIP_SIZE {
        ship.x - SHIP_SPEED
    } else {
        ship.x as int
    };
    let x2 = if keys.right && x1 <= screen.width() - SHIP_SIZE {
        x1 + SHIP_SPEED
    } else {
        x1
    };
    Point { x: x2 as i32, y: y2 as i32 }
}

/// Whether the ship at `ship` has reached `destination`: the two discs
/// touch.
pub open spec fn arrived(ship: Point, destination: Point) -> bool {
    ship.dist2(destination) <= (SHIP_SIZE + DST_SIZE) * (SHIP_SIZE + DST_SIZE)
}

/// How the level stands with the ship at `ship`: lost if the ship touches
/// an edge, else won if it has arrived, else still being played.
pub open spec fn outcome(edges: Seq<Line>, ship: Point, destination: Point) -> LevelStatus {
    if touches(edges, ship, SHIP_TOLERANCE as int) {
        LevelStatus::Lost
    } else if arrived(ship, destination) {
        LevelStatus::Won
    } else {
        LevelStatus::Playing
    }
}

/// Losing and winning exclude each other in every frame, and where the ship
/// both touches an edge and has arrived, the collision decides: the level
/// is lost.
pub proof fn lemma_collision_precedes_arrival(edges: Seq<Line>, ship: Point, destination: Point)
    ensures
        outcome(edges, ship, destination) == LevelStatus::Lost <==> touches(
            edges,
            ship,
            SHIP_TOLERANCE as int,
        ),
        outcome(edges, ship, destination) == LevelStatus::Won <==> arrived(ship, destination)
            && !touches(edges, ship, SHIP_TOLERANCE as int),
        outcome(edges, ship, destination) == LevelStatus::Playing <==> !arrived(ship, destination)
            && !touches(edges, ship, SHIP_TOLERANCE as int),
{
}

/// The sides of all of `asteroids`, asteroid by asteroid.
pub open spec fn outlines(asteroids: Seq<Asteroid>, table: Seq<Direction>) -> Seq<Line>
    decreases asteroids.len(),
{
    if asteroids.len() == 0 {
        Seq::empty()
    } else {
        outlines(asteroids.drop_last(), table) + asteroids.last().outline(table)
    }
}

/// A point touches the sides of a field of asteroids exactly when it strikes
/// one of the asteroids.
pub proof fn lemma_outlines_touch(
    asteroids: Seq<Asteroid>,
    table: Seq<Direction>,
    p: Point,
    tolerance: int,
)
    ensures
        touches(outlines(asteroids, table), p, tolerance) <==> exists|k: int|
            0 <= k < asteroids.len() && (#[trigger] asteroids[k]).struck_by(table, p, tolerance),
    decreases asteroids.len(),
{
    if asteroids.len() > 0 {
        let shorter = asteroids.drop_last();
        let last = asteroids.last();
        lemma_outlines_touch(shorter, table, p, tolerance);
        let head = outlines(shorter, table);
        let tail = last.outline(table);
        let all = outlines(asteroids, table);
        if touches(all, p, tolerance) {
            let i = choose|i: int| 0 <= i < all.len() && (#[trigger] all[i]).is_near(p, tolerance);
            if i < head.len() {
                assert(head[i] == all[i]);
                assert(touches(head, p, tolerance));
                let k = choose|k: int|
                    0 <= k < shorter.len() && (#[trigger] shorter[k]).struck_by(
                        table,
                        p,
                        tolerance,
                    );
                assert(asteroids[k] == shorter[k]);
            } else {
                assert(tail[i - head.len()] == all[i]);
                assert(touches(tail, p, tolerance));
                assert(asteroids[asteroids.len() - 1].struck_by(table, p, tolerance));
            }
        }
        if exists|k: int|
            0 <= k < asteroids.len() && (#[trigger] asteroids[k]).struck_by(table, p, tolerance) {
            let k = choose|k: int|
                0 <= k < asteroids.len() && (#[trigger] asteroids[k]).struck_by(
                    table,
                    p,
                    tolerance,
                );
            if k < shorter.len() {
                assert(shorter[k] == asteroids[k]);
                assert(touches(head, p, tolerance));
                let i = choose|i: int|
                    0 <= i < head.len() && (#[trigger] head[i]).is_near(p, tolerance);
                assert(all[i] == head[i]);
            } else {
                let i = choose|i: int|
                    0 <= i < tail.len() && (#[trigger] tail[i]).is_near(p, tolerance);
                assert(all[head.len() + i] == tail[i]);
            }
        }
    }
}

/// The state of a level as a mathematical value.
pub struct LevelState {
    /// Scans left.
    pub scans: nat,
    pub ship: Point,
    pub destination: Point,
    pub asteroids: Seq<Asteroid>,
    /// The sides of all asteroids.
    pub edges: Seq<Line>,
    pub status: LevelStatus,
}

impl LevelState {
    /// The invariant of a level: the ship is on the largest possible field.
    pub open spec fn wf(self) -> bool {
        0 <= self.ship.x <= MAX_EXTENT && 0 <= self.ship.y <= MAX_EXTENT
    }

    /// Whether a scan can start: the level is being played and the budget
    /// is not used up.
    pub open spec fn can_scan(self) -> bool {
        self.status == LevelStatus::Playing && self.scans > 0
    }

    /// The state after the scan key was pressed: a scan that can start
    /// costs one unit of the budget, and nothing else changes.
    pub open spec fn after_scan_request(self) -> LevelState {
        if self.can_scan() {
            LevelState { scans: (self.scans - 1) as nat, ..self }
        } else {
            self
        }
    }

    /// The state after one frame with `keys` held: a level that is over
    /// stays as it is; otherwise the ship moves and the outcome is judged
    /// at its new position.
    pub open spec fn after_frame(self, keys: Keys, screen: Screen) -> LevelState {
        if self.status != LevelStatus::Playing {
            self
        } else {
            let ship = moved(self.ship, keys, screen);
            LevelState { ship, status: outcome(self.edges, ship, self.destination), ..self }
        }
    }
}

/// One level in play.
pub struct Level {
    scans: usize,
    ship: Point,
    destination: Point,
    asteroids: Vec<Asteroid>,
    edges: Vec<Line>,
    status: LevelStatus,
}

impl View for Level {
    type V = LevelState;

    closed spec fn view(&self) -> LevelState {
        LevelState {
            scans: self.scans as nat,
            ship: self.ship,
            destination: self.destination,
            asteroids: self.asteroids@,
            edges: self.edges@,
            status: self.status,
        }
    }
}

impl Level {
    /// Every level satisfies the invariant of its state.
    #[verifier::type_invariant]
    pub open spec fn wf(&self) -> bool {
        self@.wf()
    }

    /// Level `level` with the given destination and asteroids, and the ship
    /// in the middle of `screen`.
    pub fn new(
        level: usize,
        screen: &Screen,
        destination: Point,
        asteroids: Vec<Asteroid>,
        compass: &Compass,
    ) -> (made: Level)
        ensures
            made@.scans == budget_for(level as nat),
            made@.ship == screen.middle(),
            made@.destination == destination,
            made@.asteroids == asteroids@,
            made@.edges == outlines(asteroids@, compass@),
            made@.status == LevelStatus::Playing,
    {
        proof {
            use_type_invariant(screen);
        }
        let mut edges: Vec<Line> = Vec::new();
        let mut k: usize = 0;
        assert(asteroids@.take(0) =~= Seq::empty());
        while k < asteroids.len()
            invariant
                k <= asteroids.len(),
                edges@ == outlines(asteroids@.take(k as int), compass@),
            decreases asteroids.len() - k,
        {
            let mut outline = asteroids[k].edges(compass);
            proof {
                assert(asteroids@.take(k + 1).drop_last() =~= asteroids@.take(k as int));
            }
            edges.append(&mut outline);
            k += 1;
        }
        assert(asteroids@.take(asteroids.len() as int) =~= asteroids@);
        Level {
            scans: scan_budget(level),
            ship: screen.center(),
            destination,
            asteroids,
            edges,
            status: LevelStatus::Playing,
        }
    }

    /// Sets up level `level` on `screen`: the ship in the middle, the
    /// destination at a random place, and `NUM_ASTEROIDS + level` random
    /// asteroids, none of which touches the ship.
    pub fn generate(level: usize, screen: &Screen, compass: &Compass) -> (made: Level)
        requires
            NUM_ASTEROIDS + level <= usize::MAX,
        ensures
            made@.scans == budget_for(level as nat),
            made@.ship == screen.middle(),
            screen.holds(made@.destination),
            made@.asteroids.len() == NUM_ASTEROIDS + level,
            forall|k: int|
                0 <= k < made@.asteroids.len() ==> (#[trigger] made@.asteroids[k]).placed_on(
                    *screen,
                ) && !made@.asteroids[k].struck_by(compass@, made@.ship, SHIP_TOLERANCE as int),
            made@.edges == outlines(made@.asteroids, compass@),
            !touches(made@.edges, made@.ship, SHIP_TOLERANCE as int),
            made@.status == LevelStatus::Playing,
    {
        proof {
            use_type_invariant(screen);
        }
        let ship = screen.center();
        let destination = Point {
            x: random_between(0, screen.width()),
            y: random_between(0, screen.height()),
        };
        let count = asteroid_count(level);
        let mut asteroids: Vec<Asteroid> = Vec::new();
        let mut k: usize = 0;
        while k < count
            invariant
                k <= count,
                asteroids@.len() == k,
                ship == screen.middle(),
                screen.holds(ship),
                forall|j: int|
                    0 <= j < asteroids@.len() ==> (#[trigger] asteroids@[j]).placed_on(*screen)
                        && !asteroids@[j].struck_by(compass@, ship, SHIP_TOLERANCE as int),
            decreases count - k,
        {
            // The ship is on the screen, so there is always an asteroid.
            let asteroid = Asteroid::random_asteroid(ship, screen, compass).unwrap();
            asteroids.push(asteroid);
            k += 1;
        }
        proof {
            lemma_outlines_touch(asteroids@, compass@, ship, SHIP_TOLERANCE as int);
        }
        Level::new(level, screen, destination, asteroids, compass)
    }

    /// Handles a press of the scan key. While the level is being played and
    /// scans are left, one is spent and a sweep starts around the ship,
    /// bounded by the width of `screen`; otherwise nothing happens.
    pub fn request_scan(&mut self, screen: &Screen) -> (sweep: Option<Sweep>)
        ensures
            final(self)@ == old(self)@.after_scan_request(),
            sweep is Some <==> old(self)@.can_scan(),
            sweep matches Some(s) ==> s@ == SweepState::start(
                old(self)@.ship,
                screen.width() as nat,
            ),
    {
        proof {
            use_type_invariant(&*self);
            use_type_invariant(screen);
        }
        if self.status != LevelStatus::Playing || self.scans == 0 {
            return None;
        }
        self.scans = self.scans - 1;
        assert(in_reach(self.ship, screen.width() as int));
        Sweep::new(self.ship, screen.width() as u32)
    }

    /// Plays one frame: moves the ship as `keys` say, then judges whether
    /// the level is lost, won or goes on.
    pub fn advance(&mut self, keys: Keys, screen: &Screen) -> (status: LevelStatus)
        ensures
            final(self)@ == old(self)@.after_frame(keys, *screen),
            status == final(self)@.status,
    {
        proof {
            use_type_invariant(&*self);
            use_type_invariant(screen);
        }
        if self.status != LevelStatus::Playing {
            return self.status;
        }
        let mut x = self.ship.x;
        let mut y = self.ship.y;
        if keys.up && y >= SHIP_SIZE {
            y = y - SHIP_SPEED;
        }
        if keys.down && y <= screen.height() - SHIP_SIZE {
            y = y + SHIP_SPEED;
        }
        if keys.left && x >= SHIP_SIZE {
            x = x - SHIP_SPEED;
        }
        if keys.right && x <= screen.width() - SHIP_SIZE {
            x = x + SHIP_SPEED;
        }
        let ship = Point { x, y };
        let status = if near_any(&self.edges, ship, SHIP_TOLERANCE) {
            LevelStatus::Lost
        } else if ship.within(self.destination, (SHIP_SIZE + DST_SIZE) as u32) {
            LevelStatus::Won
        } else {
            LevelStatus::Playing
        };
        self.ship = ship;
        self.status = status;
        status
    }

    /// Scans left.
    pub fn scans(&self) -> (scans: usize)
        ensures
            scans == self@.scans,
    {
        self.scans
    }

    /// Where the ship is.
    pub fn ship(&self) -> (ship: Point)
        ensures
            ship == self@.ship,
    {
        self.ship
    }

    /// Where the ship has to go.
    pub fn destination(&self) -> (destination: Point)
        ensures
            destination == self@.destination,
    {
        self.destination
    }

    /// Whether the level is being played, won or lost.
    pub fn status(&self) -> (status: LevelStatus)
        ensures
            status == self@.status,
    {
        self.status
    }

    /// The asteroids on the field.
    pub fn asteroids(&self) -> (asteroids: &Vec<Asteroid>)
        ensures
            asteroids@ == self@.asteroids,
    {
        &self.asteroids
    }

    /// The sides of all asteroids: what the radar scans and the ship must
    /// not touch.
    pub fn edges(&self) -> (edges: &Vec<Line>)
        ensures
            edges@ == self@.edges,
    {
        &self.edges
    }
}

} // verus!
