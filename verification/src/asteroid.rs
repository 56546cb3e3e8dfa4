//! Asteroids: regular polygons placed on the field.

use vstd::prelude::*;
use vstd::arithmetic::div_mod::{
    lemma_fundamental_div_mod,
    lemma_fundamental_div_mod_converse,
    lemma_mod_bound,
    lemma_mod_self_0,
    lemma_small_mod,
};
use crate::compass::{
    apart,
    in_reach,
    lemma_axis_points,
    lemma_polar_point_on_circle,
    lemma_scaled_bounded,
    lemma_scaled_separates,
    on_circle,
    narrow_step,
    polar2euclidean,
    polar_point,
    spread_at,
    turned,
    unit_length,
    valid_table,
    wide_step,
    Compass,
    Direction,
    MIN_SIDES,
};
use crate::geometry::{
    lemma_near_point_is_by_the_segment,
    lemma_ring_is_closed_cycle,
    near_any,
    ring,
    touches,
    Line,
    Point,
};
use crate::random::random_between;
use crate::screen::Screen;
use crate::units::{FULL_TURN, SHIP_TOLERANCE};

verus! {

/// Smallest radius of an asteroid: one pixel.
pub const MIN_RADIUS: u32 = 1_000;

/// A randomly placed asteroid has at least this many sides.
pub const LEAST_RANDOM_SIDES: u8 = 3;

/// A randomly placed asteroid has at most this many sides.
pub const MOST_RANDOM_SIDES: u8 = 7;

/// A randomly placed asteroid has at least this radius: five pixels.
pub const LEAST_RANDOM_RADIUS: u32 = 5_000;

/// A randomly placed asteroid has at most this radius: one unit less than
/// forty pixels.
pub const MOST_RANDOM_RADIUS: u32 = 39_999;

/// How many random placements are tried before the asteroid of last resort
/// is placed.
pub const PLACEMENT_ATTEMPTS: u32 = 1_000;

/// The asteroid of last resort has four sides.
pub const FALLBACK_SIDES: u8 = 4;

/// The asteroid of last resort has the least random radius.
pub const FALLBACK_RADIUS: u32 = 5_000;

/// A point farther than this from the centre of the asteroid of last
/// resort, along an axis, touches none of its sides with the ship's
/// tolerance: the radius, and the tolerance divided by twice the radius.
pub const FALLBACK_REACH: i32 = 6_000;

/// A regular polygon: centre, number of sides, distance of the corners from
/// the centre, and the angle of the first corner.
#[derive(Clone, Copy, Debug)]
pub struct Asteroid {
    pos: Point,
    sides: u8,
    radius: u32,
    rotation: u32,
}

/// The whole angle steps between the first corner and corner `i` of a
/// polygon of `sides` sides.
pub open spec fn corner_offset(sides: int, i: int) -> int {
    (i * FULL_TURN) / sides
}

/// Neighbouring corners of a regular polygon are one narrow or one wide step
/// apart.
pub proof fn lemma_polygon_step(sides: int, i: int)
    requires
        0 < sides,
        0 <= i,
    ensures
        corner_offset(sides, i + 1) - corner_offset(sides, i) == narrow_step(sides)
            || corner_offset(sides, i + 1) - corner_offset(sides, i) == wide_step(sides),
        corner_offset(sides, sides) == FULL_TURN,
        corner_offset(sides, 0) == 0,
{
    let full = FULL_TURN as int;
    let x = i * full;
    let y = (i + 1) * full;
    assert(y == x + full) by (nonlinear_arith)
        requires
            x == i * full,
            y == (i + 1) * full,
    ;
    lemma_fundamental_div_mod(x, sides);
    lemma_fundamental_div_mod(y, sides);
    lemma_fundamental_div_mod(full, sides);
    lemma_mod_bound(x, sides);
    lemma_mod_bound(y, sides);
    lemma_mod_bound(full, sides);
    let q = full / sides;
    let r = full % sides;
    let k = y / sides - x / sides - q;
    assert(sides * k == x % sides + r - y % sides) by (nonlinear_arith)
        requires
            k == y / sides - x / sides - q,
            y == x + full,
            x == sides * (x / sides) + x % sides,
            y == sides * (y / sides) + y % sides,
            full == sides * q + r,
    ;
    assert(k == 0 || k == 1) by (nonlinear_arith)
        requires
            0 < sides,
            -sides < sides * k < 2 * sides,
    ;
    if r == 0 {
        assert(k == 0) by (nonlinear_arith)
            requires
                0 < sides,
                -sides < sides * k < sides,
        ;
        assert(full + sides - 1 == q * sides + (sides - 1)) by (nonlinear_arith)
            requires
                full == sides * q + r,
                r == 0,
        ;
        lemma_fundamental_div_mod_converse(full + sides - 1, sides, q, sides - 1);
    } else {
        assert(full + sides - 1 == (q + 1) * sides + (r - 1)) by (nonlinear_arith)
            requires
                full == sides * q + r,
        ;
        lemma_fundamental_div_mod_converse(full + sides - 1, sides, q + 1, r - 1);
    }
    assert(sides * full == full * sides + 0) by (nonlinear_arith);
    lemma_fundamental_div_mod_converse(sides * full, sides, full, 0);
    assert(0 * full == 0);
}

/// Whether a ship at `ship` is out of reach of every asteroid that random
/// placement can put on `screen`: along one axis it is farther from the
/// screen than the largest random radius and the ship's tolerance together.
pub open spec fn beyond_placement(ship: Point, screen: Screen) -> bool {
    ||| ship.x < -(MOST_RANDOM_RADIUS + SHIP_TOLERANCE)
    ||| ship.x > screen.width() + MOST_RANDOM_RADIUS + SHIP_TOLERANCE
    ||| ship.y < -(MOST_RANDOM_RADIUS + SHIP_TOLERANCE)
    ||| ship.y > screen.height() + MOST_RANDOM_RADIUS + SHIP_TOLERANCE
}

/// Whether `screen` is wide or high enough to hold an asteroid of last
/// resort out of reach of any ship.
pub open spec fn roomy(screen: Screen) -> bool {
    screen.width() > 2 * FALLBACK_REACH || screen.height() > 2 * FALLBACK_REACH
}

/// The end of the stretch from zero to `length` that is farther from `at`.
pub open spec fn far_end(at: int, length: int) -> int {
    if 2 * at <= length {
        length
    } else {
        0
    }
}

/// Where the asteroid of last resort stands: on the border of the screen
/// that is farthest from the ship, along the width if that is roomy and
/// else along the height; on a screen that is not roomy, around the ship.
pub open spec fn fallback_pos(ship: Point, screen: Screen) -> Point {
    if screen.width() > 2 * FALLBACK_REACH {
        Point {
            x: far_end(ship.x as int, screen.width() as int) as i32,
            y: (screen.height() / 2) as i32,
        }
    } else if screen.height() > 2 * FALLBACK_REACH {
        Point {
            x: (screen.width() / 2) as i32,
            y: far_end(ship.y as int, screen.height() as int) as i32,
        }
    } else {
        ship
    }
}

/// Whether there is an asteroid of last resort for a ship at `ship`: the
/// screen is roomy, or it holds the ship.
pub open spec fn has_fallback(ship: Point, screen: Screen) -> bool {
    roomy(screen) || screen.holds(ship)
}

/// No side of a square of radius `FALLBACK_RADIUS` that stands on a corner
/// is near its own centre, or near a point more than `FALLBACK_REACH` from
/// the centre along an axis. The side runs along `(ux, uy)`; `(wx, wy)`
/// leads from its first corner to the point, and `(qx, qy)` from the centre
/// to the point.
proof fn lemma_diamond_side_misses(ux: int, uy: int, wx: int, wy: int, qx: int, qy: int)
    by (nonlinear_arith)
    requires
        (ux == -5_000 && uy == 5_000 && wx == qx - 5_000 && wy == qy) || (ux == -5_000 && uy
            == -5_000 && wx == qx && wy == qy - 5_000) || (ux == 5_000 && uy == -5_000 && wx == qx
            + 5_000 && wy == qy) || (ux == 5_000 && uy == 5_000 && wx == qx && wy == qy + 5_000),
        (qx == 0 && qy == 0) || qx > 6_000 || qx < -6_000 || qy > 6_000 || qy < -6_000,
    ensures
        !(-10_000_000 <= wy * ux - wx * uy <= 10_000_000 && 0 <= wx * ux + wy * uy <= ux * ux + uy
            * uy),
{
}

impl Asteroid {
    /// Whether the four values describe an asteroid: at least three sides,
    /// a radius of a pixel or more, a rotation within one turn, and every
    /// corner at a representable position.
    pub open spec fn valid(pos: Point, sides: u8, radius: u32, rotation: u32) -> bool {
        &&& sides >= MIN_SIDES
        &&& radius >= MIN_RADIUS
        &&& rotation < FULL_TURN
        &&& in_reach(pos, radius as int)
    }

    /// Every asteroid has a valid shape.
    #[verifier::type_invariant]
    pub open spec fn wf(&self) -> bool {
        Self::valid(self.pos(), self.sides(), self.radius(), self.rotation())
    }

    /// What [`Self::pos`] returns, for use in contracts.
    pub closed spec fn spec_pos(&self) -> Point {
        self.pos
    }

    /// What [`Self::sides`] returns, for use in contracts.
    pub closed spec fn spec_sides(&self) -> u8 {
        self.sides
    }

    /// What [`Self::radius`] returns, for use in contracts.
    pub closed spec fn spec_radius(&self) -> u32 {
        self.radius
    }

    /// What [`Self::rotation`] returns, for use in contracts.
    pub closed spec fn spec_rotation(&self) -> u32 {
        self.rotation
    }

    /// The asteroid with the given shape, when the values describe one.
    pub fn new(pos: Point, sides: u8, radius: u32, rotation: u32) -> (asteroid: Option<Asteroid>)
        ensures
            asteroid is Some <==> Self::valid(pos, sides, radius, rotation),
            asteroid matches Some(a) ==> a.pos() == pos && a.sides() == sides && a.radius()
                == radius && a.rotation() == rotation,
    {
        if sides < MIN_SIDES || radius < MIN_RADIUS || rotation >= FULL_TURN {
            return None;
        }
        let r: i64 = radius as i64;
        let x: i64 = pos.x as i64;
        let y: i64 = pos.y as i64;
        let lowest: i64 = i32::MIN as i64;
        let highest: i64 = i32::MAX as i64;
        if x - r < lowest || x + r > highest || y - r < lowest || y + r > highest {
            return None;
        }
        Some(Asteroid { pos, sides, radius, rotation })
    }

    /// Centre.
    #[verifier::when_used_as_spec(spec_pos)]
    pub fn pos(&self) -> (p: Point)
        ensures
            p == self.pos(),
    {
        self.pos
    }

    /// Number of sides.
    #[verifier::when_used_as_spec(spec_sides)]
    pub fn sides(&self) -> (n: u8)
        ensures
            n == self.sides(),
    {
        self.sides
    }

    /// Distance of each corner from the centre.
    #[verifier::when_used_as_spec(spec_radius)]
    pub fn radius(&self) -> (r: u32)
        ensures
            r == self.radius(),
    {
        self.radius
    }

    /// Angle of the first corner.
    #[verifier::when_used_as_spec(spec_rotation)]
    pub fn rotation(&self) -> (r: u32)
        ensures
            r == self.rotation(),
    {
        self.rotation
    }

    /// Angle of corner `i`, within one turn.
    pub open spec fn corner_angle(&self, i: int) -> int {
        (self.rotation() + corner_offset(self.sides() as int, i)) % (FULL_TURN as int)
    }

    /// Position of corner `i`, read off `table`.
    pub open spec fn corner(&self, table: Seq<Direction>, i: int) -> Point {
        polar_point(self.pos(), self.radius() as int, table[self.corner_angle(i)])
    }

    /// The corners in order, starting with the one at the rotation angle.
    pub open spec fn corners(&self, table: Seq<Direction>) -> Seq<Point> {
        Seq::new(self.sides() as nat, |i: int| self.corner(table, i))
    }

    /// The corners of the polygon, in order. Each lies on the circle of the
    /// asteroid's radius around its centre, up to rounding.
    pub fn vertices(&self, compass: &Compass) -> (vertices: Vec<Point>)
        ensures
            vertices@ == self.corners(compass@),
            forall|i: int|
                0 <= i < vertices@.len() ==> on_circle(
                    #[trigger] vertices@[i],
                    self.pos(),
                    self.radius() as int,
                ),
    {
        proof {
            use_type_invariant(self);
            use_type_invariant(compass);
            assert forall|i: int| 0 <= i < self.sides() implies on_circle(
                #[trigger] self.corners(compass@)[i],
                self.pos(),
                self.radius() as int,
            ) by {
                self.lemma_corner_on_circle(compass@, i);
            }
        }
        let mut vertices: Vec<Point> = Vec::new();
        let mut i: u8 = 0;
        while i < self.sides
            invariant
                self.wf(),
                self.sides == self.sides(),
                self.pos == self.pos(),
                self.radius == self.radius(),
                self.rotation == self.rotation(),
                i <= self.sides,
                vertices@.len() == i,
                forall|j: int| 0 <= j < i ==> vertices@[j] == self.corner(compass@, j),
            decreases self.sides - i,
        {
            let offset: u32 = (i as u32 * FULL_TURN) / (self.sides as u32);
            assert(offset <= i * FULL_TURN) by (nonlinear_arith)
                requires
                    offset == (i * FULL_TURN) / (self.sides as int),
                    self.sides >= 3,
                    i >= 0,
            ;
            let angle: u32 = self.rotation + offset;
            vertices.push(polar2euclidean(compass, self.pos, self.radius, angle));
            i += 1;
        }
        vertices
    }

    /// The sides of the polygon as segments: side `i` runs from corner `i`
    /// to the next corner, and the last side returns to the first corner.
    pub open spec fn outline(&self, table: Seq<Direction>) -> Seq<Line> {
        ring(self.corners(table))
    }

    /// Whether `p` is near one of the asteroid's sides.
    pub open spec fn struck_by(&self, table: Seq<Direction>, p: Point, tolerance: int) -> bool {
        touches(self.outline(table), p, tolerance)
    }

    /// Whether the asteroid's centre lies on `screen` and its shape is one
    /// that random placement produces.
    pub open spec fn placed_on(&self, screen: Screen) -> bool {
        &&& screen.holds(self.pos())
        &&& LEAST_RANDOM_SIDES <= self.sides() <= MOST_RANDOM_SIDES
        &&& LEAST_RANDOM_RADIUS <= self.radius() <= MOST_RANDOM_RADIUS
    }

    /// The sides of the polygon, in order. They form a closed cycle: each
    /// side ends where the next begins, and the last ends where the first
    /// begins.
    pub fn edges(&self, compass: &Compass) -> (edges: Vec<Line>)
        ensures
            edges@ == self.outline(compass@),
            edges@.len() == self.sides(),
            forall|i: int|
                0 <= i < edges@.len() ==> (#[trigger] edges@[i]).b() == edges@[(i + 1) % (
                edges@.len() as int)].a(),
    {
        proof {
            use_type_invariant(self);
            use_type_invariant(compass);
        }
        let vertices = self.vertices(compass);
        let ghost table = compass@;
        let mut edges: Vec<Line> = Vec::new();
        let mut i: usize = 0;
        while i < vertices.len()
            invariant
                self.wf(),
                valid_table(table),
                vertices@ == self.corners(table),
                i <= vertices@.len(),
                edges@.len() == i,
                forall|j: int| 0 <= j < i ==> #[trigger] edges@[j] == ring(vertices@)[j],
            decreases vertices.len() - i,
        {
            let start = vertices[i];
            let end = vertices[(i + 1) % vertices.len()];
            proof {
                lemma_mod_bound(i + 1, self.sides() as int);
                self.lemma_neighbours_differ(table, i as int);
            }
            let edge = Line::new(start, end);
            proof {
                edge.lemma_spans_its_ends();
            }
            edges.push(edge);
            i += 1;
        }
        proof {
            assert(edges@ =~= ring(vertices@));
            lemma_ring_is_closed_cycle(vertices@);
        }
        edges
    }

    /// Decides whether `point` is clear of every side of the asteroid.
    pub fn clear_of(&self, point: Point, tolerance: u64, compass: &Compass) -> (clear: bool)
        ensures
            clear == !self.struck_by(compass@, point, tolerance as int),
    {
        let edges = self.edges(compass);
        !near_any(&edges, point, tolerance)
    }

    /// An asteroid of random place and shape on `screen`.
    fn sample(screen: &Screen) -> (asteroid: Asteroid)
        ensures
            asteroid.placed_on(*screen),
    {
        proof {
            use_type_invariant(screen);
        }
        let x = random_between(0, screen.width());
        let y = random_between(0, screen.height());
        let sides = random_between(LEAST_RANDOM_SIDES as i32, MOST_RANDOM_SIDES as i32);
        let radius = random_between(LEAST_RANDOM_RADIUS as i32, MOST_RANDOM_RADIUS as i32);
        let rotation = random_between(0, FULL_TURN as i32 - 1);
        Asteroid {
            pos: Point { x, y },
            sides: sides as u8,
            radius: radius as u32,
            rotation: rotation as u32,
        }
    }

    /// Places a random asteroid on `screen` whose sides keep clear of the
    /// ship at `ship`. Placements that touch the ship are discarded and
    /// drawn again; after `PLACEMENT_ATTEMPTS` discarded placements the
    /// asteroid of last resort is placed. There is no asteroid only where
    /// every draw touched the ship and there is no asteroid of last resort:
    /// on a screen that is not roomy and does not hold the ship.
    pub fn random_asteroid(ship: Point, screen: &Screen, compass: &Compass) -> (asteroid: Option<
        Asteroid,
    >)
        ensures
            asteroid matches Some(a) ==> a.placed_on(*screen) && !a.struck_by(
                compass@,
                ship,
                SHIP_TOLERANCE as int,
            ),
            has_fallback(ship, *screen) ==> asteroid is Some,
            beyond_placement(ship, *screen) ==> asteroid is Some,
    {
        let mut attempt: u32 = 0;
        while attempt < PLACEMENT_ATTEMPTS
            invariant
                attempt <= PLACEMENT_ATTEMPTS,
                attempt > 0 ==> !beyond_placement(ship, *screen),
            decreases PLACEMENT_ATTEMPTS - attempt,
        {
            let candidate = Self::sample(screen);
            proof {
                use_type_invariant(&candidate);
                use_type_invariant(compass);
                if beyond_placement(ship, *screen) {
                    candidate.lemma_far_point_is_clear(compass@, ship, SHIP_TOLERANCE as int);
                }
            }
            if candidate.clear_of(ship, SHIP_TOLERANCE, compass) {
                return Some(candidate);
            }
            attempt += 1;
        }
        let last_resort = Self::fallback(ship, screen);
        proof {
            use_type_invariant(compass);
            use_type_invariant(screen);
            if let Some(a) = last_resort {
                use_type_invariant(&a);
                a.lemma_fallback_is_clear(compass@, ship, *screen);
            }
        }
        last_resort
    }

    /// The asteroid of last resort for a ship at `ship`: a square standing
    /// on a corner, placed where [`fallback_pos`] says, if there is one. It
    /// is clear of the ship: see [`Self::lemma_fallback_is_clear`].
    pub fn fallback(ship: Point, screen: &Screen) -> (asteroid: Option<Asteroid>)
        ensures
            asteroid is Some <==> has_fallback(ship, *screen),
            asteroid matches Some(a) ==> a.pos() == fallback_pos(ship, *screen) && a.sides()
                == FALLBACK_SIDES && a.radius() == FALLBACK_RADIUS && a.rotation() == 0,
    {
        proof {
            use_type_invariant(screen);
        }
        let width = screen.width();
        let height = screen.height();
        let pos = if width > 2 * FALLBACK_REACH {
            Point { x: if ship.x <= width / 2 { width } else { 0 }, y: height / 2 }
        } else if height > 2 * FALLBACK_REACH {
            Point { x: width / 2, y: if ship.y <= height / 2 { height } else { 0 } }
        } else if 0 <= ship.x && ship.x <= width && 0 <= ship.y && ship.y <= height {
            ship
        } else {
            return None;
        };
        Some(Asteroid { pos, sides: FALLBACK_SIDES, radius: FALLBACK_RADIUS, rotation: 0 })
    }

    /// The corners of a square that stands on a corner: one radius from the
    /// centre along each axis.
    pub proof fn lemma_diamond_corners(&self, table: Seq<Direction>)
        requires
            self.wf(),
            valid_table(table),
            self.sides() == 4,
            self.rotation() == 0,
        ensures
            self.corner(table, 0) == (Point {
                x: (self.pos().x + self.radius()) as i32,
                y: self.pos().y,
            }),
            self.corner(table, 1) == (Point {
                x: self.pos().x,
                y: (self.pos().y + self.radius()) as i32,
            }),
            self.corner(table, 2) == (Point {
                x: (self.pos().x - self.radius()) as i32,
                y: self.pos().y,
            }),
            self.corner(table, 3) == (Point {
                x: self.pos().x,
                y: (self.pos().y - self.radius()) as i32,
            }),
    {
        assert(corner_offset(4, 0) == 0);
        assert(corner_offset(4, 1) == 9_000);
        assert(corner_offset(4, 2) == 18_000);
        assert(corner_offset(4, 3) == 27_000);
        assert(self.corner_angle(0) == 0);
        assert(self.corner_angle(1) == 9_000);
        assert(self.corner_angle(2) == 18_000);
        assert(self.corner_angle(3) == 27_000);
        lemma_axis_points(self.pos(), self.radius() as int, table);
    }

    /// The asteroid of last resort is on the screen, has a shape that
    /// random placement produces, and is clear of the ship.
    pub proof fn lemma_fallback_is_clear(&self, table: Seq<Direction>, ship: Point, screen: Screen)
        requires
            self.wf(),
            screen.wf(),
            valid_table(table),
            has_fallback(ship, screen),
            self.pos() == fallback_pos(ship, screen),
            self.sides() == FALLBACK_SIDES,
            self.radius() == FALLBACK_RADIUS,
            self.rotation() == 0,
        ensures
            self.placed_on(screen),
            !self.struck_by(table, ship, SHIP_TOLERANCE as int),
    {
        self.lemma_diamond_corners(table);
        let qx = ship.x - self.pos().x;
        let qy = ship.y - self.pos().y;
        assert((qx == 0 && qy == 0) || qx > 6_000 || qx < -6_000 || qy > 6_000 || qy < -6_000);
        let outline = self.outline(table);
        assert forall|i: int| 0 <= i < outline.len() implies !(#[trigger] outline[i]).is_near(
            ship,
            SHIP_TOLERANCE as int,
        ) by {
            let next = (i + 1) % 4;
            let a = self.corner(table, i);
            let b = self.corner(table, next);
            Line::lemma_spanning(a, b);
            lemma_diamond_side_misses(b.x - a.x, b.y - a.y, ship.x - a.x, ship.y - a.y, qx, qy);
        }
    }

    /// Whether `p` lies more than `margin` outside the square around the
    /// asteroid's centre that holds all its corners.
    pub open spec fn out_of_reach(&self, p: Point, margin: int) -> bool {
        ||| p.x < self.pos().x - self.radius() - margin
        ||| p.x > self.pos().x + self.radius() + margin
        ||| p.y < self.pos().y - self.radius() - margin
        ||| p.y > self.pos().y + self.radius() + margin
    }

    /// A point that lies more than the tolerance outside the square that
    /// holds an asteroid's corners is near none of its sides.
    pub proof fn lemma_far_point_is_clear(&self, table: Seq<Direction>, p: Point, tolerance: int)
        requires
            self.wf(),
            valid_table(table),
            self.out_of_reach(p, tolerance),
        ensures
            !self.struck_by(table, p, tolerance),
    {
        let sides = self.sides() as int;
        let radius = self.radius() as int;
        let outline = self.outline(table);
        assert forall|i: int| 0 <= i < outline.len() implies !(#[trigger] outline[i]).is_near(
            p,
            tolerance,
        ) by {
            let next = (i + 1) % sides;
            lemma_mod_bound(i + 1, sides);
            let a = self.corner(table, i);
            let b = self.corner(table, next);
            Line::lemma_spanning(a, b);
            self.lemma_neighbours_differ(table, i);
            self.lemma_corner_in_square(table, i);
            self.lemma_corner_in_square(table, next);
            if outline[i].is_near(p, tolerance) {
                lemma_near_point_is_by_the_segment(a, b, p, tolerance);
            }
        }
    }

    /// Every corner lies in the square of half-width `radius` around the
    /// centre.
    pub proof fn lemma_corner_in_square(&self, table: Seq<Direction>, i: int)
        requires
            self.wf(),
            valid_table(table),
            0 <= i < self.sides(),
        ensures
            self.pos().x - self.radius() <= self.corner(table, i).x <= self.pos().x
                + self.radius(),
            self.pos().y - self.radius() <= self.corner(table, i).y <= self.pos().y
                + self.radius(),
    {
        let angle = self.corner_angle(i);
        lemma_mod_bound(self.rotation() + corner_offset(self.sides() as int, i), FULL_TURN as int);
        assert(unit_length(table[angle]));
        lemma_scaled_bounded(self.radius() as int, table[angle].dx as int);
        lemma_scaled_bounded(self.radius() as int, table[angle].dy as int);
    }

    /// The outline of an asteroid has as many sides as the asteroid, and is
    /// a closed cycle: every side ends where the next one begins, and the
    /// last side ends where the first one begins.
    pub proof fn lemma_outline_is_closed_cycle(&self, table: Seq<Direction>)
        requires
            self.wf(),
        ensures
            self.outline(table).len() == self.sides(),
            forall|i: int|
                0 <= i < self.sides() ==> (#[trigger] self.outline(table)[i]).b() == self.outline(
                    table,
                )[(i + 1) % (self.sides() as int)].a(),
            forall|i: int|
                0 <= i < self.sides() - 1 ==> (#[trigger] self.outline(table)[i]).b()
                    == self.outline(table)[i + 1].a(),
            self.outline(table)[self.sides() - 1].b() == self.outline(table)[0].a(),
    {
        lemma_ring_is_closed_cycle(self.corners(table));
    }

    /// Every corner of an asteroid is at the asteroid's radius from its
    /// centre, up to rounding.
    pub proof fn lemma_corner_on_circle(&self, table: Seq<Direction>, i: int)
        requires
            self.wf(),
            valid_table(table),
            0 <= i < self.sides(),
        ensures
            on_circle(self.corner(table, i), self.pos(), self.radius() as int),
    {
        let angle = self.corner_angle(i);
        lemma_mod_bound(self.rotation() + corner_offset(self.sides() as int, i), FULL_TURN as int);
        assert(unit_length(table[angle]));
        lemma_polar_point_on_circle(self.pos(), self.radius() as int, table[angle]);
    }

    /// Two corners joined by an edge never coincide.
    pub proof fn lemma_neighbours_differ(&self, table: Seq<Direction>, i: int)
        requires
            self.wf(),
            valid_table(table),
            0 <= i < self.sides(),
        ensures
            self.corner(table, i) != self.corner(table, (i + 1) % (self.sides() as int)),
    {
        let sides = self.sides() as int;
        let radius = self.radius() as int;
        let here = self.corner_angle(i);
        let next = self.corner_angle((i + 1) % sides);
        lemma_polygon_step(sides, i);
        let step = corner_offset(sides, i + 1) - corner_offset(sides, i);
        assert(next == turned(here, step)) by {
            if i + 1 == sides {
                lemma_mod_self_0(sides);
            } else {
                lemma_small_mod((i + 1) as nat, sides as nat);
            }
        }
        assert(spread_at(table, here, sides));
        let p = table[here];
        let q = table[next];
        assert(apart(p, q));
        assert(unit_length(p) && unit_length(q));
        lemma_scaled_bounded(radius, p.dx as int);
        lemma_scaled_bounded(radius, p.dy as int);
        lemma_scaled_bounded(radius, q.dx as int);
        lemma_scaled_bounded(radius, q.dy as int);
        if p.dx - q.dx >= crate::compass::MIN_SPREAD {
            lemma_scaled_separates(radius, p.dx as int, q.dx as int);
        } else if q.dx - p.dx >= crate::compass::MIN_SPREAD {
            lemma_scaled_separates(radius, q.dx as int, p.dx as int);
        } else if p.dy - q.dy >= crate::compass::MIN_SPREAD {
            lemma_scaled_separates(radius, p.dy as int, q.dy as int);
        } else {
            lemma_scaled_separates(radius, q.dy as int, p.dy as int);
        }
    }
}

} // verus!
