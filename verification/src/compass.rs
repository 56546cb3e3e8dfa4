//! Unit vectors for every angle step, and the conversion from polar to
//! Cartesian coordinates.
//!
//! Sines and cosines are not computed here. A caller supplies a table of
//! unit vectors, one per hundredth of a degree, and [`Compass::new`] admits
//! it only if it has the shape of a circle: every entry has unit length up
//! to rounding, the four axis directions sit where they belong, and entries
//! that are one polygon step apart are visibly different.

use vstd::prelude::*;
use crate::geometry::Point;
use crate::units::FULL_TURN;

verus! {

/// Length of a unit vector in the scale of [`Direction`].
pub const UNIT: i32 = 1_000_000;

/// How far the squared length of a table entry may be from `UNIT * UNIT`.
pub const NORM_SLACK: i64 = 2_000_000;

/// Smallest difference, in one coordinate, between two table entries that
/// are one polygon step apart.
pub const MIN_SPREAD: i32 = 1_000;

/// Fewest sides of a polygon.
pub const MIN_SIDES: u8 = 3;

/// A vector of length `UNIT`, up to rounding.
#[derive(Clone, Copy, Debug, PartialEq, Eq, Structural)]
pub struct Direction {
    pub dx: i32,
    pub dy: i32,
}

/// Whether `d` has length `UNIT` up to rounding.
pub open spec fn unit_length(d: Direction) -> bool {
    &&& -UNIT <= d.dx <= UNIT
    &&& -UNIT <= d.dy <= UNIT
    &&& -NORM_SLACK <= d.dx * d.dx + d.dy * d.dy - UNIT * UNIT <= NORM_SLACK
}

/// Whether `d` has exactly the components `dx` and `dy`.
pub open spec fn points_along(d: Direction, dx: int, dy: int) -> bool {
    d.dx == dx && d.dy == dy
}

/// Whether two directions differ by at least `MIN_SPREAD` in some coordinate.
pub open spec fn apart(p: Direction, q: Direction) -> bool {
    ||| p.dx - q.dx >= MIN_SPREAD
    ||| q.dx - p.dx >= MIN_SPREAD
    ||| p.dy - q.dy >= MIN_SPREAD
    ||| q.dy - p.dy >= MIN_SPREAD
}

/// The angle between neighbouring corners of a regular polygon of `sides`
/// sides, rounded down to whole steps.
pub open spec fn narrow_step(sides: int) -> int {
    FULL_TURN as int / sides
}

/// The angle between neighbouring corners of a regular polygon of `sides`
/// sides, rounded up to whole steps.
pub open spec fn wide_step(sides: int) -> int {
    (FULL_TURN + sides - 1) / sides
}

/// The angle `step` steps after `angle`, brought back into one turn.
pub open spec fn turned(angle: int, step: int) -> int {
    (angle + step) % (FULL_TURN as int)
}

/// Whether the entries one polygon step after `angle`, for a polygon of
/// `sides` sides, are apart from the entry at `angle`.
pub open spec fn spread_at(table: Seq<Direction>, angle: int, sides: int) -> bool {
    &&& apart(table[angle], table[turned(angle, narrow_step(sides))])
    &&& apart(table[angle], table[turned(angle, wide_step(sides))])
}

/// Whether `table` is admissible as a table of unit vectors: entry `k` stands
/// for the direction `k` hundredths of a degree from the positive x axis,
/// turning towards the positive y axis.
pub open spec fn valid_table(table: Seq<Direction>) -> bool {
    &&& table.len() == FULL_TURN
    &&& points_along(table[0], UNIT as int, 0)
    &&& points_along(table[9_000], 0, UNIT as int)
    &&& points_along(table[18_000], -UNIT, 0)
    &&& points_along(table[27_000], 0, -UNIT)
    &&& forall|k: int| 0 <= k < FULL_TURN ==> unit_length(#[trigger] table[k])
    &&& forall|k: int, sides: int|
        0 <= k < FULL_TURN && MIN_SIDES <= sides <= u8::MAX ==> #[trigger] spread_at(
            table,
            k,
            sides,
        )
}

/// A product scaled down by `UNIT` and rounded to the nearest whole number,
/// halves away from zero.
pub open spec fn scaled(radius: int, component: int) -> int {
    if component >= 0 {
        (radius * component + UNIT / 2) / (UNIT as int)
    } else {
        -((radius * (-component) + UNIT / 2) / (UNIT as int))
    }
}

/// The point `radius` away from `center` in direction `d`.
pub open spec fn polar_point(center: Point, radius: int, d: Direction) -> Point {
    Point {
        x: (center.x + scaled(radius, d.dx as int)) as i32,
        y: (center.y + scaled(radius, d.dy as int)) as i32,
    }
}

/// Whether every point at distance `radius` from `center` along an axis is
/// representable.
pub open spec fn in_reach(center: Point, radius: int) -> bool {
    &&& i32::MIN <= center.x - radius
    &&& center.x + radius <= i32::MAX
    &&& i32::MIN <= center.y - radius
    &&& center.y + radius <= i32::MAX
}

/// A scaled product is no longer than the radius.
pub proof fn lemma_scaled_bounded(radius: int, component: int)
    requires
        0 <= radius,
        -UNIT <= component <= UNIT,
    ensures
        -radius <= scaled(radius, component) <= radius,
{
    let c = if component >= 0 { component } else { -component };
    assert(0 <= radius * c <= radius * UNIT) by (nonlinear_arith)
        requires
            0 <= radius,
            0 <= c <= UNIT,
    ;
}

/// Components that differ by `MIN_SPREAD` scale to different offsets once
/// the radius is large enough to outweigh the rounding.
pub proof fn lemma_scaled_separates(radius: int, c1: int, c2: int)
    requires
        radius * MIN_SPREAD >= UNIT,
        c1 - c2 >= MIN_SPREAD,
    ensures
        scaled(radius, c1) > scaled(radius, c2),
{
    assert(radius > 0) by (nonlinear_arith)
        requires
            radius * MIN_SPREAD >= UNIT,
    ;
    assert(radius * c1 - radius * c2 >= UNIT) by (nonlinear_arith)
        requires
            radius * MIN_SPREAD >= UNIT,
            c1 - c2 >= MIN_SPREAD,
            radius > 0,
    ;
    assert(radius * (-c2) == -(radius * c2)) by (nonlinear_arith);
    assert(radius * (-c1) == -(radius * c1)) by (nonlinear_arith);
    if c1 >= 0 && c2 < 0 {
        assert(radius * c1 >= 0) by (nonlinear_arith)
            requires
                radius > 0,
                c1 >= 0,
        ;
        assert(radius * (-c2) >= 0) by (nonlinear_arith)
            requires
                radius > 0,
                c2 < 0,
        ;
    }
}

/// Along the axes nothing is rounded: the points at the four quarter
/// turns lie exactly `radius` from the centre, towards larger x, larger y,
/// smaller x and smaller y in turn. On a screen, whose y grows downwards,
/// three quarters of a turn point north.
pub proof fn lemma_axis_points(center: Point, radius: int, table: Seq<Direction>)
    requires
        valid_table(table),
        0 <= radius,
        in_reach(center, radius),
    ensures
        polar_point(center, radius, table[0]) == (Point {
            x: (center.x + radius) as i32,
            y: center.y,
        }),
        polar_point(center, radius, table[9_000]) == (Point {
            x: center.x,
            y: (center.y + radius) as i32,
        }),
        polar_point(center, radius, table[18_000]) == (Point {
            x: (center.x - radius) as i32,
            y: center.y,
        }),
        polar_point(center, radius, table[27_000]) == (Point {
            x: center.x,
            y: (center.y - radius) as i32,
        }),
{
    assert(scaled(radius, 0) == 0);
    assert(scaled(radius, 1_000_000) == radius);
    assert(scaled(radius, -1_000_000) == -radius);
}

/// The distance by which a point of a circle of `radius` may miss the
/// circle because of rounding: three length units, and one more for every
/// `UNIT` of radius.
pub open spec fn rounding_slack(radius: int) -> int {
    radius / (UNIT as int) + 3
}

/// Whether `p` lies on the circle of `radius` around `center`, up to
/// rounding.
pub open spec fn on_circle(p: Point, center: Point, radius: int) -> bool {
    &&& (radius - rounding_slack(radius)) * (radius - rounding_slack(radius)) <= p.dist2(center)
    &&& p.dist2(center) <= (radius + rounding_slack(radius)) * (radius + rounding_slack(radius))
}

/// Scaling rounds to the nearest whole number: `UNIT` times the scaled
/// value differs from the product by at most half of `UNIT`.
pub proof fn lemma_scaled_rounds(radius: int, component: int)
    requires
        0 <= radius,
    ensures
        -UNIT <= 2 * (UNIT * scaled(radius, component) - radius * component) <= UNIT,
{
    assert(radius * (-component) == -(radius * component)) by (nonlinear_arith);
    if component >= 0 {
        assert(radius * component >= 0) by (nonlinear_arith)
            requires
                0 <= radius,
                0 <= component,
        ;
    } else {
        assert(radius * (-component) >= 0) by (nonlinear_arith)
            requires
                0 <= radius,
                component < 0,
        ;
    }
}

/// The square of a sum, against the square of its larger part: with `w` the
/// sum of `x` and a small error `e`, four times the square of `w` is within
/// `4 * b * t + t * t` of four times the square of `x`.
proof fn lemma_rounded_square(t: int, b: int, x: int, e: int, w: int)
    requires
        0 <= t,
        0 <= b,
        -b <= x <= b,
        -t <= 2 * e <= t,
        w == x + e,
    ensures
        4 * (w * w) <= 4 * (x * x) + 4 * (b * t) + t * t,
        4 * (w * w) >= 4 * (x * x) - 4 * (b * t),
{
    let xe = x * (2 * e);
    assert(w * w == x * x + xe + e * e) by (nonlinear_arith)
        requires
            w == x + e,
            xe == x * (2 * e),
    ;
    assert(-(b * t) <= xe <= b * t) by (nonlinear_arith)
        requires
            xe == x * (2 * e),
            -b <= x <= b,
            -t <= 2 * e <= t,
            0 <= b,
            0 <= t,
    ;
    assert(0 <= 4 * (e * e) <= t * t) by (nonlinear_arith)
        requires
            -t <= 2 * e <= t,
    ;
}

/// A point at `radius` from `center` in a direction of unit length lies on
/// the circle of that radius, up to rounding.
pub proof fn lemma_polar_point_on_circle(center: Point, radius: int, d: Direction)
    requires
        unit_length(d),
        10 <= radius <= u32::MAX,
        in_reach(center, radius),
    ensures
        on_circle(polar_point(center, radius, d), center, radius),
{
    let t: int = 1_000_000;
    let ox = scaled(radius, d.dx as int);
    let oy = scaled(radius, d.dy as int);
    let x = radius * d.dx;
    let y = radius * d.dy;
    lemma_scaled_bounded(radius, d.dx as int);
    lemma_scaled_bounded(radius, d.dy as int);
    lemma_scaled_rounds(radius, d.dx as int);
    lemma_scaled_rounds(radius, d.dy as int);
    let p = polar_point(center, radius, d);
    assert(p.x - center.x == ox && p.y - center.y == oy);
    let d2 = p.dist2(center);
    let ox2 = ox * ox;
    let oy2 = oy * oy;
    assert(d2 == ox2 + oy2);
    let b = radius * t;
    assert(-b <= x <= b) by (nonlinear_arith)
        requires
            x == radius * d.dx,
            b == radius * t,
            0 <= radius,
            -t <= d.dx <= t,
    ;
    assert(-b <= y <= b) by (nonlinear_arith)
        requires
            y == radius * d.dy,
            b == radius * t,
            0 <= radius,
            -t <= d.dy <= t,
    ;
    let wx = t * ox;
    let wy = t * oy;
    lemma_rounded_square(t, b, x, wx - x, wx);
    lemma_rounded_square(t, b, y, wy - y, wy);
    let bt = b * t;
    assert(bt == 1_000_000_000_000 * radius) by (nonlinear_arith)
        requires
            bt == b * t,
            b == radius * t,
            t == 1_000_000,
    ;
    assert(wx * wx == 1_000_000_000_000 * ox2) by (nonlinear_arith)
        requires
            wx == t * ox,
            ox2 == ox * ox,
            t == 1_000_000,
    ;
    assert(wy * wy == 1_000_000_000_000 * oy2) by (nonlinear_arith)
        requires
            wy == t * oy,
            oy2 == oy * oy,
            t == 1_000_000,
    ;
    let norm = d.dx * d.dx + d.dy * d.dy;
    let r2 = radius * radius;
    let rn = r2 * norm;
    assert(x * x + y * y == rn) by (nonlinear_arith)
        requires
            x == radius * d.dx,
            y == radius * d.dy,
            r2 == radius * radius,
            norm == d.dx * d.dx + d.dy * d.dy,
            rn == r2 * norm,
    ;
    assert(0 <= r2) by (nonlinear_arith)
        requires
            r2 == radius * radius,
    ;
    assert(999_998_000_000 * r2 <= rn <= 1_000_002_000_000 * r2) by (nonlinear_arith)
        requires
            rn == r2 * norm,
            0 <= r2,
            999_998_000_000 <= norm <= 1_000_002_000_000,
    ;
    // Scaled by `t`, the squared distance misses the squared radius by at
    // most 2 * r2 + 2 * t * radius + t.
    assert(1_000_000 * (d2 - r2) <= 2 * r2 + 2_000_000 * radius + 1_000_000);
    assert(1_000_000 * (r2 - d2) <= 2 * r2 + 2_000_000 * radius + 1_000_000);
    let q = radius / t;
    let s = q + 3;
    assert(s == rounding_slack(radius));
    assert(0 <= q <= 4294);
    let rest = radius % t;
    assert(radius == q * t + rest && 0 <= rest < t);
    let rq = radius * q;
    assert(r2 <= 1_000_000 * rq + 1_000_000 * radius) by (nonlinear_arith)
        requires
            r2 == radius * radius,
            rq == radius * q,
            radius == q * t + rest,
            0 <= rest < t,
            0 <= radius,
            t == 1_000_000,
    ;
    assert(d2 - r2 <= 2 * rq + 4 * radius + 1);
    assert(r2 - d2 <= 2 * rq + 4 * radius + 1);
    let ss = s * s;
    assert((radius + s) * (radius + s) == r2 + 2 * rq + 6 * radius + ss) by (nonlinear_arith)
        requires
            r2 == radius * radius,
            rq == radius * q,
            ss == s * s,
            s == q + 3,
    ;
    assert((radius - s) * (radius - s) == r2 - 2 * rq - 6 * radius + ss) by (nonlinear_arith)
        requires
            r2 == radius * radius,
            rq == radius * q,
            ss == s * s,
            s == q + 3,
    ;
    assert(0 <= ss) by (nonlinear_arith)
        requires
            ss == s * s,
    ;
    assert(ss + 1 <= 2 * radius) by (nonlinear_arith)
        requires
            ss == s * s,
            s == q + 3,
            0 <= q <= 4294,
            radius >= q * t,
            radius >= 10,
            t == 1_000_000,
    ;
}

fn is_unit(d: Direction) -> (ok: bool)
    ensures
        ok == unit_length(d),
{
    if d.dx < -UNIT || d.dx > UNIT || d.dy < -UNIT || d.dy > UNIT {
        return false;
    }
    let x: i64 = d.dx as i64;
    let y: i64 = d.dy as i64;
    let one: i64 = UNIT as i64;
    proof {
        crate::geometry::lemma_product_bound(x as int, x as int, UNIT as int);
        crate::geometry::lemma_product_bound(y as int, y as int, UNIT as int);
    }
    let excess: i64 = x * x + y * y - one * one;
    -NORM_SLACK <= excess && excess <= NORM_SLACK
}

fn is_apart(p: Direction, q: Direction) -> (ok: bool)
    ensures
        ok == apart(p, q),
{
    let ddx: i64 = p.dx as i64 - q.dx as i64;
    let ddy: i64 = p.dy as i64 - q.dy as i64;
    let least: i64 = MIN_SPREAD as i64;
    ddx >= least || -ddx >= least || ddy >= least || -ddy >= least
}

fn all_unit(table: &Vec<Direction>) -> (ok: bool)
    ensures
        ok == (forall|k: int| 0 <= k < table.len() ==> unit_length(#[trigger] table@[k])),
{
    let mut k: usize = 0;
    while k < table.len()
        invariant
            k <= table.len(),
            forall|j: int| 0 <= j < k ==> unit_length(#[trigger] table@[j]),
        decreases table.len() - k,
    {
        if !is_unit(table[k]) {
            return false;
        }
        k += 1;
    }
    true
}

fn all_spread(table: &Vec<Direction>) -> (ok: bool)
    requires
        table.len() == FULL_TURN,
    ensures
        ok == (forall|k: int, sides: int|
            0 <= k < FULL_TURN && MIN_SIDES <= sides <= u8::MAX ==> #[trigger] spread_at(
                table@,
                k,
                sides,
            )),
{
    let full: usize = FULL_TURN as usize;
    let mut sides: usize = MIN_SIDES as usize;
    while sides <= u8::MAX as usize
        invariant
            table.len() == FULL_TURN,
            full == FULL_TURN,
            MIN_SIDES <= sides <= u8::MAX + 1,
            forall|k: int, s: int|
                0 <= k < FULL_TURN && MIN_SIDES <= s < sides ==> #[trigger] spread_at(
                    table@,
                    k,
                    s,
                ),
        decreases u8::MAX + 1 - sides,
    {
        let narrow: usize = full / sides;
        let wide: usize = (full + sides - 1) / sides;
        assert(narrow == narrow_step(sides as int));
        assert(wide == wide_step(sides as int));
        assert(narrow <= FULL_TURN && wide <= FULL_TURN) by (nonlinear_arith)
            requires
                narrow == FULL_TURN as int / sides as int,
                wide == (FULL_TURN + sides - 1) / sides as int,
                3 <= sides,
        ;
        let mut k: usize = 0;
        while k < full
            invariant
                table.len() == FULL_TURN,
                full == FULL_TURN,
                MIN_SIDES <= sides <= u8::MAX,
                k <= full,
                narrow == narrow_step(sides as int),
                wide == wide_step(sides as int),
                narrow <= FULL_TURN,
                wide <= FULL_TURN,
                forall|j: int| 0 <= j < k ==> #[trigger] spread_at(table@, j, sides as int),
            decreases full - k,
        {
            let here = table[k];
            let near_corner = table[(k + narrow) % full];
            let far_corner = table[(k + wide) % full];
            if !is_apart(here, near_corner) || !is_apart(here, far_corner) {
                assert(!spread_at(table@, k as int, sides as int));
                return false;
            }
            k += 1;
        }
        sides += 1;
    }
    true
}

/// A table of unit vectors, one for each angle step of a full turn.
pub struct Compass {
    table: Vec<Direction>,
}

impl View for Compass {
    type V = Seq<Direction>;

    closed spec fn view(&self) -> Seq<Direction> {
        self.table@
    }
}

impl Compass {
    /// Every compass holds a valid table.
    #[verifier::type_invariant]
    pub open spec fn wf(&self) -> bool {
        valid_table(self@)
    }

    /// Admits `table` if it is a valid table of unit vectors.
    pub fn new(table: Vec<Direction>) -> (compass: Option<Compass>)
        ensures
            compass is Some <==> valid_table(table@),
            compass matches Some(c) ==> c@ == table@,
    {
        if table.len() != FULL_TURN as usize {
            return None;
        }
        let east = Direction { dx: UNIT, dy: 0 };
        let south = Direction { dx: 0, dy: UNIT };
        let west = Direction { dx: -UNIT, dy: 0 };
        let north = Direction { dx: 0, dy: -UNIT };
        if !(table[0] == east && table[9_000] == south && table[18_000] == west && table[27_000]
            == north) {
            return None;
        }
        if !all_unit(&table) {
            return None;
        }
        if !all_spread(&table) {
            return None;
        }
        Some(Compass { table })
    }

    /// The unit vector at `angle`. Angles beyond a full turn wrap around.
    pub fn direction(&self, angle: u32) -> (d: Direction)
        ensures
            d == self@[angle as int % FULL_TURN as int],
            unit_length(d),
    {
        proof {
            use_type_invariant(self);
        }
        self.table[(angle % FULL_TURN) as usize]
    }
}

/// The point at distance `radius` from `center`, at `angle` steps from the
/// positive x axis.
pub fn polar2euclidean(compass: &Compass, center: Point, radius: u32, angle: u32) -> (p: Point)
    requires
        in_reach(center, radius as int),
    ensures
        p == polar_point(center, radius as int, compass@[angle as int % FULL_TURN as int]),
{
    let d = compass.direction(angle);
    let ox = scale(radius, d.dx);
    let oy = scale(radius, d.dy);
    Point { x: (center.x as i64 + ox) as i32, y: (center.y as i64 + oy) as i32 }
}

/// Computes [`scaled`].
fn scale(radius: u32, component: i32) -> (offset: i64)
    requires
        -UNIT <= component <= UNIT,
    ensures
        offset == scaled(radius as int, component as int),
        -radius <= offset <= radius,
{
    proof {
        lemma_scaled_bounded(radius as int, component as int);
    }
    let r: i64 = radius as i64;
    let one: i64 = UNIT as i64;
    if component >= 0 {
        let c: i64 = component as i64;
        assert(0 <= r * c <= 0x1_0000_0000 * 1_000_000) by (nonlinear_arith)
            requires
                0 <= r < 0x1_0000_0000,
                0 <= c <= 1_000_000,
        ;
        (r * c + one / 2) / one
    } else {
        let c: i64 = -(component as i64);
        assert(0 <= r * c <= 0x1_0000_0000 * 1_000_000) by (nonlinear_arith)
            requires
                0 <= r < 0x1_0000_0000,
                0 <= c <= 1_000_000,
        ;
        -((r * c + one / 2) / one)
    }
}

} // verus!
