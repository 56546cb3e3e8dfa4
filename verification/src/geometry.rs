//! Points, line segments and the proximity test.

use vstd::prelude::*;

verus! {

/// A position on the playing field.
#[derive(Clone, Copy, Debug, PartialEq, Eq, Structural)]
pub struct Point {
    pub x: i32,
    pub y: i32,
}

impl Point {
    /// The point with the given coordinates.
    pub fn new(x: i32, y: i32) -> (p: Point)
        ensures
            p.x == x,
            p.y == y,
    {
        Point { x, y }
    }

    /// Squared distance between two points.
    pub open spec fn dist2(self, other: Point) -> int {
        (self.x - other.x) * (self.x - other.x) + (self.y - other.y) * (self.y - other.y)
    }

    /// Whether `other` lies at most `reach` away.
    pub fn within(&self, other: Point, reach: u32) -> (close: bool)
        ensures
            close == (self.dist2(other) <= reach * reach),
    {
        let dx: i128 = self.x as i128 - other.x as i128;
        let dy: i128 = self.y as i128 - other.y as i128;
        let r: i128 = reach as i128;
        proof {
            lemma_product_bound(dx as int, dx as int, 0x1_0000_0000);
            lemma_product_bound(dy as int, dy as int, 0x1_0000_0000);
            lemma_product_bound(r as int, r as int, 0x1_0000_0000);
        }
        dx * dx + dy * dy <= r * r
    }
}

/// A product of two factors of magnitude at most `bound` has magnitude at
/// most `bound * bound`.
pub proof fn lemma_product_bound(x: int, y: int, bound: int)
    by (nonlinear_arith)
    requires
        -bound <= x <= bound,
        -bound <= y <= bound,
    ensures
        -(bound * bound) <= x * y <= bound * bound,
{
}

/// Cross product of `p - a` with `b - a`: zero exactly when `p` lies on the
/// infinite line through `a` and `b`, and growing with the distance from it.
pub open spec fn cross(a: Point, b: Point, p: Point) -> int {
    (p.y - a.y) * (b.x - a.x) - (p.x - a.x) * (b.y - a.y)
}

/// Dot product of `p - a` with `b - a`: how far along the segment from `a`
/// to `b` the projection of `p` falls, scaled by the segment's length.
pub open spec fn dot(a: Point, b: Point, p: Point) -> int {
    (p.x - a.x) * (b.x - a.x) + (p.y - a.y) * (b.y - a.y)
}

/// The proximity relation: `p` is within `tolerance` of the infinite line
/// through `a` and `b`, and its projection falls on the segment between
/// them, endpoints included. The cross product scales with the segment's
/// length, so the tolerance is an area, not a distance.
pub open spec fn near_segment(a: Point, b: Point, p: Point, tolerance: int) -> bool {
    &&& -tolerance <= cross(a, b, p) <= tolerance
    &&& 0 <= dot(a, b, p) <= b.dist2(a)
}

/// A larger tolerance never turns a near point into one that is not near.
pub proof fn lemma_near_grows_with_tolerance(
    a: Point,
    b: Point,
    p: Point,
    smaller: int,
    larger: int,
)
    requires
        smaller <= larger,
        near_segment(a, b, p, smaller),
    ensures
        near_segment(a, b, p, larger),
{
}

/// A point on the segment is near it with tolerance zero. The point is
/// given as the fraction `m / n` of the way from `a` to `b`; the midpoint is
/// the fraction one half.
pub proof fn lemma_point_on_segment_is_near(a: Point, b: Point, p: Point, m: int, n: int)
    requires
        0 <= m <= n,
        0 < n,
        n * (p.x - a.x) == m * (b.x - a.x),
        n * (p.y - a.y) == m * (b.y - a.y),
    ensures
        near_segment(a, b, p, 0),
{
    let abx = b.x - a.x;
    let aby = b.y - a.y;
    let apx = p.x - a.x;
    let apy = p.y - a.y;
    assert(n * (apy * abx - apx * aby) == 0) by (nonlinear_arith)
        requires
            n * apx == m * abx,
            n * apy == m * aby,
    ;
    assert(apy * abx - apx * aby == 0) by (nonlinear_arith)
        requires
            n * (apy * abx - apx * aby) == 0,
            0 < n,
    ;
    assert(n * (apx * abx + apy * aby) == m * (abx * abx + aby * aby)) by (nonlinear_arith)
        requires
            n * apx == m * abx,
            n * apy == m * aby,
    ;
    let len2 = abx * abx + aby * aby;
    let d = apx * abx + apy * aby;
    assert(0 <= len2) by (nonlinear_arith)
        requires
            len2 == abx * abx + aby * aby,
    ;
    assert(0 <= d <= len2) by (nonlinear_arith)
        requires
            n * d == m * len2,
            0 <= m <= n,
            0 < n,
            0 <= len2,
    ;
}

/// A point farther than `tolerance` from the infinite line through a
/// segment is not near the segment, wherever its projection falls. The
/// distance from the line is the cross product divided by the segment's
/// length.
pub proof fn lemma_far_from_line_is_not_near(a: Point, b: Point, p: Point, tolerance: int)
    requires
        a != b,
        0 <= tolerance,
        cross(a, b, p) * cross(a, b, p) > tolerance * tolerance * b.dist2(a),
    ensures
        !near_segment(a, b, p, tolerance),
{
    let c = cross(a, b, p);
    let abx = b.x - a.x;
    let aby = b.y - a.y;
    assert(abx * abx + aby * aby >= 1) by (nonlinear_arith)
        requires
            abx != 0 || aby != 0,
    ;
    assert(c * c > tolerance * tolerance) by (nonlinear_arith)
        requires
            c * c > tolerance * tolerance * (abx * abx + aby * aby),
            abx * abx + aby * aby >= 1,
    ;
    assert(c > tolerance || c < -tolerance) by (nonlinear_arith)
        requires
            c * c > tolerance * tolerance,
            0 <= tolerance,
    ;
}

/// A point whose projection falls before the first endpoint or beyond the
/// second is not near the segment, even when it lies on the line.
pub proof fn lemma_beyond_ends_is_not_near(a: Point, b: Point, p: Point, tolerance: int)
    requires
        0 <= tolerance,
        dot(a, b, p) < 0 || dot(a, b, p) > b.dist2(a),
    ensures
        !near_segment(a, b, p, tolerance),
{
}

/// With `u` the vector along a segment and `w` the vector from its first
/// endpoint to a near point, the first coordinate of `w` is within
/// `tolerance` of the span from zero to the first coordinate of `u`.
proof fn lemma_projection_bound(ux: int, uy: int, wx: int, wy: int, tolerance: int)
    requires
        ux != 0 || uy != 0,
        -tolerance <= wy * ux - wx * uy <= tolerance,
        0 <= wx * ux + wy * uy <= ux * ux + uy * uy,
    ensures
        ux >= 0 ==> -tolerance <= wx <= ux + tolerance,
        ux <= 0 ==> ux - tolerance <= wx <= tolerance,
{
    let cross = wy * ux - wx * uy;
    let dot = wx * ux + wy * uy;
    let len2 = ux * ux + uy * uy;
    assert(len2 >= 1 && -len2 <= uy <= len2) by (nonlinear_arith)
        requires
            len2 == ux * ux + uy * uy,
            ux != 0 || uy != 0,
    ;
    let along = dot * ux;
    let across = cross * uy;
    assert(wx * len2 == along - across) by (nonlinear_arith)
        requires
            cross == wy * ux - wx * uy,
            dot == wx * ux + wy * uy,
            len2 == ux * ux + uy * uy,
            along == dot * ux,
            across == cross * uy,
    ;
    let slack = tolerance * len2;
    assert(-slack <= across <= slack) by (nonlinear_arith)
        requires
            across == cross * uy,
            slack == tolerance * len2,
            -tolerance <= cross <= tolerance,
            -len2 <= uy <= len2,
    ;
    let span = len2 * ux;
    if ux >= 0 {
        assert(0 <= along <= span) by (nonlinear_arith)
            requires
                along == dot * ux,
                span == len2 * ux,
                0 <= dot <= len2,
                0 <= ux,
        ;
        assert(-tolerance <= wx <= ux + tolerance) by (nonlinear_arith)
            requires
                -slack <= wx * len2 <= span + slack,
                slack == tolerance * len2,
                span == len2 * ux,
                len2 >= 1,
        ;
    }
    if ux <= 0 {
        assert(span <= along <= 0) by (nonlinear_arith)
            requires
                along == dot * ux,
                span == len2 * ux,
                0 <= dot <= len2,
                ux <= 0,
        ;
        assert(ux - tolerance <= wx <= tolerance) by (nonlinear_arith)
            requires
                span - slack <= wx * len2 <= slack,
                slack == tolerance * len2,
                span == len2 * ux,
                len2 >= 1,
        ;
    }
}

/// A point near a segment lies within `tolerance` of the box that holds the
/// segment: in each coordinate it is no farther than `tolerance` beyond the
/// two endpoints.
pub proof fn lemma_near_point_is_by_the_segment(a: Point, b: Point, p: Point, tolerance: int)
    requires
        a != b,
        near_segment(a, b, p, tolerance),
    ensures
        p.x <= a.x + tolerance || p.x <= b.x + tolerance,
        p.x >= a.x - tolerance || p.x >= b.x - tolerance,
        p.y <= a.y + tolerance || p.y <= b.y + tolerance,
        p.y >= a.y - tolerance || p.y >= b.y - tolerance,
{
    let ux = b.x - a.x;
    let uy = b.y - a.y;
    let wx = p.x - a.x;
    let wy = p.y - a.y;
    lemma_projection_bound(ux, uy, wx, wy, tolerance);
    assert(wx * uy - wy * ux == -(wy * ux - wx * uy));
    assert(wy * uy + wx * ux == wx * ux + wy * uy);
    assert(uy * uy + ux * ux == ux * ux + uy * uy);
    lemma_projection_bound(uy, ux, wy, wx, tolerance);
}

/// A line segment between two distinct points: one edge of a polygon.
#[derive(Clone, Copy, Debug)]
pub struct Line {
    a: Point,
    b: Point,
}

impl Line {
    /// The endpoints of every segment differ.
    #[verifier::type_invariant]
    pub open spec fn wf(&self) -> bool {
        self.a() != self.b()
    }

    /// What [`Self::a`] returns, for use in contracts.
    pub closed spec fn spec_a(&self) -> Point {
        self.a
    }

    /// What [`Self::b`] returns, for use in contracts.
    pub closed spec fn spec_b(&self) -> Point {
        self.b
    }

    /// The segment from `a` to `b`.
    pub fn new(a: Point, b: Point) -> (line: Line)
        requires
            a != b,
        ensures
            line.a() == a,
            line.b() == b,
    {
        Line { a, b }
    }

    /// The segment from `a` to `b`, or nothing when the two coincide.
    pub fn try_new(a: Point, b: Point) -> (line: Option<Line>)
        ensures
            line is Some <==> a != b,
            line matches Some(l) ==> l.a() == a && l.b() == b,
    {
        if a == b {
            None
        } else {
            Some(Line { a, b })
        }
    }

    /// First endpoint.
    #[verifier::when_used_as_spec(spec_a)]
    pub fn a(&self) -> (p: Point)
        ensures
            p == self.a(),
    {
        self.a
    }

    /// Second endpoint.
    #[verifier::when_used_as_spec(spec_b)]
    pub fn b(&self) -> (p: Point)
        ensures
            p == self.b(),
    {
        self.b
    }

    /// The proximity relation of this segment: see [`near_segment`].
    pub open spec fn is_near(self, p: Point, tolerance: int) -> bool {
        near_segment(self.a(), self.b(), p, tolerance)
    }

    /// The segment from `a` to `b` as a mathematical value.
    pub closed spec fn spanning(a: Point, b: Point) -> Line {
        Line { a, b }
    }

    /// A segment is determined by its endpoints.
    pub proof fn lemma_spanning(a: Point, b: Point)
        ensures
            Line::spanning(a, b).a() == a,
            Line::spanning(a, b).b() == b,
    {
    }

    /// A segment is the one that spans its endpoints.
    pub proof fn lemma_spans_its_ends(self)
        ensures
            self == Line::spanning(self.a(), self.b()),
    {
    }

    /// Decides the proximity relation.
    pub fn near(&self, point: Point, tolerance: u64) -> (hit: bool)
        ensures
            hit == self.is_near(point, tolerance as int),
    {
        let abx: i128 = self.b.x as i128 - self.a.x as i128;
        let aby: i128 = self.b.y as i128 - self.a.y as i128;
        let apx: i128 = point.x as i128 - self.a.x as i128;
        let apy: i128 = point.y as i128 - self.a.y as i128;
        let tol: i128 = tolerance as i128;
        proof {
            lemma_product_bound(apy as int, abx as int, 0x1_0000_0000);
            lemma_product_bound(apx as int, aby as int, 0x1_0000_0000);
            lemma_product_bound(apx as int, abx as int, 0x1_0000_0000);
            lemma_product_bound(apy as int, aby as int, 0x1_0000_0000);
            lemma_product_bound(abx as int, abx as int, 0x1_0000_0000);
            lemma_product_bound(aby as int, aby as int, 0x1_0000_0000);
        }
        let cross_product: i128 = apy * abx - apx * aby;
        if cross_product > tol || cross_product < -tol {
            return false;
        }
        let dot_product: i128 = apx * abx + apy * aby;
        if dot_product < 0 {
            return false;
        }
        let squared_length: i128 = abx * abx + aby * aby;
        if dot_product > squared_length {
            return false;
        }
        true
    }
}

/// The closed polygon through `corners`: side `i` runs from corner `i` to the
/// next corner, and the last side returns to the first corner.
pub open spec fn ring(corners: Seq<Point>) -> Seq<Line> {
    Seq::new(
        corners.len(),
        |i: int| Line::spanning(corners[i], corners[(i + 1) % (corners.len() as int)]),
    )
}

/// A ring has one side for each corner and is a closed cycle: every side
/// ends where the next one begins, and the last side ends where the first
/// one begins.
pub proof fn lemma_ring_is_closed_cycle(corners: Seq<Point>)
    requires
        corners.len() > 0,
    ensures
        ring(corners).len() == corners.len(),
        forall|i: int|
            0 <= i < corners.len() ==> (#[trigger] ring(corners)[i]).b() == ring(corners)[(i + 1)
                % (corners.len() as int)].a(),
        forall|i: int|
            0 <= i < corners.len() - 1 ==> (#[trigger] ring(corners)[i]).b() == ring(corners)[i
                + 1].a(),
        ring(corners)[corners.len() - 1].b() == ring(corners)[0].a(),
{
    let n = corners.len() as int;
    assert forall|i: int| 0 <= i < n implies (#[trigger] ring(corners)[i]).b() == ring(
        corners,
    )[(i + 1) % n].a() by {
        let next = (i + 1) % n;
        vstd::arithmetic::div_mod::lemma_mod_bound(i + 1, n);
        Line::lemma_spanning(corners[i], corners[next]);
        Line::lemma_spanning(corners[next], corners[(next + 1) % n]);
    }
    assert forall|i: int| 0 <= i < n - 1 implies (#[trigger] ring(corners)[i]).b() == ring(
        corners,
    )[i + 1].a() by {
        vstd::arithmetic::div_mod::lemma_small_mod((i + 1) as nat, n as nat);
    }
    vstd::arithmetic::div_mod::lemma_mod_self_0(n);
}

/// Whether `p` is near at least one of `edges`.
pub open spec fn touches(edges: Seq<Line>, p: Point, tolerance: int) -> bool {
    exists|i: int| 0 <= i < edges.len() && (#[trigger] edges[i]).is_near(p, tolerance)
}

/// Decides whether `point` is near at least one of `edges`.
pub fn near_any(edges: &Vec<Line>, point: Point, tolerance: u64) -> (hit: bool)
    ensures
        hit == touches(edges@, point, tolerance as int),
{
    let mut i: usize = 0;
    while i < edges.len()
        invariant
            i <= edges.len(),
            forall|j: int| 0 <= j < i ==> !(#[trigger] edges@[j]).is_near(point, tolerance as int),
        decreases edges.len() - i,
    {
        if edges[i].near(point, tolerance) {
            return true;
        }
        i += 1;
    }
    false
}

} // verus!
