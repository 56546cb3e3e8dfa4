//! The radar: an expanding circular scan that records where it first meets
//! an asteroid edge.
//!
//! A sweep advances one frame at a time. In each frame the scan circle is
//! sampled once per angle step; a sample that lies on an edge is recorded as
//! a contact point, and its angle is excluded from all later frames, so each
//! ray reports only its first contact.

use std::collections::HashMap;
use vstd::prelude::*;
use crate::compass::{
    in_reach,
    lemma_axis_points,
    polar2euclidean,
    polar_point,
    valid_table,
    Compass,
    Direction,
};
use crate::geometry::{near_any, touches, Line, Point};
use crate::units::{
    ANGLE_PRECISION,
    ARC_GROWTH_RATE,
    CLOSENESS_TOLERANCE,
    FULL_TURN,
    SCAN_SPEED,
    SHIP_SIZE,
};

verus! {

broadcast use vstd::std_specs::hash::group_hash_axioms;

/// The samples of the scan circle at the angles below `upto` that are not
/// excluded, in ascending order of angle, each with its angle.
pub open spec fn fresh_samples(
    table: Seq<Direction>,
    center: Point,
    radius: int,
    excluded: Map<u32, u32>,
    upto: nat,
) -> Seq<(Point, u32)>
    decreases upto,
{
    if upto == 0 {
        Seq::empty()
    } else {
        let angle = (upto - 1) as u32;
        let before = fresh_samples(table, center, radius, excluded, (upto - 1) as nat);
        if excluded.contains_key(angle) {
            before
        } else {
            before.push((polar_point(center, radius, table[angle as int % FULL_TURN as int]), angle))
        }
    }
}

/// The exclusion map after the samples in `pixels` have been tested: the
/// angle of every sample that touches an edge is entered with `radius`.
pub open spec fn burn(
    excluded: Map<u32, u32>,
    pixels: Seq<(Point, u32)>,
    edges: Seq<Line>,
    radius: u32,
) -> Map<u32, u32>
    decreases pixels.len(),
{
    if pixels.len() == 0 {
        excluded
    } else {
        let before = burn(excluded, pixels.drop_last(), edges, radius);
        if touches(edges, pixels.last().0, CLOSENESS_TOLERANCE as int) {
            before.insert(pixels.last().1, radius)
        } else {
            before
        }
    }
}

/// The samples in `pixels` that touch an edge, in order.
pub open spec fn contacts(pixels: Seq<(Point, u32)>, edges: Seq<Line>) -> Seq<Point>
    decreases pixels.len(),
{
    if pixels.len() == 0 {
        Seq::empty()
    } else {
        let before = contacts(pixels.drop_last(), edges);
        if touches(edges, pixels.last().0, CLOSENESS_TOLERANCE as int) {
            before.push(pixels.last().0)
        } else {
            before
        }
    }
}

/// The samples of the scan circle of `radius` around `center`, one for each
/// angle step from zero to a full turn that `excluded_angles` does not hold.
pub fn pixels_in_circle(
    compass: &Compass,
    center: Point,
    radius: u32,
    excluded_angles: &HashMap<u32, u32>,
) -> (pixels: Vec<(Point, u32)>)
    requires
        in_reach(center, radius as int),
    ensures
        pixels@ == fresh_samples(
            compass@,
            center,
            radius as int,
            excluded_angles@,
            (FULL_TURN + 1) as nat,
        ),
{
    let mut pixels: Vec<(Point, u32)> = Vec::new();
    let mut angle: u32 = 0;
    while angle <= FULL_TURN
        invariant
            angle <= FULL_TURN + 1,
            in_reach(center, radius as int),
            pixels@ == fresh_samples(
                compass@,
                center,
                radius as int,
                excluded_angles@,
                angle as nat,
            ),
        decreases FULL_TURN + 1 - angle,
    {
        if !excluded_angles.contains_key(&angle) {
            pixels.push((polar2euclidean(compass, center, radius, angle), angle));
        }
        angle += 1;
    }
    pixels
}

/// Every fresh sample carries an angle below `upto` that is not excluded, and
/// the angles ascend.
pub proof fn lemma_fresh_samples_angles(
    table: Seq<Direction>,
    center: Point,
    radius: int,
    excluded: Map<u32, u32>,
    upto: nat,
)
    requires
        upto <= FULL_TURN + 1,
    ensures
        forall|k: int|
            0 <= k < fresh_samples(table, center, radius, excluded, upto).len() ==> {
                let px = #[trigger] fresh_samples(table, center, radius, excluded, upto)[k];
                &&& px.1 < upto
                &&& !excluded.contains_key(px.1)
                &&& px.0 == polar_point(center, radius, table[px.1 as int % FULL_TURN as int])
            },
        forall|j: int, k: int|
            0 <= j < k < fresh_samples(table, center, radius, excluded, upto).len() ==> (
            #[trigger] fresh_samples(table, center, radius, excluded, upto)[j]).1 < (
            #[trigger] fresh_samples(table, center, radius, excluded, upto)[k]).1,
    decreases upto,
{
    if upto > 0 {
        lemma_fresh_samples_angles(table, center, radius, excluded, (upto - 1) as nat);
        let before = fresh_samples(table, center, radius, excluded, (upto - 1) as nat);
        let all = fresh_samples(table, center, radius, excluded, upto);
        assert forall|k: int| 0 <= k < all.len() implies {
            let px = #[trigger] all[k];
            &&& px.1 < upto
            &&& !excluded.contains_key(px.1)
            &&& px.0 == polar_point(center, radius, table[px.1 as int % FULL_TURN as int])
        } by {
            if k < before.len() {
                assert(all[k] == before[k]);
            }
        }
        assert forall|j: int, k: int| 0 <= j < k < all.len() implies (#[trigger] all[j]).1 < (
        #[trigger] all[k]).1 by {
            assert(all[j] == before[j]);
            if k < before.len() {
                assert(all[k] == before[k]);
            }
        }
    }
}

/// Every angle below `upto` that is not excluded has its sample among the
/// fresh samples.
pub proof fn lemma_fresh_samples_complete(
    table: Seq<Direction>,
    center: Point,
    radius: int,
    excluded: Map<u32, u32>,
    upto: nat,
    angle: u32,
)
    requires
        angle < upto <= FULL_TURN + 1,
        !excluded.contains_key(angle),
    ensures
        exists|k: int|
            0 <= k < fresh_samples(table, center, radius, excluded, upto).len() && #[trigger] fresh_samples(
                table,
                center,
                radius,
                excluded,
                upto,
            )[k] == (polar_point(center, radius, table[angle as int % FULL_TURN as int]), angle),
    decreases upto,
{
    let all = fresh_samples(table, center, radius, excluded, upto);
    let before = fresh_samples(table, center, radius, excluded, (upto - 1) as nat);
    if angle == upto - 1 {
        assert(all[all.len() - 1] == (
            polar_point(center, radius, table[angle as int % FULL_TURN as int]),
            angle,
        ));
    } else {
        lemma_fresh_samples_complete(table, center, radius, excluded, (upto - 1) as nat, angle);
        let k = choose|k: int|
            0 <= k < before.len() && #[trigger] before[k] == (
                polar_point(center, radius, table[angle as int % FULL_TURN as int]),
                angle,
            );
        assert(all[k] == before[k]);
    }
}

/// Testing fresh samples never touches an entry that was already there, and
/// enters exactly the angles of the samples that touch an edge, one entry
/// for each contact.
pub proof fn lemma_burn_fresh(
    excluded: Map<u32, u32>,
    pixels: Seq<(Point, u32)>,
    edges: Seq<Line>,
    radius: u32,
)
    requires
        excluded.dom().finite(),
        forall|k: int| 0 <= k < pixels.len() ==> !excluded.contains_key((#[trigger] pixels[k]).1),
        forall|j: int, k: int|
            0 <= j < k < pixels.len() ==> (#[trigger] pixels[j]).1 < (#[trigger] pixels[k]).1,
    ensures
        burn(excluded, pixels, edges, radius).dom().finite(),
        burn(excluded, pixels, edges, radius).dom().len() == excluded.dom().len() + contacts(
            pixels,
            edges,
        ).len(),
        forall|a: u32| #[trigger]
            excluded.dom().contains(a) ==> burn(excluded, pixels, edges, radius).contains_key(a)
                && burn(excluded, pixels, edges, radius)[a] == excluded[a],
        forall|a: u32| #[trigger]
            burn(excluded, pixels, edges, radius).dom().contains(a) && !excluded.contains_key(a)
                ==> burn(excluded, pixels, edges, radius)[a] == radius && exists|k: int|
                0 <= k < pixels.len() && (#[trigger] pixels[k]).1 == a && touches(
                    edges,
                    pixels[k].0,
                    CLOSENESS_TOLERANCE as int,
                ),
        forall|k: int|
            0 <= k < pixels.len() && touches(
                edges,
                (#[trigger] pixels[k]).0,
                CLOSENESS_TOLERANCE as int,
            ) ==> burn(excluded, pixels, edges, radius).contains_key(pixels[k].1),
    decreases pixels.len(),
{
    if pixels.len() > 0 {
        let shorter = pixels.drop_last();
        let last = pixels.last();
        assert forall|k: int| 0 <= k < shorter.len() implies !excluded.contains_key(
            (#[trigger] shorter[k]).1,
        ) by {
            assert(shorter[k] == pixels[k]);
        }
        assert forall|j: int, k: int| 0 <= j < k < shorter.len() implies (#[trigger] shorter[j]).1
            < (#[trigger] shorter[k]).1 by {
            assert(shorter[j] == pixels[j]);
            assert(shorter[k] == pixels[k]);
        }
        lemma_burn_fresh(excluded, shorter, edges, radius);
        let before = burn(excluded, shorter, edges, radius);
        let after = burn(excluded, pixels, edges, radius);
        assert(!before.contains_key(last.1)) by {
            if before.contains_key(last.1) {
                assert(before.dom().contains(last.1));
                let k = choose|k: int|
                    0 <= k < shorter.len() && (#[trigger] shorter[k]).1 == last.1 && touches(
                        edges,
                        shorter[k].0,
                        CLOSENESS_TOLERANCE as int,
                    );
                assert(shorter[k] == pixels[k]);
                assert(pixels[k].1 < pixels[pixels.len() - 1].1);
            }
        }
        assert forall|a: u32| #[trigger]
            after.dom().contains(a) && !excluded.contains_key(a) implies after[a] == radius
            && exists|k: int|
            0 <= k < pixels.len() && (#[trigger] pixels[k]).1 == a && touches(
                edges,
                pixels[k].0,
                CLOSENESS_TOLERANCE as int,
            ) by {
            if a == last.1 && touches(edges, last.0, CLOSENESS_TOLERANCE as int) {
                assert(pixels[pixels.len() - 1].1 == a);
            } else {
                assert(before.dom().contains(a));
                let k = choose|k: int|
                    0 <= k < shorter.len() && (#[trigger] shorter[k]).1 == a && touches(
                        edges,
                        shorter[k].0,
                        CLOSENESS_TOLERANCE as int,
                    );
                assert(shorter[k] == pixels[k]);
            }
        }
        assert forall|k: int|
            0 <= k < pixels.len() && touches(
                edges,
                (#[trigger] pixels[k]).0,
                CLOSENESS_TOLERANCE as int,
            ) implies after.contains_key(pixels[k].1) by {
            if k < shorter.len() {
                assert(shorter[k] == pixels[k]);
            }
        }
    }
}

/// A sector of the scan circle that is blacked out because its ray is
/// blocked.
#[derive(Clone, Copy, Debug, PartialEq, Eq, Structural)]
pub struct Gap {
    /// The angle of the blocked ray, where the sector begins.
    pub angle: u32,
    /// The radius at which the ray was blocked.
    pub blocked_at: u32,
    /// The width of the sector, in angle steps.
    pub width: u32,
}

/// The width, in angle steps, of the gap behind a ray blocked at
/// `blocked_at` when the scan circle has grown to `radius`: as many degrees
/// as the circle is larger than it was at the contact.
pub open spec fn gap_width(radius: int, blocked_at: int) -> int {
    (ARC_GROWTH_RATE * ANGLE_PRECISION * radius) / blocked_at
}

/// A gap never narrows while the scan circle grows.
pub proof fn lemma_gap_widens(smaller: int, larger: int, blocked_at: int)
    requires
        0 <= smaller <= larger,
        0 < blocked_at,
    ensures
        gap_width(smaller, blocked_at) <= gap_width(larger, blocked_at),
{
    vstd::arithmetic::div_mod::lemma_div_is_ordered(
        ARC_GROWTH_RATE * ANGLE_PRECISION * smaller,
        ARC_GROWTH_RATE * ANGLE_PRECISION * larger,
        blocked_at,
    );
}

/// Computes [`gap_width`].
fn arc_width(radius: u32, blocked_at: u32) -> (width: u32)
    requires
        ARC_GROWTH_RATE * ANGLE_PRECISION <= blocked_at,
    ensures
        width == gap_width(radius as int, blocked_at as int),
{
    let grown: u64 = (ARC_GROWTH_RATE as u64) * (ANGLE_PRECISION as u64) * (radius as u64);
    let width: u64 = grown / (blocked_at as u64);
    assert(width <= radius) by (nonlinear_arith)
        requires
            width == (100 * radius) / (blocked_at as int),
            100 <= blocked_at,
            0 <= radius,
    ;
    width as u32
}

/// How a sweep stands after a frame.
#[derive(Clone, Copy, Debug, PartialEq, Eq, Structural)]
pub enum SweepStatus {
    /// The sweep is under way.
    Continue,
    /// A movement key ended the sweep early.
    Interrupted,
    /// The scan radius reached its bound.
    Complete,
}

/// The state of a sweep as a mathematical value.
pub struct SweepState {
    /// Centre of the scan circle.
    pub center: Point,
    /// Radius of the next frame's scan circle.
    pub radius: nat,
    /// The sweep is complete once the radius reaches this bound.
    pub limit: nat,
    pub status: SweepStatus,
    /// For each angle that has met an edge, the radius at which it did.
    pub excluded: Map<u32, u32>,
    /// The contact points found so far, in order of discovery.
    pub drawn: Seq<Point>,
}

impl SweepState {
    /// The invariant of a sweep: every sample it will take is representable,
    /// every excluded angle is a sampled angle that was entered in an
    /// earlier frame, and there is one contact point for each excluded
    /// angle.
    pub open spec fn wf(self) -> bool {
        &&& in_reach(self.center, self.limit as int)
        &&& SHIP_SIZE <= self.radius
        &&& self.radius == SHIP_SIZE || self.radius < self.limit + SCAN_SPEED
        &&& self.excluded.dom().finite()
        &&& self.excluded.dom().len() == self.drawn.len()
        &&& forall|a: u32| #[trigger]
            self.excluded.dom().contains(a) ==> a <= FULL_TURN && SHIP_SIZE <= self.excluded[a]
                < self.radius
    }

    /// A sweep before its first frame.
    pub open spec fn start(center: Point, limit: nat) -> SweepState {
        SweepState {
            center,
            radius: SHIP_SIZE as nat,
            limit,
            status: SweepStatus::Continue,
            excluded: Map::empty(),
            drawn: Seq::empty(),
        }
    }

    /// The samples the next frame tests.
    pub open spec fn samples(self, table: Seq<Direction>) -> Seq<(Point, u32)> {
        fresh_samples(table, self.center, self.radius as int, self.excluded, (FULL_TURN + 1) as nat)
    }

    /// The state after one frame of scanning.
    pub open spec fn scanned(self, edges: Seq<Line>, table: Seq<Direction>) -> SweepState {
        SweepState {
            radius: self.radius + SCAN_SPEED as nat,
            excluded: burn(self.excluded, self.samples(table), edges, self.radius as u32),
            drawn: self.drawn + contacts(self.samples(table), edges),
            ..self
        }
    }

    /// The state after one call of [`Sweep::step`]: a finished sweep stays as
    /// it is; a sweep whose radius has reached the bound is complete; a
    /// movement key interrupts it; otherwise one frame is scanned.
    pub open spec fn next(
        self,
        edges: Seq<Line>,
        table: Seq<Direction>,
        interrupted: bool,
    ) -> SweepState {
        if self.status != SweepStatus::Continue {
            self
        } else if self.radius >= self.limit {
            SweepState { status: SweepStatus::Complete, ..self }
        } else if interrupted {
            SweepState { status: SweepStatus::Interrupted, ..self }
        } else {
            self.scanned(edges, table)
        }
    }

    /// The state after one call of [`Sweep::step`] for each entry of
    /// `interrupts`, in order.
    pub open spec fn replay(
        self,
        edges: Seq<Line>,
        table: Seq<Direction>,
        interrupts: Seq<bool>,
    ) -> SweepState
        decreases interrupts.len(),
    {
        if interrupts.len() == 0 {
            self
        } else {
            self.replay(edges, table, interrupts.drop_last()).next(edges, table, interrupts.last())
        }
    }

    /// The state in which a sweep ends when nothing interrupts it.
    pub open spec fn completed(self, edges: Seq<Line>, table: Seq<Direction>) -> SweepState
        decreases
                (if self.radius < self.limit {
                    self.limit - self.radius
                } else {
                    0
                }),
    {
        if self.status == SweepStatus::Continue && self.radius < self.limit {
            self.scanned(edges, table).completed(edges, table)
        } else {
            self.next(edges, table, false)
        }
    }

    /// The gaps of the scan circle at the angles below `upto`, in ascending
    /// order of angle: one for each blocked ray.
    pub open spec fn gaps_below(self, upto: nat) -> Seq<Gap>
        decreases upto,
    {
        if upto == 0 {
            Seq::empty()
        } else {
            let angle = (upto - 1) as u32;
            let before = self.gaps_below((upto - 1) as nat);
            if self.excluded.contains_key(angle) {
                before.push(
                    Gap {
                        angle,
                        blocked_at: self.excluded[angle],
                        width: gap_width(self.radius as int, self.excluded[angle] as int) as u32,
                    },
                )
            } else {
                before
            }
        }
    }
}

/// The contact points a whole, uninterrupted sweep finds: a function of the
/// edges, the centre, the bound and the table of directions, and of nothing
/// else.
pub open spec fn sweep_result(
    edges: Seq<Line>,
    center: Point,
    limit: nat,
    table: Seq<Direction>,
) -> Seq<Point> {
    SweepState::start(center, limit).completed(edges, table).drawn
}

/// One frame of scanning keeps the invariant.
pub proof fn lemma_scanned_keeps_wf(s: SweepState, edges: Seq<Line>, table: Seq<Direction>)
    requires
        s.wf(),
        s.radius < s.limit,
    ensures
        s.scanned(edges, table).wf(),
{
    lemma_fresh_samples_angles(
        table,
        s.center,
        s.radius as int,
        s.excluded,
        (FULL_TURN + 1) as nat,
    );
    lemma_burn_fresh(s.excluded, s.samples(table), edges, s.radius as u32);
    let t = s.scanned(edges, table);
    assert forall|a: u32| #[trigger] t.excluded.dom().contains(a) implies a <= FULL_TURN
        && SHIP_SIZE <= t.excluded[a] < t.radius by {
        if s.excluded.contains_key(a) {
            assert(s.excluded.dom().contains(a));
        }
    }
}

/// One step keeps the invariant.
pub proof fn lemma_next_keeps_wf(
    s: SweepState,
    edges: Seq<Line>,
    table: Seq<Direction>,
    interrupted: bool,
)
    requires
        s.wf(),
    ensures
        s.next(edges, table, interrupted).wf(),
{
    if s.status == SweepStatus::Continue && s.radius < s.limit && !interrupted {
        lemma_scanned_keeps_wf(s, edges, table);
    }
}

/// Whether `later` holds every entry of `earlier`, unchanged.
pub open spec fn keeps(earlier: Map<u32, u32>, later: Map<u32, u32>) -> bool {
    forall|a: u32| #[trigger]
        earlier.dom().contains(a) ==> later.contains_key(a) && later[a] == earlier[a]
}

/// Whether every entry that `later` holds and `earlier` does not carries a
/// radius of at least `radius`.
pub open spec fn adds_from(earlier: Map<u32, u32>, later: Map<u32, u32>, radius: int) -> bool {
    forall|a: u32| #[trigger]
        later.dom().contains(a) && !earlier.contains_key(a) ==> later[a] >= radius
}

/// Exclusion is permanent within a sweep. A step never removes or alters an
/// entry of the exclusion map, so an angle excluded at one radius is never
/// excluded again; every entry a step adds carries the radius of that step's
/// scan circle, which is larger than the radius of every earlier entry; and
/// the list of contact points only grows, by one point for each new entry.
pub proof fn lemma_exclusion_is_permanent(
    s: SweepState,
    edges: Seq<Line>,
    table: Seq<Direction>,
    interrupted: bool,
)
    requires
        s.wf(),
    ensures
        keeps(s.excluded, s.next(edges, table, interrupted).excluded),
        adds_from(s.excluded, s.next(edges, table, interrupted).excluded, s.radius as int),
        forall|a: u32| #[trigger] s.excluded.dom().contains(a) ==> s.excluded[a] < s.radius,
        s.drawn.is_prefix_of(s.next(edges, table, interrupted).drawn),
        s.next(edges, table, interrupted).drawn.len() - s.drawn.len() == s.next(
            edges,
            table,
            interrupted,
        ).excluded.dom().len() - s.excluded.dom().len(),
{
    if s.status == SweepStatus::Continue && s.radius < s.limit && !interrupted {
        lemma_fresh_samples_angles(
            table,
            s.center,
            s.radius as int,
            s.excluded,
            (FULL_TURN + 1) as nat,
        );
        lemma_burn_fresh(s.excluded, s.samples(table), edges, s.radius as u32);
    }
}

/// Exclusion is permanent over any number of steps: whatever the sequence
/// of interruptions, the sweep keeps its invariant, its radius never
/// shrinks, no entry of the exclusion map is removed or altered, every
/// entry added carries a radius no smaller than the radius the sweep had at
/// the outset, and the contact points found at the outset stay at the head
/// of the list.
pub proof fn lemma_exclusion_is_permanent_over_frames(
    s: SweepState,
    edges: Seq<Line>,
    table: Seq<Direction>,
    interrupts: Seq<bool>,
)
    requires
        s.wf(),
    ensures
        s.replay(edges, table, interrupts).wf(),
        s.radius <= s.replay(edges, table, interrupts).radius,
        keeps(s.excluded, s.replay(edges, table, interrupts).excluded),
        adds_from(s.excluded, s.replay(edges, table, interrupts).excluded, s.radius as int),
        s.drawn.is_prefix_of(s.replay(edges, table, interrupts).drawn),
    decreases interrupts.len(),
{
    if interrupts.len() > 0 {
        let mid = s.replay(edges, table, interrupts.drop_last());
        lemma_exclusion_is_permanent_over_frames(s, edges, table, interrupts.drop_last());
        lemma_exclusion_is_permanent(mid, edges, table, interrupts.last());
        lemma_next_keeps_wf(mid, edges, table, interrupts.last());
        let end = mid.next(edges, table, interrupts.last());
        assert forall|a: u32| #[trigger] s.excluded.dom().contains(a) implies end.excluded.contains_key(
            a,
        ) && end.excluded[a] == s.excluded[a] by {
            assert(mid.excluded.dom().contains(a));
        }
        assert forall|a: u32| #[trigger]
            end.excluded.dom().contains(a) && !s.excluded.contains_key(a) implies end.excluded[a]
            >= s.radius by {
            if mid.excluded.contains_key(a) {
                assert(mid.excluded.dom().contains(a));
            }
        }
    }
}

/// An entry that a step adds carries the radius of that step's scan circle.
pub proof fn lemma_new_entry_radius(
    s: SweepState,
    edges: Seq<Line>,
    table: Seq<Direction>,
    interrupted: bool,
    a: u32,
)
    requires
        s.wf(),
        s.next(edges, table, interrupted).excluded.contains_key(a),
        !s.excluded.contains_key(a),
    ensures
        s.next(edges, table, interrupted).excluded[a] == s.radius,
        a <= FULL_TURN,
        touches(
            edges,
            polar_point(s.center, s.radius as int, table[a as int % FULL_TURN as int]),
            CLOSENESS_TOLERANCE as int,
        ),
{
    lemma_fresh_samples_angles(
        table,
        s.center,
        s.radius as int,
        s.excluded,
        (FULL_TURN + 1) as nat,
    );
    lemma_burn_fresh(s.excluded, s.samples(table), edges, s.radius as u32);
    assert(s.next(edges, table, interrupted).excluded.dom().contains(a));
}

/// A frame blocks every ray that it samples on an edge: an angle of the
/// scan circle that was not excluded and whose sample touches an edge is
/// excluded after the frame, at the radius of the frame's scan circle.
pub proof fn lemma_frame_blocks_touching_rays(
    s: SweepState,
    edges: Seq<Line>,
    table: Seq<Direction>,
    a: u32,
)
    requires
        s.wf(),
        a <= FULL_TURN,
        !s.excluded.contains_key(a),
        touches(
            edges,
            polar_point(s.center, s.radius as int, table[a as int % FULL_TURN as int]),
            CLOSENESS_TOLERANCE as int,
        ),
    ensures
        s.scanned(edges, table).excluded.contains_key(a),
        s.scanned(edges, table).excluded[a] == s.radius,
{
    let pixels = s.samples(table);
    lemma_fresh_samples_angles(
        table,
        s.center,
        s.radius as int,
        s.excluded,
        (FULL_TURN + 1) as nat,
    );
    lemma_fresh_samples_complete(
        table,
        s.center,
        s.radius as int,
        s.excluded,
        (FULL_TURN + 1) as nat,
        a,
    );
    lemma_burn_fresh(s.excluded, pixels, edges, s.radius as u32);
    let k = choose|k: int|
        0 <= k < pixels.len() && #[trigger] pixels[k] == (
            polar_point(s.center, s.radius as int, table[a as int % FULL_TURN as int]),
            a,
        );
    assert(touches(edges, pixels[k].0, CLOSENESS_TOLERANCE as int));
    assert(s.scanned(edges, table).excluded.dom().contains(a));
}

/// Every contact is a sample that touches an edge.
pub proof fn lemma_contacts_touch(pixels: Seq<(Point, u32)>, edges: Seq<Line>)
    ensures
        contacts(pixels, edges).len() <= pixels.len(),
        forall|i: int|
            0 <= i < contacts(pixels, edges).len() ==> touches(
                edges,
                #[trigger] contacts(pixels, edges)[i],
                CLOSENESS_TOLERANCE as int,
            ),
    decreases pixels.len(),
{
    if pixels.len() > 0 {
        lemma_contacts_touch(pixels.drop_last(), edges);
        let before = contacts(pixels.drop_last(), edges);
        let all = contacts(pixels, edges);
        assert forall|i: int| 0 <= i < all.len() implies touches(
            edges,
            #[trigger] all[i],
            CLOSENESS_TOLERANCE as int,
        ) by {
            if i < before.len() {
                assert(all[i] == before[i]);
            }
        }
    }
}

/// Whether every point of `later` beyond the length of `earlier` touches
/// an edge.
pub open spec fn grown_by_contacts(earlier: Seq<Point>, later: Seq<Point>, edges: Seq<Line>) -> bool {
    &&& earlier.is_prefix_of(later)
    &&& forall|i: int|
        earlier.len() <= i < later.len() ==> touches(
            edges,
            #[trigger] later[i],
            CLOSENESS_TOLERANCE as int,
        )
}

/// `n` steps without an interruption.
pub open spec fn quiet(n: nat) -> Seq<bool> {
    Seq::new(n, |i: int| false)
}

/// A sweep that is not interrupted ends in the same state from wherever it
/// has got to: stepping it `n` times does not change how it ends.
pub proof fn lemma_completed_from_anywhere(
    s: SweepState,
    edges: Seq<Line>,
    table: Seq<Direction>,
    n: nat,
)
    ensures
        s.replay(edges, table, quiet(n)).completed(edges, table) == s.completed(edges, table),
    decreases n,
{
    if n > 0 {
        assert(quiet(n).drop_last() =~= quiet((n - 1) as nat));
        lemma_completed_from_anywhere(s, edges, table, (n - 1) as nat);
        let mid = s.replay(edges, table, quiet((n - 1) as nat));
        assert(mid.next(edges, table, false).completed(edges, table) == mid.completed(
            edges,
            table,
        ));
    }
}

/// After `n` frames without an interruption, a fresh sweep whose bound lies
/// beyond the circles of those frames is still under way, and its radius
/// has grown by `SCAN_SPEED` in each frame.
pub proof fn lemma_radius_after_frames(
    center: Point,
    limit: nat,
    edges: Seq<Line>,
    table: Seq<Direction>,
    n: nat,
)
    requires
        in_reach(center, limit as int),
        n == 0 || SHIP_SIZE + (n - 1) * SCAN_SPEED < limit,
    ensures
        SweepState::start(center, limit).replay(edges, table, quiet(n)).wf(),
        SweepState::start(center, limit).replay(edges, table, quiet(n)).status
            == SweepStatus::Continue,
        SweepState::start(center, limit).replay(edges, table, quiet(n)).center == center,
        SweepState::start(center, limit).replay(edges, table, quiet(n)).limit == limit,
        SweepState::start(center, limit).replay(edges, table, quiet(n)).radius == SHIP_SIZE + n
            * SCAN_SPEED,
    decreases n,
{
    let start = SweepState::start(center, limit);
    assert(start.excluded.dom() =~= Set::<u32>::empty());
    if n > 0 {
        assert(quiet(n).drop_last() =~= quiet((n - 1) as nat));
        lemma_radius_after_frames(center, limit, edges, table, (n - 1) as nat);
        let mid = start.replay(edges, table, quiet((n - 1) as nat));
        lemma_scanned_keeps_wf(mid, edges, table);
    }
}

/// A sweep that is not interrupted keeps its invariant to the end, keeps
/// every entry of its exclusion map, and adds to its contact points only
/// points that touch an edge.
pub proof fn lemma_completed_keeps(s: SweepState, edges: Seq<Line>, table: Seq<Direction>)
    requires
        s.wf(),
    ensures
        s.completed(edges, table).wf(),
        keeps(s.excluded, s.completed(edges, table).excluded),
        grown_by_contacts(s.drawn, s.completed(edges, table).drawn, edges),
    decreases
            (if s.radius < s.limit {
                s.limit - s.radius
            } else {
                0
            }),
{
    if s.status == SweepStatus::Continue && s.radius < s.limit {
        let t = s.scanned(edges, table);
        lemma_scanned_keeps_wf(s, edges, table);
        lemma_exclusion_is_permanent(s, edges, table, false);
        lemma_contacts_touch(s.samples(table), edges);
        lemma_completed_keeps(t, edges, table);
        let end = t.completed(edges, table);
        assert forall|a: u32| #[trigger] s.excluded.dom().contains(a) implies end.excluded.contains_key(
            a,
        ) && end.excluded[a] == s.excluded[a] by {
            assert(t.excluded.dom().contains(a));
        }
        assert forall|i: int| s.drawn.len() <= i < end.drawn.len() implies touches(
            edges,
            #[trigger] end.drawn[i],
            CLOSENESS_TOLERANCE as int,
        ) by {
            if i < t.drawn.len() {
                assert(end.drawn[i] == t.drawn[i]);
                assert(t.drawn[i] == contacts(s.samples(table), edges)[i - s.drawn.len()]);
            }
        }
    }
}

/// A whole sweep marks what it meets. If the sample of an angle on one of
/// the scan circles touches an edge, a sweep that is not interrupted ends
/// with that angle excluded, at the radius of that circle or a smaller one;
/// and every contact point it ends with touches an edge.
pub proof fn lemma_sweep_marks_what_it_meets(
    center: Point,
    limit: nat,
    edges: Seq<Line>,
    table: Seq<Direction>,
    frame: nat,
    a: u32,
)
    requires
        in_reach(center, limit as int),
        a <= FULL_TURN,
        SHIP_SIZE + frame * SCAN_SPEED < limit,
        touches(
            edges,
            polar_point(
                center,
                SHIP_SIZE + frame * SCAN_SPEED,
                table[a as int % FULL_TURN as int],
            ),
            CLOSENESS_TOLERANCE as int,
        ),
    ensures
        SweepState::start(center, limit).completed(edges, table).excluded.contains_key(a),
        SweepState::start(center, limit).completed(edges, table).excluded[a] <= SHIP_SIZE + frame
            * SCAN_SPEED,
        grown_by_contacts(Seq::empty(), sweep_result(edges, center, limit, table), edges),
{
    let start = SweepState::start(center, limit);
    assert(start.excluded.dom() =~= Set::<u32>::empty());
    assert(frame == 0 || SHIP_SIZE + (frame - 1) * SCAN_SPEED < limit) by (nonlinear_arith)
        requires
            SHIP_SIZE + frame * SCAN_SPEED < limit,
            0 <= SCAN_SPEED,
    ;
    lemma_radius_after_frames(center, limit, edges, table, frame);
    lemma_completed_from_anywhere(start, edges, table, frame);
    let here = start.replay(edges, table, quiet(frame));
    let after = here.scanned(edges, table);
    lemma_scanned_keeps_wf(here, edges, table);
    if here.excluded.contains_key(a) {
        assert(here.excluded.dom().contains(a));
        lemma_exclusion_is_permanent(here, edges, table, false);
    } else {
        lemma_frame_blocks_touching_rays(here, edges, table, a);
    }
    assert(after.excluded.dom().contains(a));
    lemma_completed_keeps(after, edges, table);
    lemma_completed_keeps(start, edges, table);
}

/// A whole sweep marks the ray that points north, three quarters of a
/// turn, if the point straight north of its centre on one of its scan
/// circles touches an edge.
pub proof fn lemma_sweep_marks_north(
    center: Point,
    limit: nat,
    edges: Seq<Line>,
    table: Seq<Direction>,
    frame: nat,
)
    requires
        valid_table(table),
        in_reach(center, limit as int),
        SHIP_SIZE + frame * SCAN_SPEED < limit,
        touches(
            edges,
            Point { x: center.x, y: (center.y - (SHIP_SIZE + frame * SCAN_SPEED)) as i32 },
            CLOSENESS_TOLERANCE as int,
        ),
    ensures
        SweepState::start(center, limit).completed(edges, table).excluded.contains_key(27_000),
        SweepState::start(center, limit).completed(edges, table).excluded[27_000] <= SHIP_SIZE
            + frame * SCAN_SPEED,
{
    let radius = SHIP_SIZE + frame * SCAN_SPEED;
    assert(0 <= frame * SCAN_SPEED) by (nonlinear_arith)
        requires
            0 <= frame,
            0 <= SCAN_SPEED,
    ;
    lemma_axis_points(center, radius, table);
    lemma_sweep_marks_what_it_meets(center, limit, edges, table, frame, 27_000);
}

/// A sweep has no hidden inputs. Two sweeps that start in the same state and
/// are stepped against the same edges and table, with the same sequence of
/// interruptions, are in the same state afterwards, with the same contact
/// points; and two uninterrupted sweeps from the same centre with the same
/// bound find the same contact points.
pub proof fn lemma_sweep_is_deterministic(
    first: SweepState,
    second: SweepState,
    edges: Seq<Line>,
    table: Seq<Direction>,
    interrupts: Seq<bool>,
)
    requires
        first == second,
    ensures
        first.replay(edges, table, interrupts) == second.replay(edges, table, interrupts),
        first.replay(edges, table, interrupts).drawn == second.replay(
            edges,
            table,
            interrupts,
        ).drawn,
        first.completed(edges, table).drawn == second.completed(edges, table).drawn,
{
}

/// One radar sweep.
pub struct Sweep {
    center: Point,
    radius: u32,
    limit: u32,
    status: SweepStatus,
    excluded: HashMap<u32, u32>,
    drawn: Vec<Point>,
}

impl View for Sweep {
    type V = SweepState;

    closed spec fn view(&self) -> SweepState {
        SweepState {
            center: self.center,
            radius: self.radius as nat,
            limit: self.limit as nat,
            status: self.status,
            excluded: self.excluded@,
            drawn: self.drawn@,
        }
    }
}

impl Sweep {
    /// Every sweep satisfies the invariant of its state.
    #[verifier::type_invariant]
    pub open spec fn wf(&self) -> bool {
        self@.wf()
    }

    /// A sweep around `center` that ends when its radius reaches `limit`, if
    /// every point within `limit` of `center` along an axis is representable.
    pub fn new(center: Point, limit: u32) -> (sweep: Option<Sweep>)
        ensures
            sweep is Some <==> in_reach(center, limit as int),
            sweep matches Some(s) ==> s@ == SweepState::start(center, limit as nat),
    {
        let r: i64 = limit as i64;
        let x: i64 = center.x as i64;
        let y: i64 = center.y as i64;
        let lowest: i64 = i32::MIN as i64;
        let highest: i64 = i32::MAX as i64;
        if x - r < lowest || x + r > highest || y - r < lowest || y + r > highest {
            return None;
        }
        let sweep = Sweep {
            center,
            radius: SHIP_SIZE as u32,
            limit,
            status: SweepStatus::Continue,
            excluded: HashMap::new(),
            drawn: Vec::new(),
        };
        assert(sweep@.excluded =~= Map::empty());
        assert(sweep@.drawn =~= Seq::empty());
        Some(sweep)
    }

    /// Advances the sweep by one frame, or ends it.
    pub fn step(&mut self, edges: &Vec<Line>, compass: &Compass, interrupted: bool) -> (status:
        SweepStatus)
        ensures
            final(self)@ == old(self)@.next(edges@, compass@, interrupted),
            status == final(self)@.status,
    {
        proof {
            use_type_invariant(&*self);
        }
        if self.status != SweepStatus::Continue {
            return self.status;
        }
        if self.radius >= self.limit {
            self.status = SweepStatus::Complete;
            return SweepStatus::Complete;
        }
        if interrupted {
            self.status = SweepStatus::Interrupted;
            return SweepStatus::Interrupted;
        }
        let ghost before = self@;
        // The parts of a sweep cannot be changed one by one while they
        // belong to it, so the sweep is taken apart and put together again
        // once the frame is done.
        let mut taken = Sweep {
            center: self.center,
            radius: SHIP_SIZE as u32,
            limit: self.limit,
            status: SweepStatus::Continue,
            excluded: HashMap::new(),
            drawn: Vec::new(),
        };
        assert(taken.excluded@.dom() =~= Set::<u32>::empty());
        std::mem::swap(self, &mut taken);
        let Sweep { center, radius, limit, status, mut excluded, mut drawn } = taken;
        let pixels = pixels_in_circle(compass, center, radius, &excluded);
        proof {
            lemma_scanned_keeps_wf(before, edges@, compass@);
            assert(pixels@.take(0) =~= Seq::empty());
            assert(before.drawn + Seq::<Point>::empty() =~= before.drawn);
        }
        let mut j: usize = 0;
        while j < pixels.len()
            invariant
                j <= pixels.len(),
                radius == before.radius,
                excluded@ == burn(before.excluded, pixels@.take(j as int), edges@, radius),
                drawn@ == before.drawn + contacts(pixels@.take(j as int), edges@),
            decreases pixels.len() - j,
        {
            let (pixel, angle) = pixels[j];
            proof {
                assert(pixels@.take(j + 1).drop_last() =~= pixels@.take(j as int));
            }
            if near_any(edges, pixel, CLOSENESS_TOLERANCE) {
                drawn.push(pixel);
                excluded.insert(angle, radius);
                assert(drawn@ =~= before.drawn + contacts(pixels@.take(j + 1), edges@));
            }
            j += 1;
        }
        assert(pixels@.take(pixels.len() as int) =~= pixels@);
        *self = Sweep { center, radius: radius + SCAN_SPEED, limit, status, excluded, drawn };
        SweepStatus::Continue
    }

    /// Runs the sweep to its end with no interruption.
    pub fn run(&mut self, edges: &Vec<Line>, compass: &Compass)
        ensures
            final(self)@ == old(self)@.completed(edges@, compass@),
            final(self)@.status != SweepStatus::Continue,
    {
        proof {
            use_type_invariant(&*self);
        }
        loop
            invariant
                self@.completed(edges@, compass@) == old(self)@.completed(edges@, compass@),
                self@.wf(),
            ensures
                self@ == old(self)@.completed(edges@, compass@),
                self@.status != SweepStatus::Continue,
            decreases
                    (if self@.status == SweepStatus::Continue {
                        self@.limit + SCAN_SPEED + 1 - self@.radius
                    } else {
                        0
                    }),
        {
            proof {
                use_type_invariant(&*self);
            }
            let status = self.step(edges, compass, false);
            proof {
                use_type_invariant(&*self);
            }
            if status != SweepStatus::Continue {
                break;
            }
        }
    }

    /// Centre of the scan circle.
    pub fn center(&self) -> (p: Point)
        ensures
            p == self@.center,
    {
        self.center
    }

    /// Radius of the next frame's scan circle.
    pub fn radius(&self) -> (r: u32)
        ensures
            r == self@.radius,
    {
        self.radius
    }

    /// The radius at which the sweep is complete.
    pub fn limit(&self) -> (r: u32)
        ensures
            r == self@.limit,
    {
        self.limit
    }

    /// Whether the sweep is under way, was interrupted, or is complete.
    pub fn status(&self) -> (status: SweepStatus)
        ensures
            status == self@.status,
    {
        self.status
    }

    /// The contact points found so far, in order of discovery.
    pub fn drawn_pixels(&self) -> (pixels: &Vec<Point>)
        ensures
            pixels@ == self@.drawn,
    {
        &self.drawn
    }

    /// The radius at which `angle` was blocked, if it has been.
    pub fn blocked_at(&self, angle: u32) -> (radius: Option<u32>)
        ensures
            radius is Some <==> self@.excluded.contains_key(angle),
            radius matches Some(r) ==> r == self@.excluded[angle],
    {
        match self.excluded.get(&angle) {
            Some(r) => Some(*r),
            None => None,
        }
    }

    /// The gaps of the scan circle as it is drawn in the next frame, in
    /// ascending order of angle: one for each blocked ray.
    pub fn gaps(&self) -> (gaps: Vec<Gap>)
        ensures
            gaps@ == self@.gaps_below((FULL_TURN + 1) as nat),
    {
        proof {
            use_type_invariant(self);
        }
        let mut gaps: Vec<Gap> = Vec::new();
        let mut angle: u32 = 0;
        while angle <= FULL_TURN
            invariant
                angle <= FULL_TURN + 1,
                self@.wf(),
                gaps@ == self@.gaps_below(angle as nat),
            decreases FULL_TURN + 1 - angle,
        {
            match self.excluded.get(&angle) {
                Some(r) => {
                    assert(self@.excluded.dom().contains(angle));
                    gaps.push(
                        Gap { angle, blocked_at: *r, width: arc_width(self.radius, *r) },
                    );
                },
                None => {},
            }
            angle += 1;
        }
        gaps
    }
}

} // verus!
