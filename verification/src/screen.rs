//! The playing field: a rectangle with one corner at the origin.

use vstd::prelude::*;
use crate::geometry::Point;
use crate::units::MAX_EXTENT;

verus! {

/// Width and height of the playing field.
#[derive(Clone, Copy, Debug)]
pub struct Screen {
    width: i32,
    height: i32,
}

impl Screen {
    /// Whether the two values are the sides of a playing field.
    pub open spec fn valid(width: i32, height: i32) -> bool {
        0 <= width <= MAX_EXTENT && 0 <= height <= MAX_EXTENT
    }

    /// Every screen has valid sides.
    #[verifier::type_invariant]
    pub open spec fn wf(&self) -> bool {
        Self::valid(self.width(), self.height())
    }

    /// What [`Self::width`] returns, for use in contracts.
    pub closed spec fn spec_width(&self) -> i32 {
        self.width
    }

    /// What [`Self::height`] returns, for use in contracts.
    pub closed spec fn spec_height(&self) -> i32 {
        self.height
    }

    /// The field of the given size, unless a side is negative or longer than
    /// `MAX_EXTENT`.
    pub fn new(width: i32, height: i32) -> (screen: Option<Screen>)
        ensures
            screen is Some <==> Self::valid(width, height),
            screen matches Some(s) ==> s.width() == width && s.height() == height,
    {
        if 0 <= width && width <= MAX_EXTENT && 0 <= height && height <= MAX_EXTENT {
            Some(Screen { width, height })
        } else {
            None
        }
    }

    /// Width of the field.
    #[verifier::when_used_as_spec(spec_width)]
    pub fn width(&self) -> (w: i32)
        ensures
            w == self.width(),
    {
        self.width
    }

    /// Height of the field.
    #[verifier::when_used_as_spec(spec_height)]
    pub fn height(&self) -> (h: i32)
        ensures
            h == self.height(),
    {
        self.height
    }

    /// The middle of the field, where the ship starts.
    pub open spec fn middle(&self) -> Point {
        Point { x: (self.width() / 2) as i32, y: (self.height() / 2) as i32 }
    }

    /// The middle of the field.
    pub fn center(&self) -> (p: Point)
        ensures
            p == self.middle(),
    {
        proof {
            use_type_invariant(self);
        }
        Point { x: self.width / 2, y: self.height / 2 }
    }

    /// Whether `p` lies on the field, borders included.
    pub open spec fn holds(&self, p: Point) -> bool {
        0 <= p.x <= self.width() && 0 <= p.y <= self.height()
    }
}

} // verus!
