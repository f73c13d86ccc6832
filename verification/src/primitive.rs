//! Window coordinates and axis-aligned regions.

use vstd::prelude::*;

verus! {

/// A position in window coordinates: `.0` grows rightwards, `.1` downwards.
#[derive(Clone, Copy, Debug, PartialEq, Eq, Structural)]
pub struct Point(pub u32, pub u32);

/// An axis-aligned box, given by its smallest and its largest corner.
/// Both corners belong to the box.
pub type Region = (Point, Point);

/// The signed distance between two positions, one axis at a time.
pub type Delta = (i64, i64);

impl Point {
    /// `self` is at or beyond `other` on both axes.
    pub open spec fn spec_abs_ge(self, other: Point) -> bool {
        self.0 >= other.0 && self.1 >= other.1
    }

    /// `self` is at or before `other` on both axes.
    pub open spec fn spec_abs_le(self, other: Point) -> bool {
        self.0 <= other.0 && self.1 <= other.1
    }

    /// What the pointer travelled from `earlier` to `self`.
    pub open spec fn spec_delta_from(self, earlier: Point) -> (int, int) {
        (self.0 - earlier.0, self.1 - earlier.1)
    }

    #[verifier::when_used_as_spec(spec_abs_ge)]
    pub fn abs_ge(self, other: Point) -> (r: bool)
        ensures
            r == self.spec_abs_ge(other),
    {
        self.0 >= other.0 && self.1 >= other.1
    }

    #[verifier::when_used_as_spec(spec_abs_le)]
    pub fn abs_le(self, other: Point) -> (r: bool)
        ensures
            r == self.spec_abs_le(other),
    {
        self.0 <= other.0 && self.1 <= other.1
    }

    /// The movement that leads from `earlier` to `self`. It is exact: the
    /// difference of two `u32` always fits.
    pub fn delta_from(self, earlier: Point) -> (d: Delta)
        ensures
            d.0 == self.spec_delta_from(earlier).0,
            d.1 == self.spec_delta_from(earlier).1,
    {
        (self.0 as i64 - earlier.0 as i64, self.1 as i64 - earlier.1 as i64)
    }
}

/// Whether `point` lies in `region`, its border included.
pub open spec fn region_contains(region: Region, point: Point) -> bool {
    point.spec_abs_ge(region.0) && point.spec_abs_le(region.1)
}

/// Whether `point` lies in `region`, its border included.
pub fn contains(region: &Region, point: Point) -> (r: bool)
    ensures
        r == region_contains(*region, point),
{
    point.abs_ge(region.0) && point.abs_le(region.1)
}

} // verus!
