//! Integer points of the plane, used to address cells and to offset patterns.

use vstd::prelude::*;

verus! {

/// A cell position: `x` counts columns, `y` counts rows.
#[derive(Copy, Clone, Debug, PartialEq, Eq, Structural)]
pub struct Point {
    pub x: usize,
    pub y: usize,
}

impl Point {
    /// The origin.
    pub fn zero() -> (origin: Point)
        ensures
            origin.x == 0,
            origin.y == 0,
    {
        Point { x: 0, y: 0 }
    }
}

impl vstd::std_specs::ops::AddSpecImpl<Point> for Point {
    open spec fn obeys_add_spec() -> bool {
        true
    }

    open spec fn add_req(self, other: Point) -> bool {
        self.x + other.x <= usize::MAX && self.y + other.y <= usize::MAX
    }

    open spec fn add_spec(self, other: Point) -> Point {
        Point { x: (self.x + other.x) as usize, y: (self.y + other.y) as usize }
    }
}

impl std::ops::Add<Point> for Point {
    type Output = Point;

    /// Adds component by component; neither sum may leave `usize`.
    fn add(self, other: Point) -> (sum: Point) {
        Point { x: self.x + other.x, y: self.y + other.y }
    }
}

} // verus!
