//! Coordinate types and geometric primitives in pixel space.

use vstd::prelude::*;

verus! {

/// A pixel coordinate. It may lie outside the image.
pub type PixCoord = i32;

/// A width or a height of an image, in pixels.
pub type Dimension = u32;

/// A depth stored in a cell of the image. A larger depth is nearer to the
/// viewer.
pub type Depth = i64;

/// The depth of a cell into which nothing was drawn: farther than every
/// other depth.
pub const NEG_INFINITY: Depth = i64::MIN;

/// The depth that is nearer than every other depth.
pub const INFINITY: Depth = i64::MAX;

/// A point in pixel space. `x` grows to the right, `y` grows downwards, and
/// `z` grows away from the viewer: a point is stored at depth `-z`.
#[derive(Clone, Copy, Debug, PartialEq, Eq, Structural)]
pub struct Point {
    pub x: PixCoord,
    pub y: PixCoord,
    pub z: PixCoord,
}

/// A triangle in pixel space, by its three corners in the order in which
/// the caller gave them.
#[derive(Clone, Copy, Debug, PartialEq, Eq, Structural)]
pub struct Triangle {
    pub p1: Point,
    pub p2: Point,
    pub p3: Point,
}

/// The sign of a quantity that the caller computed outside this library.
#[derive(Clone, Copy, Debug, PartialEq, Eq, Structural)]
pub enum Sign {
    Negative,
    Zero,
    Positive,
}

impl Point {
    /// The point with the given coordinates.
    pub fn new(x: PixCoord, y: PixCoord, z: PixCoord) -> (p: Point)
        ensures
            p == (Point { x, y, z }),
    {
        Point { x, y, z }
    }

    /// The depth at which this point is stored.
    pub open spec fn depth(self) -> int {
        -(self.z as int)
    }
}

impl Triangle {
    /// The triangle with the given corners.
    pub fn new(p1: Point, p2: Point, p3: Point) -> (t: Triangle)
        ensures
            t == (Triangle { p1, p2, p3 }),
    {
        Triangle { p1, p2, p3 }
    }
}

} // verus!
