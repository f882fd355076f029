use vstd::prelude::*;

verus! {

/// A point of the plane on which the board lies, in whole world units.
#[derive(Debug, Clone, Copy, PartialEq, Eq, Structural)]
pub struct Point {
    pub x: i64,
    pub y: i64,
}

/// A pair of lengths along the two axes, in whole world units: the size of
/// a rectangle, or how far a point lies from an anchor.
#[derive(Debug, Clone, Copy, PartialEq, Eq, Structural)]
pub struct Extent {
    pub x: u64,
    pub y: u64,
}

/// Axis-aligned rectangle, anchored at its bottom-left corner. Its borders
/// belong to it.
#[derive(Debug, Clone, Copy, PartialEq, Eq, Structural)]
pub struct Bounds2 {
    pub position: Point,
    pub size: Extent,
}

impl Bounds2 {
    /// The point lies in the rectangle or on its border.
    pub open spec fn spec_contains(&self, point: Point) -> bool {
        &&& self.position.x <= point.x <= self.position.x + self.size.x
        &&& self.position.y <= point.y <= self.position.y + self.size.y
    }

    /// Where the point lies from the anchor, for a point of the rectangle.
    pub open spec fn spec_relative_position(&self, point: Point) -> Option<Extent> {
        if self.spec_contains(point) {
            Some(
                Extent {
                    x: (point.x - self.position.x) as u64,
                    y: (point.y - self.position.y) as u64,
                },
            )
        } else {
            None
        }
    }

    /// Whether the point lies in the rectangle or on its border.
    #[verifier::when_used_as_spec(spec_contains)]
    pub fn contains(&self, point: Point) -> (inside: bool)
        ensures
            inside == self.spec_contains(point),
    {
        let dx: i128 = point.x as i128 - self.position.x as i128;
        let dy: i128 = point.y as i128 - self.position.y as i128;
        0 <= dx && dx <= self.size.x as i128 && 0 <= dy && dy <= self.size.y as i128
    }

    /// How far the point lies to the right of and above the anchor, for a
    /// point of the rectangle; nothing for a point outside.
    #[verifier::when_used_as_spec(spec_relative_position)]
    pub fn relative_position(&self, point: Point) -> (offset: Option<Extent>)
        ensures
            offset == self.spec_relative_position(point),
    {
        if self.contains(point) {
            let dx: i128 = point.x as i128 - self.position.x as i128;
            let dy: i128 = point.y as i128 - self.position.y as i128;
            Some(Extent { x: dx as u64, y: dy as u64 })
        } else {
            None
        }
    }
}

} // verus!
