use vstd::prelude::*;

verus! {

/// A rectangle of canvas coordinates; all four bounds are inclusive.
///
/// The builder uses one to track the area that contains text.
#[derive(Clone, Copy, Debug, PartialEq, Eq, Structural)]
pub struct Geometry {
    /// The minimum x coordinate of the area (inclusive).
    pub left: u32,
    /// The maximum x coordinate of the area (inclusive).
    pub right: u32,
    /// The minimum y coordinate of the area (inclusive).
    pub top: u32,
    /// The maximum y coordinate of the area (inclusive).
    pub bottom: u32,
}

impl Geometry {
    pub fn new(left: u32, right: u32, top: u32, bottom: u32) -> (g: Geometry)
        ensures
            g == (Geometry { left, right, top, bottom }),
    {
        Geometry { left, right, top, bottom }
    }

    /// The bounds are ordered: a non-empty rectangle.
    pub open spec fn ordered(self) -> bool {
        self.left <= self.right && self.top <= self.bottom
    }

    /// The rectangle lies entirely on a `w x h` canvas.
    pub open spec fn within(self, w: int, h: int) -> bool {
        self.ordered() && self.right < w && self.bottom < h
    }

    /// Number of columns covered (both bounds inclusive).
    pub open spec fn spec_cols(self) -> int {
        self.right - self.left + 1
    }

    /// Number of rows covered (both bounds inclusive).
    pub open spec fn spec_rows(self) -> int {
        self.bottom - self.top + 1
    }
}

} // verus!
