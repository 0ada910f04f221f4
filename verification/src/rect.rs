//! The rectangle type that the grid partition produces and consumes.
//!
//! A rectangle is an axis-aligned, integer-coordinate region: `x` and `y`
//! name its top-left corner, `width` and `height` its extent. Coordinates
//! live in the 16-bit range of a terminal-style coordinate system, and a
//! well-formed rectangle keeps its right and bottom edges addressable in
//! that range.

use vstd::prelude::*;

verus! {

/// An axis-aligned rectangle with 16-bit coordinates.
#[derive(Clone, Copy, Debug, PartialEq, Eq, Structural)]
pub struct Rect {
    /// Horizontal coordinate of the left edge.
    pub x: u16,
    /// Vertical coordinate of the top edge.
    pub y: u16,
    /// Horizontal extent.
    pub width: u16,
    /// Vertical extent.
    pub height: u16,
}

impl Rect {
    /// The coordinate just past the right edge.
    pub open spec fn right(self) -> int {
        self.x + self.width
    }

    /// The coordinate just past the bottom edge.
    pub open spec fn bottom(self) -> int {
        self.y + self.height
    }

    /// A rectangle is well formed when its right and bottom edges still
    /// lie in the 16-bit coordinate range.
    pub open spec fn wf(self) -> bool {
        &&& self.right() <= u16::MAX
        &&& self.bottom() <= u16::MAX
    }

    /// Builds a rectangle, clamping the extents so that the right and
    /// bottom edges stay in the coordinate range.
    pub fn new(x: u16, y: u16, width: u16, height: u16) -> (r: Rect)
        ensures
            r.x == x,
            r.y == y,
            r.width == vstd::math::min(width as int, u16::MAX - x),
            r.height == vstd::math::min(height as int, u16::MAX - y),
            width <= u16::MAX - x ==> r.width == width,
            height <= u16::MAX - y ==> r.height == height,
            r.wf(),
    {
        let w: u16 = if width > u16::MAX - x {
            u16::MAX - x
        } else {
            width
        };
        let h: u16 = if height > u16::MAX - y {
            u16::MAX - y
        } else {
            height
        };
        Rect { x, y, width: w, height: h }
    }
}

} // verus!
