use vstd::prelude::*;
use crate::system::position::{FancyPosition, world_to_screen};

verus! {

/// Colour byte of a rectangle's box when drawn.
pub const BOX_COLOR: u8 = 0b100_00_011;

/// The far edge `start + extent` of a span, wrapping within a byte.
pub open spec fn span_end(start: u8, extent: u8) -> int {
    (start + extent) % 256
}

/// Whether two spans on one axis overlap, with far edges computed as the console does.
pub open spec fn spans_overlap(a_start: u8, a_extent: u8, b_start: u8, b_extent: u8) -> bool {
    !(span_end(a_start, a_extent) <= b_start || span_end(b_start, b_extent) <= a_start)
}

/// An axis-aligned rectangle in world space.
pub struct Rectangle {
    pub xy: FancyPosition,
    pub size: FancyPosition,
}

/// A filled box to draw on the screen: where, how large, what colour, and
/// whether the console should draw new random numbers afterwards.
#[derive(Clone, Copy, Debug, PartialEq, Eq, Structural)]
pub struct BoxFill {
    pub x: u8,
    pub y: u8,
    pub w: u8,
    pub h: u8,
    pub color: u8,
    pub gen_rng: bool,
}

impl Rectangle {
    /// Whether the rectangles overlap on both axes, with far edges wrapping within a byte.
    pub open spec fn overlaps(&self, other: &Rectangle) -> bool {
        &&& spans_overlap(self.xy.x, self.size.x, other.xy.x, other.size.x)
        &&& spans_overlap(self.xy.y, self.size.y, other.xy.y, other.size.y)
    }

    /// Whether no far edge of the rectangle passes the end of the byte range.
    pub open spec fn fits(&self) -> bool {
        self.xy.x + self.size.x < 256 && self.xy.y + self.size.y < 256
    }

    /// Whether the two rectangles share a point: neither lies wholly to the left
    /// of the other, and neither lies wholly above the other.
    pub fn intersects(&self, other: Rectangle) -> (b: bool)
        ensures
            b == self.overlaps(&other),
            self.fits() && other.fits() ==> (b <==> (
                self.xy.x < other.xy.x + other.size.x && other.xy.x < self.xy.x + self.size.x
                && self.xy.y < other.xy.y + other.size.y && other.xy.y < self.xy.y + self.size.y)),
    {
        // Check if one rectangle is to the left of the other
        if self.xy.x.wrapping_add(self.size.x) <= other.xy.x
            || other.xy.x.wrapping_add(other.size.x) <= self.xy.x {
            return false;
        }
        // Check if one rectangle is above the other
        if self.xy.y.wrapping_add(self.size.y) <= other.xy.y
            || other.xy.y.wrapping_add(other.size.y) <= self.xy.y {
            return false;
        }
        // Rectangles intersect
        true
    }

    /// The box that outlines this rectangle on the screen.
    pub fn draw(&self) -> (f: BoxFill)
        ensures
            f.x == world_to_screen(self.xy.x),
            f.y == world_to_screen(self.xy.y),
            (f.x + 64) % 256 == self.xy.x,
            (f.y + 64) % 256 == self.xy.y,
            f.w == self.size.x,
            f.h == self.size.y,
            f.color == BOX_COLOR,
            !f.gen_rng,
    {
        let screen_xy = self.xy.to_screenspace();
        BoxFill { x: screen_xy.x, y: screen_xy.y, w: self.size.x, h: self.size.y, color: BOX_COLOR, gen_rng: false }
    }
}

/// The far edge of a span is the byte that `start + extent` leaves when it is cut
/// to 8 bits: a value below 256 differing from the sum by a multiple of 256, and the
/// sum itself when that fits.
pub proof fn lemma_span_end_is_byte_sum(start: u8, extent: u8)
    ensures
        0 <= span_end(start, extent) < 256,
        (start + extent - span_end(start, extent)) % 256 == 0,
        start + extent < 256 ==> span_end(start, extent) == start + extent,
        start + extent >= 256 ==> span_end(start, extent) == start + extent - 256,
{
}

/// Intersection does not depend on which rectangle asks.
pub proof fn lemma_intersects_symmetric(a: Rectangle, b: Rectangle)
    ensures
        a.overlaps(&b) == b.overlaps(&a),
{
}

/// A rectangle with some width and height that fits in the byte range meets itself.
pub proof fn lemma_intersects_self(a: Rectangle)
    requires
        a.fits(),
        a.size.x > 0,
        a.size.y > 0,
    ensures
        a.overlaps(&a),
{
}

} // verus!
