//! Rectangles in atlas-texture coordinates, and the two geometric
//! predicates the packing contracts are stated over.

use vstd::prelude::*;

verus! {

/// An axis-aligned rectangle: position `(x, y)` with extent `(w, h)`,
/// in pixels of the atlas texture.
#[derive(Clone, Copy, PartialEq, Eq, Structural, Debug)]
pub struct Rect {
    pub x: u32,
    pub y: u32,
    pub w: u32,
    pub h: u32,
}

/// The rectangle lies fully inside the bin `(0,0)`–`(bin_w, bin_h)`.
pub open spec fn rect_within(r: Rect, bin_w: int, bin_h: int) -> bool {
    r.x + r.w <= bin_w && r.y + r.h <= bin_h
}

/// The two rectangles share no point of positive area: they are separated
/// along at least one axis.
pub open spec fn rects_disjoint(a: Rect, b: Rect) -> bool {
    ||| a.x + a.w <= b.x
    ||| b.x + b.w <= a.x
    ||| a.y + a.h <= b.y
    ||| b.y + b.h <= a.y
}

} // verus!
