//! Points and rectangles in the two coordinate spaces.
//!
//! Pointer input arrives in screen space. Everything a zone stores is in
//! logical space, the space of the captured frame, which is screen space
//! multiplied by an integer scale factor. Logical coordinates are 64 bits
//! wide so that every screen point scales without overflow.

use vstd::prelude::*;

verus! {

/// A point in screen space.
#[derive(Debug, Clone, Copy, PartialEq, Eq, Structural)]
pub struct ScreenPoint {
    pub x: i32,
    pub y: i32,
}

/// A point in logical space.
#[derive(Debug, Clone, Copy, PartialEq, Eq, Structural)]
pub struct Point {
    pub x: i64,
    pub y: i64,
}

/// An extent in logical space.
#[derive(Debug, Clone, Copy, PartialEq, Eq, Structural)]
pub struct Size {
    pub width: u64,
    pub height: u64,
}

/// An axis-aligned rectangle in logical space. It covers the columns
/// `x <= c < x + width` and the rows `y <= r < y + height`.
#[derive(Debug, Clone, Copy, PartialEq, Eq, Structural)]
pub struct Rect {
    pub x: i64,
    pub y: i64,
    pub width: u64,
    pub height: u64,
}

impl Rect {
    /// The first column to the right of the rectangle.
    pub open spec fn right(self) -> int {
        self.x + self.width
    }

    /// The first row below the rectangle.
    pub open spec fn bottom(self) -> int {
        self.y + self.height
    }

    /// Both far edges are representable logical coordinates.
    pub open spec fn representable(self) -> bool {
        self.right() <= i64::MAX && self.bottom() <= i64::MAX
    }

    /// The number of pixels the rectangle covers.
    pub open spec fn area(self) -> nat {
        (self.width * self.height) as nat
    }

    /// The rectangle covers the pixel at column `c`, row `r`.
    pub open spec fn contains(self, c: int, r: int) -> bool {
        self.x <= c < self.right() && self.y <= r < self.bottom()
    }
}

/// The smaller of two integers.
pub open spec fn min_int(a: int, b: int) -> int {
    if a <= b {
        a
    } else {
        b
    }
}

/// The distance between two integers.
pub open spec fn distance(a: int, b: int) -> int {
    if a <= b {
        b - a
    } else {
        a - b
    }
}

/// The logical rectangle spanned by a drag between two screen points: the
/// component-wise minimum of the points as origin and their component-wise
/// distance as size, each multiplied by `scale`.
pub open spec fn spanned_region(anchor: ScreenPoint, point: ScreenPoint, scale: u32) -> Rect {
    Rect {
        x: (min_int(anchor.x as int, point.x as int) * scale) as i64,
        y: (min_int(anchor.y as int, point.y as int) * scale) as i64,
        width: (distance(anchor.x as int, point.x as int) * scale) as u64,
        height: (distance(anchor.y as int, point.y as int) * scale) as u64,
    }
}

/// Scales one axis of a drag: the start is the smaller of the two screen
/// coordinates and the extent is their distance, both multiplied by `scale`.
fn scale_axis(a: i32, b: i32, scale: u32) -> (r: (i64, u64))
    ensures
        r.0 == min_int(a as int, b as int) * scale,
        r.1 == distance(a as int, b as int) * scale,
        r.0 + r.1 <= i64::MAX,
{
    let low: i64 = if a <= b {
        a as i64
    } else {
        b as i64
    };
    let high: i64 = if a <= b {
        b as i64
    } else {
        a as i64
    };
    let span: u64 = (high - low) as u64;
    let factor: i64 = scale as i64;
    assert(-0x8000_0000_0000_0000 <= low * factor <= 0x7fff_ffff_ffff_ffff) by (nonlinear_arith)
        requires
            -0x8000_0000 <= low <= 0x7fff_ffff,
            0 <= factor <= 0xffff_ffff,
    ;
    assert(0 <= span * factor <= 0xffff_ffff_ffff_ffff) by (nonlinear_arith)
        requires
            0 <= span <= 0xffff_ffff,
            0 <= factor <= 0xffff_ffff,
    ;
    assert(low * factor + span * factor <= 0x7fff_ffff_ffff_ffff) by (nonlinear_arith)
        requires
            low + span <= 0x7fff_ffff,
            0 <= factor <= 0xffff_ffff,
    ;
    (low * factor, span * (scale as u64))
}

/// The logical rectangle spanned by a drag from `anchor` to `point`.
///
/// Its origin is the component-wise minimum of the two screen points and its
/// size their component-wise distance, each multiplied by `scale`. The two
/// points may come in either order, and a drag that does not move along an
/// axis gives a rectangle of zero extent on that axis.
pub fn region_between(anchor: ScreenPoint, point: ScreenPoint, scale: u32) -> (r: Rect)
    ensures
        r == spanned_region(anchor, point, scale),
        r.x == min_int(anchor.x as int, point.x as int) * scale,
        r.y == min_int(anchor.y as int, point.y as int) * scale,
        r.width == distance(anchor.x as int, point.x as int) * scale,
        r.height == distance(anchor.y as int, point.y as int) * scale,
        r.representable(),
{
    let (x, width) = scale_axis(anchor.x, point.x, scale);
    let (y, height) = scale_axis(anchor.y, point.y, scale);
    Rect { x, y, width, height }
}

} // verus!
