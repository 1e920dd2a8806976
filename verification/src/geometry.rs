//! Rectangles and points in pixels, and the 16-bit halves of message
//! parameters that carry them.
use vstd::prelude::*;

verus! {

pub open spec fn min_int(a: int, b: int) -> int {
    if a <= b {
        a
    } else {
        b
    }
}

pub open spec fn max_int(a: int, b: int) -> int {
    if a >= b {
        a
    } else {
        b
    }
}

/// `v` brought into `[lo, hi]`.
pub open spec fn clamp_int(v: int, lo: int, hi: int) -> int {
    if v < lo {
        lo
    } else if v > hi {
        hi
    } else {
        v
    }
}

/// A point in pixels.
#[derive(Debug, Clone, Copy, PartialEq, Eq, Structural, Default)]
pub struct PointI {
    pub x: i32,
    pub y: i32,
}

/// A rectangle in pixels, from `left`/`top` inclusive to `right`/`bottom`
/// exclusive.
#[derive(Debug, Clone, Copy, PartialEq, Eq, Structural)]
pub struct RectI {
    pub left: i32,
    pub top: i32,
    pub right: i32,
    pub bottom: i32,
}

impl RectI {
    /// Left not after right and top not after bottom.
    pub open spec fn normalized(self) -> bool {
        self.left <= self.right && self.top <= self.bottom
    }

    /// Inside `[0, width] x [0, height]`.
    pub open spec fn within(self, width: int, height: int) -> bool {
        &&& 0 <= self.left <= width
        &&& 0 <= self.right <= width
        &&& 0 <= self.top <= height
        &&& 0 <= self.bottom <= height
    }

    /// The rectangle between two corner points, whichever way round they are.
    pub open spec fn between(a: PointI, b: PointI) -> RectI {
        RectI {
            left: min_int(a.x as int, b.x as int) as i32,
            top: min_int(a.y as int, b.y as int) as i32,
            right: max_int(a.x as int, b.x as int) as i32,
            bottom: max_int(a.y as int, b.y as int) as i32,
        }
    }

    /// Each edge brought into `[0, width]` or `[0, height]`.
    pub open spec fn clamped(self, width: int, height: int) -> RectI {
        RectI {
            left: clamp_int(self.left as int, 0, width) as i32,
            top: clamp_int(self.top as int, 0, height) as i32,
            right: clamp_int(self.right as int, 0, width) as i32,
            bottom: clamp_int(self.bottom as int, 0, height) as i32,
        }
    }

    /// The rectangle with the given corners, whichever way round they are.
    pub fn new(left: i32, top: i32, right: i32, bottom: i32) -> (r: RectI)
        ensures
            r.left == min_int(left as int, right as int),
            r.right == max_int(left as int, right as int),
            r.top == min_int(top as int, bottom as int),
            r.bottom == max_int(top as int, bottom as int),
            r == RectI::between(PointI { x: left, y: top }, PointI { x: right, y: bottom }),
            r.normalized(),
    {
        RectI {
            left: if left <= right {
                left
            } else {
                right
            },
            top: if top <= bottom {
                top
            } else {
                bottom
            },
            right: if left >= right {
                left
            } else {
                right
            },
            bottom: if top >= bottom {
                top
            } else {
                bottom
            },
        }
    }

    pub fn width(self) -> (r: i32)
        requires
            i32::MIN <= self.right - self.left <= i32::MAX,
        ensures
            r == self.right - self.left,
    {
        self.right - self.left
    }

    pub fn height(self) -> (r: i32)
        requires
            i32::MIN <= self.bottom - self.top <= i32::MAX,
        ensures
            r == self.bottom - self.top,
    {
        self.bottom - self.top
    }

    /// Each edge brought into `[0, width]` or `[0, height]`.
    pub fn clamp(self, width: i32, height: i32) -> (r: RectI)
        requires
            0 <= width,
            0 <= height,
        ensures
            r.left == clamp_int(self.left as int, 0, width as int),
            r.right == clamp_int(self.right as int, 0, width as int),
            r.top == clamp_int(self.top as int, 0, height as int),
            r.bottom == clamp_int(self.bottom as int, 0, height as int),
            r.within(width as int, height as int),
            r == self.clamped(width as int, height as int),
            self.normalized() ==> r.normalized(),
    {
        RectI {
            left: clamp_i32(self.left, 0, width),
            top: clamp_i32(self.top, 0, height),
            right: clamp_i32(self.right, 0, width),
            bottom: clamp_i32(self.bottom, 0, height),
        }
    }
}

/// `i32::clamp`.
pub fn clamp_i32(v: i32, lo: i32, hi: i32) -> (r: i32)
    requires
        lo <= hi,
    ensures
        r == clamp_int(v as int, lo as int, hi as int),
{
    if v < lo {
        lo
    } else if v > hi {
        hi
    } else {
        v
    }
}

/// A 16-bit value read as a signed 16-bit number.
pub open spec fn signed16(v: int) -> int {
    if v < 0x8000 {
        v
    } else {
        v - 0x10000
    }
}

/// The low 16 bits of a message parameter.
pub fn loword(value: usize) -> (r: u16)
    ensures
        r as int == value as int % 0x10000,
{
    let r = (value & 0xffff) as u16;
    assert((value & 0xffff) as int == value as int % 0x10000) by (bit_vector);
    r
}

/// The low 16 bits of a message parameter, signed.
pub fn loword_signed(value: isize) -> (r: i32)
    ensures
        r as int == signed16(value as int % 0x10000),
{
    let low = (value as u32 & 0xffff) as u16;
    assert(((value as u32) & 0xffff) as u16 as int == (value as int) % 0x10000) by (bit_vector);
    let r = low as i16 as i32;
    assert(low < 0x8000 ==> (low as i16) as i32 == low as i32) by (bit_vector);
    assert(low >= 0x8000 ==> (low as i16) as i32 == low as i32 - 0x10000) by (bit_vector);
    r
}

/// Bits 16 to 31 of a message parameter, signed.
pub fn hiword_signed(value: isize) -> (r: i32)
    ensures
        r as int == signed16((value as int % 0x1_0000_0000) / 0x10000),
{
    let high = ((value as u32 >> 16) & 0xffff) as u16;
    assert((((value as u32) >> 16) & 0xffff) as u16 as int == ((value as int) % 0x1_0000_0000)
        / 0x10000) by (bit_vector);
    let r = high as i16 as i32;
    assert(high < 0x8000 ==> (high as i16) as i32 == high as i32) by (bit_vector);
    assert(high >= 0x8000 ==> (high as i16) as i32 == high as i32 - 0x10000) by (bit_vector);
    r
}

/// The point that a mouse message's parameter carries: x in the low 16 bits,
/// y in the next 16, both signed.
pub fn point_from_lparam(lparam: isize) -> (r: PointI)
    ensures
        r.x as int == signed16(lparam as int % 0x10000),
        r.y as int == signed16((lparam as int % 0x1_0000_0000) / 0x10000),
{
    PointI { x: loword_signed(lparam), y: hiword_signed(lparam) }
}

} // verus!
