//! BGRA pixel buffers: cutting a selection out of a screen capture, and
//! padding small images before recognition.
use vstd::prelude::*;

use crate::geometry::{clamp_int, RectI};
use crate::text::string_from_str;
use vstd::slice::slice_to_vec;

verus! {

/// Byte `col` of row `row` in a buffer whose rows are `stride` bytes long.
pub open spec fn row_byte(s: Seq<u8>, stride: int, row: int, col: int) -> u8 {
    s[row * stride + col]
}

/// A screen capture: its origin on the virtual screen, its size and its
/// pixels, four bytes each, row after row.
#[derive(Debug, Clone)]
pub struct ScreenCapture {
    pub x: i32,
    pub y: i32,
    pub width: i32,
    pub height: i32,
    pub bgra: Vec<u8>,
}

impl ScreenCapture {
    pub open spec fn wf(&self) -> bool {
        &&& 0 <= self.width
        &&& 0 <= self.height
        &&& self.bgra.len() == self.width * self.height * 4
    }
}

/// An image cut out of a capture, with where it lies on the virtual screen.
#[derive(Debug, Clone)]
pub struct SelectedImage {
    pub width: i32,
    pub height: i32,
    pub bgra: Vec<u8>,
    pub screen_rect: RectI,
}

/// An image ready for recognition.
#[derive(Debug, Clone)]
pub struct PreprocessedImage {
    pub width: i32,
    pub height: i32,
    pub bgra: Vec<u8>,
}

/// `dst` holds the `w` by `h` pixels of `src` (rows of `sw` pixels) whose top
/// left pixel is at (`left`, `top`).
pub open spec fn cropped_from(
    src: Seq<u8>,
    sw: int,
    left: int,
    top: int,
    w: int,
    h: int,
    dst: Seq<u8>,
) -> bool {
    &&& dst.len() == w * h * 4
    &&& forall|r: int, b: int|
        0 <= r < h && 0 <= b < w * 4 ==> #[trigger] row_byte(dst, w * 4, r, b) == row_byte(
            src,
            sw * 4,
            top + r,
            left * 4 + b,
        )
}

/// The rectangle that a selection is cut to: the requested one, clamped to
/// the capture.
pub open spec fn crop_rect(capture: ScreenCapture, rect: RectI) -> RectI {
    RectI {
        left: clamp_int(rect.left as int, 0, capture.width as int) as i32,
        top: clamp_int(rect.top as int, 0, capture.height as int) as i32,
        right: clamp_int(rect.right as int, 0, capture.width as int) as i32,
        bottom: clamp_int(rect.bottom as int, 0, capture.height as int) as i32,
    }
}

proof fn lemma_row_in_bounds(row: int, sw: int, sh: int, left: int, w: int, b: int)
    by (nonlinear_arith)
    requires
        0 <= row < sh,
        0 <= left,
        left + w <= sw,
        0 <= b < w * 4,
    ensures
        0 <= (row * sw + left) * 4 + b < sw * sh * 4,
        (row * sw + left) * 4 + b == row * (sw * 4) + (left * 4 + b),
{
}

proof fn lemma_earlier_rows(rr: int, r: int, rb: int, bb: int)
    by (nonlinear_arith)
    requires
        0 <= rr < r,
        0 <= bb < rb,
    ensures
        0 <= rr * rb + bb < r * rb,
{
}

proof fn lemma_size_bound(w: int, h: int, sw: int, sh: int)
    by (nonlinear_arith)
    requires
        0 <= w <= sw,
        0 <= h <= sh,
    ensures
        w * h * 4 <= sw * sh * 4,
        w * 4 <= sw * sh * 4 || h == 0,
{
}

/// Cuts the part of a capture inside `rect` (clamped to the capture) into an
/// image of its own; a cut narrower or lower than 3 pixels is refused.
pub fn crop_capture(capture: &ScreenCapture, rect: RectI) -> (r: Result<SelectedImage, String>)
    requires
        capture.wf(),
        ({
            let c = crop_rect(*capture, rect);
            c.right - c.left >= 3 && c.bottom - c.top >= 3 ==> capture.x + c.right <= i32::MAX
                && capture.y + c.bottom <= i32::MAX
        }),
    ensures
        ({
            let c = crop_rect(*capture, rect);
            let w = c.right - c.left;
            let h = c.bottom - c.top;
            match r {
                Err(e) => (w < 3 || h < 3) && e@ == "selection is too small"@,
                Ok(sel) => {
                    &&& w >= 3 && h >= 3
                    &&& sel.width == w
                    &&& sel.height == h
                    &&& cropped_from(
                        capture.bgra@,
                        capture.width as int,
                        c.left as int,
                        c.top as int,
                        w,
                        h,
                        sel.bgra@,
                    )
                    &&& sel.screen_rect == RectI {
                        left: (capture.x + c.left) as i32,
                        top: (capture.y + c.top) as i32,
                        right: (capture.x + c.right) as i32,
                        bottom: (capture.y + c.bottom) as i32,
                    }
                },
            }
        }),
{
    let c = rect.clamp(capture.width, capture.height);
    if c.width() < 3 || c.height() < 3 {
        return Err(string_from_str("selection is too small"));
    }
    let w = c.width() as usize;
    let h = c.height() as usize;
    let sw = capture.width as usize;
    let left = c.left as usize;
    let top = c.top as usize;
    let ghost sh = capture.height as int;
    proof {
        lemma_size_bound(w as int, h as int, sw as int, sh);
    }
    let rb = w * 4;
    let mut out: Vec<u8> = Vec::new();
    let mut row: usize = 0;
    while row < h
        invariant
            capture.wf(),
            sw == capture.width,
            sh == capture.height,
            0 <= left,
            left + w <= sw,
            top + h <= sh,
            rb == w * 4,
            row <= h,
            out.len() == row * rb,
            forall|rr: int, bb: int|
                0 <= rr < row && 0 <= bb < rb ==> #[trigger] row_byte(out@, rb as int, rr, bb)
                    == row_byte(capture.bgra@, sw * 4, top + rr, left * 4 + bb),
        decreases h - row,
    {
        let mut b: usize = 0;
        while b < rb
            invariant
                capture.wf(),
                sw == capture.width,
                sh == capture.height,
                0 <= left,
                left + w <= sw,
                top + h <= sh,
                rb == w * 4,
                row < h,
                b <= rb,
                out.len() == row * rb + b,
                forall|rr: int, bb: int|
                    0 <= rr < row && 0 <= bb < rb ==> #[trigger] row_byte(out@, rb as int, rr, bb)
                        == row_byte(capture.bgra@, sw * 4, top + rr, left * 4 + bb),
                forall|bb: int|
                    0 <= bb < b ==> #[trigger] row_byte(out@, rb as int, row as int, bb)
                        == row_byte(capture.bgra@, sw * 4, top + row, left * 4 + bb),
            decreases rb - b,
        {
            proof {
                lemma_row_in_bounds(top + row, sw as int, sh, left as int, w as int, b as int);
            }
            let idx = ((top + row) * sw + left) * 4 + b;
            let ghost before = out@;
            out.push(capture.bgra[idx]);
            proof {
                assert forall|rr: int, bb: int|
                    0 <= rr < row && 0 <= bb < rb implies #[trigger] row_byte(
                        out@,
                        rb as int,
                        rr,
                        bb,
                    ) == row_byte(capture.bgra@, sw * 4, top + rr, left * 4 + bb) by {
                    lemma_earlier_rows(rr, row as int, rb as int, bb);
                    assert(row_byte(before, rb as int, rr, bb) == row_byte(out@, rb as int, rr, bb));
                }
                assert forall|bb: int|
                    0 <= bb < b + 1 implies #[trigger] row_byte(out@, rb as int, row as int, bb)
                    == row_byte(capture.bgra@, sw * 4, top + row, left * 4 + bb) by {
                    if bb < b {
                        assert(row_byte(before, rb as int, row as int, bb) == row_byte(
                            out@,
                            rb as int,
                            row as int,
                            bb,
                        ));
                    }
                }
            }
            b = b + 1;
        }
        proof {
            assert forall|rr: int, bb: int|
                0 <= rr < row + 1 && 0 <= bb < rb implies #[trigger] row_byte(
                out@,
                rb as int,
                rr,
                bb,
            ) == row_byte(capture.bgra@, sw * 4, top + rr, left * 4 + bb) by {
                if rr == row {
                    assert(row_byte(out@, rb as int, row as int, bb) == row_byte(
                        capture.bgra@,
                        sw * 4,
                        top + row,
                        left * 4 + bb,
                    ));
                }
            }
            assert((row + 1) * rb == row * rb + rb) by (nonlinear_arith);
        }
        row = row + 1;
    }
    assert(h * rb == w * h * 4) by (nonlinear_arith)
        requires
            rb == w * 4,
    ;
    Ok(
        SelectedImage {
            width: c.width(),
            height: c.height(),
            bgra: out,
            screen_rect: RectI {
                left: capture.x + c.left,
                top: capture.y + c.top,
                right: capture.x + c.right,
                bottom: capture.y + c.bottom,
            },
        },
    )
}

/// The size an image is padded to: smaller than 64 pixels either way means 8
/// pixels of border on every side and at least 80 pixels each way.
pub open spec fn padded_size(w: int, h: int) -> (int, int) {
    if w < 64 || h < 64 {
        (max(w + 16, 80), max(h + 16, 80))
    } else {
        (w, h)
    }
}

pub open spec fn max(a: int, b: int) -> int {
    if a >= b {
        a
    } else {
        b
    }
}

/// Byte `xb` of row `y` of the padded image: the source pixel 8 pixels up and
/// to the left inside the border, the source's top-left pixel in it.
pub open spec fn padded_byte(src: Seq<u8>, w: int, h: int, y: int, xb: int) -> u8 {
    if 8 <= y < 8 + h && 32 <= xb < 32 + w * 4 {
        row_byte(src, w * 4, y - 8, xb - 32)
    } else {
        src[xb % 4]
    }
}

pub open spec fn padded_from(src: Seq<u8>, w: int, h: int, pw: int, ph: int, dst: Seq<u8>) -> bool {
    &&& dst.len() == pw * ph * 4
    &&& forall|y: int, xb: int|
        0 <= y < ph && 0 <= xb < pw * 4 ==> #[trigger] row_byte(dst, pw * 4, y, xb)
            == padded_byte(src, w, h, y, xb)
}

/// The layout of a padded image: at least 80 pixels each way with 8 pixels of
/// border on every side; pixel (x, y) of the source at (x + 8, y + 8), and
/// every border pixel a copy of the source's top-left pixel.
pub proof fn lemma_padded_layout(src: Seq<u8>, w: int, h: int, pw: int, ph: int, dst: Seq<u8>)
    requires
        0 < w,
        0 < h,
        src.len() == w * h * 4,
        w < 64 || h < 64,
        (pw, ph) == padded_size(w, h),
        padded_from(src, w, h, pw, ph, dst),
    ensures
        pw == (if w + 16 >= 80 {
            w + 16
        } else {
            80
        }),
        ph == (if h + 16 >= 80 {
            h + 16
        } else {
            80
        }),
        dst.len() == pw * ph * 4,
        forall|x: int, y: int, k: int|
            0 <= x < w && 0 <= y < h && 0 <= k < 4 ==> #[trigger] dst[((y + 8) * pw + (x + 8)) * 4
                + k] == #[trigger] src[(y * w + x) * 4 + k],
        forall|x: int, y: int, k: int|
            0 <= x < pw && 0 <= y < ph && 0 <= k < 4 && !(8 <= x < 8 + w && 8 <= y < 8 + h)
                ==> #[trigger] dst[(y * pw + x) * 4 + k] == src[k],
{
    assert forall|x: int, y: int, k: int|
        0 <= x < w && 0 <= y < h && 0 <= k < 4 implies #[trigger] dst[((y + 8) * pw + (x + 8)) * 4
        + k] == #[trigger] src[(y * w + x) * 4 + k] by {
        let yy = y + 8;
        let xb = (x + 8) * 4 + k;
        assert(((y + 8) * pw + (x + 8)) * 4 + k == yy * (pw * 4) + xb) by (nonlinear_arith)
            requires
                yy == y + 8,
                xb == (x + 8) * 4 + k,
        ;
        assert(0 <= xb < pw * 4) by (nonlinear_arith)
            requires
                0 <= x < w,
                0 <= k < 4,
                xb == (x + 8) * 4 + k,
                pw >= w + 16,
        ;
        assert(row_byte(dst, pw * 4, yy, xb) == padded_byte(src, w, h, yy, xb));
        assert((yy - 8) * (w * 4) + (xb - 32) == (y * w + x) * 4 + k) by (nonlinear_arith)
            requires
                yy == y + 8,
                xb == (x + 8) * 4 + k,
        ;
    }
    assert forall|x: int, y: int, k: int|
        0 <= x < pw && 0 <= y < ph && 0 <= k < 4 && !(8 <= x < 8 + w && 8 <= y < 8 + h)
            implies #[trigger] dst[(y * pw + x) * 4 + k] == src[k] by {
        let xb = x * 4 + k;
        assert((y * pw + x) * 4 + k == y * (pw * 4) + xb) by (nonlinear_arith)
            requires
                xb == x * 4 + k,
        ;
        assert(0 <= xb < pw * 4) by (nonlinear_arith)
            requires
                0 <= x < pw,
                0 <= k < 4,
                xb == x * 4 + k,
        ;
        assert(row_byte(dst, pw * 4, y, xb) == padded_byte(src, w, h, y, xb));
        assert((32 <= xb < 32 + w * 4) == (8 <= x < 8 + w)) by (nonlinear_arith)
            requires
                xb == x * 4 + k,
                0 <= k < 4,
        ;
        assert(xb % 4 == k) by (nonlinear_arith)
            requires
                xb == x * 4 + k,
                0 <= k < 4,
        ;
    }
}

proof fn lemma_padded_source_in_bounds(w: int, h: int, y: int, xb: int)
    by (nonlinear_arith)
    requires
        0 <= y - 8 < h,
        0 <= xb - 32 < w * 4,
    ensures
        0 <= (y - 8) * (w * 4) + (xb - 32) < w * h * 4,
{
}

proof fn lemma_buffer_fits(w: int, h: int)
    by (nonlinear_arith)
    requires
        0 < w,
        0 < h,
        (w + 80) * (h + 80) * 4 <= usize::MAX,
    ensures
        4 <= w * h * 4 <= usize::MAX,
        w * 4 + 32 <= usize::MAX,
        h + 8 <= usize::MAX,
{
}

proof fn lemma_area_fits_u64(w: int, h: int)
    by (nonlinear_arith)
    requires
        0 < w <= i32::MAX,
        0 < h <= i32::MAX,
    ensures
        0 < w * h * 4 <= u64::MAX,
{
}

proof fn lemma_padded_total(pw: int, ph: int, w: int, h: int)
    by (nonlinear_arith)
    requires
        0 < w,
        0 < h,
        pw <= w + 80,
        ph <= h + 80,
        0 <= pw,
        0 <= ph,
    ensures
        pw * ph * 4 <= (w + 80) * (h + 80) * 4,
{
}

/// Checks an image's size against its buffer and pads a small image with its
/// top-left colour.
pub fn pad_bgra(width: i32, height: i32, bgra: &Vec<u8>) -> (r: Result<PreprocessedImage, String>)
    requires
        0 < width && 0 < height && bgra.len() == width * height * 4 && (width < 64 || height < 64)
            ==> width <= i32::MAX - 16 && height <= i32::MAX - 16 && (width + 80) * (height + 80)
            * 4 <= usize::MAX,
    ensures
        match r {
            Err(e) => (width <= 0 || height <= 0 || bgra.len() != width * height * 4) && e@
                == "BGRA buffer length does not match dimensions"@,
            Ok(img) => {
                &&& 0 < width && 0 < height && bgra.len() == width * height * 4
                &&& (img.width as int, img.height as int) == padded_size(
                    width as int,
                    height as int,
                )
                &&& width < 64 || height < 64 ==> img.width == (if width + 16 >= 80 {
                    width + 16
                } else {
                    80
                }) && img.height == (if height + 16 >= 80 {
                    height + 16
                } else {
                    80
                })
                &&& width >= 64 && height >= 64 ==> img.width == width && img.height == height
                &&& if width < 64 || height < 64 {
                    padded_from(
                        bgra@,
                        width as int,
                        height as int,
                        img.width as int,
                        img.height as int,
                        img.bgra@,
                    )
                } else {
                    img.bgra@ == bgra@
                }
            },
        },
{
    if width <= 0 || height <= 0 {
        return Err(string_from_str("BGRA buffer length does not match dimensions"));
    }
    proof {
        lemma_area_fits_u64(width as int, height as int);
    }
    let expected: u64 = (width as u64) * (height as u64) * 4;
    if bgra.len() as u64 != expected {
        return Err(string_from_str("BGRA buffer length does not match dimensions"));
    }
    let requires_padding = width < 64 || height < 64;
    if !requires_padding {
        let copy = slice_to_vec(bgra.as_slice());
        return Ok(PreprocessedImage { width, height, bgra: copy });
    }
    proof {
        lemma_buffer_fits(width as int, height as int);
    }
    let pw: i32 = if requires_padding {
        if width + 16 >= 80 {
            width + 16
        } else {
            80
        }
    } else {
        width
    };
    let ph: i32 = if requires_padding {
        if height + 16 >= 80 {
            height + 16
        } else {
            80
        }
    } else {
        height
    };
    let ghost w = width as int;
    let ghost h = height as int;
    proof {
        lemma_padded_total(pw as int, ph as int, w, h);
    }
    let stride = (pw as usize) * 4;
    let rows = ph as usize;
    let sw4 = (width as usize) * 4;
    let mut out: Vec<u8> = Vec::new();
    let mut y: usize = 0;
    while y < rows
        invariant
            0 < w,
            0 < h,
            w == width,
            h == height,
            bgra.len() == w * h * 4,
            bgra.len() >= 4,
            sw4 == w * 4,
            sw4 + 32 <= usize::MAX,
            h + 8 <= usize::MAX,
            stride == pw * 4,
            rows == ph,
            pw * ph * 4 <= usize::MAX,
            !requires_padding ==> pw == w && ph == h,
            requires_padding ==> pw == w + 16 || (pw == 80 && w + 16 < 80),
            requires_padding ==> ph == h + 16 || (ph == 80 && h + 16 < 80),
            y <= rows,
            out.len() == y * stride,
            forall|yy: int, xb: int|
                0 <= yy < y && 0 <= xb < stride ==> #[trigger] row_byte(out@, stride as int, yy, xb)
                    == padded_byte(bgra@, w, h, yy, xb),
        decreases rows - y,
    {
        assert(y * stride + stride <= rows * stride) by (nonlinear_arith)
            requires
                y < rows,
        ;
        let mut xb: usize = 0;
        while xb < stride
            invariant
                0 < w,
                0 < h,
                w == width,
                h == height,
                bgra.len() == w * h * 4,
                bgra.len() >= 4,
                sw4 == w * 4,
                sw4 + 32 <= usize::MAX,
                h + 8 <= usize::MAX,
                stride == pw * 4,
                rows == ph,
                pw * ph * 4 <= usize::MAX,
                y * stride + stride <= rows * stride,
                !requires_padding ==> pw == w && ph == h,
                y < rows,
                xb <= stride,
                out.len() == y * stride + xb,
                forall|yy: int, xx: int|
                    0 <= yy < y && 0 <= xx < stride ==> #[trigger] row_byte(
                        out@,
                        stride as int,
                        yy,
                        xx,
                    ) == padded_byte(bgra@, w, h, yy, xx),
                forall|xx: int|
                    0 <= xx < xb ==> #[trigger] row_byte(out@, stride as int, y as int, xx)
                        == padded_byte(bgra@, w, h, y as int, xx),
            decreases stride - xb,
        {
            let inside = 8 <= y && y < 8 + (height as usize) && 32 <= xb && xb < 32 + sw4;
            let value = if inside {
                proof {
                    lemma_padded_source_in_bounds(w, h, y as int, xb as int);
                }
                bgra[(y - 8) * sw4 + (xb - 32)]
            } else {
                bgra[xb % 4]
            };
            let ghost before = out@;
            out.push(value);
            proof {
                assert forall|yy: int, xx: int|
                    0 <= yy < y && 0 <= xx < stride implies #[trigger] row_byte(
                        out@,
                        stride as int,
                        yy,
                        xx,
                    ) == padded_byte(bgra@, w, h, yy, xx) by {
                    lemma_earlier_rows(yy, y as int, stride as int, xx);
                    assert(row_byte(before, stride as int, yy, xx) == row_byte(
                        out@,
                        stride as int,
                        yy,
                        xx,
                    ));
                }
                assert forall|xx: int|
                    0 <= xx < xb + 1 implies #[trigger] row_byte(out@, stride as int, y as int, xx)
                    == padded_byte(bgra@, w, h, y as int, xx) by {
                    if xx < xb {
                        assert(row_byte(before, stride as int, y as int, xx) == row_byte(
                            out@,
                            stride as int,
                            y as int,
                            xx,
                        ));
                    }
                }
            }
            xb = xb + 1;
        }
        proof {
            assert forall|yy: int, xx: int|
                0 <= yy < y + 1 && 0 <= xx < stride implies #[trigger] row_byte(
                out@,
                stride as int,
                yy,
                xx,
            ) == padded_byte(bgra@, w, h, yy, xx) by {
                if yy == y {
                    assert(row_byte(out@, stride as int, y as int, xx) == padded_byte(
                        bgra@,
                        w,
                        h,
                        y as int,
                        xx,
                    ));
                }
            }
            assert((y + 1) * stride == y * stride + stride) by (nonlinear_arith);
        }
        y = y + 1;
    }
    assert(rows * stride == pw * ph * 4) by (nonlinear_arith)
        requires
            rows == ph,
            stride == pw * 4,
    ;
    Ok(PreprocessedImage { width: pw, height: ph, bgra: out })
}

/// How a padded image is scaled before recognition.
#[derive(Debug, Clone, Copy, PartialEq, Eq, Structural)]
pub enum ImageScale {
    /// The longer side is over the recognizer's limit: shrink it to the limit.
    Shrink,
    /// Small enough to enlarge by half again, which helps recognition.
    Enlarge,
    /// Kept at its size.
    Keep,
}

/// The scale for an image of `width` by `height` pixels when the recognizer
/// takes at most `max_dimension` pixels either way: shrink what is over the
/// limit; enlarge by half what is at most 1000 pixels and stays within the
/// limit once enlarged; keep the rest.
pub open spec fn image_scale(width: int, height: int, max_dimension: int) -> ImageScale {
    if max(width, height) > max_dimension {
        ImageScale::Shrink
    } else if max(width, height) <= 1000 && 3 * width <= 2 * max_dimension && 3 * height <= 2
        * max_dimension {
        ImageScale::Enlarge
    } else {
        ImageScale::Keep
    }
}

/// A side enlarged by half again, rounded half up.
pub open spec fn enlarged(n: int) -> int {
    (3 * n + 1) / 2
}

/// The scale for an image before recognition.
pub fn choose_image_scale(width: i32, height: i32, max_dimension: i32) -> (r: ImageScale)
    ensures
        r == image_scale(width as int, height as int, max_dimension as int),
{
    let longer = if width >= height {
        width
    } else {
        height
    };
    let w = width as i64;
    let h = height as i64;
    let limit = max_dimension as i64;
    if longer > max_dimension {
        ImageScale::Shrink
    } else if longer <= 1000 && 3 * w <= 2 * limit && 3 * h <= 2 * limit {
        ImageScale::Enlarge
    } else {
        ImageScale::Keep
    }
}

/// The size of an image enlarged by half again; each side stays within the
/// recognizer's limit.
pub fn enlarged_size(width: i32, height: i32, max_dimension: i32) -> (r: (i32, i32))
    requires
        0 < width,
        0 < height,
        image_scale(width as int, height as int, max_dimension as int) == ImageScale::Enlarge,
    ensures
        r.0 == enlarged(width as int),
        r.1 == enlarged(height as int),
        width < r.0 <= max_dimension,
        height < r.1 <= max_dimension,
{
    ((3 * width + 1) / 2, (3 * height + 1) / 2)
}

} // verus!
