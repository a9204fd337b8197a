//! Perceptual luminance and the boundary-clamped luminance sampler shared by
//! the normal-map and edge stages.
use vstd::prelude::*;
use vstd::arithmetic::div_mod::lemma_fundamental_div_mod_converse;

verus! {

/// `0.299 R + 0.587 G + 0.114 B`, truncated.
pub open spec fn luminance(r: u8, g: u8, b: u8) -> int {
    (299 * r + 587 * g + 114 * b) / 1000
}

/// `v` clamped into `[0, hi]`.
pub open spec fn clamp(v: int, hi: int) -> int {
    if v < 0 {
        0
    } else if v > hi {
        hi
    } else {
        v
    }
}

/// The RGBA buffer holds at least a `w` by `h` image.
pub open spec fn holds_image(rgba: Seq<u8>, w: int, h: int) -> bool {
    w >= 1 && h >= 1 && w * h * 4 <= rgba.len()
}

/// Luminance of the pixel at `(x, y)` after clamping both coordinates to the image.
pub open spec fn lum_at(rgba: Seq<u8>, w: int, h: int, x: int, y: int) -> int {
    let cx = clamp(x, w - 1);
    let cy = clamp(y, h - 1);
    let idx = (cy * w + cx) * 4;
    luminance(rgba[idx], rgba[idx + 1], rgba[idx + 2])
}

pub proof fn lemma_pixel_in_image(w: int, h: int, x: int, y: int)
    requires
        0 <= x < w,
        0 <= y < h,
    ensures
        0 <= y * w,
        y * w + x < w * h,
        0 <= (y * w + x) * 4,
        (y * w + x) * 4 + 4 <= w * h * 4,
{
    assert(y * w + x < w * h) by (nonlinear_arith)
        requires
            0 <= x < w,
            0 <= y < h,
    ;
    assert(0 <= y * w) by (nonlinear_arith)
        requires
            0 <= w,
            0 <= y,
    ;
}

/// Position `j` of a row-major buffer with `k` bytes per pixel and rows of
/// `w` pixels lies in pixel `(x, y)`, byte `c`.
pub proof fn lemma_split_index(j: int, k: int, w: int, x: int, y: int, c: int)
    requires
        k >= 1,
        0 <= c < k,
        0 <= x < w,
        0 <= y,
        j == (y * w + x) * k + c,
    ensures
        j / k == y * w + x,
        j % k == c,
        (j / k) % w == x,
        (j / k) / w == y,
{
    lemma_fundamental_div_mod_converse(j, k, y * w + x, c);
    lemma_fundamental_div_mod_converse(y * w + x, w, y, x);
}

/// Luminance of the pixel at `(x, y)`, coordinates clamped to the image.
pub fn sample_luminance(rgba: &[u8], width: usize, height: usize, x: i64, y: i64) -> (r: u8)
    requires
        holds_image(rgba@, width as int, height as int),
    ensures
        r as int == lum_at(rgba@, width as int, height as int, x as int, y as int),
{
    let cx: usize = if x < 0 {
        0
    } else if x as u64 > (width - 1) as u64 {
        width - 1
    } else {
        x as usize
    };
    let cy: usize = if y < 0 {
        0
    } else if y as u64 > (height - 1) as u64 {
        height - 1
    } else {
        y as usize
    };
    let n: usize = rgba.len();
    proof {
        lemma_pixel_in_image(width as int, height as int, cx as int, cy as int);
    }
    let idx: usize = (cy * width + cx) * 4;
    let red: u32 = rgba[idx] as u32;
    let green: u32 = rgba[idx + 1] as u32;
    let blue: u32 = rgba[idx + 2] as u32;
    ((299 * red + 587 * green + 114 * blue) / 1000) as u8
}

} // verus!
