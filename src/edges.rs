//! Sobel edge detection over luminance.
//!
//! Edge magnitudes are fixed point: one unit of magnitude is `EDGE_ONE`
//! steps, so the stored value is the magnitude times 256, truncated.
use vstd::prelude::*;
use crate::roots::{isqrt, floor_sqrt};
use crate::luma::{lum_at, sample_luminance, lemma_split_index};
use crate::normals::on_border;

verus! {

/// Fixed-point steps per unit of edge magnitude.
pub const EDGE_ONE: u32 = 256;

/// The ceiling of the magnitude, 255, in fixed point.
pub const EDGE_MAX: u16 = 65280;

/// Horizontal Sobel response at `(x, y)`: kernel rows `-1 0 1`, `-2 0 2`, `-1 0 1`.
pub open spec fn sobel_x(rgba: Seq<u8>, w: int, h: int, x: int, y: int) -> int {
    (lum_at(rgba, w, h, x + 1, y - 1) + 2 * lum_at(rgba, w, h, x + 1, y) + lum_at(
        rgba,
        w,
        h,
        x + 1,
        y + 1,
    )) - (lum_at(rgba, w, h, x - 1, y - 1) + 2 * lum_at(rgba, w, h, x - 1, y) + lum_at(
        rgba,
        w,
        h,
        x - 1,
        y + 1,
    ))
}

/// Vertical Sobel response at `(x, y)`: kernel rows `-1 -2 -1`, `0 0 0`, `1 2 1`.
pub open spec fn sobel_y(rgba: Seq<u8>, w: int, h: int, x: int, y: int) -> int {
    (lum_at(rgba, w, h, x - 1, y + 1) + 2 * lum_at(rgba, w, h, x, y + 1) + lum_at(
        rgba,
        w,
        h,
        x + 1,
        y + 1,
    )) - (lum_at(rgba, w, h, x - 1, y - 1) + 2 * lum_at(rgba, w, h, x, y - 1) + lum_at(
        rgba,
        w,
        h,
        x + 1,
        y - 1,
    ))
}

/// `min(255, sqrt(gx² + gy²))` in fixed point, truncated.
pub open spec fn edge_magnitude(gx: int, gy: int) -> int {
    let m = isqrt((65536 * (gx * gx + gy * gy)) as nat) as int;
    if m > EDGE_MAX as int {
        EDGE_MAX as int
    } else {
        m
    }
}

/// The stored edge value of pixel `(x, y)`; zero on the border.
pub open spec fn edge_value(rgba: Seq<u8>, w: int, h: int, x: int, y: int) -> int {
    if on_border(w, h, x, y) {
        0
    } else {
        edge_magnitude(sobel_x(rgba, w, h, x, y), sobel_y(rgba, w, h, x, y))
    }
}

/// The edge map of a `w` by `h` image, one value per pixel, row-major.
pub open spec fn edge_map(rgba: Seq<u8>, w: int, h: int) -> Seq<u16> {
    Seq::new((w * h) as nat, |p: int| edge_value(rgba, w, h, p % w, p / w) as u16)
}

/// Where every pixel has the same luminance, the edge map is zero everywhere.
pub proof fn lemma_flat_edges(rgba: Seq<u8>, w: int, h: int, l: int)
    requires
        w >= 1,
        h >= 0,
        forall|xx: int, yy: int| #[trigger] lum_at(rgba, w, h, xx, yy) == l,
    ensures
        edge_map(rgba, w, h).len() == w * h,
        forall|p: int| 0 <= p < w * h ==> #[trigger] edge_map(rgba, w, h)[p] == 0,
{
    assert(w * h >= 0) by (nonlinear_arith)
        requires
            w >= 1,
            h >= 0,
    ;
    assert forall|p: int| 0 <= p < w * h implies #[trigger] edge_map(rgba, w, h)[p] == 0 by {
        let x = p % w;
        let y = p / w;
        assert(lum_at(rgba, w, h, x - 1, y - 1) == l);
        assert(lum_at(rgba, w, h, x, y - 1) == l);
        assert(lum_at(rgba, w, h, x + 1, y - 1) == l);
        assert(lum_at(rgba, w, h, x - 1, y) == l);
        assert(lum_at(rgba, w, h, x + 1, y) == l);
        assert(lum_at(rgba, w, h, x - 1, y + 1) == l);
        assert(lum_at(rgba, w, h, x, y + 1) == l);
        assert(lum_at(rgba, w, h, x + 1, y + 1) == l);
        assert(isqrt(0) == 0);
    };
}

/// The edge value of one interior pixel.
fn sobel_at(rgba: &[u8], width: usize, height: usize, xu: usize, yu: usize) -> (r: u16)
    requires
        width * height * 4 <= rgba@.len(),
        0 < xu < width - 1,
        0 < yu < height - 1,
    ensures
        r as int == edge_magnitude(
            sobel_x(rgba@, width as int, height as int, xu as int, yu as int),
            sobel_y(rgba@, width as int, height as int, xu as int, yu as int),
        ),
{
    let n_in: usize = rgba.len();
    assert(width <= width * height && height <= width * height) by (nonlinear_arith)
        requires
            yu < height,
            xu < width,
    ;
    let x: i64 = xu as i64;
    let y: i64 = yu as i64;
    let nw: i64 = sample_luminance(rgba, width, height, x - 1, y - 1) as i64;
    let n: i64 = sample_luminance(rgba, width, height, x, y - 1) as i64;
    let ne: i64 = sample_luminance(rgba, width, height, x + 1, y - 1) as i64;
    let w: i64 = sample_luminance(rgba, width, height, x - 1, y) as i64;
    let e: i64 = sample_luminance(rgba, width, height, x + 1, y) as i64;
    let sw: i64 = sample_luminance(rgba, width, height, x - 1, y + 1) as i64;
    let s: i64 = sample_luminance(rgba, width, height, x, y + 1) as i64;
    let se: i64 = sample_luminance(rgba, width, height, x + 1, y + 1) as i64;
    let gx: i64 = (ne + 2 * e + se) - (nw + 2 * w + sw);
    let gy: i64 = (sw + 2 * s + se) - (nw + 2 * n + ne);
    assert(0 <= gx * gx <= 1040400 && 0 <= gy * gy <= 1040400) by (nonlinear_arith)
        requires
            -1020 <= gx <= 1020,
            -1020 <= gy <= 1020,
    ;
    let sq: u128 = (gx * gx + gy * gy) as u128;
    assert(65536 * sq < crate::roots::ROOT_LIMIT);
    let m: u128 = floor_sqrt(65536 * sq);
    if m > EDGE_MAX as u128 {
        EDGE_MAX
    } else {
        m as u16
    }
}

/// The edge map of the `width` by `height` RGBA image held at the front of `rgba`.
pub fn edge_map_of(rgba: &[u8], width: usize, height: usize) -> (out: Vec<u16>)
    requires
        width * height * 4 <= rgba@.len(),
    ensures
        out@ == edge_map(rgba@, width as int, height as int),
        out@.len() == width * height,
{
    let mut out: Vec<u16> = Vec::new();
    let mut y: usize = 0;
    while y < height
        invariant
            y <= height,
            width * height * 4 <= rgba@.len(),
            out@.len() == y * width,
            forall|p: int|
                0 <= p < out@.len() ==> out@[p] as int == edge_value(
                    rgba@,
                    width as int,
                    height as int,
                    p % (width as int),
                    p / (width as int),
                ),
        decreases height - y,
    {
        let mut x: usize = 0;
        while x < width
            invariant
                x <= width,
                y < height,
                width * height * 4 <= rgba@.len(),
                out@.len() == y * width + x,
                forall|p: int|
                    0 <= p < out@.len() ==> out@[p] as int == edge_value(
                        rgba@,
                        width as int,
                        height as int,
                        p % (width as int),
                        p / (width as int),
                    ),
            decreases width - x,
        {
            proof {
                lemma_split_index(y * width + x, 1, width as int, x as int, y as int, 0);
            }
            if x == 0 || y == 0 || x == width - 1 || y == height - 1 {
                out.push(0);
            } else {
                let v: u16 = sobel_at(rgba, width, height, x, y);
                out.push(v);
            }
            x = x + 1;
        }
        assert(out@.len() == (y + 1) * width) by (nonlinear_arith)
            requires
                out@.len() == y * width + width,
        ;
        y = y + 1;
    }
    assert(out@.len() == width * height) by (nonlinear_arith)
        requires
            out@.len() == height * width,
    ;
    assert(out@ =~= edge_map(rgba@, width as int, height as int));
    out
}

} // verus!
