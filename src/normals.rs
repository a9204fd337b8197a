//! Normal-map synthesis: luminance is read as a height field and each
//! interior pixel gets the unit normal of `(-dx, -dy, 1)`.
use vstd::prelude::*;
use crate::roots::{isqrt, csqrt, floor_sqrt, ceil_sqrt, lemma_isqrt_bounds, lemma_csqrt_bounds, lemma_isqrt_of_square};
use crate::luma::{lum_at, sample_luminance, lemma_split_index};

verus! {

/// The byte stored for a flat normal and for every border pixel.
pub const NEUTRAL: u8 = 128;

/// `floor(255 * n / sqrt(s))`, for `s > 0`.
///
/// For `n >= 0` this is the floor root of `floor(255² n² / s)`; for `n < 0`
/// it is minus the ceiling root of `ceil(255² n² / s)`.
pub open spec fn ratio_floor(n: int, s: int) -> int {
    if n >= 0 {
        isqrt((65025 * n * n / s) as nat) as int
    } else {
        -(csqrt(((65025 * n * n + s - 1) / s) as nat) as int)
    }
}

/// A normal component `n / sqrt(s)` in `[-1, 1]` stored as a byte:
/// `floor((n / sqrt(s) + 1) * 127.5)`, which is `floor((255 + floor(255 n / sqrt(s))) / 2)`.
pub open spec fn normal_byte(n: int, s: int) -> int {
    (255 + ratio_floor(n, s)) / 2
}

/// Whether `(x, y)` lies on the one-pixel border of a `w` by `h` image.
pub open spec fn on_border(w: int, h: int, x: int, y: int) -> bool {
    x == 0 || y == 0 || x == w - 1 || y == h - 1
}

/// Component `k` (0: X, 1: Y, 2: Z) of the stored normal of pixel `(x, y)`.
/// Twice the tangent-space vector is `(L - R, U - D, 2)` with `L, R, U, D` the
/// luminances of the four axis neighbours.
pub open spec fn normal_component(rgba: Seq<u8>, w: int, h: int, x: int, y: int, k: int) -> int {
    if on_border(w, h, x, y) {
        NEUTRAL as int
    } else {
        let nx = lum_at(rgba, w, h, x - 1, y) - lum_at(rgba, w, h, x + 1, y);
        let ny = lum_at(rgba, w, h, x, y - 1) - lum_at(rgba, w, h, x, y + 1);
        let s = nx * nx + ny * ny + 4;
        if k == 0 {
            normal_byte(nx, s)
        } else if k == 1 {
            normal_byte(ny, s)
        } else {
            normal_byte(2, s)
        }
    }
}

/// The whole normal map of a `w` by `h` image: three bytes per pixel, row-major.
pub open spec fn normal_map(rgba: Seq<u8>, w: int, h: int) -> Seq<u8> {
    Seq::new(
        (w * h * 3) as nat,
        |j: int| normal_component(rgba, w, h, (j / 3) % w, (j / 3) / w, j % 3) as u8,
    )
}

/// Where every pixel has the same luminance, every interior normal points
/// straight out of the plane: its Z byte is 255.
pub proof fn lemma_flat_normal_z(rgba: Seq<u8>, w: int, h: int, x: int, y: int, l: int)
    requires
        0 < x < w - 1,
        0 < y < h - 1,
        forall|xx: int, yy: int| #[trigger] lum_at(rgba, w, h, xx, yy) == l,
    ensures
        normal_component(rgba, w, h, x, y, 2) == 255,
{
    assert(lum_at(rgba, w, h, x - 1, y) == l);
    assert(lum_at(rgba, w, h, x + 1, y) == l);
    assert(lum_at(rgba, w, h, x, y - 1) == l);
    assert(lum_at(rgba, w, h, x, y + 1) == l);
    lemma_isqrt_of_square(255);
    assert(65025 * 2 * 2 / 4 == 255 * 255);
    assert(isqrt(65025) == 255);
    assert(ratio_floor(2, 4) == 255);
    assert(normal_byte(2, 4) == 255);
    let nx = lum_at(rgba, w, h, x - 1, y) - lum_at(rgba, w, h, x + 1, y);
    let ny = lum_at(rgba, w, h, x, y - 1) - lum_at(rgba, w, h, x, y + 1);
    assert(nx == 0 && ny == 0);
    assert(nx * nx + ny * ny + 4 == 4);
}

/// Stores the component `n / sqrt(s)` as a byte.
pub fn normal_component_byte(n: i64, s: u64) -> (r: u8)
    requires
        -255 <= n <= 255,
        n * n <= s <= 200000,
        1 <= s,
    ensures
        r as int == normal_byte(n as int, s as int),
{
    assert(0 <= n * n <= 65025) by (nonlinear_arith)
        requires
            -255 <= n <= 255,
    ;
    let mag: u128 = (n * n) as u128 * 65025;
    let su: u128 = s as u128;
    assert(mag <= 65025 * s) by (nonlinear_arith)
        requires
            mag == n * n * 65025,
            n * n <= s,
    ;
    let ratio: i64 = if n >= 0 {
        let q: u128 = mag / su;
        let r: u128 = floor_sqrt(q);
        proof {
            lemma_isqrt_bounds(q as nat);
            assert(q <= 65025) by (nonlinear_arith)
                requires
                    q == mag / su,
                    mag <= 65025 * su,
                    su >= 1,
            ;
            assert(r <= 255) by (nonlinear_arith)
                requires
                    r * r <= q,
                    q <= 65025,
            ;
            assert(65025 * n * n == mag) by (nonlinear_arith)
                requires
                    mag == (n * n) * 65025,
            ;
        }
        r as i64
    } else {
        let q: u128 = (mag + su - 1) / su;
        let r: u128 = ceil_sqrt(q);
        proof {
            lemma_csqrt_bounds(q as nat);
            assert(q <= 65025) by (nonlinear_arith)
                requires
                    q as int == (mag as int + su as int - 1) / (su as int),
                    mag <= 65025 * su,
                    su >= 1,
            ;
            assert(r <= 255) by (nonlinear_arith)
                requires
                    r == 0 || (r - 1) * (r - 1) < q,
                    q <= 65025,
            ;
            assert(65025 * n * n == mag) by (nonlinear_arith)
                requires
                    mag == (n * n) * 65025,
            ;
        }
        -(r as i64)
    };
    ((255 + ratio) / 2) as u8
}

/// The normal map of the `width` by `height` RGBA image held at the front of `rgba`.
pub fn normal_map_of(rgba: &[u8], width: usize, height: usize) -> (out: Vec<u8>)
    requires
        width * height * 4 <= rgba@.len(),
    ensures
        out@ == normal_map(rgba@, width as int, height as int),
        out@.len() == width * height * 3,
{
    let mut out: Vec<u8> = Vec::new();
    let mut y: usize = 0;
    while y < height
        invariant
            y <= height,
            width * height * 4 <= rgba@.len(),
            out@.len() == y * width * 3,
            forall|j: int|
                0 <= j < out@.len() ==> out@[j] as int == normal_component(
                    rgba@,
                    width as int,
                    height as int,
                    (j / 3) % (width as int),
                    (j / 3) / (width as int),
                    j % 3,
                ),
        decreases height - y,
    {
        let mut x: usize = 0;
        while x < width
            invariant
                x <= width,
                y < height,
                width * height * 4 <= rgba@.len(),
                out@.len() == (y * width + x) * 3,
                forall|j: int|
                    0 <= j < out@.len() ==> out@[j] as int == normal_component(
                        rgba@,
                        width as int,
                        height as int,
                        (j / 3) % (width as int),
                        (j / 3) / (width as int),
                        j % 3,
                    ),
            decreases width - x,
        {
            let ghost base = (y * width + x) * 3;
            proof {
                lemma_split_index(base, 3, width as int, x as int, y as int, 0);
                lemma_split_index(base + 1, 3, width as int, x as int, y as int, 1);
                lemma_split_index(base + 2, 3, width as int, x as int, y as int, 2);
            }
            if x == 0 || y == 0 || x == width - 1 || y == height - 1 {
                out.push(NEUTRAL);
                out.push(NEUTRAL);
                out.push(NEUTRAL);
            } else {
                assert(width <= width * height && height <= width * height) by (nonlinear_arith)
                    requires
                        y < height,
                        x < width,
                ;
                let n_in: usize = rgba.len();
                let xi: i64 = x as i64;
                let yi: i64 = y as i64;
                let left: i64 = sample_luminance(rgba, width, height, xi - 1, yi) as i64;
                let right: i64 = sample_luminance(rgba, width, height, xi + 1, yi) as i64;
                let up: i64 = sample_luminance(rgba, width, height, xi, yi - 1) as i64;
                let down: i64 = sample_luminance(rgba, width, height, xi, yi + 1) as i64;
                let nx: i64 = left - right;
                let ny: i64 = up - down;
                assert(nx * nx <= 65025 && ny * ny <= 65025) by (nonlinear_arith)
                    requires
                        -255 <= nx <= 255,
                        -255 <= ny <= 255,
                ;
                assert(0 <= nx * nx && 0 <= ny * ny) by (nonlinear_arith);
                let s: u64 = (nx * nx + ny * ny + 4) as u64;
                let bx: u8 = normal_component_byte(nx, s);
                let by: u8 = normal_component_byte(ny, s);
                let bz: u8 = normal_component_byte(2, s);
                out.push(bx);
                out.push(by);
                out.push(bz);
            }
            x = x + 1;
        }
        assert(out@.len() == (y + 1) * width * 3) by (nonlinear_arith)
            requires
                out@.len() == (y * width + width) * 3,
        ;
        y = y + 1;
    }
    assert(out@.len() == width * height * 3) by (nonlinear_arith)
        requires
            out@.len() == height * width * 3,
    ;
    assert(out@ =~= normal_map(rgba@, width as int, height as int));
    out
}

} // verus!
