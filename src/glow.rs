//! Neon glow: brightness spreads from strong edge pixels into a square
//! neighbourhood, in one in-place forward sweep over the edge map.
//!
//! Intensity is given in hundredths (100 is an intensity of 1).
use vstd::prelude::*;
use crate::roots::{csqrt, ceil_sqrt, ROOT_LIMIT};
use crate::luma::{clamp, lemma_pixel_in_image};

verus! {

/// Neighbourhood radius in pixels.
pub const GLOW_RADIUS: i64 = 3;

/// An edge value above this (a magnitude of 50, in fixed point) spreads glow.
pub const GLOW_THRESHOLD: u16 = 12800;

/// Offsets per neighbourhood: a 7 by 7 square.
pub const GLOW_OFFSETS: u64 = 49;

/// Amount added to each colour channel of a neighbour at squared distance `d2`
/// from an edge pixel of value `e`: `floor(100 * i * (m / 255) * max(0, 1 - sqrt(d2) / 3))`
/// with `m = e / 256` the magnitude and `i = inten / 100` the intensity.
///
/// With `a = inten * e` this is `floor((3a - a sqrt(d2)) / 195840)`, and since
/// `3a` is whole, rounding `a sqrt(d2)` up first does not change the floor.
pub open spec fn glow_add(e: int, inten: int, d2: int) -> int {
    let a = inten * e;
    let v = 3 * a - csqrt((a * a * d2) as nat) as int;
    if v > 0 {
        v / 195840
    } else {
        0
    }
}

/// A channel brightened by `add`, saturating at 255.
pub open spec fn brighten(v: u8, add: int) -> u8 {
    if v as int + add >= 255 {
        255
    } else {
        (v as int + add) as u8
    }
}

/// Offset `m` of the neighbourhood, row by row: `(m % 7 - 3, m / 7 - 3)`.
pub open spec fn offset_x(m: int) -> int {
    m % 7 - 3
}

pub open spec fn offset_y(m: int) -> int {
    m / 7 - 3
}

/// Applies offset `m` of the neighbourhood of edge pixel `p` to `buf`.
pub open spec fn apply_offset(
    buf: Seq<u8>,
    e: int,
    w: int,
    h: int,
    inten: int,
    p: int,
    m: int,
) -> Seq<u8> {
    let gx = offset_x(m);
    let gy = offset_y(m);
    let nx = clamp(p % w + gx, w - 1);
    let ny = clamp(p / w + gy, h - 1);
    let idx = (ny * w + nx) * 4;
    let add = glow_add(e, inten, gx * gx + gy * gy);
    buf.update(idx, brighten(buf[idx], add)).update(idx + 1, brighten(buf[idx + 1], add)).update(
        idx + 2,
        brighten(buf[idx + 2], add),
    )
}

/// `buf` after the first `m` offsets of the neighbourhood of edge pixel `p`.
pub open spec fn spread(
    buf: Seq<u8>,
    e: int,
    w: int,
    h: int,
    inten: int,
    p: int,
    m: nat,
) -> Seq<u8>
    decreases m,
{
    if m == 0 {
        buf
    } else {
        apply_offset(spread(buf, e, w, h, inten, p, (m - 1) as nat), e, w, h, inten, p, m - 1)
    }
}

/// `rgba` after the sweep has visited the first `n` pixels of the edge map.
pub open spec fn swept(
    rgba: Seq<u8>,
    edges: Seq<u16>,
    w: int,
    h: int,
    inten: int,
    n: nat,
) -> Seq<u8>
    decreases n,
{
    if n == 0 {
        rgba
    } else {
        let prev = swept(rgba, edges, w, h, inten, (n - 1) as nat);
        let e = edges[n - 1];
        if e > GLOW_THRESHOLD {
            spread(prev, e as int, w, h, inten, n - 1, GLOW_OFFSETS as nat)
        } else {
            prev
        }
    }
}

/// The glow composite of `rgba` over a `w` by `h` edge map.
pub open spec fn glowed(rgba: Seq<u8>, edges: Seq<u16>, w: int, h: int, inten: int) -> Seq<u8> {
    swept(rgba, edges, w, h, inten, (w * h) as nat)
}

/// The neighbour touched by offset `m` of edge pixel `p` lies in the image.
proof fn lemma_offset_in_image(w: int, h: int, p: int, m: int)
    requires
        0 <= w,
        0 <= h,
        0 <= p < w * h,
    ensures
        0 <= (clamp(p / w + offset_y(m), h - 1) * w + clamp(p % w + offset_x(m), w - 1)) * 4,
        (clamp(p / w + offset_y(m), h - 1) * w + clamp(p % w + offset_x(m), w - 1)) * 4 + 4 <= w
            * h * 4,
{
    assert(w >= 1 && h >= 1) by (nonlinear_arith)
        requires
            0 <= p < w * h,
            0 <= w,
            0 <= h,
    ;
    lemma_pixel_in_image(
        w,
        h,
        clamp(p % w + offset_x(m), w - 1),
        clamp(p / w + offset_y(m), h - 1),
    );
}

/// Spreading glow keeps the buffer's length.
pub proof fn lemma_spread_len(
    buf: Seq<u8>,
    e: int,
    w: int,
    h: int,
    inten: int,
    p: int,
    m: nat,
)
    requires
        0 <= p < w * h,
        w * h * 4 <= buf.len(),
        0 <= w,
        0 <= h,
    ensures
        spread(buf, e, w, h, inten, p, m).len() == buf.len(),
    decreases m,
{
    if m > 0 {
        lemma_spread_len(buf, e, w, h, inten, p, (m - 1) as nat);
        lemma_offset_in_image(w, h, p, m - 1);
    }
}

/// The sweep keeps the buffer's length.
pub proof fn lemma_swept_len(rgba: Seq<u8>, edges: Seq<u16>, w: int, h: int, inten: int, n: nat)
    requires
        n <= w * h,
        w * h * 4 <= rgba.len(),
        edges.len() == w * h,
        0 <= w,
        0 <= h,
    ensures
        swept(rgba, edges, w, h, inten, n).len() == rgba.len(),
    decreases n,
{
    if n > 0 {
        lemma_swept_len(rgba, edges, w, h, inten, (n - 1) as nat);
        lemma_spread_len(
            swept(rgba, edges, w, h, inten, (n - 1) as nat),
            edges[n - 1] as int,
            w,
            h,
            inten,
            n - 1,
            GLOW_OFFSETS as nat,
        );
    }
}

/// The glow composite has the length of its input.
pub proof fn lemma_glowed_len(rgba: Seq<u8>, edges: Seq<u16>, w: int, h: int, inten: int)
    requires
        w >= 0,
        h >= 0,
        w * h * 4 <= rgba.len(),
        edges.len() == w * h,
    ensures
        glowed(rgba, edges, w, h, inten).len() == rgba.len(),
{
    assert(w * h >= 0) by (nonlinear_arith)
        requires
            w >= 0,
            h >= 0,
    ;
    lemma_swept_len(rgba, edges, w, h, inten, (w * h) as nat);
}

/// No glow reaches a neighbour at distance 3 or more from the edge pixel.
pub proof fn lemma_no_glow_beyond_radius(e: int, inten: int, d2: int)
    requires
        0 <= e,
        0 <= inten,
        9 <= d2,
    ensures
        glow_add(e, inten, d2) == 0,
{
    let a = inten * e;
    assert(a >= 0) by (nonlinear_arith)
        requires
            a == inten * e,
            0 <= e,
            0 <= inten,
    ;
    let n = a * a * d2;
    assert(n >= 0) by (nonlinear_arith)
        requires
            n == a * a * d2,
            d2 >= 0,
    ;
    crate::roots::lemma_csqrt_bounds(n as nat);
    let c = csqrt(n as nat) as int;
    assert(c >= 3 * a) by (nonlinear_arith)
        requires
            n <= c * c,
            n == a * a * d2,
            d2 >= 9,
            a >= 0,
            c >= 0,
    ;
}

/// A larger intensity never gives a smaller increment.
pub proof fn lemma_glow_add_monotone(e: int, i1: int, i2: int, d2: int)
    requires
        0 <= e,
        0 <= i1 <= i2,
        0 <= d2,
    ensures
        glow_add(e, i1, d2) <= glow_add(e, i2, d2),
{
    let a1 = i1 * e;
    let a2 = i2 * e;
    assert(0 <= a1 <= a2) by (nonlinear_arith)
        requires
            a1 == i1 * e,
            a2 == i2 * e,
            0 <= e,
            0 <= i1 <= i2,
    ;
    let n1 = a1 * a1 * d2;
    let n2 = a2 * a2 * d2;
    assert(n1 >= 0 && n2 >= 0) by (nonlinear_arith)
        requires
            n1 == a1 * a1 * d2,
            n2 == a2 * a2 * d2,
            d2 >= 0,
    ;
    crate::roots::lemma_csqrt_bounds(n1 as nat);
    crate::roots::lemma_csqrt_bounds(n2 as nat);
    let c1 = csqrt(n1 as nat) as int;
    let c2 = csqrt(n2 as nat) as int;
    if d2 > 9 {
        assert(c2 >= 3 * a2) by (nonlinear_arith)
            requires
                n2 <= c2 * c2,
                n2 == a2 * a2 * d2,
                d2 > 9,
                a2 >= 0,
                c2 >= 0,
        ;
        assert(c1 >= 3 * a1) by (nonlinear_arith)
            requires
                n1 <= c1 * c1,
                n1 == a1 * a1 * d2,
                d2 > 9,
                a1 >= 0,
                c1 >= 0,
        ;
    } else {
        let dd = a2 - a1;
        assert(3 * c1 >= a1 * d2) by (nonlinear_arith)
            requires
                n1 <= c1 * c1,
                n1 == a1 * a1 * d2,
                0 <= d2 <= 9,
                a1 >= 0,
                c1 >= 0,
        ;
        assert((c1 + 3 * dd) * (c1 + 3 * dd) >= n2) by (nonlinear_arith)
            requires
                n1 <= c1 * c1,
                3 * c1 >= a1 * d2,
                n2 == a2 * a2 * d2,
                n1 == a1 * a1 * d2,
                a2 == a1 + dd,
                dd >= 0,
                0 <= d2 <= 9,
        ;
        if c2 > c1 + 3 * dd {
            assert((c2 - 1) * (c2 - 1) >= (c1 + 3 * dd) * (c1 + 3 * dd)) by (nonlinear_arith)
                requires
                    c2 - 1 >= c1 + 3 * dd,
                    c1 + 3 * dd >= 0,
            ;
        }
        assert(c2 <= c1 + 3 * dd);
        let v1 = 3 * a1 - c1;
        let v2 = 3 * a2 - c2;
        assert(v1 <= v2);
        if v1 > 0 {
            assert(v1 / 195840 <= v2 / 195840) by (nonlinear_arith)
                requires
                    0 < v1 <= v2,
            ;
        }
    }
}

/// `a` is at most `b` at every position, and both have the same length.
pub open spec fn pointwise_le(a: Seq<u8>, b: Seq<u8>) -> bool {
    a.len() == b.len() && forall|i: int| 0 <= i < a.len() ==> a[i] <= #[trigger] b[i]
}

proof fn lemma_spread_monotone(
    b1: Seq<u8>,
    b2: Seq<u8>,
    e: int,
    w: int,
    h: int,
    i1: int,
    i2: int,
    p: int,
    m: nat,
)
    requires
        pointwise_le(b1, b2),
        0 <= p < w * h,
        w * h * 4 <= b1.len(),
        0 <= e,
        0 <= i1 <= i2,
        0 <= w,
        0 <= h,
    ensures
        pointwise_le(spread(b1, e, w, h, i1, p, m), spread(b2, e, w, h, i2, p, m)),
    decreases m,
{
    if m > 0 {
        let k = m - 1;
        lemma_spread_monotone(b1, b2, e, w, h, i1, i2, p, k as nat);
        lemma_spread_len(b1, e, w, h, i1, p, k as nat);
        lemma_spread_len(b2, e, w, h, i2, p, k as nat);
        lemma_offset_in_image(w, h, p, k);
        let gx = offset_x(k);
        let gy = offset_y(k);
        assert(gx * gx + gy * gy >= 0) by (nonlinear_arith);
        lemma_glow_add_monotone(e, i1, i2, gx * gx + gy * gy);
    }
}

/// Raising the intensity never darkens any byte of the glow composite.
pub proof fn lemma_glowed_monotone_in_intensity(
    rgba: Seq<u8>,
    edges: Seq<u16>,
    w: int,
    h: int,
    i1: int,
    i2: int,
)
    requires
        w >= 0,
        h >= 0,
        w * h * 4 <= rgba.len(),
        edges.len() == w * h,
        0 <= i1 <= i2,
    ensures
        pointwise_le(glowed(rgba, edges, w, h, i1), glowed(rgba, edges, w, h, i2)),
{
    assert(w * h >= 0) by (nonlinear_arith)
        requires
            w >= 0,
            h >= 0,
    ;
    lemma_swept_monotone(rgba, edges, w, h, i1, i2, (w * h) as nat);
}

proof fn lemma_swept_monotone(
    rgba: Seq<u8>,
    edges: Seq<u16>,
    w: int,
    h: int,
    i1: int,
    i2: int,
    n: nat,
)
    requires
        n <= w * h,
        w * h * 4 <= rgba.len(),
        edges.len() == w * h,
        0 <= i1 <= i2,
        0 <= w,
        0 <= h,
    ensures
        pointwise_le(swept(rgba, edges, w, h, i1, n), swept(rgba, edges, w, h, i2, n)),
    decreases n,
{
    if n > 0 {
        let k = (n - 1) as nat;
        lemma_swept_monotone(rgba, edges, w, h, i1, i2, k);
        lemma_swept_len(rgba, edges, w, h, i1, k);
        lemma_spread_monotone(
            swept(rgba, edges, w, h, i1, k),
            swept(rgba, edges, w, h, i2, k),
            edges[n - 1] as int,
            w,
            h,
            i1,
            i2,
            n - 1,
            GLOW_OFFSETS as nat,
        );
    }
}

/// The channel increment of `glow_add`.
fn glow_amount(e: u16, inten: u32, d2: u64) -> (r: u64)
    requires
        d2 <= 18,
    ensures
        r as int == glow_add(e as int, inten as int, d2 as int),
{
    assert((inten as u128) * (e as u128) <= 0xFFFF_FFFFu128 * 0xFFFF) by (nonlinear_arith)
        requires
            inten <= 0xFFFF_FFFF,
            e <= 0xFFFF,
    ;
    let a: u128 = (inten as u128) * (e as u128);
    assert(a * a <= (0xFFFF_FFFFu128 * 0xFFFF) * (0xFFFF_FFFFu128 * 0xFFFF)) by (nonlinear_arith)
        requires
            a <= 0xFFFF_FFFFu128 * 0xFFFF,
    ;
    assert(a * a * d2 < ROOT_LIMIT) by (nonlinear_arith)
        requires
            a == inten * e,
            inten <= 0xFFFF_FFFF,
            e <= 0xFFFF,
            d2 <= 18,
            ROOT_LIMIT == 0x100_0000_0000_0000_0000_0000_0000_0000u128,
    ;
    let c: u128 = ceil_sqrt(a * a * (d2 as u128));
    if 3 * a > c {
        assert((3 * a - c) / 195840 <= 3 * a);
        ((3 * a - c) / 195840) as u64
    } else {
        0
    }
}

/// Brightens `rgba`, a buffer whose rows are `width` pixels apart, around
/// every pixel of the `width` by `height` edge map whose value is above the
/// threshold.
pub fn glow_composite(rgba: &[u8], edges: &[u16], width: usize, height: usize, inten: u32) -> (out:
    Vec<u8>)
    requires
        edges@.len() == width * height,
        width * height * 4 <= rgba@.len(),
    ensures
        out@ == glowed(rgba@, edges@, width as int, height as int, inten as int),
        out@.len() == rgba@.len(),
        forall|i: int| 0 <= i < rgba@.len() ==> out@[i] >= #[trigger] rgba@[i],
        forall|i: int| 0 <= i < rgba@.len() && i % 4 == 3 ==> out@[i] == #[trigger] rgba@[i],
{
    let mut out: Vec<u8> = vstd::slice::slice_to_vec(rgba);
    let ghost (w, h, it) = (width as int, height as int, inten as int);
    let mut y: usize = 0;
    while y < height
        invariant
            y <= height,
            edges@.len() == width * height,
            width * height * 4 <= rgba@.len(),
            w == width,
            h == height,
            it == inten,
            out@.len() == rgba@.len(),
            out@ == swept(rgba@, edges@, w, h, it, (y * width) as nat),
            forall|i: int| 0 <= i < rgba@.len() ==> out@[i] >= #[trigger] rgba@[i],
            forall|i: int| 0 <= i < rgba@.len() && i % 4 == 3 ==> out@[i] == #[trigger] rgba@[i],
        decreases height - y,
    {
        let mut x: usize = 0;
        while x < width
            invariant
                x <= width,
                y < height,
                edges@.len() == width * height,
                width * height * 4 <= rgba@.len(),
                w == width,
                h == height,
                it == inten,
                out@.len() == rgba@.len(),
                out@ == swept(rgba@, edges@, w, h, it, (y * width + x) as nat),
                forall|i: int| 0 <= i < rgba@.len() ==> out@[i] >= #[trigger] rgba@[i],
                forall|i: int| 0 <= i < rgba@.len() && i % 4 == 3 ==> out@[i] == #[trigger] rgba@[i],
            decreases width - x,
        {
            let n_in: usize = rgba.len();
            proof {
                lemma_pixel_in_image(w, h, x as int, y as int);
                assert(width <= width * height && height <= width * height) by (nonlinear_arith)
                    requires
                        y < height,
                        x < width,
                ;
            }
            let p: usize = y * width + x;
            let e: u16 = edges[p];
            if e > GLOW_THRESHOLD {
                let ghost before = out@;
                let mut m: u64 = 0;
                while m < GLOW_OFFSETS
                    invariant
                        m <= GLOW_OFFSETS,
                        width <= width * height,
                        height <= width * height,
                        rgba@.len() <= usize::MAX,
                        x < width,
                        y < height,
                        p == y * width + x,
                        edges@.len() == width * height,
                        width * height * 4 <= rgba@.len(),
                        w == width,
                        h == height,
                        it == inten,
                        out@.len() == rgba@.len(),
                        out@ == spread(before, e as int, w, h, it, p as int, m as nat),
                        forall|i: int| 0 <= i < rgba@.len() ==> out@[i] >= #[trigger] rgba@[i],
                        forall|i: int| 0 <= i < rgba@.len() && i % 4 == 3 ==> out@[i] == #[trigger] rgba@[i],
                    decreases GLOW_OFFSETS - m,
                {
                    let gx: i64 = (m % 7) as i64 - GLOW_RADIUS;
                    let gy: i64 = (m / 7) as i64 - GLOW_RADIUS;
                    assert(-3 <= gx <= 3 && -3 <= gy <= 3);
                    assert(0 <= gx * gx <= 9 && 0 <= gy * gy <= 9) by (nonlinear_arith)
                        requires
                            -3 <= gx <= 3,
                            -3 <= gy <= 3,
                    ;
                    let xi: i64 = x as i64 + gx;
                    let yi: i64 = y as i64 + gy;
                    let nx: usize = if xi < 0 {
                        0
                    } else if xi as u64 > (width - 1) as u64 {
                        width - 1
                    } else {
                        xi as usize
                    };
                    let ny: usize = if yi < 0 {
                        0
                    } else if yi as u64 > (height - 1) as u64 {
                        height - 1
                    } else {
                        yi as usize
                    };
                    proof {
                        lemma_pixel_in_image(w, h, nx as int, ny as int);
                        assert(p as int % w == x && p as int / w == y) by {
                            crate::luma::lemma_split_index(p as int, 1, w, x as int, y as int, 0);
                        };
                    }
                    let d2: u64 = (gx * gx + gy * gy) as u64;
                    let add: u64 = glow_amount(e, inten, d2);
                    let idx: usize = (ny * width + nx) * 4;
                    let ghost q = ny * width + nx;
                    let ghost mid = out@;
                    let mut c: usize = 0;
                    while c < 3
                        invariant
                            c <= 3,
                            rgba@.len() <= usize::MAX,
                            idx + 4 <= rgba@.len(),
                            idx == q * 4,
                            q >= 0,
                            out@.len() == rgba@.len(),
                            out@.len() == mid.len(),
                            forall|i: int|
                                0 <= i < out@.len() && (i < idx || i >= idx + c) ==> out@[i]
                                    == mid[i],
                            forall|i: int|
                                idx <= i < idx + c ==> out@[i] == brighten(mid[i], add as int),
                            forall|i: int| 0 <= i < rgba@.len() ==> out@[i] >= #[trigger] rgba@[i],
                            forall|i: int| 0 <= i < rgba@.len() && i % 4 == 3 ==> out@[i] == #[trigger] rgba@[i],
                            forall|i: int| 0 <= i < rgba@.len() ==> mid[i] >= #[trigger] rgba@[i],
                        decreases 3 - c,
                    {
                        let v: u8 = out[idx + c];
                        let nv: u8 = if add >= (255 - v) as u64 {
                            255
                        } else {
                            v + add as u8
                        };
                        proof {
                            vstd::arithmetic::div_mod::lemma_fundamental_div_mod_converse(
                                idx + c,
                                4,
                                q,
                                c as int,
                            );
                        }
                        out.set(idx + c, nv);
                        c = c + 1;
                    }
                    proof {
                        let gxi = offset_x(m as int);
                        let gyi = offset_y(m as int);
                        assert(gx == gxi && gy == gyi);
                        assert(out@ =~= apply_offset(mid, e as int, w, h, it, p as int, m as int));
                    }
                    m = m + 1;
                }
            }
            proof {
                assert(y * width + x + 1 == (y * width + x + 1) as nat);
            }
            x = x + 1;
        }
        assert((y + 1) * width == y * width + width) by (nonlinear_arith);
        y = y + 1;
    }
    assert(height * width == width * height) by (nonlinear_arith);
    out
}

} // verus!
