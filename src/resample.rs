//! Bilinear resampling of an RGBA image to another resolution.
use vstd::prelude::*;
use crate::luma::{lemma_pixel_in_image, lemma_split_index};

verus! {

/// The source row or column `v` one step further on, replicating the last one.
pub open spec fn next_clamped(v: int, n: int) -> int {
    if v + 1 < n {
        v + 1
    } else {
        n - 1
    }
}

/// Channel `c` of destination pixel `(x, y)`: the source point is
/// `(x * sw / dw, y * sh / dh)` exactly; its four grid neighbours are blended
/// with the weights `(1-fx)(1-fy), fx(1-fy), (1-fx)fy, fx fy` and the blend is
/// truncated. `fx` and `fy` are the fractions `x * sw % dw / dw` and
/// `y * sh % dh / dh`, so the blend is scaled by `dw * dh` before dividing.
pub open spec fn resampled_channel(
    src: Seq<u8>,
    sw: int,
    sh: int,
    dw: int,
    dh: int,
    x: int,
    y: int,
    c: int,
) -> int {
    let x0 = x * sw / dw;
    let fx = x * sw % dw;
    let y0 = y * sh / dh;
    let fy = y * sh % dh;
    let x1 = next_clamped(x0, sw);
    let y1 = next_clamped(y0, sh);
    let p00 = src[(y0 * sw + x0) * 4 + c] as int;
    let p10 = src[(y0 * sw + x1) * 4 + c] as int;
    let p01 = src[(y1 * sw + x0) * 4 + c] as int;
    let p11 = src[(y1 * sw + x1) * 4 + c] as int;
    ((p00 * (dw - fx) + p10 * fx) * (dh - fy) + (p01 * (dw - fx) + p11 * fx) * fy) / (dw * dh)
}

/// Byte `i` of the resampled buffer.
pub open spec fn resampled_at(src: Seq<u8>, sw: int, sh: int, dw: int, dh: int, i: int) -> int {
    let p = i / 4;
    resampled_channel(src, sw, sh, dw, dh, p % dw, p / dw, i % 4)
}

/// The whole resampled buffer.
pub open spec fn resampled(src: Seq<u8>, sw: int, sh: int, dw: int, dh: int) -> Seq<u8> {
    Seq::new((dw * dh * 4) as nat, |i: int| resampled_at(src, sw, sh, dw, dh, i) as u8)
}

/// The blend of four bytes never leaves the byte range.
proof fn lemma_blend_bound(
    p00: int,
    p10: int,
    p01: int,
    p11: int,
    dw: int,
    dh: int,
    fx: int,
    fy: int,
)
    requires
        0 <= p00 <= 255,
        0 <= p10 <= 255,
        0 <= p01 <= 255,
        0 <= p11 <= 255,
        0 <= fx < dw,
        0 <= fy < dh,
    ensures
        0 <= (p00 * (dw - fx) + p10 * fx) * (dh - fy) + (p01 * (dw - fx) + p11 * fx) * fy,
        (p00 * (dw - fx) + p10 * fx) * (dh - fy) + (p01 * (dw - fx) + p11 * fx) * fy <= 255 * (dw
            * dh),
{
    let a = p00 * (dw - fx) + p10 * fx;
    let b = p01 * (dw - fx) + p11 * fx;
    assert(0 <= a <= 255 * dw) by (nonlinear_arith)
        requires
            a == p00 * (dw - fx) + p10 * fx,
            0 <= p00 <= 255,
            0 <= p10 <= 255,
            0 <= fx < dw,
    ;
    assert(0 <= b <= 255 * dw) by (nonlinear_arith)
        requires
            b == p01 * (dw - fx) + p11 * fx,
            0 <= p01 <= 255,
            0 <= p11 <= 255,
            0 <= fx < dw,
    ;
    assert(0 <= a * (dh - fy) + b * fy <= 255 * (dw * dh)) by (nonlinear_arith)
        requires
            0 <= a <= 255 * dw,
            0 <= b <= 255 * dw,
            0 <= fy < dh,
    ;
}

proof fn lemma_uniform_sample(
    src: Seq<u8>,
    sw: int,
    sh: int,
    colour: Seq<u8>,
    x: int,
    y: int,
    c: int,
)
    requires
        src.len() == sw * sh * 4,
        colour.len() == 4,
        forall|i: int| 0 <= i < src.len() ==> #[trigger] src[i] == colour[i % 4],
        0 <= x < sw,
        0 <= y < sh,
        0 <= c < 4,
    ensures
        src[(y * sw + x) * 4 + c] == colour[c],
{
    lemma_pixel_in_image(sw, sh, x, y);
    lemma_split_index((y * sw + x) * 4 + c, 4, sw, x, y, c);
}

/// A uniform source resamples to the same colour everywhere.
pub proof fn lemma_uniform_preserved(
    src: Seq<u8>,
    sw: int,
    sh: int,
    dw: int,
    dh: int,
    colour: Seq<u8>,
)
    requires
        sw >= 1,
        sh >= 1,
        dw >= 1,
        dh >= 1,
        src.len() == sw * sh * 4,
        colour.len() == 4,
        forall|i: int| 0 <= i < src.len() ==> #[trigger] src[i] == colour[i % 4],
    ensures
        forall|i: int|
            0 <= i < dw * dh * 4 ==> #[trigger] resampled(src, sw, sh, dw, dh)[i] == colour[i % 4],
{
    assert forall|i: int| 0 <= i < dw * dh * 4 implies #[trigger] resampled(
        src,
        sw,
        sh,
        dw,
        dh,
    )[i] == colour[i % 4] by {
        let p = i / 4;
        let c = i % 4;
        let x = p % dw;
        let y = p / dw;
        assert(0 <= p < dw * dh);
        assert(0 <= x < dw && 0 <= y < dh) by {
            assert(p / dw < dh) by (nonlinear_arith)
                requires
                    0 <= p < dw * dh,
                    dw >= 1,
            ;
        };
        let x0 = x * sw / dw;
        let fx = x * sw % dw;
        let y0 = y * sh / dh;
        let fy = y * sh % dh;
        assert(0 <= x0 < sw) by (nonlinear_arith)
            requires
                x0 == x * sw / dw,
                0 <= x < dw,
                sw >= 1,
        ;
        assert(0 <= y0 < sh) by (nonlinear_arith)
            requires
                y0 == y * sh / dh,
                0 <= y < dh,
                sh >= 1,
        ;
        let x1 = next_clamped(x0, sw);
        let y1 = next_clamped(y0, sh);
        let v = colour[c] as int;
        lemma_uniform_sample(src, sw, sh, colour, x0, y0, c);
        lemma_uniform_sample(src, sw, sh, colour, x1, y0, c);
        lemma_uniform_sample(src, sw, sh, colour, x0, y1, c);
        lemma_uniform_sample(src, sw, sh, colour, x1, y1, c);
        assert(src[(y0 * sw + x0) * 4 + c] == v);
        assert(src[(y0 * sw + x1) * 4 + c] == v);
        assert(src[(y1 * sw + x0) * 4 + c] == v);
        assert(src[(y1 * sw + x1) * 4 + c] == v);
        assert(0 <= fx < dw && 0 <= fy < dh);
        assert((v * (dw - fx) + v * fx) * (dh - fy) + (v * (dw - fx) + v * fx) * fy == v * (dw
            * dh)) by (nonlinear_arith);
        assert(v * (dw * dh) / (dw * dh) == v) by (nonlinear_arith)
            requires
                dw * dh >= 1,
        ;
        assert(dw * dh >= 1) by (nonlinear_arith)
            requires
                dw >= 1,
                dh >= 1,
        ;
        assert(0 <= v <= 255);
    };
}

/// Resamples the `sw` by `sh` RGBA image `src` to `dw` by `dh`.
pub fn resample_bilinear(src: &[u8], sw: u16, sh: u16, dw: u16, dh: u16) -> (out: Vec<u8>)
    requires
        sw >= 1,
        sh >= 1,
        dw >= 1,
        dh >= 1,
        src@.len() == sw * sh * 4,
        dw * dh * 4 <= usize::MAX,
    ensures
        out@ == resampled(src@, sw as int, sh as int, dw as int, dh as int),
        out@.len() == dw * dh * 4,
{

    let total: usize = (dw as usize) * (dh as usize) * 4;
    let mut out: Vec<u8> = Vec::with_capacity(total);
    let sw64: u64 = sw as u64;
    let sh64: u64 = sh as u64;
    let dw64: u64 = dw as u64;
    let dh64: u64 = dh as u64;
    assert(dw * dh >= 1) by (nonlinear_arith)
        requires
            dw >= 1,
            dh >= 1,
    ;
    let mut y: u64 = 0;
    while y < dh64
        invariant
            y <= dh64,
            sw64 == sw,
            sh64 == sh,
            dw64 == dw,
            dh64 == dh,
            sw >= 1,
            sh >= 1,
            dw >= 1,
            dh >= 1,
            src@.len() == sw * sh * 4,
            out@.len() == y * dw * 4,
            forall|j: int|
                0 <= j < out@.len() ==> out@[j] as int == resampled_at(
                    src@,
                    sw as int,
                    sh as int,
                    dw as int,
                    dh as int,
                    j,
                ),
        decreases dh64 - y,
    {
        assert(y * sh64 <= 0xFFFFu64 * 0xFFFFu64) by (nonlinear_arith)
            requires
                y < dh64,
                dh64 <= 0xFFFF,
                sh64 <= 0xFFFF,
        ;
        let y0: u64 = y * sh64 / dh64;
        let fy: u64 = y * sh64 % dh64;
        assert(y0 < sh) by (nonlinear_arith)
            requires
                y0 as int == (y as int) * (sh as int) / (dh as int),
                y < dh,
                sh >= 1,
        ;
        let y1: u64 = if y0 + 1 < sh64 {
            y0 + 1
        } else {
            sh64 - 1
        };
        let mut x: u64 = 0;
        while x < dw64
            invariant
                x <= dw64,
                y < dh64,
                sw64 == sw,
                sh64 == sh,
                dw64 == dw,
                dh64 == dh,
                sw >= 1,
                sh >= 1,
                dw >= 1,
                dh >= 1,
                y0 as int == (y as int) * (sh as int) / (dh as int),
                fy as int == (y as int) * (sh as int) % (dh as int),
                y0 < sh64,
                y1 == next_clamped(y0 as int, sh as int),
                src@.len() == sw * sh * 4,
                out@.len() == (y * dw + x) * 4,
                forall|j: int|
                    0 <= j < out@.len() ==> out@[j] as int == resampled_at(
                        src@,
                        sw as int,
                        sh as int,
                        dw as int,
                        dh as int,
                        j,
                    ),
            decreases dw64 - x,
        {
            assert(x * sw64 <= 0xFFFFu64 * 0xFFFFu64) by (nonlinear_arith)
                requires
                    x < dw64,
                    dw64 <= 0xFFFF,
                    sw64 <= 0xFFFF,
            ;
            let x0: u64 = x * sw64 / dw64;
            let fx: u64 = x * sw64 % dw64;
            assert(x0 < sw) by (nonlinear_arith)
                requires
                    x0 as int == (x as int) * (sw as int) / (dw as int),
                    x < dw,
                    sw >= 1,
            ;
            let x1: u64 = if x0 + 1 < sw64 {
                x0 + 1
            } else {
                sw64 - 1
            };
            proof {
                lemma_pixel_in_image(sw as int, sh as int, x0 as int, y0 as int);
                lemma_pixel_in_image(sw as int, sh as int, x1 as int, y0 as int);
                lemma_pixel_in_image(sw as int, sh as int, x0 as int, y1 as int);
                lemma_pixel_in_image(sw as int, sh as int, x1 as int, y1 as int);
                assert(y * dw + x < dw * dh) by (nonlinear_arith)
                    requires
                        x < dw,
                        y < dh,
                ;
            }
            let n_src: usize = src.len();
            assert(y0 * sw64 <= n_src && y1 * sw64 <= n_src);
            let row0: usize = (y0 * sw64) as usize;
            let row1: usize = (y1 * sw64) as usize;
            let i00: usize = (row0 + x0 as usize) * 4;
            let i10: usize = (row0 + x1 as usize) * 4;
            let i01: usize = (row1 + x0 as usize) * 4;
            let i11: usize = (row1 + x1 as usize) * 4;
            let wx0: u64 = dw64 - fx;
            let wx1: u64 = fx;
            let wy0: u64 = dh64 - fy;
            let wy1: u64 = fy;
            assert(dw64 * dh64 <= 0xFFFFu64 * 0xFFFFu64) by (
            nonlinear_arith)
                requires
                    dw64 <= 0xFFFF,
                    dh64 <= 0xFFFF,
            ;
            let denom: u64 = dw64 * dh64;
            let mut c: usize = 0;
            while c < 4
                invariant
                    c <= 4,
                    x < dw64,
                    y < dh64,
                    sw64 == sw,
                    dw64 == dw,
                    dh64 == dh,
                    dw >= 1,
                    dh >= 1,
                    x0 as int == (x as int) * (sw as int) / (dw as int),
                    fx as int == (x as int) * (sw as int) % (dw as int),
                    y0 as int == (y as int) * (sh as int) / (dh as int),
                    fy as int == (y as int) * (sh as int) % (dh as int),
                    x1 == next_clamped(x0 as int, sw as int),
                    y1 == next_clamped(y0 as int, sh as int),
                    row0 == y0 * sw,
                    row1 == y1 * sw,
                    i00 == (row0 + x0) * 4,
                    i10 == (row0 + x1) * 4,
                    i01 == (row1 + x0) * 4,
                    i11 == (row1 + x1) * 4,
                    i00 + 4 <= src@.len(),
                    i10 + 4 <= src@.len(),
                    i01 + 4 <= src@.len(),
                    i11 + 4 <= src@.len(),
                    wx0 == dw - fx,
                    wx1 == fx,
                    wy0 == dh - fy,
                    wy1 == fy,
                    fx < dw,
                    fy < dh,
                    denom == dw * dh,
                    denom >= 1,
                    out@.len() == (y * dw + x) * 4 + c,
                    forall|j: int|
                        0 <= j < out@.len() ==> out@[j] as int == resampled_at(
                            src@,
                            sw as int,
                            sh as int,
                            dw as int,
                            dh as int,
                            j,
                        ),
                decreases 4 - c,
            {
                let p00: u64 = src[i00 + c] as u64;
                let p10: u64 = src[i10 + c] as u64;
                let p01: u64 = src[i01 + c] as u64;
                let p11: u64 = src[i11 + c] as u64;
                proof {
                    lemma_blend_bound(
                        p00 as int,
                        p10 as int,
                        p01 as int,
                        p11 as int,
                        dw as int,
                        dh as int,
                        fx as int,
                        fy as int,
                    );
                    assert(255 * (dw * dh) <= 255 * 0x1_0000 * 0x1_0000) by (
                    nonlinear_arith)
                        requires
                            dw <= 0xFFFF,
                            dh <= 0xFFFF,
                    ;
                    assert(p00 * wx0 <= 255 * 0x1_0000) by (nonlinear_arith)
                        requires
                            p00 <= 255,
                            wx0 <= 0x1_0000,
                    ;
                    assert(p10 * wx1 <= 255 * 0x1_0000) by (nonlinear_arith)
                        requires
                            p10 <= 255,
                            wx1 <= 0x1_0000,
                    ;
                    assert(p01 * wx0 <= 255 * 0x1_0000) by (nonlinear_arith)
                        requires
                            p01 <= 255,
                            wx0 <= 0x1_0000,
                    ;
                    assert(p11 * wx1 <= 255 * 0x1_0000) by (nonlinear_arith)
                        requires
                            p11 <= 255,
                            wx1 <= 0x1_0000,
                    ;
                    assert((p00 * wx0 + p10 * wx1) * wy0 <= 510 * 0x1_0000 * 0x1_0000)
                        by (nonlinear_arith)
                        requires
                            p00 * wx0 + p10 * wx1 <= 510 * 0x1_0000,
                            wy0 <= 0x1_0000,
                    ;
                    assert((p01 * wx0 + p11 * wx1) * wy1 <= 510 * 0x1_0000 * 0x1_0000)
                        by (nonlinear_arith)
                        requires
                            p01 * wx0 + p11 * wx1 <= 510 * 0x1_0000,
                            wy1 <= 0x1_0000,
                    ;
                }
                let blend: u64 = (p00 * wx0 + p10 * wx1) * wy0 + (p01 * wx0 + p11 * wx1) * wy1;
                let v: u64 = blend / denom;
                proof {
                    assert(v <= 255) by (nonlinear_arith)
                        requires
                            v == blend / denom,
                            blend <= 255 * denom,
                            denom >= 1,
                    ;
                    let j = (y * dw + x) * 4 + c;
                    lemma_split_index(j, 4, dw as int, x as int, y as int, c as int);
                    assert(p00 == src@[(y0 * sw + x0) * 4 + c]);
                    assert(p10 == src@[(y0 * sw + x1) * 4 + c]);
                    assert(p01 == src@[(y1 * sw + x0) * 4 + c]);
                    assert(p11 == src@[(y1 * sw + x1) * 4 + c]);
                    assert(v == resampled_channel(
                        src@,
                        sw as int,
                        sh as int,
                        dw as int,
                        dh as int,
                        x as int,
                        y as int,
                        c as int,
                    ));
                    assert(v == resampled_at(src@, sw as int, sh as int, dw as int, dh as int, j));
                }
                out.push(v as u8);
                c = c + 1;
            }
            x = x + 1;
        }
        assert(out@.len() == (y + 1) * dw * 4) by (nonlinear_arith)
            requires
                out@.len() == (y * dw + dw) * 4,
        ;
        y = y + 1;
    }
    assert(out@.len() == dw as int * dh as int * 4) by (nonlinear_arith)
        requires
            out@.len() == dh as int * dw as int * 4,
    ;
    assert(out@ =~= resampled(src@, sw as int, sh as int, dw as int, dh as int));
    out
}

} // verus!
