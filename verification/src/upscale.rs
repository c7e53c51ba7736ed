//! Nearest-neighbor upscale by the fixed policy factors: 5x horizontally,
//! 6x vertically. Each source pixel is replicated into a 5x6 block of the
//! output raster.

use vstd::prelude::*;

verus! {

/// Output pixel (sx, sy) carries the RGBA bytes of source pixel
/// (sx / 5, sy / 6); the output raster is 5 * width pixels wide.
pub open spec fn upscaled_pixel_ok(
    data: Seq<u8>,
    width: int,
    out: Seq<u8>,
    sx: int,
    sy: int,
) -> bool {
    let so = 4 * (sy * (5 * width) + sx);
    let po = 4 * ((sy / 6) * width + sx / 5);
    &&& out[so] == data[po]
    &&& out[so + 1] == data[po + 1]
    &&& out[so + 2] == data[po + 2]
    &&& out[so + 3] == data[po + 3]
}

/// The first `nrows` output rows are fully upscaled.
pub open spec fn up_rows_ok(data: Seq<u8>, width: int, out: Seq<u8>, nrows: int) -> bool {
    forall|sx: int, sy: int|
        0 <= sx < 5 * width && 0 <= sy < nrows ==> #[trigger] upscaled_pixel_ok(
            data,
            width,
            out,
            sx,
            sy,
        )
}

/// The first `npix` pixels of output row `sy` are upscaled.
spec fn up_row_prefix_ok(
    data: Seq<u8>,
    width: int,
    out: Seq<u8>,
    sy: int,
    npix: int,
) -> bool {
    forall|sx: int|
        0 <= sx < npix ==> #[trigger] upscaled_pixel_ok(data, width, out, sx, sy)
}

/// `out` is exactly the 5x-by-6x nearest-neighbor upscale of the
/// width-by-height RGBA buffer `data`.
pub open spec fn upscaled_spec(data: Seq<u8>, width: int, height: int, out: Seq<u8>) -> bool {
    &&& out.len() == 120 * width * height
    &&& up_rows_ok(data, width, out, 6 * height)
}

/// Replicates every source pixel into a 5x6 block: the output raster is
/// (5 * width) x (6 * height), RGBA, row-major.
pub fn upscale_rgba(data: &[u8], width: usize, height: usize) -> (out: Vec<u8>)
    requires
        data@.len() == 4 * width * height,
        120 * width * height <= usize::MAX,
    ensures
        upscaled_spec(data@, width as int, height as int, out@),
{
    let mut out: Vec<u8> = Vec::new();
    if width == 0 || height == 0 {
        proof {
            assert(120 * width * height == 0 && (width == 0 ==> 5 * width == 0) && (height == 0
                ==> 6 * height == 0)) by (nonlinear_arith)
                requires
                    width == 0 || height == 0,
            ;
        }
        return out;
    }
    let ghost wi = width as int;
    let n = data.len();
    let mut y: usize = 0;
    while y < height
        invariant
            n == data@.len(),
            data@.len() == 4 * width * height,
            120 * width * height <= usize::MAX,
            width >= 1,
            height >= 1,
            y <= height,
            out@.len() == 120 * wi * y,
            wi == width as int,
            up_rows_ok(data@, wi, out@, 6 * y),
        decreases height - y,
    {
        proof {
            assert(120 * wi * (y as int) + 120 * wi <= 120 * wi * (height as int) && 4 * ((
            y as int) * wi) + 4 * wi <= 4 * wi * (height as int)) by (nonlinear_arith)
                requires
                    wi >= 1,
                    0 <= (y as int) < height as int,
            ;
        }
        let src_row = y * width;
        let mut dy: usize = 0;
        while dy < 6
            invariant
                n == data@.len(),
                data@.len() == 4 * width * height,
                120 * width * height <= usize::MAX,
                width >= 1,
                height >= 1,
                y < height,
                dy <= 6,
                wi == width as int,
                src_row == y * width,
                4 * src_row + 4 * width <= data@.len(),
                out@.len() == 120 * wi * y + 20 * wi * dy,
                120 * wi * y + 120 * wi <= 120 * wi * (height as int),
                up_rows_ok(data@, wi, out@, 6 * y + dy),
            decreases 6 - dy,
        {
            let ghost sy = 6 * (y as int) + dy as int;
            let mut x: usize = 0;
            while x < width
                invariant
                    n == data@.len(),
                    data@.len() == 4 * width * height,
                    120 * width * height <= usize::MAX,
                    width >= 1,
                    height >= 1,
                    y < height,
                    dy < 6,
                    x <= width,
                    wi == width as int,
                    sy == 6 * (y as int) + dy as int,
                    src_row == y * width,
                    4 * src_row + 4 * width <= data@.len(),
                    out@.len() == 120 * wi * y + 20 * wi * dy + 20 * x,
                    120 * wi * y + 120 * wi <= 120 * wi * (height as int),
                    up_rows_ok(data@, wi, out@, sy),
                    up_row_prefix_ok(data@, wi, out@, sy, 5 * x),
                decreases width - x,
            {
                let po = 4 * (src_row + x);
                let b0 = data[po];
                let b1 = data[po + 1];
                let b2 = data[po + 2];
                let b3 = data[po + 3];
                let mut dx: usize = 0;
                while dx < 5
                    invariant
                        n == data@.len(),
                        data@.len() == 4 * width * height,
                        width >= 1,
                        height >= 1,
                        y < height,
                        dy < 6,
                        x < width,
                        dx <= 5,
                        wi == width as int,
                        sy == 6 * (y as int) + dy as int,
                        src_row == y * width,
                        po == 4 * (src_row + x),
                        po + 3 < data@.len(),
                        b0 == data@[po as int],
                        b1 == data@[po as int + 1],
                        b2 == data@[po as int + 2],
                        b3 == data@[po as int + 3],
                        out@.len() == 120 * wi * y + 20 * wi * dy + 20 * x + 4 * dx,
                        120 * wi * y + 120 * wi <= 120 * wi * (height as int),
                        up_rows_ok(data@, wi, out@, sy),
                        up_row_prefix_ok(data@, wi, out@, sy, 5 * x + dx),
                    decreases 5 - dx,
                {
                    let ghost pre = out@;
                    let ghost sx = 5 * (x as int) + dx as int;
                    out.push(b0);
                    out.push(b1);
                    out.push(b2);
                    out.push(b3);
                    proof {
                        assert(4 * (sy * (5 * wi) + sx) == pre.len() && (sy / 6) == y as int && (sx
                            / 5) == x as int && (sy / 6) * wi + sx / 5 == (y as int) * wi
                            + x as int) by (nonlinear_arith)
                            requires
                                wi >= 1,
                                0 <= y as int,
                                0 <= (dy as int) < 6,
                                0 <= (x as int) < wi,
                                0 <= (dx as int) < 5,
                                sy == 6 * (y as int) + dy as int,
                                sx == 5 * (x as int) + dx as int,
                                pre.len() == 120 * wi * (y as int) + 20 * wi * (dy as int) + 20 * (
                                x as int) + 4 * (dx as int),
                        ;
                        assert(upscaled_pixel_ok(data@, wi, out@, sx, sy));
                        assert forall|sxx: int, syy: int|
                            0 <= sxx < 5 * wi && 0 <= syy < sy implies #[trigger] upscaled_pixel_ok(
                            data@,
                            wi,
                            out@,
                            sxx,
                            syy,
                        ) by {
                            assert(upscaled_pixel_ok(data@, wi, pre, sxx, syy));
                            assert(4 * (syy * (5 * wi) + sxx) + 3 < pre.len())
                                by (nonlinear_arith)
                                requires
                                    wi >= 1,
                                    0 <= sxx < 5 * wi,
                                    0 <= syy < sy,
                                    pre.len() == 4 * (sy * (5 * wi) + sx),
                                    0 <= sx,
                            ;
                        }
                        assert forall|sxx: int| 0 <= sxx < sx + 1 implies #[trigger] upscaled_pixel_ok(
                            data@,
                            wi,
                            out@,
                            sxx,
                            sy,
                        ) by {
                            if sxx < sx {
                                assert(upscaled_pixel_ok(data@, wi, pre, sxx, sy));
                                assert(4 * (sy * (5 * wi) + sxx) + 3 < pre.len())
                                    by (nonlinear_arith)
                                    requires
                                        0 <= sxx < sx,
                                        pre.len() == 4 * (sy * (5 * wi) + sx),
                                        0 <= sy,
                                        wi >= 1,
                                ;
                            }
                        }
                    }
                    dx += 1;
                }
                x += 1;
            }
            proof {
                assert(20 * wi * (dy as int + 1) == 20 * wi * (dy as int) + 20 * wi)
                    by (nonlinear_arith);
            }
            dy += 1;
        }
        proof {
            assert(120 * wi * (y as int) + 20 * wi * 6 == 120 * wi * (y as int + 1))
                by (nonlinear_arith);
        }
        y += 1;
    }
    proof {
        assert(120 * wi * (height as int) == 120 * (width as int) * (height as int));
    }
    out
}

/// Any two buffers that are both the fixed-factor upscale of the same
/// source are byte-identical.
pub proof fn lemma_upscale_unique(
    data: Seq<u8>,
    width: int,
    height: int,
    o1: Seq<u8>,
    o2: Seq<u8>,
)
    requires
        0 <= width,
        0 <= height,
        upscaled_spec(data, width, height, o1),
        upscaled_spec(data, width, height, o2),
    ensures
        o1 == o2,
{
    if width == 0 || height == 0 {
        assert(120 * width * height == 0) by (nonlinear_arith)
            requires
                width == 0 || height == 0,
        ;
        assert(o1 =~= o2);
    } else {
        assert forall|i: int| 0 <= i < o1.len() implies o1[i] == o2[i] by {
            let j = i / 4;
            let c = i % 4;
            let w5 = 5 * width;
            let sx = j % w5;
            let sy = j / w5;
            assert(i == 4 * j + c);
            vstd::arithmetic::div_mod::lemma_fundamental_div_mod(j, w5);
            vstd::arithmetic::div_mod::lemma_mod_bound(j, w5);
            assert(j == w5 * sy + sx);
            assert(w5 * sy == sy * w5) by (nonlinear_arith);
            assert(0 <= sx < w5);
            assert(0 <= sy < 6 * height) by (nonlinear_arith)
                requires
                    j == sy * w5 + sx,
                    0 <= sx < w5,
                    w5 == 5 * width,
                    0 <= j,
                    4 * j < 120 * width * height,
                    width > 0,
                    height > 0,
            ;
            assert(upscaled_pixel_ok(data, width, o1, sx, sy));
            assert(upscaled_pixel_ok(data, width, o2, sx, sy));
        }
        assert(o1 =~= o2);
    }
}

} // verus!
