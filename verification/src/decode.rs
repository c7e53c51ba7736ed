//! The two pixel decoders: a planar unpacker for the fixed-size
//! full-screen format (4 bit-planes, MSB-first bits, one bit per pixel per
//! plane) and an interleaved unpacker for sprite frames (two 4-bit pixels
//! per byte, high nibble first). Both expand each 4-bit index through the
//! palette into an RGBA pixel buffer.

use vstd::prelude::*;
use crate::palette::{palette_spec, push_color};

verus! {

/// Pixel `j` of a row-major RGBA buffer holds the color of palette entry `v`.
pub open spec fn pixel_is(frame: Seq<u8>, j: int, v: int) -> bool {
    &&& frame[4 * j] == palette_spec(v).0
    &&& frame[4 * j + 1] == palette_spec(v).1
    &&& frame[4 * j + 2] == palette_spec(v).2
    &&& frame[4 * j + 3] == palette_spec(v).3
}

/// The bit of bit-plane `plane` for linear pixel offset `ofs`: planes are
/// 8,000 bytes apart, bits are packed MSB-first within each plane byte.
pub open spec fn plane_bit(src: Seq<u8>, plane: int, ofs: int) -> u8 {
    (src[plane * 8000 + ofs / 8] >> ((7 - ofs % 8) as u8)) & 1
}

/// The 4-bit palette index of pixel (x, y) in the full-screen planar
/// format: plane 3 gives the most significant bit, plane 0 the least.
pub open spec fn planar_index(src: Seq<u8>, x: int, y: int) -> u8 {
    let ofs = 320 * y + x;
    ((plane_bit(src, 3, ofs) << 3) | (plane_bit(src, 2, ofs) << 2) | (plane_bit(src, 1, ofs) << 1))
        | plane_bit(src, 0, ofs)
}

/// Pixel (x, y) of `frame` is the palette color of the planar index at (x, y).
pub open spec fn planar_pixel_ok(src: Seq<u8>, frame: Seq<u8>, x: int, y: int) -> bool {
    pixel_is(frame, 320 * y + x, planar_index(src, x, y) as int)
}

/// `frame` is exactly the 320x200 RGBA decode of the planar bitmap `src`.
pub open spec fn planar_frame_spec(src: Seq<u8>, frame: Seq<u8>) -> bool {
    &&& frame.len() == 256000
    &&& forall|x: int, y: int|
        0 <= x < 320 && 0 <= y < 200 ==> #[trigger] planar_pixel_ok(src, frame, x, y)
}

proof fn lemma_bit_extract_le_one(b: u8, s: u8)
    by (bit_vector)
    ensures
        ((b >> s) & 1) <= 1,
{
}

proof fn lemma_nibble_compose_bound(p0: u8, p1: u8, p2: u8, p3: u8)
    by (bit_vector)
    requires
        p0 <= 1,
        p1 <= 1,
        p2 <= 1,
        p3 <= 1,
    ensures
        (((p3 << 3) | (p2 << 2) | (p1 << 1)) | p0) < 16,
{
}

/// Unpacks a full-screen planar bitmap: 4 planes of 8,000 bytes each,
/// fixed 320x200 geometry, into a row-major RGBA buffer.
pub fn decode_planar_ega_to_rgba(src: &[u8], width: usize, height: usize) -> (frame: Vec<u8>)
    requires
        src@.len() == 32000,
        width == 320,
        height == 200,
    ensures
        planar_frame_spec(src@, frame@),
{
    let mut frame: Vec<u8> = Vec::new();
    let mut y: usize = 0;
    while y < 200
        invariant
            src@.len() == 32000,
            y <= 200,
            frame@.len() == 1280 * y,
            forall|xx: int, yy: int|
                0 <= xx < 320 && 0 <= yy < y ==> #[trigger] planar_pixel_ok(src@, frame@, xx, yy),
        decreases 200 - y,
    {
        let mut x: usize = 0;
        while x < 320
            invariant
                src@.len() == 32000,
                y < 200,
                x <= 320,
                frame@.len() == 1280 * y + 4 * x,
                forall|xx: int, yy: int|
                    0 <= xx < 320 && 0 <= yy < y ==> #[trigger] planar_pixel_ok(src@, frame@, xx, yy),
                forall|xx: int|
                    0 <= xx < x ==> #[trigger] planar_pixel_ok(src@, frame@, xx, y as int),
            decreases 320 - x,
        {
            let ofs = 320 * y + x;
            let byte = ofs / 8;
            let bitofs: u8 = 7 - (ofs % 8) as u8;

            let p0 = (src[byte] >> bitofs) & 1;
            let p1 = (src[8000 + byte] >> bitofs) & 1;
            let p2 = (src[16000 + byte] >> bitofs) & 1;
            let p3 = (src[24000 + byte] >> bitofs) & 1;

            let v = ((p3 << 3) | (p2 << 2) | (p1 << 1)) | p0;
            proof {
                lemma_bit_extract_le_one(src@[byte as int], bitofs);
                lemma_bit_extract_le_one(src@[8000 + byte as int], bitofs);
                lemma_bit_extract_le_one(src@[16000 + byte as int], bitofs);
                lemma_bit_extract_le_one(src@[24000 + byte as int], bitofs);
                lemma_nibble_compose_bound(p0, p1, p2, p3);
                assert(v == planar_index(src@, x as int, y as int));
            }
            let ghost pre = frame@;
            push_color(&mut frame, v);
            proof {
                assert(planar_pixel_ok(src@, frame@, x as int, y as int));
                assert forall|xx: int, yy: int|
                    0 <= xx < 320 && 0 <= yy < y implies #[trigger] planar_pixel_ok(
                    src@,
                    frame@,
                    xx,
                    yy,
                ) by {
                    assert(planar_pixel_ok(src@, pre, xx, yy));
                    assert(4 * (320 * yy + xx) + 3 < pre.len());
                }
                assert forall|xx: int| 0 <= xx < x + 1 implies #[trigger] planar_pixel_ok(
                    src@,
                    frame@,
                    xx,
                    y as int,
                ) by {
                    if xx < x {
                        assert(planar_pixel_ok(src@, pre, xx, y as int));
                        assert(4 * (320 * y + xx) + 3 < pre.len());
                    }
                }
            }
            x += 1;
        }
        y += 1;
    }
    frame
}

/// The decode relation pins the buffer down completely: any two buffers
/// that both decode the same planar source are byte-identical.
pub proof fn lemma_planar_decode_unique(src: Seq<u8>, f1: Seq<u8>, f2: Seq<u8>)
    requires
        planar_frame_spec(src, f1),
        planar_frame_spec(src, f2),
    ensures
        f1 == f2,
{
    assert forall|i: int| 0 <= i < f1.len() implies f1[i] == f2[i] by {
        let j = i / 4;
        let c = i % 4;
        let x = j % 320;
        let y = j / 320;
        assert(i == 4 * j + c);
        assert(j == 320 * y + x);
        assert(0 <= x < 320 && 0 <= y < 200);
        assert(planar_pixel_ok(src, f1, x, y));
        assert(planar_pixel_ok(src, f2, x, y));
    }
    assert(f1 =~= f2);
}

/// The 4-bit palette index of pixel (x, y) in an interleaved frame of
/// scan-line byte width `span`: even x takes the high nibble, odd x the low.
pub open spec fn interleaved_index(src: Seq<u8>, span: int, x: int, y: int) -> u8 {
    let b = src[y * span + x / 2];
    if x % 2 == 0 {
        b >> 4
    } else {
        b & 0x0f
    }
}

/// Pixel (x, y) of `frame` is the palette color of the interleaved index
/// at (x, y); the frame is 2 * span pixels wide.
pub open spec fn interleaved_pixel_ok(
    src: Seq<u8>,
    frame: Seq<u8>,
    span: int,
    x: int,
    y: int,
) -> bool {
    pixel_is(frame, y * (2 * span) + x, interleaved_index(src, span, x, y) as int)
}

/// `frame` is exactly the (2 * span) x height RGBA decode of the
/// nibble-packed bytes `src`.
pub open spec fn interleaved_frame_spec(
    src: Seq<u8>,
    span: int,
    height: int,
    frame: Seq<u8>,
) -> bool {
    &&& frame.len() == 8 * span * height
    &&& forall|x: int, y: int|
        0 <= x < 2 * span && 0 <= y < height ==> #[trigger] interleaved_pixel_ok(
            src,
            frame,
            span,
            x,
            y,
        )
}

proof fn lemma_nibble_bound(b: u8)
    by (bit_vector)
    ensures
        (b >> 4) < 16,
        (b & 0x0f) < 16,
{
}

/// Unpacks one interleaved nibble-packed frame, two pixels per byte, into
/// a row-major RGBA buffer of width 2 * span.
pub fn decode_interleaved_ega_to_rgba(src: &[u8], span: usize, height: usize) -> (frame: Vec<u8>)
    requires
        span * height <= src@.len(),
        2 * span <= usize::MAX,
        8 * span * height <= usize::MAX,
    ensures
        interleaved_frame_spec(src@, span as int, height as int, frame@),
{
    let width = 2 * span;
    let n = src.len();
    let mut frame: Vec<u8> = Vec::new();
    let mut y: usize = 0;
    while y < height
        invariant
            n == src@.len(),
            span * height <= src@.len(),
            2 * span <= usize::MAX,
            8 * span * height <= usize::MAX,
            width == 2 * span,
            y <= height,
            frame@.len() == 8 * span * y,
            forall|xx: int, yy: int|
                0 <= xx < 2 * span && 0 <= yy < y ==> #[trigger] interleaved_pixel_ok(
                    src@,
                    frame@,
                    span as int,
                    xx,
                    yy,
                ),
        decreases height - y,
    {
        proof {
            assert(y * span + span <= span * height && 8 * span * y + 8 * span <= 8 * span
                * height) by (nonlinear_arith)
                requires
                    0 <= span,
                    0 <= y < height,
            ;
        }
        let row = y * span;
        let mut x: usize = 0;
        while x < width
            invariant
                n == src@.len(),
                span * height <= src@.len(),
                8 * span * height <= usize::MAX,
                width == 2 * span,
                y < height,
                x <= width,
                row == y * span,
                row + span <= span * height,
                frame@.len() == 8 * span * y + 4 * x,
                8 * span * y + 8 * span <= 8 * span * height,
                forall|xx: int, yy: int|
                    0 <= xx < 2 * span && 0 <= yy < y ==> #[trigger] interleaved_pixel_ok(
                        src@,
                        frame@,
                        span as int,
                        xx,
                        yy,
                    ),
                forall|xx: int|
                    0 <= xx < x ==> #[trigger] interleaved_pixel_ok(
                        src@,
                        frame@,
                        span as int,
                        xx,
                        y as int,
                    ),
            decreases width - x,
        {
            let ofs = row + x / 2;
            let b = src[ofs];
            let v = if x % 2 == 0 {
                b >> 4u8
            } else {
                b & 0x0f
            };
            proof {
                lemma_nibble_bound(b);
                assert(v == interleaved_index(src@, span as int, x as int, y as int));
            }
            let ghost pre = frame@;
            push_color(&mut frame, v);
            proof {
                assert(4 * ((y as int) * (2 * span as int) + x as int) == pre.len())
                    by (nonlinear_arith)
                    requires
                        pre.len() == 8 * (span as int) * (y as int) + 4 * (x as int),
                ;
                assert(interleaved_pixel_ok(src@, frame@, span as int, x as int, y as int));
                assert forall|xx: int, yy: int|
                    0 <= xx < 2 * span && 0 <= yy < y implies #[trigger] interleaved_pixel_ok(
                    src@,
                    frame@,
                    span as int,
                    xx,
                    yy,
                ) by {
                    assert(interleaved_pixel_ok(src@, pre, span as int, xx, yy));
                    assert(4 * (yy * (2 * span as int) + xx) + 3 < pre.len())
                        by (nonlinear_arith)
                        requires
                            0 <= xx < 2 * (span as int),
                            0 <= yy < y as int,
                            pre.len() == 8 * (span as int) * (y as int) + 4 * (x as int),
                            0 <= x as int,
                    ;
                }
                assert forall|xx: int| 0 <= xx < x + 1 implies #[trigger] interleaved_pixel_ok(
                    src@,
                    frame@,
                    span as int,
                    xx,
                    y as int,
                ) by {
                    if xx < x {
                        assert(interleaved_pixel_ok(src@, pre, span as int, xx, y as int));
                        assert(4 * ((y as int) * (2 * span as int) + xx) + 3 < pre.len())
                            by (nonlinear_arith)
                            requires
                                0 <= xx < x as int,
                                pre.len() == 8 * (span as int) * (y as int) + 4 * (x as int),
                        ;
                    }
                }
            }
            x += 1;
        }
        proof {
            assert(8 * (span as int) * (y as int) + 8 * (span as int) == 8 * (span as int) * (
            y as int + 1)) by (nonlinear_arith);
        }
        y += 1;
    }
    frame
}

/// Any two buffers that both decode the same interleaved source with the
/// same geometry are byte-identical.
pub proof fn lemma_interleaved_decode_unique(
    src: Seq<u8>,
    span: int,
    height: int,
    f1: Seq<u8>,
    f2: Seq<u8>,
)
    requires
        0 <= span,
        0 <= height,
        interleaved_frame_spec(src, span, height, f1),
        interleaved_frame_spec(src, span, height, f2),
    ensures
        f1 == f2,
{
    if span == 0 || height == 0 {
        assert(8 * span * height == 0) by (nonlinear_arith)
            requires
                span == 0 || height == 0,
        ;
        assert(f1 =~= f2);
    } else {
        assert forall|i: int| 0 <= i < f1.len() implies f1[i] == f2[i] by {
            let j = i / 4;
            let c = i % 4;
            let w = 2 * span;
            let x = j % w;
            let y = j / w;
            assert(i == 4 * j + c);
            vstd::arithmetic::div_mod::lemma_fundamental_div_mod(j, w);
            vstd::arithmetic::div_mod::lemma_mod_bound(j, w);
            assert(j == w * y + x);
            assert(w * y == y * w) by (nonlinear_arith);
            assert(j == y * w + x);
            assert(0 <= x < w);
            assert(0 <= y < height) by (nonlinear_arith)
                requires
                    j == y * w + x,
                    0 <= x < w,
                    w == 2 * span,
                    0 <= j,
                    4 * j < 8 * span * height,
                    span > 0,
                    height > 0,
            ;
            assert(interleaved_pixel_ok(src, f1, span, x, y));
            assert(interleaved_pixel_ok(src, f2, span, x, y));
        }
        assert(f1 =~= f2);
    }
}

} // verus!
