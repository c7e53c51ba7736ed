use ega_raster::decode::{decode_interleaved_ega_to_rgba, decode_planar_ega_to_rgba};
use ega_raster::palette::palette_color;

fn color_bytes(v: u8) -> [u8; 4] {
    let (r, g, b, a) = palette_color(v);
    [r, g, b, a]
}

#[test]
fn palette_alpha_transparent_only_at_zero() {
    for v in 0..16u8 {
        let (_, _, _, a) = palette_color(v);
        if v == 0 {
            assert_eq!(a, 0);
        } else {
            assert_eq!(a, 0xff);
        }
    }
}

#[test]
fn palette_known_entries() {
    assert_eq!(palette_color(0), (0x00, 0x00, 0x00, 0x00));
    assert_eq!(palette_color(1), (0x00, 0x00, 0xc4, 0xff));
    assert_eq!(palette_color(8), (0x00, 0x00, 0x00, 0xff));
    assert_eq!(palette_color(15), (0xff, 0xff, 0xff, 0xff));
}

#[test]
fn planar_decode_all_zero_is_transparent() {
    let src = vec![0u8; 32000];
    let frame = decode_planar_ega_to_rgba(&src, 320, 200);
    assert_eq!(frame.len(), 320 * 200 * 4);
    for &b in &frame {
        assert_eq!(b, 0);
    }
}

#[test]
fn planar_decode_all_ones_is_index_15() {
    let src = vec![0xffu8; 32000];
    let frame = decode_planar_ega_to_rgba(&src, 320, 200);
    assert_eq!(frame.len(), 320 * 200 * 4);
    for &b in &frame {
        assert_eq!(b, 0xff);
    }
}

#[test]
fn planar_decode_single_bit_msb_first() {
    // Set only the most significant bit of the first byte of plane 2:
    // pixel (0, 0) gets index 1 << 2 == 4, every other pixel stays 0.
    let mut src = vec![0u8; 32000];
    src[2 * 8000] = 0x80;
    let frame = decode_planar_ega_to_rgba(&src, 320, 200);
    assert_eq!(&frame[0..4], &color_bytes(4));
    assert_eq!(&frame[4..8], &color_bytes(0));
}

#[test]
fn planar_decode_bit_position_within_byte() {
    // The least significant bit of a plane byte belongs to the eighth
    // pixel it covers (MSB-first packing).
    let mut src = vec![0u8; 32000];
    src[0] = 0x01;
    let frame = decode_planar_ega_to_rgba(&src, 320, 200);
    assert_eq!(&frame[4 * 6..4 * 7], &color_bytes(0));
    assert_eq!(&frame[4 * 7..4 * 8], &color_bytes(1));
    assert_eq!(&frame[4 * 8..4 * 9], &color_bytes(0));
}

#[test]
fn interleaved_decode_high_nibble_first() {
    let src = vec![0xa5u8];
    let frame = decode_interleaved_ega_to_rgba(&src, 1, 1);
    assert_eq!(frame.len(), 8);
    assert_eq!(&frame[0..4], &color_bytes(0xa));
    assert_eq!(&frame[4..8], &color_bytes(0x5));
}

#[test]
fn interleaved_decode_two_rows() {
    // span 1 gives a 2-pixel-wide frame; each row consumes one byte.
    let src = vec![0x12u8, 0x34];
    let frame = decode_interleaved_ega_to_rgba(&src, 1, 2);
    assert_eq!(frame.len(), 16);
    assert_eq!(&frame[0..4], &color_bytes(1));
    assert_eq!(&frame[4..8], &color_bytes(2));
    assert_eq!(&frame[8..12], &color_bytes(3));
    assert_eq!(&frame[12..16], &color_bytes(4));
}

#[test]
fn interleaved_decode_empty_geometry() {
    let src: Vec<u8> = Vec::new();
    let frame = decode_interleaved_ega_to_rgba(&src, 0, 0);
    assert_eq!(frame.len(), 0);
}

#[test]
fn decoding_twice_is_byte_identical() {
    let mut src = vec![0u8; 32000];
    for (i, b) in src.iter_mut().enumerate() {
        *b = (i % 251) as u8;
    }
    let a = decode_planar_ega_to_rgba(&src, 320, 200);
    let b = decode_planar_ega_to_rgba(&src, 320, 200);
    assert_eq!(a, b);

    let sprite = vec![0x5au8, 0x0f, 0x90, 0x77];
    let c = decode_interleaved_ega_to_rgba(&sprite, 2, 2);
    let d = decode_interleaved_ega_to_rgba(&sprite, 2, 2);
    assert_eq!(c, d);
}
