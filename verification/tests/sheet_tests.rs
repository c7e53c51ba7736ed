use ega_raster::dispatch::{detect_format, extract_asset, extract_fullscreen_ega, Extraction, FormatKind};
use ega_raster::palette::palette_color;
use ega_raster::sheet::{check_records, demux_sprite_sheet, extract_sprites_ega, frame_index_label, validate_sprite_sheet, SheetError};
use ega_raster::upscale::upscale_rgba;

fn color_vec(v: u8) -> Vec<u8> {
    let (r, g, b, a) = palette_color(v);
    vec![r, g, b, a]
}

#[test]
fn validate_rejects_short_buffer() {
    let src = vec![0u8, 0, 0];
    assert_eq!(validate_sprite_sheet(&src), Err(SheetError::TooSmall));
}

#[test]
fn validate_rejects_wrong_size_field() {
    // Declared payload size 5, but only 3 bytes follow the size field.
    let src = vec![0u8, 0, 0, 5, 1, 2, 3];
    assert_eq!(validate_sprite_sheet(&src), Err(SheetError::SizeIncorrect));
}

#[test]
fn validate_accepts_exact_size_field() {
    let src = vec![0u8, 0, 0, 0];
    assert_eq!(validate_sprite_sheet(&src), Ok(()));
    let src = vec![0u8, 0, 0, 2, 9, 9];
    assert_eq!(validate_sprite_sheet(&src), Ok(()));
}

#[test]
fn check_records_accepts_well_formed_walk() {
    // Two records: 4-byte header + 2 body bytes each (half-width 1, height 1).
    let rest = vec![6u8, 0, 1, 1, 0xa5, 0x3c, 6, 0, 1, 1, 0x12, 0x34];
    assert!(check_records(&rest));
    assert!(check_records(&[]));
}

#[test]
fn check_records_rejects_bad_walks() {
    // Truncated header.
    assert!(!check_records(&[6u8, 0, 1]));
    // Record size 0 never advances.
    assert!(!check_records(&[0u8, 0, 0, 0]));
    // Record size runs past the end.
    assert!(!check_records(&[9u8, 0, 0, 0]));
    // Frame body larger than what remains.
    assert!(!check_records(&[4u8, 0, 200, 200]));
}

#[test]
fn demux_two_records() {
    let rest = vec![6u8, 0, 1, 1, 0xa5, 0x3c, 6, 0, 1, 1, 0x12, 0x34];
    assert!(check_records(&rest));
    let frames = demux_sprite_sheet(&rest);
    assert_eq!(frames.len(), 2);
    for f in &frames {
        // Width is 2 * (2 * half_byte_width) pixels.
        assert_eq!(f.width, 4);
        assert_eq!(f.height, 1);
        assert_eq!(f.rgba.len(), 16);
    }
    let want0: Vec<u8> = [0xa, 0x5, 0x3, 0xc].iter().flat_map(|&v| color_vec(v)).collect();
    let want1: Vec<u8> = [0x1, 0x2, 0x3, 0x4].iter().flat_map(|&v| color_vec(v)).collect();
    assert_eq!(frames[0].rgba, want0);
    assert_eq!(frames[1].rgba, want1);
}

#[test]
fn extract_sprites_full_container() {
    let mut src = vec![0u8, 0, 0, 12];
    src.extend_from_slice(&[6, 0, 1, 1, 0xa5, 0x3c, 6, 0, 1, 1, 0x12, 0x34]);
    let frames = extract_sprites_ega(&src).unwrap();
    assert_eq!(frames.len(), 2);
    assert_eq!(frames[0].width, 4);
    assert_eq!(frames[1].height, 1);
}

#[test]
fn extract_sprites_propagates_validation_errors() {
    assert_eq!(extract_sprites_ega(&[1, 2]).err(), Some(SheetError::TooSmall));
    assert_eq!(
        extract_sprites_ega(&[0, 0, 0, 5, 1, 2, 3]).err(),
        Some(SheetError::SizeIncorrect)
    );
}

#[test]
fn upscale_replicates_one_pixel_into_5x6_block() {
    let data = vec![10u8, 20, 30, 40];
    let out = upscale_rgba(&data, 1, 1);
    assert_eq!(out.len(), 5 * 6 * 4);
    for px in out.chunks(4) {
        assert_eq!(px, &data[..]);
    }
}

#[test]
fn upscale_keeps_source_layout() {
    // Two source pixels side by side: the left half of every output row
    // repeats the first pixel, the right half the second.
    let data = vec![1u8, 1, 1, 1, 2, 2, 2, 2];
    let out = upscale_rgba(&data, 2, 1);
    assert_eq!(out.len(), 10 * 6 * 4);
    for sy in 0..6 {
        for sx in 0..10 {
            let px = &out[4 * (sy * 10 + sx)..4 * (sy * 10 + sx) + 4];
            let want = if sx < 5 { [1u8; 4] } else { [2u8; 4] };
            assert_eq!(px, &want);
        }
    }
}

#[test]
fn upscale_maps_output_rows_back_by_six() {
    // One source column of two pixels: output rows 0..6 repeat the top
    // pixel, rows 6..12 the bottom one.
    let data = vec![3u8, 3, 3, 3, 9, 9, 9, 9];
    let out = upscale_rgba(&data, 1, 2);
    assert_eq!(out.len(), 5 * 12 * 4);
    for sy in 0..12 {
        for sx in 0..5 {
            let px = &out[4 * (sy * 5 + sx)..4 * (sy * 5 + sx) + 4];
            let want = if sy < 6 { [3u8; 4] } else { [9u8; 4] };
            assert_eq!(px, &want);
        }
    }
}

#[test]
fn dispatcher_selects_by_size_only() {
    assert_eq!(detect_format(&vec![0u8; 32000]), FormatKind::FullScreen);
    assert_eq!(detect_format(&vec![0xffu8; 32000]), FormatKind::FullScreen);
    assert_eq!(detect_format(&vec![0u8; 31999]), FormatKind::SpriteSheet);
    assert_eq!(detect_format(&vec![0u8; 32001]), FormatKind::SpriteSheet);
    assert_eq!(detect_format(&[]), FormatKind::SpriteSheet);
}

#[test]
fn extract_asset_full_screen_path() {
    let src = vec![0u8; 32000];
    match extract_asset(&src).unwrap() {
        Extraction::FullScreen(f) => {
            assert_eq!(f.width, 320);
            assert_eq!(f.height, 200);
            assert_eq!(f.rgba.len(), 256000);
        }
        Extraction::Sprites(_) => panic!("expected the full-screen path"),
    }
}

#[test]
fn extract_asset_sprite_path() {
    let mut src = vec![0u8, 0, 0, 6];
    src.extend_from_slice(&[6, 0, 1, 1, 0xa5, 0x3c]);
    match extract_asset(&src).unwrap() {
        Extraction::Sprites(frames) => assert_eq!(frames.len(), 1),
        Extraction::FullScreen(_) => panic!("expected the sprite path"),
    }
}

#[test]
fn fullscreen_frame_geometry() {
    let src = vec![0u8; 32000];
    let f = extract_fullscreen_ega(&src);
    assert_eq!((f.width, f.height), (320, 200));
    assert_eq!(f.rgba.len(), 4 * 320 * 200);
}

#[test]
fn frame_labels_are_zero_padded_two_digits() {
    assert_eq!(frame_index_label(0), "00");
    assert_eq!(frame_index_label(1), "01");
    assert_eq!(frame_index_label(7), "07");
    assert_eq!(frame_index_label(42), "42");
    assert_eq!(frame_index_label(99), "99");
}
