//! The fixed 16-entry EGA palette: a read-only map from a 4-bit color
//! index to an RGBA quadruplet. Index 0 is fully transparent; every other
//! entry is fully opaque, with index 8 opaque black.

use vstd::prelude::*;

verus! {

/// The palette as a mathematical map: channel values (r, g, b, a) for
/// each index in [0, 16).
pub open spec fn palette_spec(v: int) -> (u8, u8, u8, u8) {
    if v == 0 {
        (0x00, 0x00, 0x00, 0x00)
    } else if v == 1 {
        (0x00, 0x00, 0xc4, 0xff)
    } else if v == 2 {
        (0x00, 0xc4, 0x00, 0xff)
    } else if v == 3 {
        (0x00, 0xc4, 0xc4, 0xff)
    } else if v == 4 {
        (0xc4, 0x00, 0x00, 0xff)
    } else if v == 5 {
        (0xc4, 0x00, 0xc4, 0xff)
    } else if v == 6 {
        (0xc4, 0x7e, 0x00, 0xff)
    } else if v == 7 {
        (0xc4, 0xc4, 0xc4, 0xff)
    } else if v == 8 {
        (0x00, 0x00, 0x00, 0xff)
    } else if v == 9 {
        (0x4e, 0x4e, 0xdc, 0xff)
    } else if v == 10 {
        (0x4e, 0xdc, 0x4e, 0xff)
    } else if v == 11 {
        (0x4e, 0xf3, 0xf3, 0xff)
    } else if v == 12 {
        (0xdc, 0x4e, 0x4e, 0xff)
    } else if v == 13 {
        (0xf3, 0x4e, 0xf3, 0xff)
    } else if v == 14 {
        (0xf3, 0xf3, 0x4e, 0xff)
    } else {
        (0xff, 0xff, 0xff, 0xff)
    }
}

/// Looks one color up. An out-of-range index never arises from decoded
/// data (the index is a 4-bit field), so it is excluded rather than handled.
pub fn palette_color(v: u8) -> (r: (u8, u8, u8, u8))
    requires
        v < 16,
    ensures
        r == palette_spec(v as int),
{
    match v {
        0 => (0x00, 0x00, 0x00, 0x00),
        1 => (0x00, 0x00, 0xc4, 0xff),
        2 => (0x00, 0xc4, 0x00, 0xff),
        3 => (0x00, 0xc4, 0xc4, 0xff),
        4 => (0xc4, 0x00, 0x00, 0xff),
        5 => (0xc4, 0x00, 0xc4, 0xff),
        6 => (0xc4, 0x7e, 0x00, 0xff),
        7 => (0xc4, 0xc4, 0xc4, 0xff),
        8 => (0x00, 0x00, 0x00, 0xff),
        9 => (0x4e, 0x4e, 0xdc, 0xff),
        10 => (0x4e, 0xdc, 0x4e, 0xff),
        11 => (0x4e, 0xf3, 0xf3, 0xff),
        12 => (0xdc, 0x4e, 0x4e, 0xff),
        13 => (0xf3, 0x4e, 0xf3, 0xff),
        14 => (0xf3, 0xf3, 0x4e, 0xff),
        _ => (0xff, 0xff, 0xff, 0xff),
    }
}

/// Appends the RGBA bytes of palette entry `v` to a pixel buffer.
pub fn push_color(frame: &mut Vec<u8>, v: u8)
    requires
        v < 16,
    ensures
        final(frame)@.len() == old(frame)@.len() + 4,
        forall|i: int| 0 <= i < old(frame)@.len() ==> final(frame)@[i] == old(frame)@[i],
        final(frame)@[old(frame)@.len() as int] == palette_spec(v as int).0,
        final(frame)@[old(frame)@.len() as int + 1] == palette_spec(v as int).1,
        final(frame)@[old(frame)@.len() as int + 2] == palette_spec(v as int).2,
        final(frame)@[old(frame)@.len() as int + 3] == palette_spec(v as int).3,
{
    let (r, g, b, a) = palette_color(v);
    frame.push(r);
    frame.push(g);
    frame.push(b);
    frame.push(a);
}

/// Only index 0 is transparent: every other palette entry is fully opaque.
pub proof fn lemma_palette_alpha(v: int)
    requires
        0 <= v < 16,
    ensures
        v == 0 ==> palette_spec(v).3 == 0,
        v != 0 ==> palette_spec(v).3 == 0xff,
{
}

} // verus!
