//! The sprite-sheet container: a 4-byte big-endian payload size followed
//! by a concatenation of frame records. Each record carries a 4-byte
//! header — total record size (u16 little-endian, the distance to the next
//! record), half the scan-line byte width (u8), and height (u8) — followed
//! by interleaved pixel bytes. The declared record size is authoritative:
//! the walk advances by it without recomputing the body length.

use vstd::prelude::*;
use crate::decode::{decode_interleaved_ega_to_rgba, interleaved_frame_spec};
use crate::frame::Frame;

verus! {

/// Why a buffer is rejected as a sprite sheet.
#[derive(Debug, PartialEq, Eq, Structural)]
pub enum SheetError {
    /// Fewer than 4 bytes: no room for the size field.
    TooSmall,
    /// The declared payload size plus 4 does not equal the byte length.
    SizeIncorrect,
}

/// The first 4 bytes of `s` as a big-endian unsigned 32-bit value.
pub open spec fn be32(s: Seq<u8>) -> int {
    0x1000000 * (s[0] as int) + 0x10000 * (s[1] as int) + 0x100 * (s[2] as int) + (s[3] as int)
}

/// The first 2 bytes of `s` as a little-endian unsigned 16-bit value.
pub open spec fn le16(s: Seq<u8>) -> int {
    (s[0] as int) + 0x100 * (s[1] as int)
}

/// A well-formed container: the declared payload size accounts for every
/// byte after the 4-byte size field.
pub open spec fn sheet_ok(s: Seq<u8>) -> bool {
    s.len() >= 4 && be32(s) + 4 == s.len()
}

/// The record starting at `s` can be processed without reading out of
/// bounds and moves the walk forward: the 4-byte header is present, the
/// frame body (span * height bytes, span = twice the half-width byte) fits
/// in what remains, and the declared record size advances by at least one
/// byte and at most to the end.
pub open spec fn rec_step_ok(s: Seq<u8>) -> bool {
    &&& s.len() >= 4
    &&& 1 <= le16(s)
    &&& le16(s) <= s.len()
    &&& 2 * (s[2] as int) * (s[3] as int) <= s.len() - 4
}

/// Every record of the walk over `s` (the bytes after the container's size
/// field) is processable, until the walk lands exactly on the end.
pub open spec fn records_ok(s: Seq<u8>) -> bool
    decreases s.len(),
{
    s.len() == 0 || (rec_step_ok(s) && records_ok(s.skip(le16(s))))
}

/// The suffixes of `s` at which the walk finds each record's header, in
/// walk order.
pub open spec fn record_starts(s: Seq<u8>) -> Seq<Seq<u8>>
    decreases s.len(),
{
    if s.len() == 0 || !rec_step_ok(s) {
        Seq::empty()
    } else {
        seq![s] + record_starts(s.skip(le16(s)))
    }
}

/// `f` is the decode of the record whose header starts the suffix `r`:
/// width is four times the half-width byte (two pixels per body byte, body
/// span twice the half-width), and the pixels are the interleaved decode
/// of the bytes after the header.
pub open spec fn frame_matches(r: Seq<u8>, f: Frame) -> bool {
    &&& f.width == 4 * (r[2] as int)
    &&& f.height == r[3] as int
    &&& interleaved_frame_spec(r.skip(4), 2 * (r[2] as int), r[3] as int, f.rgba@)
}

/// The decimal digit character for `d` in [0, 10).
pub open spec fn digit_char(d: int) -> char {
    if d == 0 {
        '0'
    } else if d == 1 {
        '1'
    } else if d == 2 {
        '2'
    } else if d == 3 {
        '3'
    } else if d == 4 {
        '4'
    } else if d == 5 {
        '5'
    } else if d == 6 {
        '6'
    } else if d == 7 {
        '7'
    } else if d == 8 {
        '8'
    } else {
        '9'
    }
}

fn digit_str(d: usize) -> (r: &'static str)
    requires
        d < 10,
    ensures
        r@ =~= seq![digit_char(d as int)],
{
    proof {
        reveal_strlit("0");
        reveal_strlit("1");
        reveal_strlit("2");
        reveal_strlit("3");
        reveal_strlit("4");
        reveal_strlit("5");
        reveal_strlit("6");
        reveal_strlit("7");
        reveal_strlit("8");
        reveal_strlit("9");
    }
    match d {
        0 => "0",
        1 => "1",
        2 => "2",
        3 => "3",
        4 => "4",
        5 => "5",
        6 => "6",
        7 => "7",
        8 => "8",
        _ => "9",
    }
}

/// The two-digit, zero-padded decimal label of frame index `n`, as used
/// in each sprite frame's output identity (frame 0 is "00").
pub fn frame_index_label(n: usize) -> (s: String)
    requires
        n < 100,
    ensures
        s@ =~= seq![digit_char(n as int / 10), digit_char(n as int % 10)],
{
    let mut s = String::new();
    s.append(digit_str(n / 10));
    s.append(digit_str(n % 10));
    s
}

/// Checks the two container-level rules in order: a buffer under 4 bytes
/// is too small; otherwise the big-endian size field plus 4 must equal the
/// total length.
pub fn validate_sprite_sheet(src: &[u8]) -> (r: Result<(), SheetError>)
    ensures
        r is Ok <==> sheet_ok(src@),
        r == Err::<(), SheetError>(SheetError::TooSmall) <==> src@.len() < 4,
        r == Err::<(), SheetError>(SheetError::SizeIncorrect) <==> (src@.len() >= 4 && be32(src@)
            + 4 != src@.len()),
{
    if src.len() < 4 {
        return Err(SheetError::TooSmall);
    }
    let size: u64 = 0x1000000u64 * (src[0] as u64) + 0x10000u64 * (src[1] as u64) + 0x100u64 * (
    src[2] as u64) + (src[3] as u64);
    if size + 4 != src.len() as u64 {
        return Err(SheetError::SizeIncorrect);
    }
    Ok(())
}

/// Walks the record sequence and reports whether every record is
/// processable, i.e. whether `records_ok` holds of the bytes after the
/// size field. A container that fails here has no defined decode: its
/// size fields would send the walk out of bounds or stall it.
pub fn check_records(src: &[u8]) -> (ok: bool)
    ensures
        ok == records_ok(src@),
{
    let mut s: &[u8] = src;
    while s.len() > 0
        invariant
            records_ok(src@) == records_ok(s@),
        decreases s@.len(),
    {
        if s.len() < 4 {
            return false;
        }
        let input_size = (s[0] as usize) + 0x100 * (s[1] as usize);
        if input_size < 1 || input_size > s.len() {
            return false;
        }
        let a = s[2] as usize;
        let b = s[3] as usize;
        proof {
            assert(2 * (a as int) * (b as int) <= 130050) by (nonlinear_arith)
                requires
                    0 <= a as int <= 255,
                    0 <= b as int <= 255,
            ;
        }
        let need = 2 * a * b;
        if need > s.len() - 4 {
            return false;
        }
        let ghost pre = s@;
        s = &s[input_size..s.len()];
        proof {
            assert(s@ =~= pre.skip(le16(pre)));
        }
    }
    true
}

/// Decodes every record of `src` (the bytes after the container's size
/// field) in walk order into one frame each.
pub fn demux_sprite_sheet(src: &[u8]) -> (frames: Vec<Frame>)
    requires
        records_ok(src@),
    ensures
        frames@.len() == record_starts(src@).len(),
        forall|i: int|
            0 <= i < frames@.len() ==> #[trigger] frame_matches(record_starts(src@)[i], frames@[i]),
        forall|i: int| 0 <= i < frames@.len() ==> (#[trigger] frames@[i]).wf(),
{
    let mut frames: Vec<Frame> = Vec::new();
    let mut s: &[u8] = src;
    while s.len() > 0
        invariant
            records_ok(s@),
            record_starts(src@).len() == frames@.len() + record_starts(s@).len(),
            record_starts(src@).skip(frames@.len() as int) == record_starts(s@),
            forall|i: int|
                0 <= i < frames@.len() ==> #[trigger] frame_matches(
                    record_starts(src@)[i],
                    frames@[i],
                ),
        decreases s@.len(),
    {
        let input_size = (s[0] as usize) + 0x100 * (s[1] as usize);
        let half = s[2];
        let h = s[3];
        let byte_width = 2 * (half as usize);
        let body = &s[4..s.len()];
        proof {
            assert(body@ =~= s@.skip(4));
            assert(8 * (byte_width as int) * (h as int) <= 8 * 510 * 255) by (nonlinear_arith)
                requires
                    0 <= byte_width as int <= 510,
                    0 <= h as int <= 255,
            ;
        }
        let rgba = decode_interleaved_ega_to_rgba(body, byte_width, h as usize);
        let width = 2 * byte_width;
        let f = Frame { width, height: h as usize, rgba };
        let ghost pre = s@;
        let ghost n = frames@.len() as int;
        frames.push(f);
        s = &s[input_size..s.len()];
        proof {
            assert(s@ =~= pre.skip(le16(pre)));
            assert(record_starts(pre) == seq![pre] + record_starts(s@));
            assert(record_starts(src@)[n] == record_starts(pre)[0]);
            assert(record_starts(pre)[0] == pre);
            assert(frame_matches(pre, frames@[n]));
            assert(record_starts(src@).skip(n + 1) =~= record_starts(pre).skip(1));
            assert(record_starts(pre).skip(1) =~= record_starts(s@));
        }
    }
    proof {
        assert(record_starts(src@).skip(frames@.len() as int) =~= Seq::<Seq<u8>>::empty());
        assert forall|i: int| 0 <= i < frames@.len() implies (#[trigger] frames@[i]).wf() by {
            lemma_frame_matches_wf(record_starts(src@)[i], frames@[i]);
        }
    }
    frames
}

/// A frame that decodes a record is well-formed: its buffer holds
/// exactly width * height pixels.
pub proof fn lemma_frame_matches_wf(r: Seq<u8>, f: Frame)
    requires
        frame_matches(r, f),
    ensures
        f.wf(),
{
    assert(8 * (2 * (r[2] as int)) * (r[3] as int) == 4 * (4 * (r[2] as int)) * (r[3] as int))
        by (nonlinear_arith);
}

/// Decoding a record is deterministic: any two frames that both decode
/// the record starting at `r` agree in geometry and in every pixel byte.
pub proof fn lemma_record_decode_unique(r: Seq<u8>, f1: Frame, f2: Frame)
    requires
        frame_matches(r, f1),
        frame_matches(r, f2),
    ensures
        f1.width == f2.width,
        f1.height == f2.height,
        f1.rgba@ == f2.rgba@,
{
    crate::decode::lemma_interleaved_decode_unique(
        r.skip(4),
        2 * (r[2] as int),
        r[3] as int,
        f1.rgba@,
        f2.rgba@,
    );
}

/// The full sprite-sheet path: container validation, then the record walk.
/// Inputs on which the walk itself would read out of bounds or stall are
/// excluded; `check_records` tells them apart at run time.
pub fn extract_sprites_ega(src: &[u8]) -> (r: Result<Vec<Frame>, SheetError>)
    requires
        sheet_ok(src@) ==> records_ok(src@.skip(4)),
    ensures
        r is Ok <==> sheet_ok(src@),
        r == Err::<Vec<Frame>, SheetError>(SheetError::TooSmall) <==> src@.len() < 4,
        r == Err::<Vec<Frame>, SheetError>(SheetError::SizeIncorrect) <==> (src@.len() >= 4
            && be32(src@) + 4 != src@.len()),
        r is Ok ==> r->Ok_0@.len() == record_starts(src@.skip(4)).len(),
        r is Ok ==> forall|i: int|
            0 <= i < r->Ok_0@.len() ==> #[trigger] frame_matches(
                record_starts(src@.skip(4))[i],
                r->Ok_0@[i],
            ),
        r is Ok ==> forall|i: int| 0 <= i < r->Ok_0@.len() ==> (#[trigger] r->Ok_0@[i]).wf(),
{
    match validate_sprite_sheet(src) {
        Err(e) => Err(e),
        Ok(()) => {
            let rest = &src[4..src.len()];
            proof {
                assert(rest@ =~= src@.skip(4));
            }
            Ok(demux_sprite_sheet(rest))
        },
    }
}

} // verus!
