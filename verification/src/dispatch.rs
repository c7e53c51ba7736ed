//! Format dispatch: the choice between the full-screen planar path and
//! the sprite-sheet path is made purely on input size — a 32,000-byte
//! file is a full-screen bitmap, anything else is read as a sprite sheet.
//! The formats carry no magic number, so no signature check exists.

use vstd::prelude::*;
use crate::decode::{decode_planar_ega_to_rgba, planar_frame_spec};
use crate::frame::Frame;
use crate::sheet::{
    be32, extract_sprites_ega, frame_matches, record_starts, records_ok, sheet_ok, SheetError,
};

verus! {

/// Which decode path an input takes.
#[derive(Debug, PartialEq, Eq, Structural)]
pub enum FormatKind {
    FullScreen,
    SpriteSheet,
}

/// The decoded content of one input: a single full-screen frame, or one
/// frame per sprite record.
pub enum Extraction {
    FullScreen(Frame),
    Sprites(Vec<Frame>),
}

/// The full-screen path is chosen exactly when the input is 32,000 bytes
/// long, regardless of content.
pub fn detect_format(src: &[u8]) -> (k: FormatKind)
    ensures
        k == FormatKind::FullScreen <==> src@.len() == 32000,
        k == FormatKind::SpriteSheet <==> src@.len() != 32000,
{
    if src.len() == 32000 {
        FormatKind::FullScreen
    } else {
        FormatKind::SpriteSheet
    }
}

/// The full-screen path: decodes a 32,000-byte planar bitmap into one
/// 320x200 frame.
pub fn extract_fullscreen_ega(src: &[u8]) -> (frame: Frame)
    requires
        src@.len() == 32000,
    ensures
        frame.width == 320,
        frame.height == 200,
        frame.wf(),
        planar_frame_spec(src@, frame.rgba@),
{
    let rgba = decode_planar_ega_to_rgba(src, 320, 200);
    Frame { width: 320, height: 200, rgba }
}

/// Decodes one input: dispatches on size, then runs the chosen path.
/// Sprite-sheet inputs whose record walk would read out of bounds are
/// excluded (see `crate::sheet::check_records`).
pub fn extract_asset(src: &[u8]) -> (r: Result<Extraction, SheetError>)
    requires
        src@.len() != 32000 && sheet_ok(src@) ==> records_ok(src@.skip(4)),
    ensures
        r is Ok <==> (src@.len() == 32000 || sheet_ok(src@)),
        src@.len() == 32000 ==> r is Ok && r->Ok_0 is FullScreen
            && r->Ok_0->FullScreen_0.width == 320 && r->Ok_0->FullScreen_0.height == 200
            && planar_frame_spec(src@, r->Ok_0->FullScreen_0.rgba@),
        src@.len() != 32000 ==> (r == Err::<Extraction, SheetError>(SheetError::TooSmall) <==> src@.len() < 4),
        src@.len() != 32000 ==> (r == Err::<Extraction, SheetError>(SheetError::SizeIncorrect) <==> (
        src@.len() >= 4 && be32(src@) + 4 != src@.len())),
        src@.len() != 32000 && r is Ok ==> r->Ok_0 is Sprites && r->Ok_0->Sprites_0@.len()
            == record_starts(src@.skip(4)).len(),
        src@.len() != 32000 && r is Ok ==> forall|i: int|
            0 <= i < r->Ok_0->Sprites_0@.len() ==> #[trigger] frame_matches(
                record_starts(src@.skip(4))[i],
                r->Ok_0->Sprites_0@[i],
            ),
        r is Ok && r->Ok_0 is FullScreen ==> r->Ok_0->FullScreen_0.wf(),
        r is Ok && r->Ok_0 is Sprites ==> forall|i: int|
            0 <= i < r->Ok_0->Sprites_0@.len() ==> (#[trigger] r->Ok_0->Sprites_0@[i]).wf(),
{
    if src.len() == 32000 {
        Ok(Extraction::FullScreen(extract_fullscreen_ega(src)))
    } else {
        match extract_sprites_ega(src) {
            Ok(frames) => Ok(Extraction::Sprites(frames)),
            Err(e) => Err(e),
        }
    }
}

} // verus!
