//! Encoding of a set of bitmaps into a command stream, one page per
//! bitmap.

use vstd::prelude::*;
use crate::decoder::decode_spec;
use crate::document::DocumentModel;
use crate::error::{Failure, InputError};
use crate::raster::{page_rows_spec, rows_of, transcode_page, Bitmap, BitmapModel};
use crate::round_trip::{lemma_encoded_bitmaps_decode, printed_document};
use crate::writer::{job_fault, pages_of, stream_spec, write_job, PrintOptions};

verus! {

/// The bit depth a source bitmap must have.
pub const SOURCE_BIT_DEPTH: u8 = 1;

/// The contents of a vector of bitmaps.
pub open spec fn bitmaps_of(bitmaps: Seq<Bitmap>) -> Seq<BitmapModel> {
    Seq::new(bitmaps.len(), |i: int| bitmaps[i]@)
}

/// What is wrong with the bitmap at `index`, if anything: its width where
/// it differs from that of the first bitmap, or else its bit depth where
/// that is not one.
pub open spec fn bitmap_fault(bitmaps: Seq<BitmapModel>, index: int) -> Option<InputError> {
    if bitmaps[index].width != bitmaps[0].width {
        Some(
            InputError::WidthMismatch {
                index: index as usize,
                width: bitmaps[index].width as u32,
                expected: bitmaps[0].width as u32,
            },
        )
    } else if bitmaps[index].bit_depth != SOURCE_BIT_DEPTH {
        Some(InputError::BitDepth { index: index as usize, depth: bitmaps[index].bit_depth })
    } else {
        None
    }
}

/// The fault of the first bitmap at or behind `from` that has one.
pub open spec fn bitmaps_fault(bitmaps: Seq<BitmapModel>, from: int) -> Option<InputError>
    decreases bitmaps.len() - from,
{
    if from < 0 || from >= bitmaps.len() {
        None
    } else {
        match bitmap_fault(bitmaps, from) {
            Some(e) => Some(e),
            None => bitmaps_fault(bitmaps, from + 1),
        }
    }
}

/// What keeps a set of bitmaps from being printed together: that it is
/// empty, or else the fault of the first bitmap that has one.
pub open spec fn input_fault(bitmaps: Seq<BitmapModel>) -> Option<InputError> {
    if bitmaps.len() == 0 {
        Some(InputError::NoImages)
    } else {
        bitmaps_fault(bitmaps, 0)
    }
}

/// The pages of a set of bitmaps, each in wire form and feed order.
pub open spec fn pages_spec(bitmaps: Seq<BitmapModel>) -> Seq<Seq<Seq<u8>>> {
    Seq::new(bitmaps.len(), |i: int| page_rows_spec(bitmaps[i]))
}

/// The stream that prints `bitmaps` with `options`, or the reason why
/// there is none.
pub open spec fn encode_spec(options: PrintOptions, bitmaps: Seq<BitmapModel>) -> Result<
    Seq<u8>,
    InputError,
> {
    match input_fault(bitmaps) {
        Some(e) => Err(e),
        None => match job_fault(pages_spec(bitmaps), 0) {
            Some(e) => Err(e),
            None => Ok(stream_spec(options, pages_spec(bitmaps))),
        },
    }
}

/// Bitmaps have no fault from `from` on exactly where each of them is as
/// wide as the first and has one bit per pixel.
pub proof fn lemma_bitmaps_fault(bitmaps: Seq<BitmapModel>, from: int)
    requires
        0 <= from,
    ensures
        bitmaps_fault(bitmaps, from) is None <==> forall|i: int|
            from <= i < bitmaps.len() ==> (#[trigger] bitmaps[i]).width == bitmaps[0].width
                && bitmaps[i].bit_depth == SOURCE_BIT_DEPTH,
    decreases bitmaps.len() - from,
{
    if from < bitmaps.len() {
        lemma_bitmaps_fault(bitmaps, from + 1);
    }
}

/// A set of bitmaps that is not empty never has the fault of being empty.
pub proof fn lemma_input_fault_kind(bitmaps: Seq<BitmapModel>)
    requires
        bitmaps.len() > 0,
    ensures
        input_fault(bitmaps) != Some(InputError::NoImages),
{
    lemma_bitmaps_fault_kind(bitmaps, 0);
}

/// The fault of a bitmap is never that of an empty set.
pub proof fn lemma_bitmaps_fault_kind(bitmaps: Seq<BitmapModel>, from: int)
    ensures
        bitmaps_fault(bitmaps, from) != Some(InputError::NoImages),
    decreases bitmaps.len() - from,
{
    if 0 <= from < bitmaps.len() {
        lemma_bitmaps_fault_kind(bitmaps, from + 1);
    }
}

/// A bitmap that is not as wide as the first keeps the whole set from
/// being encoded; where every bitmap in front of it is sound, the error
/// names it and both widths.
pub proof fn lemma_width_mismatch(options: PrintOptions, bitmaps: Seq<BitmapModel>, index: int)
    requires
        0 <= index < bitmaps.len(),
        bitmaps[index].width != bitmaps[0].width,
    ensures
        encode_spec(options, bitmaps) is Err,
        (forall|i: int|
            0 <= i < index ==> (#[trigger] bitmaps[i]).width == bitmaps[0].width
                && bitmaps[i].bit_depth == SOURCE_BIT_DEPTH) ==> encode_spec(options, bitmaps)
            == Err::<Seq<u8>, InputError>(
            InputError::WidthMismatch {
                index: index as usize,
                width: bitmaps[index].width as u32,
                expected: bitmaps[0].width as u32,
            },
        ),
{
    lemma_bitmaps_fault(bitmaps, 0);
    if forall|i: int|
        0 <= i < index ==> (#[trigger] bitmaps[i]).width == bitmaps[0].width && bitmaps[i].bit_depth
            == SOURCE_BIT_DEPTH {
        lemma_first_fault(bitmaps, 0, index);
    }
}

/// Where the bitmaps from `from` up to `index` are sound, the fault from
/// `from` on is the fault from `index` on.
proof fn lemma_first_fault(bitmaps: Seq<BitmapModel>, from: int, index: int)
    requires
        0 <= from <= index < bitmaps.len(),
        forall|i: int|
            from <= i < index ==> (#[trigger] bitmaps[i]).width == bitmaps[0].width
                && bitmaps[i].bit_depth == SOURCE_BIT_DEPTH,
    ensures
        bitmaps_fault(bitmaps, from) == bitmaps_fault(bitmaps, index),
    decreases index - from,
{
    if from < index {
        assert(bitmaps[from].width == bitmaps[0].width);
        lemma_first_fault(bitmaps, from + 1, index);
    }
}

/// Looks for what keeps `bitmaps` from being printed together.
pub fn check_bitmaps(bitmaps: &Vec<Bitmap>) -> (fault: Option<InputError>)
    ensures
        fault == input_fault(bitmaps_of(bitmaps@)),
{
    if bitmaps.len() == 0 {
        return Some(InputError::NoImages);
    }
    let expected: u32 = bitmaps[0].width;
    let mut i: usize = 0;
    while i < bitmaps.len()
        invariant
            i <= bitmaps.len(),
            bitmaps@.len() > 0,
            expected == bitmaps@[0].width,
            bitmaps_fault(bitmaps_of(bitmaps@), 0) == bitmaps_fault(
                bitmaps_of(bitmaps@),
                i as int,
            ),
        decreases bitmaps.len() - i,
    {
        let bitmap = &bitmaps[i];
        assert(bitmaps_of(bitmaps@)[i as int] == bitmap@);
        assert(bitmaps_of(bitmaps@)[0] == bitmaps@[0]@);
        if bitmap.width != expected {
            return Some(InputError::WidthMismatch { index: i, width: bitmap.width, expected });
        }
        if bitmap.bit_depth != SOURCE_BIT_DEPTH {
            return Some(InputError::BitDepth { index: i, depth: bitmap.bit_depth });
        }
        i += 1;
    }
    None
}

/// Encodes `bitmaps` into the stream that prints them with `options`, one
/// page each.
///
/// Fails, with nothing written, where no bitmap is given, where a bitmap is
/// not as wide as the first or has more than one bit per pixel, and where
/// a page cannot be announced.
///
/// The stream written decodes to the document that holds each bitmap as a
/// block of its flipped rows, the bottom row first.
pub fn encode(options: &PrintOptions, bitmaps: &Vec<Bitmap>) -> (r: Result<Vec<u8>, InputError>)
    ensures
        match encode_spec(*options, bitmaps_of(bitmaps@)) {
            Ok(stream) => r matches Ok(out) && out@ == stream,
            Err(e) => r == Err::<Vec<u8>, InputError>(e),
        },
        r matches Ok(out) ==> decode_spec(out@) == Ok::<DocumentModel, Failure>(
            printed_document(*options, pages_spec(bitmaps_of(bitmaps@))),
        ),
{
    proof {
        if encode_spec(*options, bitmaps_of(bitmaps@)) is Ok {
            lemma_encoded_bitmaps_decode(*options, bitmaps_of(bitmaps@));
        }
    }
    match check_bitmaps(bitmaps) {
        Some(e) => {
            return Err(e);
        },
        None => {},
    }
    let mut pages: Vec<Vec<Vec<u8>>> = Vec::new();
    let mut i: usize = 0;
    while i < bitmaps.len()
        invariant
            i <= bitmaps.len(),
            pages@.len() == i,
            forall|k: int|
                0 <= k < i ==> rows_of((#[trigger] pages@[k])@) == page_rows_spec(bitmaps@[k]@),
        decreases bitmaps.len() - i,
    {
        let page = transcode_page(&bitmaps[i]);
        pages.push(page);
        i += 1;
    }
    proof {
        assert(pages_of(pages@) =~= pages_spec(bitmaps_of(bitmaps@)));
    }
    write_job(options, &pages)
}

} // verus!
