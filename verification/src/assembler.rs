//! The picture of a decoded label: one scanline per raster row and one per
//! print event, in four palette colours.

use vstd::prelude::*;
use crate::document::{parts_uniform, rows_uniform, Document, DocumentModel};
use crate::parser::{parts_of, LabelPart, PartModel};
use crate::raster::rows_of;

verus! {

/// Palette index of a pixel without a mark (white).
pub const INDEX_BACKGROUND: u8 = 0;

/// Palette index of a marked pixel (black).
pub const INDEX_MARK: u8 = 1;

/// Palette index of the scanline that stands for a print event (red).
pub const INDEX_PRINT: u8 = 2;

/// Palette index of the scanline that stands for a print-and-feed event
/// (blue).
pub const INDEX_PRINT_FEED: u8 = 3;

/// The palette as red, green and blue bytes, one triple per index.
pub open spec fn palette_spec() -> Seq<u8> {
    seq![
        0xFFu8, 0xFFu8, 0xFFu8,
        0x00u8, 0x00u8, 0x00u8,
        0xFFu8, 0x00u8, 0x00u8,
        0x00u8, 0x00u8, 0xFFu8,
    ]
}

/// The palette as red, green and blue bytes, one triple per index.
pub fn palette() -> (colours: Vec<u8>)
    ensures
        colours@ == palette_spec(),
{
    let mut colours: Vec<u8> = Vec::new();
    colours.push(0xFF);
    colours.push(0xFF);
    colours.push(0xFF);
    colours.push(0x00);
    colours.push(0x00);
    colours.push(0x00);
    colours.push(0xFF);
    colours.push(0x00);
    colours.push(0x00);
    colours.push(0x00);
    colours.push(0x00);
    colours.push(0xFF);
    assert(colours@ =~= palette_spec());
    colours
}

/// A scanline of `width` pixels, all of palette index `index`.
pub open spec fn solid_line(width: nat, index: u8) -> Seq<u8> {
    Seq::new(width, |i: int| index)
}

/// The scanlines that one part gives: its rows for a block, one solid line
/// for a marker.
pub open spec fn part_lines(part: PartModel, width: nat) -> Seq<Seq<u8>> {
    match part {
        PartModel::RasterBlock { rows } => rows,
        PartModel::PrintMarker => seq![solid_line(width, INDEX_PRINT)],
        PartModel::PrintFeedMarker => seq![solid_line(width, INDEX_PRINT_FEED)],
    }
}

/// The scanlines of `parts`, part after part.
pub open spec fn scanlines_spec(parts: Seq<PartModel>, width: nat) -> Seq<Seq<u8>>
    decreases parts.len(),
{
    if parts.len() == 0 {
        Seq::empty()
    } else {
        scanlines_spec(parts.drop_last(), width) + part_lines(parts.last(), width)
    }
}

/// A picture in palette indices, one byte per pixel.
#[derive(Clone, Debug, PartialEq, Eq)]
pub struct IndexedImage {
    /// Width in pixels.
    pub width: usize,
    /// The scanlines from top to bottom; the height is their number.
    pub lines: Vec<Vec<u8>>,
}

/// What an `IndexedImage` holds.
pub struct ImageModel {
    pub width: nat,
    pub lines: Seq<Seq<u8>>,
}

impl View for IndexedImage {
    type V = ImageModel;

    open spec fn view(&self) -> ImageModel {
        ImageModel { width: self.width as nat, lines: rows_of(self.lines@) }
    }
}

/// The picture of a document.
pub open spec fn render_spec(document: DocumentModel) -> ImageModel {
    ImageModel {
        width: document.width,
        lines: scanlines_spec(document.parts, document.width),
    }
}

/// Where every row of every block is `width` wide, every scanline is
/// `width` wide.
pub proof fn lemma_scanlines_uniform(parts: Seq<PartModel>, width: nat)
    requires
        parts_uniform(parts, width),
    ensures
        rows_uniform(scanlines_spec(parts, width), width),
    decreases parts.len(),
{
    if parts.len() > 0 {
        let front = parts.drop_last();
        assert forall|i: int| 0 <= i < front.len() implies (
        #[trigger] front[i] matches PartModel::RasterBlock { rows } ==> rows_uniform(rows, width)) by {
            assert(front[i] == parts[i]);
        }
        lemma_scanlines_uniform(front, width);
        let head = scanlines_spec(front, width);
        let tail = part_lines(parts.last(), width);
        assert(parts[parts.len() - 1] == parts.last());
        assert(rows_uniform(tail, width));
        let lines = scanlines_spec(parts, width);
        assert forall|i: int| 0 <= i < lines.len() implies (#[trigger] lines[i]).len() == width by {
            if i < head.len() {
                assert(lines[i] == head[i]);
            } else {
                assert(lines[i] == tail[i - head.len()]);
            }
        }
    }
}

/// A scanline of `width` pixels, all of palette index `index`.
pub fn solid(width: usize, index: u8) -> (line: Vec<u8>)
    ensures
        line@ == solid_line(width as nat, index),
{
    let mut line: Vec<u8> = Vec::new();
    let mut i: usize = 0;
    while i < width
        invariant
            i <= width,
            line@ == solid_line(i as nat, index),
        decreases width - i,
    {
        line.push(index);
        proof {
            assert(solid_line((i + 1) as nat, index) =~= solid_line(i as nat, index).push(index));
        }
        i += 1;
    }
    line
}

/// A copy of `row`.
fn copy_row(row: &[u8]) -> (copy: Vec<u8>)
    ensures
        copy@ == row@,
{
    let mut copy: Vec<u8> = Vec::new();
    let mut i: usize = 0;
    while i < row.len()
        invariant
            i <= row.len(),
            copy@ == row@.take(i as int),
        decreases row.len() - i,
    {
        copy.push(row[i]);
        proof {
            assert(row@.take(i + 1) =~= row@.take(i as int).push(row@[i as int]));
        }
        i += 1;
    }
    proof {
        assert(row@.take(i as int) =~= row@);
    }
    copy
}

/// Draws the picture of a document: the rows of each block as they are, a
/// red line for each print event, a blue line for each print-and-feed
/// event.
pub fn render(document: &Document) -> (image: IndexedImage)
    ensures
        image@ == render_spec(document@),
        document@.uniform() ==> rows_uniform(image@.lines, image@.width),
{
    let width: usize = document.width;
    let mut lines: Vec<Vec<u8>> = Vec::new();
    let mut i: usize = 0;
    proof {
        assert(rows_of(lines@) =~= scanlines_spec(parts_of(document.parts@).take(0), width as nat));
    }
    while i < document.parts.len()
        invariant
            i <= document.parts.len(),
            width == document.width,
            rows_of(lines@) == scanlines_spec(
                parts_of(document.parts@).take(i as int),
                width as nat,
            ),
        decreases document.parts.len() - i,
    {
        let ghost before = rows_of(lines@);
        let ghost all = parts_of(document.parts@);
        proof {
            assert(all.take(i + 1).drop_last() =~= all.take(i as int));
            assert(all.take(i + 1).last() == document.parts@[i as int]@);
        }
        match &document.parts[i] {
            LabelPart::RasterBlock { rows } => {
                let mut k: usize = 0;
                while k < rows.len()
                    invariant
                        k <= rows.len(),
                        rows_of(lines@) == before + rows_of(rows@).take(k as int),
                    decreases rows.len() - k,
                {
                    let ghost so_far = rows_of(lines@);
                    let line = copy_row(rows[k].as_slice());
                    lines.push(line);
                    proof {
                        assert(rows_of(lines@) =~= so_far.push(rows@[k as int]@));
                        assert(rows_of(rows@).take(k + 1) =~= rows_of(rows@).take(k as int).push(
                            rows@[k as int]@,
                        ));
                        assert(rows_of(lines@) =~= before + rows_of(rows@).take(k + 1));
                    }
                    k += 1;
                }
                proof {
                    assert(rows_of(rows@).take(k as int) =~= rows_of(rows@));
                }
            },
            LabelPart::PrintMarker => {
                lines.push(solid(width, INDEX_PRINT));
                proof {
                    assert(rows_of(lines@) =~= before + seq![
                        solid_line(width as nat, INDEX_PRINT),
                    ]);
                }
            },
            LabelPart::PrintFeedMarker => {
                lines.push(solid(width, INDEX_PRINT_FEED));
                proof {
                    assert(rows_of(lines@) =~= before + seq![
                        solid_line(width as nat, INDEX_PRINT_FEED),
                    ]);
                }
            },
        }
        i += 1;
    }
    proof {
        assert(parts_of(document.parts@).take(i as int) =~= parts_of(document.parts@));
        if document@.uniform() {
            lemma_scanlines_uniform(document@.parts, document@.width);
        }
    }
    IndexedImage { width, lines }
}

} // verus!
