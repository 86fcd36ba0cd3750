//! The result of a decoding pass: the parts of the label, every row filled
//! up to the width of the widest one.

use vstd::prelude::*;
use crate::parser::{parts_of, rows_fit, LabelPart, Parser, ParserModel, PartModel, PrinterSettings};
use crate::raster::rows_of;

verus! {

/// `row` with background pixels behind it up to `width`; a row that is
/// already as wide stays as it is.
pub open spec fn pad_row_spec(row: Seq<u8>, width: nat) -> Seq<u8> {
    if row.len() >= width {
        row
    } else {
        row + Seq::new((width - row.len()) as nat, |i: int| 0u8)
    }
}

/// `rows` with each row filled up to `width`.
pub open spec fn pad_rows_spec(rows: Seq<Seq<u8>>, width: nat) -> Seq<Seq<u8>> {
    Seq::new(rows.len(), |i: int| pad_row_spec(rows[i], width))
}

/// `part` with the rows of a block filled up to `width`.
pub open spec fn pad_part_spec(part: PartModel, width: nat) -> PartModel {
    match part {
        PartModel::RasterBlock { rows } => PartModel::RasterBlock {
            rows: pad_rows_spec(rows, width),
        },
        PartModel::PrintMarker => PartModel::PrintMarker,
        PartModel::PrintFeedMarker => PartModel::PrintFeedMarker,
    }
}

/// `parts` with every row filled up to `width`.
pub open spec fn pad_parts_spec(parts: Seq<PartModel>, width: nat) -> Seq<PartModel> {
    Seq::new(parts.len(), |i: int| pad_part_spec(parts[i], width))
}

/// A decoded label.
#[derive(Clone, Debug, PartialEq, Eq)]
pub struct Document {
    /// The settings the stream gave.
    pub settings: PrinterSettings,
    /// Width in pixels of every row.
    pub width: usize,
    /// The blocks and print markers in stream order; the last part is
    /// always a block.
    pub parts: Vec<LabelPart>,
}

/// What a `Document` holds.
pub struct DocumentModel {
    pub settings: PrinterSettings,
    pub width: nat,
    pub parts: Seq<PartModel>,
}

impl View for Document {
    type V = DocumentModel;

    open spec fn view(&self) -> DocumentModel {
        DocumentModel {
            settings: self.settings,
            width: self.width as nat,
            parts: parts_of(self.parts@),
        }
    }
}

/// Every row of `rows` is exactly `width` wide.
pub open spec fn rows_uniform(rows: Seq<Seq<u8>>, width: nat) -> bool {
    forall|i: int| 0 <= i < rows.len() ==> (#[trigger] rows[i]).len() == width
}

/// Every row of every block of `parts` is exactly `width` wide.
pub open spec fn parts_uniform(parts: Seq<PartModel>, width: nat) -> bool {
    forall|i: int|
        0 <= i < parts.len() ==> (#[trigger] parts[i] matches PartModel::RasterBlock { rows }
            ==> rows_uniform(rows, width))
}

impl DocumentModel {
    /// Every row of every block is exactly as wide as the document.
    pub open spec fn uniform(self) -> bool {
        parts_uniform(self.parts, self.width)
    }
}

/// The document a pass ends in: the open rows closed into a last block, and
/// every row filled up to the final width.
pub open spec fn finish_spec(state: ParserModel) -> DocumentModel {
    DocumentModel {
        settings: state.settings,
        width: state.width,
        parts: pad_parts_spec(
            state.parts.push(PartModel::RasterBlock { rows: state.rows }),
            state.width,
        ),
    }
}

/// Where the width bounds every row, filling up makes every row exactly
/// that wide, and the last part is the block of the rows that were open.
pub proof fn lemma_finish_uniform(state: ParserModel)
    requires
        state.wf(),
    ensures
        finish_spec(state).uniform(),
        finish_spec(state).parts.len() == state.parts.len() + 1,
        finish_spec(state).parts.last() == (PartModel::RasterBlock {
            rows: pad_rows_spec(state.rows, state.width),
        }),
{
    let doc = finish_spec(state);
    let all = state.parts.push(PartModel::RasterBlock { rows: state.rows });
    assert forall|i: int| 0 <= i < doc.parts.len() implies (
    #[trigger] doc.parts[i] matches PartModel::RasterBlock { rows } ==> rows_uniform(
        rows,
        doc.width,
    )) by {
        if let PartModel::RasterBlock { rows } = all[i] {
            if i < state.parts.len() {
                assert(all[i] == state.parts[i]);
                assert(rows_fit(rows, state.width));
            } else {
                assert(rows == state.rows);
            }
            let padded = pad_rows_spec(rows, state.width);
            assert(doc.parts[i] == PartModel::RasterBlock { rows: padded });
            assert forall|k: int| 0 <= k < padded.len() implies (#[trigger] padded[k]).len()
                == state.width by {
                assert(rows[k].len() <= state.width);
            }
        }
    }
}

/// Fills `row` up to `width` with background pixels.
pub fn pad_row(row: &[u8], width: usize) -> (padded: Vec<u8>)
    ensures
        padded@ == pad_row_spec(row@, width as nat),
{
    let mut padded: Vec<u8> = Vec::new();
    let mut i: usize = 0;
    while i < row.len()
        invariant
            i <= row.len(),
            padded@ == row@.take(i as int),
        decreases row.len() - i,
    {
        padded.push(row[i]);
        proof {
            assert(row@.take(i + 1) =~= row@.take(i as int).push(row@[i as int]));
        }
        i += 1;
    }
    proof {
        assert(row@.take(i as int) =~= row@);
    }
    while i < width
        invariant
            row@.len() <= i,
            i <= width || row@.len() >= width,
            padded@.len() == i,
            row@.len() < width ==> padded@ == row@ + Seq::new(
                (i - row@.len()) as nat,
                |k: int| 0u8,
            ),
            row@.len() >= width ==> padded@ == row@,
        decreases width - i,
    {
        padded.push(0u8);
        proof {
            assert(row@ + Seq::new((i + 1 - row@.len()) as nat, |k: int| 0u8) =~= (row@ + Seq::new(
                (i - row@.len()) as nat,
                |k: int| 0u8,
            )).push(0u8));
        }
        i += 1;
    }
    proof {
        if row@.len() < width {
            assert(i == width);
        }
        assert(row@ + Seq::new(0nat, |k: int| 0u8) =~= row@);
    }
    padded
}

/// Fills each row of `rows` up to `width`.
pub fn pad_rows(rows: &Vec<Vec<u8>>, width: usize) -> (padded: Vec<Vec<u8>>)
    ensures
        rows_of(padded@) == pad_rows_spec(rows_of(rows@), width as nat),
{
    let mut padded: Vec<Vec<u8>> = Vec::new();
    let mut i: usize = 0;
    while i < rows.len()
        invariant
            i <= rows.len(),
            padded@.len() == i,
            forall|k: int|
                0 <= k < i ==> (#[trigger] padded@[k])@ == pad_row_spec(rows@[k]@, width as nat),
        decreases rows.len() - i,
    {
        let row = pad_row(rows[i].as_slice(), width);
        padded.push(row);
        i += 1;
    }
    proof {
        assert(rows_of(padded@) =~= pad_rows_spec(rows_of(rows@), width as nat));
    }
    padded
}

/// Fills the rows of a block up to `width`; a marker stays as it is.
pub fn pad_part(part: &LabelPart, width: usize) -> (padded: LabelPart)
    ensures
        padded@ == pad_part_spec(part@, width as nat),
{
    match part {
        LabelPart::RasterBlock { rows } => LabelPart::RasterBlock { rows: pad_rows(rows, width) },
        LabelPart::PrintMarker => LabelPart::PrintMarker,
        LabelPart::PrintFeedMarker => LabelPart::PrintFeedMarker,
    }
}

impl Parser {
    /// Ends the pass: closes the open rows into a last block and fills
    /// every row up to the final width.
    ///
    /// Where no row is wider than the running width, as in every parser
    /// that `new` made and commands advanced, every row of the document is
    /// exactly as wide as the document.
    pub fn finish(self) -> (document: Document)
        ensures
            document@ == finish_spec(self@),
            self@.wf() ==> document@.uniform(),
    {
        let width: usize = self.width;
        let mut parts: Vec<LabelPart> = Vec::new();
        let mut i: usize = 0;
        while i < self.parts.len()
            invariant
                i <= self.parts.len(),
                width == self.width,
                parts@.len() == i,
                forall|k: int|
                    0 <= k < i ==> (#[trigger] parts@[k])@ == pad_part_spec(
                        self.parts@[k]@,
                        width as nat,
                    ),
            decreases self.parts.len() - i,
        {
            let part = pad_part(&self.parts[i], width);
            parts.push(part);
            i += 1;
        }
        let last = LabelPart::RasterBlock { rows: pad_rows(&self.rows, width) };
        parts.push(last);
        let document = Document { settings: self.settings, width, parts };
        proof {
            assert(document@.parts =~= finish_spec(self@).parts);
            if self@.wf() {
                lemma_finish_uniform(self@);
            }
        }
        document
    }
}

} // verus!
