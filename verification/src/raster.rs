//! Conversion between packed raster rows and bitmaps.
//!
//! On the wire a row is a run of bytes, eight pixels to the byte, the most
//! significant bit first, a set bit for a mark. A decoded row holds one byte
//! per pixel, `0` for background and `1` for a mark. A source bitmap for
//! printing stores its rows from top to bottom with a set bit for
//! background; the printer is fed the bottom row first.

use vstd::prelude::*;
use crate::packbits::{pack_bits, pack_spec};

verus! {

/// Pixel `i` of a packed row: bit `7 - i % 8` of byte `i / 8`.
pub open spec fn pixel_at(bytes: Seq<u8>, i: int) -> u8 {
    (bytes[i / 8] >> ((7 - i % 8) as u8)) & 1
}

/// The pixels of a packed row, one byte each.
pub open spec fn expand_spec(bytes: Seq<u8>) -> Seq<u8> {
    Seq::new(8 * bytes.len(), |i: int| pixel_at(bytes, i))
}

/// Every pixel of an expanded row is `0` or `1`.
pub proof fn lemma_pixels_are_bits(bytes: Seq<u8>, i: int)
    requires
        0 <= i < 8 * bytes.len(),
    ensures
        expand_spec(bytes)[i] == 0 || expand_spec(bytes)[i] == 1,
{
    let byte = bytes[i / 8];
    let shift = (7 - i % 8) as u8;
    assert((byte >> shift) & 1 == 0 || (byte >> shift) & 1 == 1) by (bit_vector);
}

/// Expands a packed row to one byte per pixel.
pub fn expand_bits(bytes: &[u8]) -> (pixels: Vec<u8>)
    ensures
        pixels@ == expand_spec(bytes@),
{
    let mut pixels: Vec<u8> = Vec::new();
    let mut i: usize = 0;
    while i < bytes.len()
        invariant
            i <= bytes.len(),
            pixels@.len() == 8 * i,
            forall|k: int| 0 <= k < 8 * i ==> #[trigger] pixels@[k] == pixel_at(bytes@, k),
        decreases bytes.len() - i,
    {
        let byte: u8 = bytes[i];
        let mut bit: u8 = 0;
        while bit < 8
            invariant
                bit <= 8,
                i < bytes.len(),
                byte == bytes@[i as int],
                pixels@.len() == 8 * i + bit,
                forall|k: int|
                    0 <= k < 8 * i + bit ==> #[trigger] pixels@[k] == pixel_at(bytes@, k),
            decreases 8 - bit,
        {
            let pixel: u8 = (byte >> (7 - bit)) & 1;
            pixels.push(pixel);
            bit += 1;
        }
        i += 1;
    }
    assert(pixels@ =~= expand_spec(bytes@));
    pixels
}

/// Number of pixels of a row `width` pixels wide that lie in its byte
/// `index`.
pub open spec fn valid_bits(width: nat, index: int) -> nat {
    if width >= 8 * index + 8 {
        8
    } else if width <= 8 * index {
        0
    } else {
        (width - 8 * index) as nat
    }
}

/// The byte whose `count` most significant bits are set and no others.
pub open spec fn high_bits(count: nat) -> u8 {
    if count == 0 {
        0x00
    } else if count == 1 {
        0x80
    } else if count == 2 {
        0xC0
    } else if count == 3 {
        0xE0
    } else if count == 4 {
        0xF0
    } else if count == 5 {
        0xF8
    } else if count == 6 {
        0xFC
    } else if count == 7 {
        0xFE
    } else {
        0xFF
    }
}

/// A packed row with each of its first `width` pixels flipped; bits behind
/// the last pixel stay as they are.
pub open spec fn invert_spec(row: Seq<u8>, width: nat) -> Seq<u8> {
    Seq::new(row.len(), |i: int| row[i] ^ high_bits(valid_bits(width, i)))
}

/// Flipping a row flips exactly the pixels below `width`.
pub proof fn lemma_invert_pixel(row: Seq<u8>, width: nat, i: int)
    requires
        0 <= i < 8 * row.len(),
    ensures
        pixel_at(invert_spec(row, width), i) == if i < width {
            (1 - pixel_at(row, i)) as u8
        } else {
            pixel_at(row, i)
        },
{
    let byte = row[i / 8];
    let count = valid_bits(width, i / 8);
    let mask = high_bits(count);
    let place = (i % 8) as u8;
    let shift = (7 - i % 8) as u8;
    assert(invert_spec(row, width)[i / 8] == byte ^ mask);
    assert(i < width <==> place < count);
    assert(place < 8 && shift == 7 - place);
    if count == 0 {
        assert(((byte ^ 0x00) >> shift) & 1 == (byte >> shift) & 1) by (bit_vector);
    } else if count == 1 {
        assert(((byte ^ 0x80) >> shift) & 1 == if place < 1 {
            (1 - ((byte >> shift) & 1)) as u8
        } else {
            (byte >> shift) & 1
        }) by (bit_vector)
            requires
                place < 8 && shift == 7 - place,
        ;
    } else if count == 2 {
        assert(((byte ^ 0xC0) >> shift) & 1 == if place < 2 {
            (1 - ((byte >> shift) & 1)) as u8
        } else {
            (byte >> shift) & 1
        }) by (bit_vector)
            requires
                place < 8 && shift == 7 - place,
        ;
    } else if count == 3 {
        assert(((byte ^ 0xE0) >> shift) & 1 == if place < 3 {
            (1 - ((byte >> shift) & 1)) as u8
        } else {
            (byte >> shift) & 1
        }) by (bit_vector)
            requires
                place < 8 && shift == 7 - place,
        ;
    } else if count == 4 {
        assert(((byte ^ 0xF0) >> shift) & 1 == if place < 4 {
            (1 - ((byte >> shift) & 1)) as u8
        } else {
            (byte >> shift) & 1
        }) by (bit_vector)
            requires
                place < 8 && shift == 7 - place,
        ;
    } else if count == 5 {
        assert(((byte ^ 0xF8) >> shift) & 1 == if place < 5 {
            (1 - ((byte >> shift) & 1)) as u8
        } else {
            (byte >> shift) & 1
        }) by (bit_vector)
            requires
                place < 8 && shift == 7 - place,
        ;
    } else if count == 6 {
        assert(((byte ^ 0xFC) >> shift) & 1 == if place < 6 {
            (1 - ((byte >> shift) & 1)) as u8
        } else {
            (byte >> shift) & 1
        }) by (bit_vector)
            requires
                place < 8 && shift == 7 - place,
        ;
    } else if count == 7 {
        assert(((byte ^ 0xFE) >> shift) & 1 == if place < 7 {
            (1 - ((byte >> shift) & 1)) as u8
        } else {
            (byte >> shift) & 1
        }) by (bit_vector)
            requires
                place < 8 && shift == 7 - place,
        ;
    } else {
        assert(((byte ^ 0xFF) >> shift) & 1 == (1 - ((byte >> shift) & 1)) as u8)
            by (bit_vector)
            requires
                shift < 8,
        ;
    }
}

/// The byte whose `count` most significant bits are set.
fn high_bits_mask(count: u32) -> (mask: u8)
    requires
        count <= 8,
    ensures
        mask == high_bits(count as nat),
{
    if count == 0 {
        0x00
    } else if count == 1 {
        0x80
    } else if count == 2 {
        0xC0
    } else if count == 3 {
        0xE0
    } else if count == 4 {
        0xF0
    } else if count == 5 {
        0xF8
    } else if count == 6 {
        0xFC
    } else if count == 7 {
        0xFE
    } else {
        0xFF
    }
}

/// Flips the first `width` pixels of a packed row.
pub fn invert_row(row: &[u8], width: u32) -> (inverted: Vec<u8>)
    ensures
        inverted@ == invert_spec(row@, width as nat),
{
    let mut inverted: Vec<u8> = Vec::new();
    let mut remaining: u32 = width;
    let mut i: usize = 0;
    while i < row.len()
        invariant
            i <= row.len(),
            inverted@.len() == i,
            remaining == if width >= 8 * i { width - 8 * i } else { 0 },
            forall|k: int|
                0 <= k < i ==> #[trigger] inverted@[k] == row@[k] ^ high_bits(
                    valid_bits(width as nat, k),
                ),
        decreases row.len() - i,
    {
        let bits: u32 = if remaining < 8 { remaining } else { 8 };
        let mask: u8 = high_bits_mask(bits);
        assert(bits == valid_bits(width as nat, i as int));
        inverted.push(row[i] ^ mask);
        remaining -= bits;
        i += 1;
    }
    assert(inverted@ =~= invert_spec(row@, width as nat));
    inverted
}

/// Every byte of `bytes` is zero: the row holds no mark.
pub open spec fn is_blank(bytes: Seq<u8>) -> bool {
    forall|i: int| 0 <= i < bytes.len() ==> #[trigger] bytes[i] == 0
}

/// Tells whether every byte of `bytes` is zero.
pub fn all_zero(bytes: &[u8]) -> (blank: bool)
    ensures
        blank == is_blank(bytes@),
{
    let mut i: usize = 0;
    while i < bytes.len()
        invariant
            i <= bytes.len(),
            forall|k: int| 0 <= k < i ==> #[trigger] bytes@[k] == 0,
        decreases bytes.len() - i,
    {
        if bytes[i] != 0 {
            return false;
        }
        i += 1;
    }
    true
}

/// Wire form of one bitmap row: empty where the flipped row holds no mark,
/// its packed form otherwise.
pub open spec fn encode_row_spec(row: Seq<u8>, width: nat) -> Seq<u8> {
    let flipped = invert_spec(row, width);
    if is_blank(flipped) {
        Seq::empty()
    } else {
        pack_spec(flipped)
    }
}

/// Brings one bitmap row into its wire form.
pub fn encode_row(row: &[u8], width: u32) -> (wire: Vec<u8>)
    ensures
        wire@ == encode_row_spec(row@, width as nat),
{
    let flipped = invert_row(row, width);
    if all_zero(flipped.as_slice()) {
        Vec::new()
    } else {
        pack_bits(flipped.as_slice())
    }
}

/// The contents of a vector of rows.
pub open spec fn rows_of(rows: Seq<Vec<u8>>) -> Seq<Seq<u8>> {
    Seq::new(rows.len(), |i: int| rows[i]@)
}

/// A source bitmap as an image decoder hands it out: rows from top to
/// bottom, each packed at `bit_depth` bits per pixel.
#[derive(Clone, Debug, PartialEq, Eq)]
pub struct Bitmap {
    pub width: u32,
    pub bit_depth: u8,
    pub rows: Vec<Vec<u8>>,
}

/// What a `Bitmap` holds.
pub struct BitmapModel {
    pub width: nat,
    pub bit_depth: u8,
    pub rows: Seq<Seq<u8>>,
}

impl View for Bitmap {
    type V = BitmapModel;

    open spec fn view(&self) -> BitmapModel {
        BitmapModel {
            width: self.width as nat,
            bit_depth: self.bit_depth,
            rows: rows_of(self.rows@),
        }
    }
}

/// The rows of a page in feed order: the bitmap's rows in wire form, the
/// bottom row first.
pub open spec fn page_rows_spec(bitmap: BitmapModel) -> Seq<Seq<u8>> {
    Seq::new(
        bitmap.rows.len(),
        |i: int| encode_row_spec(bitmap.rows[bitmap.rows.len() - 1 - i], bitmap.width),
    )
}

/// Brings a bitmap's rows into wire form and feed order.
pub fn transcode_page(bitmap: &Bitmap) -> (page: Vec<Vec<u8>>)
    ensures
        rows_of(page@) == page_rows_spec(bitmap@),
{
    let mut page: Vec<Vec<u8>> = Vec::new();
    let count: usize = bitmap.rows.len();
    let mut i: usize = 0;
    while i < count
        invariant
            i <= count,
            count == bitmap.rows@.len(),
            page@.len() == i,
            forall|k: int|
                0 <= k < i ==> (#[trigger] page@[k])@ == encode_row_spec(
                    bitmap.rows@[count - 1 - k]@,
                    bitmap.width as nat,
                ),
        decreases count - i,
    {
        let wire = encode_row(bitmap.rows[count - 1 - i].as_slice(), bitmap.width);
        page.push(wire);
        i += 1;
    }
    assert(rows_of(page@) =~= page_rows_spec(bitmap@));
    page
}

} // verus!
