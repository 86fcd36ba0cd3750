//! Error kinds reported by the codec.

use vstd::prelude::*;
use crate::page::PageAnnouncementState;

verus! {

/// Why a command stream was rejected.
#[derive(Clone, Copy, Debug, PartialEq, Eq, Structural)]
pub enum FormatError {
    /// The stream does not begin with 200 zero bytes.
    InvalidInvalidate,
    /// The zero bytes are not followed by `ESC @`.
    InvalidInitialize,
    /// A command's operands run past the end of the stream.
    Truncated,
    /// A byte that starts no known command.
    UnknownCommand { byte: u8 },
    /// `ESC` followed by a byte that selects no known command.
    UnknownEscape { byte: u8 },
    /// `ESC i` followed by a byte that selects no known setting.
    UnknownSetting { byte: u8 },
    /// A switch to a print data language that exists but is not raster mode.
    UnsupportedLanguage { language: u8 },
    /// A switch to a print data language that does not exist.
    UnknownLanguage { language: u8 },
    /// A compression mode other than raw or PackBits.
    UnsupportedCompression { mode: u8 },
    /// Raster data arrived before raster mode was switched on.
    RasterBeforeRasterMode { command: u8 },
    /// A page announcement byte outside `0..=2`.
    UnknownPageAnnouncement { value: u8 },
    /// A page announcement that the pages announced so far do not allow.
    PageAnnouncement { announced: u8, state: PageAnnouncementState },
    /// A PackBits payload that ends inside an instruction.
    TruncatedPackBits,
}

/// A rejected command stream: the reason, and the offset of the byte at
/// which decoding stopped.
#[derive(Clone, Copy, Debug, PartialEq, Eq, Structural)]
pub struct Failure {
    pub error: FormatError,
    pub offset: usize,
}

/// Why a set of bitmaps cannot be printed.
#[derive(Clone, Copy, Debug, PartialEq, Eq, Structural)]
pub enum InputError {
    /// No bitmap was given.
    NoImages,
    /// The bitmap at `index` is not as wide as the first one.
    WidthMismatch { index: usize, width: u32, expected: u32 },
    /// The bitmap at `index` does not have one bit per pixel.
    BitDepth { index: usize, depth: u8 },
    /// The page at `page` has more rows than a 32-bit count can announce.
    TooManyRows { page: usize, rows: usize },
    /// A row's wire form is longer than a 16-bit length can announce.
    RowTooLong { page: usize, row: usize, length: usize },
}

/// Why a command stream did not become a picture file.
#[derive(Clone, Copy, Debug, PartialEq, Eq, Structural)]
pub enum RenderError {
    /// The stream was rejected.
    Stream { failure: Failure },
    /// The picture has more pixels across or down than a PNG can hold.
    TooLarge { width: usize, height: usize },
    /// The picture's lines do not hold width times height pixels.
    Uneven { pixels: usize },
    /// The PNG encoder refused the picture.
    Image,
}

/// Why a set of picture files did not become a command stream.
#[derive(Clone, Copy, Debug, PartialEq, Eq, Structural)]
pub enum EncodeError {
    /// The file at `index` could not be read as a PNG picture.
    Image { index: usize },
    /// The pictures cannot be printed together.
    Input { error: InputError },
}

} // verus!
