//! Codec for the raster command stream of P-touch label printers.
//!
//! The crate turns a captured command stream into an indexed-colour picture
//! of what would be printed, and turns 1-bit bitmaps into a command stream
//! that prints them.
//!
//! Decoding: `preamble` checks the start of a stream, `command` reads one
//! command, `parser` carries commands out, `document` fills the rows up to
//! one width, `assembler` draws the picture, `decoder` does all of it.
//!
//! Encoding: `raster` brings bitmap rows into wire form with `packbits`,
//! `writer` writes the commands of a job, `encoder` does both.
//!
//! `image_file` reads and writes the pictures as PNG files, and
//! `round_trip` states what decoding makes of an encoded stream.

pub mod assembler;
pub mod command;
pub mod decoder;
pub mod document;
pub mod encoder;
pub mod error;
pub mod image_file;
pub mod packbits;
pub mod page;
pub mod parser;
pub mod preamble;
pub mod raster;
pub mod round_trip;
pub mod writer;
