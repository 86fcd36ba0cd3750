//! Pictures as PNG files.
//!
//! The decoder's picture is written as an 8-bit indexed PNG; the bitmaps to
//! print are read from PNG files. The PNG format itself is the business of
//! the `png` crate: what this module says of it is believed, not proved.

use vstd::prelude::*;
use vstd::slice::{slice_subrange, slice_to_vec};
use crate::assembler::{palette, palette_spec, render, render_spec, IndexedImage, ImageModel};
use crate::decoder::{decode, decode_spec};
use crate::document::rows_uniform;
use crate::encoder::{
    bitmaps_of, check_bitmaps, encode, encode_spec, input_fault, lemma_bitmaps_fault,
    lemma_input_fault_kind, SOURCE_BIT_DEPTH,
};
use crate::error::{EncodeError, InputError, RenderError};
use crate::raster::{rows_of, Bitmap, BitmapModel};
use crate::writer::{lemma_job_fault_kind, PrintOptions};

verus! {

/// The error type of the PNG encoder.
#[verifier::external_type_specification]
#[verifier::external_body]
pub struct ExEncodingError(png::EncodingError);

/// The error type of the PNG decoder.
#[verifier::external_type_specification]
#[verifier::external_body]
pub struct ExDecodingError(png::DecodingError);

/// PNG colour type code for palette indices.
pub const COLOR_INDEXED: u8 = 3;

/// Bits per pixel of the decoder's picture.
pub const PICTURE_BIT_DEPTH: u8 = 8;

/// The PNG file that the `png` crate's encoder, as this crate configures
/// it, writes for a picture of the given size, colour type, bit depth,
/// palette and pixel data; `None` where the encoder refuses.
pub uninterp spec fn png_file(
    width: u32,
    height: u32,
    color_type: u8,
    bit_depth: u8,
    palette: Seq<u8>,
    pixels: Seq<u8>,
) -> Option<Seq<u8>>;

/// Runs `png::Encoder` over a picture held in memory: `Encoder::new` on an
/// empty vector, `set_color`, `set_depth`, `set_palette`, `write_header`,
/// `Writer::stream_writer`, the pixel data written in one piece,
/// `StreamWriter::finish` and `Writer::finish`.
///
/// Asked of the caller: the colour type and bit depth of the decoder's
/// picture, for which a line takes `width` bytes, and as many pixels as
/// the size says, so that the encoder's own size arithmetic stays in range.
///
/// Believed: the bytes written depend on the arguments alone, and a picture
/// without width or height is refused (`Writer::init` returns `ZeroWidth`
/// or `ZeroHeight` before anything is written).
#[verifier::external_body]
fn write_png(
    width: u32,
    height: u32,
    color_type: u8,
    bit_depth: u8,
    palette: &[u8],
    pixels: &[u8],
) -> (r: Result<Vec<u8>, png::EncodingError>)
    requires
        color_type == COLOR_INDEXED,
        bit_depth == PICTURE_BIT_DEPTH,
        pixels@.len() == width * height,
    ensures
        match r {
            Ok(file) => png_file(width, height, color_type, bit_depth, palette@, pixels@) == Some(
                file@,
            ),
            Err(_) => png_file(width, height, color_type, bit_depth, palette@, pixels@) is None,
        },
        width == 0 || height == 0 ==> r is Err,
{
    let mut file = Vec::new();
    let mut encoder = png::Encoder::new(&mut file, width, height);
    encoder.set_color(png::ColorType::from_u8(color_type).unwrap());
    encoder.set_depth(png::BitDepth::from_u8(bit_depth).unwrap());
    encoder.set_palette(palette.to_vec());
    let mut writer = encoder.write_header()?;
    let mut stream = writer.stream_writer()?;
    std::io::Write::write_all(&mut stream, pixels)?;
    stream.finish()?;
    writer.finish()?;
    Ok(file)
}

/// The pixels of `lines`, line after line.
pub open spec fn flatten_spec(lines: Seq<Seq<u8>>) -> Seq<u8>
    decreases lines.len(),
{
    if lines.len() == 0 {
        Seq::empty()
    } else {
        flatten_spec(lines.drop_last()) + lines.last()
    }
}

/// The pixels of a picture, line after line.
pub fn flatten(lines: &Vec<Vec<u8>>) -> (pixels: Vec<u8>)
    ensures
        pixels@ == flatten_spec(rows_of(lines@)),
{
    let mut pixels: Vec<u8> = Vec::new();
    let mut i: usize = 0;
    proof {
        assert(rows_of(lines@).take(0) =~= Seq::<Seq<u8>>::empty());
    }
    while i < lines.len()
        invariant
            i <= lines.len(),
            pixels@ == flatten_spec(rows_of(lines@).take(i as int)),
        decreases lines.len() - i,
    {
        let line = &lines[i];
        let ghost before = pixels@;
        let mut k: usize = 0;
        while k < line.len()
            invariant
                k <= line.len(),
                pixels@ == before + line@.take(k as int),
            decreases line.len() - k,
        {
            pixels.push(line[k]);
            proof {
                assert(line@.take(k + 1) =~= line@.take(k as int).push(line@[k as int]));
            }
            k += 1;
        }
        proof {
            let all = rows_of(lines@);
            assert(line@.take(k as int) =~= line@);
            assert(all.take(i + 1).drop_last() =~= all.take(i as int));
            assert(all.take(i + 1).last() == line@);
        }
        i += 1;
    }
    proof {
        assert(rows_of(lines@).take(i as int) =~= rows_of(lines@));
    }
    pixels
}

/// Lines that are all `width` wide flatten to `width` pixels per line.
pub proof fn lemma_flatten_len(lines: Seq<Seq<u8>>, width: nat)
    requires
        rows_uniform(lines, width),
    ensures
        flatten_spec(lines).len() == width * lines.len(),
    decreases lines.len(),
{
    if lines.len() > 0 {
        let front = lines.drop_last();
        assert forall|i: int| 0 <= i < front.len() implies (#[trigger] front[i]).len() == width by {
            assert(front[i] == lines[i]);
        }
        lemma_flatten_len(front, width);
        assert(lines.last() == lines[lines.len() - 1]);
        assert(width * (lines.len() - 1) + width == width * lines.len()) by (nonlinear_arith);
    } else {
        assert(width * 0 == 0) by (nonlinear_arith);
    }
}

/// The PNG file of a picture, or the reason why there is none: a picture
/// wider or higher than `u32::MAX` is too large, one whose lines do not
/// hold width times height pixels is uneven, and any other may be refused
/// by the encoder.
pub open spec fn image_file_spec(image: ImageModel) -> Result<Seq<u8>, RenderError> {
    if image.width > u32::MAX || image.lines.len() > u32::MAX {
        Err(RenderError::TooLarge { width: image.width as usize, height: image.lines.len() as usize })
    } else if flatten_spec(image.lines).len() != image.width * image.lines.len() {
        Err(RenderError::Uneven { pixels: flatten_spec(image.lines).len() as usize })
    } else {
        match png_file(
            image.width as u32,
            image.lines.len() as u32,
            COLOR_INDEXED,
            PICTURE_BIT_DEPTH,
            palette_spec(),
            flatten_spec(image.lines),
        ) {
            Some(file) => Ok(file),
            None => Err(RenderError::Image),
        }
    }
}

/// Writes a picture as an 8-bit indexed PNG file with the four palette
/// colours.
pub fn encode_image(image: &IndexedImage) -> (r: Result<Vec<u8>, RenderError>)
    ensures
        match image_file_spec(image@) {
            Ok(file) => r matches Ok(out) && out@ == file,
            Err(e) => r == Err::<Vec<u8>, RenderError>(e),
        },
        image@.width == 0 || image@.lines.len() == 0 ==> r is Err,
{
    let height: usize = image.lines.len();
    if image.width > u32::MAX as usize || height > u32::MAX as usize {
        return Err(RenderError::TooLarge { width: image.width, height });
    }
    let colours = palette();
    let pixels = flatten(&image.lines);
    let count: usize = pixels.len();
    match image.width.checked_mul(height) {
        Some(expected) => {
            if count != expected {
                return Err(RenderError::Uneven { pixels: count });
            }
        },
        None => {
            return Err(RenderError::Uneven { pixels: count });
        },
    }
    match write_png(
        image.width as u32,
        height as u32,
        COLOR_INDEXED,
        PICTURE_BIT_DEPTH,
        colours.as_slice(),
        pixels.as_slice(),
    ) {
        Ok(file) => Ok(file),
        Err(_) => Err(RenderError::Image),
    }
}

/// The PNG file that pictures a command stream, or the reason why there is
/// none.
pub open spec fn stream_picture_spec(src: Seq<u8>) -> Result<Seq<u8>, RenderError> {
    match decode_spec(src) {
        Ok(document) => image_file_spec(render_spec(document)),
        Err(failure) => Err(RenderError::Stream { failure }),
    }
}

/// Decodes a command stream and writes its picture as a PNG file.
///
/// The picture of a decoded stream is never uneven.
pub fn decode_to_png(src: &[u8]) -> (r: Result<Vec<u8>, RenderError>)
    ensures
        match stream_picture_spec(src@) {
            Ok(file) => r matches Ok(out) && out@ == file,
            Err(e) => r == Err::<Vec<u8>, RenderError>(e),
        },
        !(r matches Err(RenderError::Uneven { .. })),
{
    match decode(src) {
        Ok(document) => {
            let image = render(&document);
            proof {
                lemma_flatten_len(image@.lines, image@.width);
            }
            encode_image(&image)
        },
        Err(failure) => Err(RenderError::Stream { failure }),
    }
}

/// One decoded picture as the PNG decoder hands it out: its size, its bit
/// depth, the number of bytes per line, and the lines one after the other.
#[derive(Clone, Debug, PartialEq, Eq)]
pub struct Frame {
    pub width: u32,
    pub height: u32,
    pub bit_depth: u8,
    pub line_size: usize,
    pub data: Vec<u8>,
}

/// What a `Frame` holds.
pub struct FrameModel {
    pub width: u32,
    pub height: u32,
    pub bit_depth: u8,
    pub line_size: nat,
    pub data: Seq<u8>,
}

impl View for Frame {
    type V = FrameModel;

    open spec fn view(&self) -> FrameModel {
        FrameModel {
            width: self.width,
            height: self.height,
            bit_depth: self.bit_depth,
            line_size: self.line_size as nat,
            data: self.data@,
        }
    }
}

/// The frame that the `png` crate's decoder hands out for a file, wherever
/// it hands one out.
///
/// Whether the decoder accepts a file is not part of this: it refuses a
/// picture that does not fit the address space of the machine it runs on.
pub uninterp spec fn png_frame(file: Seq<u8>) -> Option<FrameModel>;

/// Runs `png::Decoder` over a file held in memory: `Decoder::new` on a
/// cursor, `read_info`, a buffer of `Reader::output_buffer_size` bytes, and
/// `Reader::next_frame` into it. The frame is what `OutputInfo` reports and
/// the buffer.
///
/// Believed: a frame that is handed out depends on the bytes of the file
/// alone. Nothing is claimed where the decoder refuses, since what it
/// accepts depends on limits that differ between machines.
#[verifier::external_body]
fn read_png(file: &[u8]) -> (r: Result<Frame, png::DecodingError>)
    ensures
        r matches Ok(frame) ==> png_frame(file@) == Some(frame@),
{
    let mut reader = png::Decoder::new(std::io::Cursor::new(file)).read_info()?;
    let size = reader.output_buffer_size().ok_or(png::DecodingError::LimitsExceeded)?;
    let mut data = vec![0u8; size];
    let info = reader.next_frame(&mut data)?;
    Ok(
        Frame {
            width: info.width,
            height: info.height,
            bit_depth: info.bit_depth as u8,
            line_size: info.line_size,
            data,
        },
    )
}

/// The lines of a frame: line `i` is the `line_size` bytes from
/// `i * line_size` on.
pub open spec fn frame_rows_spec(data: Seq<u8>, line_size: nat, height: nat) -> Seq<Seq<u8>> {
    Seq::new(height, |i: int| data.subrange(i * line_size, (i + 1) * line_size))
}

/// The bitmap of a frame; `None` where the frame holds fewer bytes than its
/// lines need.
pub open spec fn frame_bitmap_spec(frame: FrameModel) -> Option<BitmapModel> {
    if frame.line_size * frame.height <= frame.data.len() {
        Some(
            BitmapModel {
                width: frame.width as nat,
                bit_depth: frame.bit_depth,
                rows: frame_rows_spec(frame.data, frame.line_size, frame.height as nat),
            },
        )
    } else {
        None
    }
}

/// Cuts a frame into the rows of a bitmap.
pub fn frame_bitmap(frame: &Frame) -> (r: Option<Bitmap>)
    ensures
        match frame_bitmap_spec(frame@) {
            Some(bitmap) => r matches Some(b) && b@ == bitmap,
            None => r is None,
        },
{
    let height: usize = frame.height as usize;
    let line_size: usize = frame.line_size;
    let available: usize = frame.data.len();
    let total: usize = match line_size.checked_mul(height) {
        Some(total) => total,
        None => {
            return None;
        },
    };
    if total > available {
        return None;
    }
    let mut rows: Vec<Vec<u8>> = Vec::new();
    let mut i: usize = 0;
    let mut offset: usize = 0;
    while i < height
        invariant
            i <= height,
            height == frame.height,
            line_size == frame.line_size,
            total == line_size * height,
            total <= frame.data@.len(),
            offset == i * line_size,
            rows@.len() == i,
            forall|k: int|
                0 <= k < i ==> (#[trigger] rows@[k])@ == frame.data@.subrange(
                    k * line_size,
                    (k + 1) * line_size,
                ),
        decreases height - i,
    {
        proof {
            assert((i + 1) * line_size == i * line_size + line_size) by (nonlinear_arith);
            assert((i + 1) * line_size <= height * line_size) by (nonlinear_arith)
                requires
                    i + 1 <= height,
            ;
            assert(line_size * height == height * line_size) by (nonlinear_arith);
        }
        let row = slice_to_vec(slice_subrange(frame.data.as_slice(), offset, offset + line_size));
        rows.push(row);
        offset += line_size;
        i += 1;
    }
    let bitmap = Bitmap { width: frame.width, bit_depth: frame.bit_depth, rows };
    proof {
        assert(bitmap@.rows =~= frame_rows_spec(
            frame.data@,
            frame.line_size as nat,
            frame.height as nat,
        ));
    }
    Some(bitmap)
}

/// The bitmap that a PNG file holds: the bitmap of the frame that the
/// decoder hands out for it; `None` where there is no such frame or the
/// frame does not hold its lines.
pub open spec fn decoded_bitmap(file: Seq<u8>) -> Option<BitmapModel> {
    match png_frame(file) {
        Some(frame) => frame_bitmap_spec(frame),
        None => None,
    }
}

/// Each of the first `upto` files holds a bitmap.
pub open spec fn all_decoded(files: Seq<Seq<u8>>, upto: nat) -> bool {
    forall|k: int| 0 <= k < upto ==> (#[trigger] decoded_bitmap(files[k])) is Some
}

/// The bitmaps that the first `upto` files hold.
pub open spec fn decoded_bitmaps(files: Seq<Seq<u8>>, upto: nat) -> Seq<BitmapModel> {
    Seq::new(upto, |i: int| decoded_bitmap(files[i])->Some_0)
}

/// Reads a PNG file into a bitmap; `None` where the decoder refuses the
/// file or hands out a frame that does not hold its lines.
///
/// A bitmap that is returned is the bitmap the file holds, and all its
/// rows have one length.
pub fn read_bitmap(file: &[u8]) -> (r: Option<Bitmap>)
    ensures
        r matches Some(bitmap) ==> decoded_bitmap(file@) == Some(bitmap@),
        r matches Some(bitmap) ==> forall|i: int, j: int|
            0 <= i < bitmap@.rows.len() && 0 <= j < bitmap@.rows.len() ==> (
            #[trigger] bitmap@.rows[i]).len() == (#[trigger] bitmap@.rows[j]).len(),
{
    match read_png(file) {
        Ok(frame) => {
            let r = frame_bitmap(&frame);
            proof {
                if r is Some {
                    let bitmap = r->0;
                    let size = frame@.line_size;
                    assert forall|i: int| 0 <= i < bitmap@.rows.len() implies (
                    #[trigger] bitmap@.rows[i]).len() == size by {
                        assert((i + 1) * size == i * size + size) by (nonlinear_arith);
                        assert(0 <= i * size) by (nonlinear_arith)
                            requires
                                0 <= i,
                                0 <= size,
                        ;
                        assert((i + 1) * size <= size * frame@.height) by (nonlinear_arith)
                            requires
                                i + 1 <= frame@.height,
                                0 <= size,
                        ;
                    }
                }
            }
            r
        },
        Err(_) => None,
    }
}

/// What reading and encoding `files` comes to where the first `count` of
/// them hold bitmaps: their encoding, or the fault of the first bitmap
/// that cannot stand beside those before it.
///
/// The files are taken in their order, and each bitmap is held against the
/// first before the next file is looked at. So the result is the encoding
/// of the shortest start of the list that has an input fault, and of the
/// whole list where no start has one.
pub open spec fn stops_at(files: Seq<Seq<u8>>, count: nat) -> bool {
    &&& count <= files.len()
    &&& files.len() > 0 ==> count > 0
    &&& all_decoded(files, count)
    &&& count > 1 ==> input_fault(decoded_bitmaps(files, (count - 1) as nat)) is None
    &&& count < files.len() ==> input_fault(decoded_bitmaps(files, count)) is Some
}

/// Reads PNG files into bitmaps and encodes them into the stream that
/// prints them with `options`, one page per file and in their order.
///
/// Each file is read and held against the first before the next is
/// touched. Whether a file can be read is the PNG decoder's call. Where
/// every file is read, the result is what `encode` makes of the bitmaps
/// they hold. An input fault comes from the shortest start of the list
/// that has one; a file that cannot be read is named only where the files
/// before it hold bitmaps that stand together.
pub fn encode_files(options: &PrintOptions, files: &Vec<Vec<u8>>) -> (r: Result<
    Vec<u8>,
    EncodeError,
>)
    ensures
        r == Err::<Vec<u8>, EncodeError>(EncodeError::Input { error: InputError::NoImages })
            <==> files@.len() == 0,
        r matches Ok(stream) ==> all_decoded(rows_of(files@), files@.len()) && encode_spec(
            *options,
            decoded_bitmaps(rows_of(files@), files@.len()),
        ) == Ok::<Seq<u8>, InputError>(stream@),
        r matches Err(EncodeError::Image { index }) ==> index < files@.len() && all_decoded(
            rows_of(files@),
            index as nat,
        ) && (index > 0 ==> input_fault(decoded_bitmaps(rows_of(files@), index as nat)) is None),
        r matches Err(EncodeError::Input { error }) ==> exists|count: nat| #[trigger]
            stops_at(rows_of(files@), count) && encode_spec(
                *options,
                decoded_bitmaps(rows_of(files@), count),
            ) == Err::<Seq<u8>, InputError>(error),
{
    let ghost all = rows_of(files@);
    let mut bitmaps: Vec<Bitmap> = Vec::new();
    let mut i: usize = 0;
    proof {
        assert(bitmaps_of(bitmaps@) =~= decoded_bitmaps(all, 0));
    }
    while i < files.len()
        invariant
            i <= files.len(),
            all == rows_of(files@),
            bitmaps@.len() == i,
            all_decoded(all, i as nat),
            bitmaps_of(bitmaps@) == decoded_bitmaps(all, i as nat),
            i > 0 ==> input_fault(decoded_bitmaps(all, i as nat)) is None,
        decreases files.len() - i,
    {
        let ghost before = bitmaps_of(bitmaps@);
        match read_bitmap(files[i].as_slice()) {
            Some(bitmap) => {
                bitmaps.push(bitmap);
            },
            None => {
                return Err(EncodeError::Image { index: i });
            },
        }
        proof {
            assert(all[i as int] == files@[i as int]@);
            assert(decoded_bitmap(all[i as int]) == Some(bitmaps@[i as int]@));
            assert forall|k: int| 0 <= k < i + 1 implies (#[trigger] decoded_bitmap(all[k])) is Some by {
                if k < i {
                    assert(all_decoded(all, i as nat));
                }
            }
            assert(bitmaps_of(bitmaps@) =~= decoded_bitmaps(all, (i + 1) as nat)) by {
                assert forall|k: int| 0 <= k < i + 1 implies #[trigger] bitmaps_of(bitmaps@)[k]
                    == decoded_bitmaps(all, (i + 1) as nat)[k] by {
                    if k < i {
                        assert(bitmaps_of(bitmaps@)[k] == before[k]);
                        assert(before[k] == decoded_bitmaps(all, i as nat)[k]);
                    }
                }
            }
        }
        match check_bitmaps(&bitmaps) {
            Some(error) => {
                proof {
                    lemma_input_fault_kind(bitmaps_of(bitmaps@));
                    assert(stops_at(all, (i + 1) as nat));
                }
                return Err(EncodeError::Input { error });
            },
            None => {},
        }
        i += 1;
    }
    proof {
        if files@.len() > 0 {
            lemma_input_fault_kind(bitmaps_of(bitmaps@));
            lemma_job_fault_kind(crate::encoder::pages_spec(bitmaps_of(bitmaps@)), 0);
            lemma_prefix_fault(all, files@.len());
        }
        assert(stops_at(all, files@.len()));
    }
    match encode(options, &bitmaps) {
        Ok(stream) => Ok(stream),
        Err(error) => Err(EncodeError::Input { error }),
    }
}

/// Where the bitmaps of the first `count` files stand together, so do
/// those of every shorter start of the list.
pub proof fn lemma_prefix_fault(files: Seq<Seq<u8>>, count: nat)
    requires
        count > 0,
        input_fault(decoded_bitmaps(files, count)) is None,
    ensures
        forall|shorter: nat|
            0 < shorter <= count ==> input_fault(#[trigger] decoded_bitmaps(files, shorter))
                is None,
{
    let whole = decoded_bitmaps(files, count);
    lemma_bitmaps_fault(whole, 0);
    assert forall|shorter: nat| 0 < shorter <= count implies input_fault(
        #[trigger] decoded_bitmaps(files, shorter),
    ) is None by {
        let part = decoded_bitmaps(files, shorter);
        lemma_bitmaps_fault(part, 0);
        assert forall|k: int| 0 <= k < part.len() implies (#[trigger] part[k]).width
            == part[0].width && part[k].bit_depth == SOURCE_BIT_DEPTH by {
            assert(part[k] == whole[k]);
            assert(part[0] == whole[0]);
        }
    }
}

} // verus!
