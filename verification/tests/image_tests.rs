use ptouch_raster::assembler::IndexedImage;
use ptouch_raster::encoder::encode;
use ptouch_raster::error::{EncodeError, Failure, FormatError, InputError, RenderError};
use ptouch_raster::image_file::{
    decode_to_png, encode_files, encode_image, flatten, frame_bitmap, read_bitmap, Frame,
};
use ptouch_raster::raster::Bitmap;
use ptouch_raster::writer::PrintOptions;

fn plain(width_mm: u8) -> PrintOptions {
    PrintOptions {
        auto_cut: false,
        mirror_print: false,
        draft: false,
        half_cut: false,
        no_chain: false,
        special_tape: false,
        hi_res: false,
        dont_clean: false,
        cut_every: 0,
        feed: 0,
        width_mm,
    }
}

fn stream(commands: &[u8]) -> Vec<u8> {
    let mut src = vec![0u8; 200];
    src.extend_from_slice(&[0x1B, 0x40]);
    src.extend_from_slice(commands);
    src
}

/// Reads a PNG file back: width, height, colour type, bit depth, palette
/// and pixel data.
fn read_back(file: &[u8]) -> (u32, u32, png::ColorType, png::BitDepth, Vec<u8>, Vec<u8>) {
    let mut reader = png::Decoder::new(std::io::Cursor::new(file)).read_info().unwrap();
    let mut data = vec![0u8; reader.output_buffer_size().unwrap()];
    let info = reader.next_frame(&mut data).unwrap();
    let palette = reader.info().palette.as_ref().unwrap().to_vec();
    (info.width, info.height, info.color_type, info.bit_depth, palette, data)
}

/// Writes a grayscale PNG file with the given bit depth.
fn gray_png(width: u32, height: u32, depth: png::BitDepth, data: &[u8]) -> Vec<u8> {
    let mut file = Vec::new();
    {
        let mut encoder = png::Encoder::new(&mut file, width, height);
        encoder.set_color(png::ColorType::Grayscale);
        encoder.set_depth(depth);
        let mut writer = encoder.write_header().unwrap();
        writer.write_image_data(data).unwrap();
        writer.finish().unwrap();
    }
    file
}

#[test]
fn flatten_joins_the_lines() {
    assert_eq!(flatten(&vec![vec![1, 2], vec![], vec![3]]), vec![1, 2, 3]);
    assert_eq!(flatten(&vec![]), Vec::<u8>::new());
}

#[test]
fn picture_of_a_minimal_stream() {
    let src = stream(&[0x1B, 0x69, 0x61, 0x01, 0x47, 0x01, 0x00, 0xA5, 0x0C]);
    let file = decode_to_png(&src).unwrap();
    assert_eq!(&file[..8], &[137, 80, 78, 71, 13, 10, 26, 10]);
    let (width, height, color, depth, palette, data) = read_back(&file);
    assert_eq!((width, height), (8, 2));
    assert_eq!(color, png::ColorType::Indexed);
    assert_eq!(depth, png::BitDepth::Eight);
    assert_eq!(
        palette,
        vec![0xFF, 0xFF, 0xFF, 0x00, 0x00, 0x00, 0xFF, 0x00, 0x00, 0x00, 0x00, 0xFF]
    );
    assert_eq!(data, vec![1, 0, 1, 0, 0, 1, 0, 1, 2, 2, 2, 2, 2, 2, 2, 2]);
}

#[test]
fn picture_file_holds_the_pixels_given() {
    let image = IndexedImage { width: 3, lines: vec![vec![0, 1, 2], vec![3, 2, 1]] };
    let file = encode_image(&image).unwrap();
    let pixels = flatten(&image.lines);
    assert_ne!(file, pixels);
    let (width, height, _, _, _, data) = read_back(&file);
    assert_eq!((width, height), (3, 2));
    assert_eq!(data, pixels);
}

#[test]
fn picture_files_of_equal_pictures_are_equal() {
    let image = IndexedImage { width: 2, lines: vec![vec![0, 1], vec![1, 0], vec![3, 3]] };
    assert_eq!(encode_image(&image), encode_image(&image.clone()));
}

#[test]
fn picture_without_width_or_height_is_refused() {
    assert_eq!(
        encode_image(&IndexedImage { width: 0, lines: vec![vec![], vec![]] }),
        Err(RenderError::Image)
    );
    assert_eq!(encode_image(&IndexedImage { width: 4, lines: vec![] }), Err(RenderError::Image));
    assert_eq!(decode_to_png(&stream(&[])), Err(RenderError::Image));
    assert_eq!(
        decode_to_png(&stream(&[0x1B, 0x69, 0x61, 0x01, 0x5A, 0x0C])),
        Err(RenderError::Image)
    );
}

#[test]
fn picture_wider_than_a_png_can_be_is_too_large() {
    let width = u32::MAX as usize + 1;
    assert_eq!(
        encode_image(&IndexedImage { width, lines: vec![vec![]] }),
        Err(RenderError::TooLarge { width, height: 1 })
    );
}

#[test]
fn picture_with_lines_of_other_lengths_is_uneven() {
    assert_eq!(
        encode_image(&IndexedImage { width: 2, lines: vec![vec![0, 1], vec![1]] }),
        Err(RenderError::Uneven { pixels: 3 })
    );
    assert_eq!(
        encode_image(&IndexedImage { width: 0, lines: vec![vec![0, 1]] }),
        Err(RenderError::Uneven { pixels: 2 })
    );
    // Only the number of pixels counts: the data is one run of bytes.
    let image = IndexedImage { width: 2, lines: vec![vec![0, 1, 1], vec![0]] };
    assert!(encode_image(&image).is_ok());
}

#[test]
fn picture_of_a_rejected_stream_is_the_failure() {
    assert_eq!(
        decode_to_png(&stream(&[0x5A])),
        Err(RenderError::Stream {
            failure: Failure {
                error: FormatError::RasterBeforeRasterMode { command: 0x5A },
                offset: 202
            }
        })
    );
    assert_eq!(
        decode_to_png(&[1, 2, 3]),
        Err(RenderError::Stream {
            failure: Failure { error: FormatError::InvalidInvalidate, offset: 0 }
        })
    );
}

#[test]
fn frame_is_cut_into_rows() {
    let frame = Frame { width: 12, height: 3, bit_depth: 1, line_size: 2, data: vec![1, 2, 3, 4, 5, 6] };
    assert_eq!(
        frame_bitmap(&frame),
        Some(Bitmap { width: 12, bit_depth: 1, rows: vec![vec![1, 2], vec![3, 4], vec![5, 6]] })
    );
    let spare = Frame { width: 8, height: 2, bit_depth: 1, line_size: 1, data: vec![1, 2, 3] };
    assert_eq!(
        frame_bitmap(&spare),
        Some(Bitmap { width: 8, bit_depth: 1, rows: vec![vec![1], vec![2]] })
    );
    let empty = Frame { width: 0, height: 2, bit_depth: 1, line_size: 0, data: vec![] };
    assert_eq!(
        frame_bitmap(&empty),
        Some(Bitmap { width: 0, bit_depth: 1, rows: vec![vec![], vec![]] })
    );
}

#[test]
fn frame_that_lacks_bytes_is_no_bitmap() {
    let short = Frame { width: 12, height: 3, bit_depth: 1, line_size: 2, data: vec![1, 2, 3, 4, 5] };
    assert_eq!(frame_bitmap(&short), None);
    let huge = Frame { width: 1, height: 2, bit_depth: 1, line_size: usize::MAX, data: vec![1] };
    assert_eq!(frame_bitmap(&huge), None);
}

#[test]
fn read_a_one_bit_file() {
    let file = gray_png(12, 2, png::BitDepth::One, &[0xFF, 0xF0, 0x0F, 0x00]);
    assert_eq!(
        read_bitmap(&file),
        Some(Bitmap { width: 12, bit_depth: 1, rows: vec![vec![0xFF, 0xF0], vec![0x0F, 0x00]] })
    );
}

#[test]
fn read_rejects_what_is_no_png() {
    assert_eq!(read_bitmap(&[]), None);
    assert_eq!(read_bitmap(b"not a picture"), None);
    let file = gray_png(8, 1, png::BitDepth::One, &[0xFF]);
    assert_eq!(read_bitmap(&file[..file.len() / 2]), None);
}

#[test]
fn encode_files_needs_a_file() {
    assert_eq!(
        encode_files(&plain(12), &vec![]),
        Err(EncodeError::Input { error: InputError::NoImages })
    );
}

#[test]
fn encode_files_names_the_file_it_cannot_read() {
    let good = gray_png(8, 1, png::BitDepth::One, &[0xFF]);
    assert_eq!(
        encode_files(&plain(12), &vec![good, vec![1, 2, 3]]),
        Err(EncodeError::Image { index: 1 })
    );
}

#[test]
fn encode_files_rejects_different_widths_before_anything_is_written() {
    let wide = gray_png(16, 1, png::BitDepth::One, &[0xFF, 0xFF]);
    let narrow = gray_png(8, 1, png::BitDepth::One, &[0xFF]);
    assert_eq!(
        encode_files(&plain(12), &vec![wide, narrow]),
        Err(EncodeError::Input {
            error: InputError::WidthMismatch { index: 1, width: 8, expected: 16 }
        })
    );
}

#[test]
fn encode_files_rejects_a_faulty_file_before_reading_the_next() {
    let wide = gray_png(16, 1, png::BitDepth::One, &[0xFF, 0xFF]);
    let narrow = gray_png(8, 1, png::BitDepth::One, &[0xFF]);
    assert_eq!(
        encode_files(&plain(12), &vec![wide, narrow, vec![0, 0]]),
        Err(EncodeError::Input {
            error: InputError::WidthMismatch { index: 1, width: 8, expected: 16 }
        })
    );
}

#[test]
fn encode_files_rejects_deeper_pictures() {
    let deep = gray_png(2, 1, png::BitDepth::Eight, &[0xFF, 0x00]);
    assert_eq!(
        encode_files(&plain(12), &vec![deep]),
        Err(EncodeError::Input { error: InputError::BitDepth { index: 0, depth: 8 } })
    );
}

#[test]
fn encode_files_encodes_the_bitmaps_the_files_hold() {
    let first = gray_png(12, 3, png::BitDepth::One, &[0xFF, 0xF0, 0x12, 0x30, 0x00, 0x00]);
    let second = gray_png(12, 1, png::BitDepth::One, &[0xAB, 0xC0]);
    let bitmaps = vec![read_bitmap(&first).unwrap(), read_bitmap(&second).unwrap()];
    assert_eq!(bitmaps[0].rows, vec![vec![0xFF, 0xF0], vec![0x12, 0x30], vec![0x00, 0x00]]);
    assert_eq!(
        encode_files(&plain(12), &vec![first, second]),
        Ok(encode(&plain(12), &bitmaps).unwrap())
    );
}

#[test]
fn encode_files_names_the_first_file_it_cannot_read() {
    let good = gray_png(8, 1, png::BitDepth::One, &[0xFF]);
    assert_eq!(
        encode_files(&plain(12), &vec![vec![9], good.clone(), vec![]]),
        Err(EncodeError::Image { index: 0 })
    );
    // A fault among the files read so far comes before a later file that
    // cannot be read.
    let deep = gray_png(8, 1, png::BitDepth::Two, &[0xFF, 0xFF]);
    assert_eq!(
        encode_files(&plain(12), &vec![good, deep, vec![]]),
        Err(EncodeError::Input { error: InputError::BitDepth { index: 1, depth: 2 } })
    );
}

#[test]
fn encode_files_writes_one_page_per_file() {
    let first = gray_png(8, 2, png::BitDepth::One, &[0xFF, 0x7F]);
    let second = gray_png(8, 1, png::BitDepth::One, &[0x00]);
    let stream = encode_files(&plain(12), &vec![first, second]).unwrap();
    let mut expected = vec![0u8; 200];
    expected.extend_from_slice(&[0x1B, 0x40, 0x1B, 0x69, 0x61, 0x01, 0x1B, 0x69, 0x4D, 0x00]);
    expected.extend_from_slice(&[0x1B, 0x69, 0x4B, 0x00, 0x1B, 0x69, 0x41, 0x00]);
    expected.extend_from_slice(&[0x1B, 0x69, 0x64, 0x00, 0x00, 0x4D, 0x02]);
    expected.extend_from_slice(&[0x1B, 0x69, 0x7A, 0x84, 0x00, 12, 0x00, 2, 0, 0, 0, 0, 0]);
    expected.extend_from_slice(&[0x47, 0x02, 0x00, 0x00, 0x80, 0x5A, 0x0C]);
    expected.extend_from_slice(&[0x1B, 0x69, 0x7A, 0x84, 0x00, 12, 0x00, 1, 0, 0, 0, 2, 0]);
    expected.extend_from_slice(&[0x47, 0x02, 0x00, 0x00, 0xFF, 0x1A]);
    assert_eq!(stream, expected);
}
