use ptouch_raster::encoder::{check_bitmaps, encode};
use ptouch_raster::error::InputError;
use ptouch_raster::raster::Bitmap;
use ptouch_raster::writer::{check_pages, write_job, PrintOptions};

fn plain(width_mm: u8) -> PrintOptions {
    PrintOptions {
        auto_cut: false,
        mirror_print: false,
        draft: false,
        half_cut: false,
        no_chain: false,
        special_tape: false,
        hi_res: false,
        dont_clean: false,
        cut_every: 0,
        feed: 0,
        width_mm,
    }
}

fn head(mode: u8, advanced: u8, cut_every: u8, feed: [u8; 2]) -> Vec<u8> {
    let mut out = vec![0u8; 200];
    out.extend_from_slice(&[0x1B, 0x40]);
    out.extend_from_slice(&[0x1B, 0x69, 0x61, 0x01]);
    out.extend_from_slice(&[0x1B, 0x69, 0x4D, mode]);
    out.extend_from_slice(&[0x1B, 0x69, 0x4B, advanced]);
    out.extend_from_slice(&[0x1B, 0x69, 0x41, cut_every]);
    out.extend_from_slice(&[0x1B, 0x69, 0x64, feed[0], feed[1]]);
    out.extend_from_slice(&[0x4D, 0x02]);
    out
}

#[test]
fn write_a_job_without_pages() {
    assert_eq!(write_job(&plain(12), &vec![]), Ok(head(0, 0, 0, [0, 0])));
}

#[test]
fn write_the_settings() {
    let options = PrintOptions {
        auto_cut: true,
        mirror_print: false,
        draft: false,
        half_cut: true,
        no_chain: false,
        special_tape: false,
        hi_res: false,
        dont_clean: false,
        cut_every: 1,
        feed: 0x0123,
        width_mm: 12,
    };
    assert_eq!(write_job(&options, &vec![]), Ok(head(0x40, 0x04, 1, [0x23, 0x01])));
    let every = PrintOptions {
        auto_cut: true,
        mirror_print: true,
        draft: true,
        half_cut: true,
        no_chain: true,
        special_tape: true,
        hi_res: true,
        dont_clean: true,
        cut_every: 255,
        feed: 0xFFFF,
        width_mm: 24,
    };
    assert_eq!(write_job(&every, &vec![]), Ok(head(0xC0, 0xDD, 255, [0xFF, 0xFF])));
    let some = PrintOptions { mirror_print: true, draft: true, hi_res: true, ..plain(6) };
    assert_eq!(write_job(&some, &vec![]), Ok(head(0x80, 0x41, 0, [0, 0])));
    let more = PrintOptions { no_chain: true, special_tape: true, dont_clean: true, ..plain(6) };
    assert_eq!(write_job(&more, &vec![]), Ok(head(0x00, 0x98, 0, [0, 0])));
}

#[test]
fn write_a_single_page() {
    let pages = vec![vec![vec![0xFF, 0x01], vec![], vec![0x00, 0xAA]]];
    let mut expected = head(0, 0, 0, [0, 0]);
    expected.extend_from_slice(&[0x1B, 0x69, 0x7A, 0x84, 0x00, 12, 0x00, 3, 0, 0, 0, 2, 0]);
    expected.extend_from_slice(&[0x47, 0x02, 0x00, 0xFF, 0x01]);
    expected.push(0x5A);
    expected.extend_from_slice(&[0x47, 0x02, 0x00, 0x00, 0xAA]);
    expected.push(0x1A);
    assert_eq!(write_job(&plain(12), &pages), Ok(expected));
}

#[test]
fn write_the_page_positions() {
    let pages = vec![vec![vec![]], vec![], vec![vec![], vec![]], vec![vec![0, 1]]];
    let mut expected = head(0, 0, 0, [0, 0]);
    expected.extend_from_slice(&[0x1B, 0x69, 0x7A, 0x84, 0x00, 9, 0x00, 1, 0, 0, 0, 0, 0]);
    expected.extend_from_slice(&[0x5A, 0x0C]);
    expected.extend_from_slice(&[0x1B, 0x69, 0x7A, 0x84, 0x00, 9, 0x00, 0, 0, 0, 0, 1, 0]);
    expected.extend_from_slice(&[0x0C]);
    expected.extend_from_slice(&[0x1B, 0x69, 0x7A, 0x84, 0x00, 9, 0x00, 2, 0, 0, 0, 1, 0]);
    expected.extend_from_slice(&[0x5A, 0x5A, 0x0C]);
    expected.extend_from_slice(&[0x1B, 0x69, 0x7A, 0x84, 0x00, 9, 0x00, 1, 0, 0, 0, 2, 0]);
    expected.extend_from_slice(&[0x47, 0x02, 0x00, 0, 1, 0x1A]);
    assert_eq!(write_job(&plain(9), &pages), Ok(expected));
}

#[test]
fn write_two_pages_first_and_last() {
    let pages = vec![vec![], vec![]];
    let mut expected = head(0, 0, 0, [0, 0]);
    expected.extend_from_slice(&[0x1B, 0x69, 0x7A, 0x84, 0x00, 9, 0x00, 0, 0, 0, 0, 0, 0, 0x0C]);
    expected.extend_from_slice(&[0x1B, 0x69, 0x7A, 0x84, 0x00, 9, 0x00, 0, 0, 0, 0, 2, 0, 0x1A]);
    assert_eq!(write_job(&plain(9), &pages), Ok(expected));
}

#[test]
fn write_the_row_count_little_endian() {
    let pages = vec![vec![Vec::<u8>::new(); 0x0102_03]];
    let stream = write_job(&plain(9), &pages).unwrap();
    assert_eq!(&stream[225..238], &[0x1B, 0x69, 0x7A, 0x84, 0x00, 9, 0x00, 0x03, 0x02, 0x01, 0, 2, 0]);
    assert_eq!(stream.len(), 238 + 0x0102_03 + 1);
}

#[test]
fn write_the_row_length_little_endian() {
    let row = vec![7u8; 0x0234];
    let stream = write_job(&plain(9), &vec![vec![row.clone()]]).unwrap();
    assert_eq!(&stream[238..241], &[0x47, 0x34, 0x02]);
    assert_eq!(&stream[241..241 + 0x0234], &row[..]);
    assert_eq!(stream[241 + 0x0234], 0x1A);
}

#[test]
fn a_row_of_65535_bytes_fits() {
    let stream = write_job(&plain(9), &vec![vec![vec![1u8; 65535]]]).unwrap();
    assert_eq!(&stream[238..241], &[0x47, 0xFF, 0xFF]);
}

#[test]
fn a_row_of_65536_bytes_is_too_long() {
    let pages = vec![vec![vec![]], vec![vec![1], vec![1u8; 65536], vec![1u8; 70000]]];
    let fault = InputError::RowTooLong { page: 1, row: 1, length: 65536 };
    assert_eq!(check_pages(&pages), Some(fault));
    assert_eq!(write_job(&plain(9), &pages), Err(fault));
    assert_eq!(check_pages(&vec![vec![vec![1u8; 65535]]]), None);
}

fn bitmap(width: u32, bit_depth: u8, rows: Vec<Vec<u8>>) -> Bitmap {
    Bitmap { width, bit_depth, rows }
}

#[test]
fn encode_needs_a_bitmap() {
    assert_eq!(check_bitmaps(&vec![]), Some(InputError::NoImages));
    assert_eq!(encode(&plain(12), &vec![]), Err(InputError::NoImages));
}

#[test]
fn encode_rejects_bitmaps_of_different_widths() {
    let bitmaps = vec![bitmap(16, 1, vec![vec![0, 0]]), bitmap(8, 1, vec![vec![0]])];
    assert_eq!(
        encode(&plain(12), &bitmaps),
        Err(InputError::WidthMismatch { index: 1, width: 8, expected: 16 })
    );
}

#[test]
fn encode_rejects_other_bit_depths() {
    assert_eq!(
        encode(&plain(12), &vec![bitmap(8, 8, vec![vec![0; 8]])]),
        Err(InputError::BitDepth { index: 0, depth: 8 })
    );
    let bitmaps = vec![bitmap(8, 1, vec![]), bitmap(8, 1, vec![]), bitmap(8, 2, vec![])];
    assert_eq!(encode(&plain(12), &bitmaps), Err(InputError::BitDepth { index: 2, depth: 2 }));
}

#[test]
fn encode_reports_the_first_fault() {
    let bitmaps = vec![bitmap(8, 1, vec![]), bitmap(8, 4, vec![]), bitmap(9, 1, vec![])];
    assert_eq!(encode(&plain(12), &bitmaps), Err(InputError::BitDepth { index: 1, depth: 4 }));
    let both = vec![bitmap(8, 1, vec![]), bitmap(9, 4, vec![])];
    assert_eq!(
        encode(&plain(12), &both),
        Err(InputError::WidthMismatch { index: 1, width: 9, expected: 8 })
    );
}

#[test]
fn encode_a_white_bitmap_with_zero_raster_rows_only() {
    let white = bitmap(12, 1, vec![vec![0xFF, 0xF0]; 3]);
    let mut expected = head(0, 0, 0, [0, 0]);
    expected.extend_from_slice(&[0x1B, 0x69, 0x7A, 0x84, 0x00, 12, 0x00, 3, 0, 0, 0, 2, 0]);
    expected.extend_from_slice(&[0x5A, 0x5A, 0x5A, 0x1A]);
    assert_eq!(encode(&plain(12), &vec![white]), Ok(expected));
}

#[test]
fn encode_flips_packs_and_reverses() {
    let picture = bitmap(16, 1, vec![vec![0xFF, 0xFF], vec![0x00, 0x00], vec![0xFF, 0xFE]]);
    let mut expected = head(0, 0, 0, [0, 0]);
    expected.extend_from_slice(&[0x1B, 0x69, 0x7A, 0x84, 0x00, 24, 0x00, 3, 0, 0, 0, 2, 0]);
    expected.extend_from_slice(&[0x47, 0x03, 0x00, 0x01, 0x00, 0x01]);
    expected.extend_from_slice(&[0x47, 0x02, 0x00, 0xFF, 0xFF]);
    expected.extend_from_slice(&[0x5A, 0x1A]);
    assert_eq!(encode(&plain(24), &vec![picture]), Ok(expected));
}
