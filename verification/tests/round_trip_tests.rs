use ptouch_raster::decoder::decode;
use ptouch_raster::document::Document;
use ptouch_raster::encoder::encode;
use ptouch_raster::parser::{LabelPart, PrinterSettings};
use ptouch_raster::raster::{expand_bits, invert_row, Bitmap};
use ptouch_raster::writer::{write_job, PrintOptions};

fn options() -> PrintOptions {
    PrintOptions {
        auto_cut: true,
        mirror_print: false,
        draft: true,
        half_cut: false,
        no_chain: true,
        special_tape: false,
        hi_res: true,
        dont_clean: false,
        cut_every: 3,
        feed: 513,
        width_mm: 18,
    }
}

fn settings(rows: u32) -> PrinterSettings {
    PrinterSettings {
        media_type: None,
        media_width: Some(18),
        media_length: None,
        row_count: Some(rows),
        auto_cut: Some(true),
        mirror_print: Some(false),
        draft: Some(true),
        half_cut: Some(false),
        no_chain: Some(true),
        special_tape: Some(false),
        hi_res: Some(true),
        dont_clean: Some(false),
        feed_amount: Some(513),
        cut_every: Some(3),
    }
}

#[test]
fn a_white_bitmap_decodes_to_rows_without_pixels() {
    let white = Bitmap { width: 12, bit_depth: 1, rows: vec![vec![0xFF, 0xF0]; 4] };
    let stream = encode(&options(), &vec![white]).unwrap();
    let rows: Vec<&u8> = stream[238..].iter().collect();
    assert_eq!(rows, vec![&0x5A, &0x5A, &0x5A, &0x5A, &0x1A]);
    assert_eq!(
        decode(&stream),
        Ok(Document {
            settings: settings(4),
            width: 0,
            parts: vec![
                LabelPart::RasterBlock { rows: vec![vec![]; 4] },
                LabelPart::PrintFeedMarker,
                LabelPart::RasterBlock { rows: vec![] },
            ],
        })
    );
}

#[test]
fn a_white_bitmap_without_width_decodes_to_rows_of_its_width() {
    let white = Bitmap { width: 0, bit_depth: 1, rows: vec![vec![]; 2] };
    let document = decode(&encode(&options(), &vec![white]).unwrap()).unwrap();
    assert_eq!(document.width, 0);
    assert_eq!(document.parts[0], LabelPart::RasterBlock { rows: vec![vec![]; 2] });
}

#[test]
fn bitmaps_come_back_flipped_and_bottom_up() {
    let first = Bitmap {
        width: 12,
        bit_depth: 1,
        rows: vec![vec![0xFF, 0xF0], vec![0x0F, 0xF0], vec![0xAA, 0xA0]],
    };
    let second = Bitmap { width: 12, bit_depth: 1, rows: vec![vec![0x00, 0x00]] };
    let third = Bitmap { width: 12, bit_depth: 1, rows: vec![] };
    let stream = encode(&options(), &vec![first.clone(), second.clone(), third]).unwrap();
    let document = decode(&stream).unwrap();
    let pixels = |row: &Vec<u8>| expand_bits(&invert_row(row, 12));
    assert_eq!(document.width, 16);
    assert_eq!(document.settings, settings(0));
    assert_eq!(
        document.parts,
        vec![
            LabelPart::RasterBlock {
                rows: vec![pixels(&first.rows[2]), pixels(&first.rows[1]), vec![0u8; 16]],
            },
            LabelPart::PrintMarker,
            LabelPart::RasterBlock { rows: vec![pixels(&second.rows[0])] },
            LabelPart::PrintMarker,
            LabelPart::RasterBlock { rows: vec![] },
            LabelPart::PrintFeedMarker,
            LabelPart::RasterBlock { rows: vec![] },
        ]
    );
    assert_eq!(pixels(&first.rows[2]), vec![0, 1, 0, 1, 0, 1, 0, 1, 0, 1, 0, 1, 0, 0, 0, 0]);
}

#[test]
fn a_written_job_decodes_to_its_pages() {
    let pages = vec![vec![vec![0xFE, 0x81], vec![], vec![0x00, 0x7E]], vec![vec![0x01, 0x01, 0x02]]];
    let stream = write_job(&options(), &pages).unwrap();
    let document = decode(&stream).unwrap();
    assert_eq!(document.width, 24);
    let mut dots = vec![0u8, 1, 1, 1, 1, 1, 1, 0];
    dots.extend_from_slice(&[0; 16]);
    let mut one = vec![1u8, 0, 0, 0, 0, 0, 0, 1].repeat(3);
    one.truncate(24);
    assert_eq!(
        document.parts,
        vec![
            LabelPart::RasterBlock { rows: vec![one, vec![0u8; 24], dots] },
            LabelPart::PrintMarker,
            LabelPart::RasterBlock {
                rows: vec![vec![0, 0, 0, 0, 0, 0, 0, 1, 0, 0, 0, 0, 0, 0, 1, 0, 0, 0, 0, 0, 0, 0, 0, 0]],
            },
            LabelPart::PrintFeedMarker,
            LabelPart::RasterBlock { rows: vec![] },
        ]
    );
}
