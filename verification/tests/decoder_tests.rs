use ptouch_raster::assembler::{palette, render, solid, IndexedImage};
use ptouch_raster::decoder::decode;
use ptouch_raster::document::{pad_part, pad_row, pad_rows, Document};
use ptouch_raster::error::{Failure, FormatError};
use ptouch_raster::page::PageAnnouncementState;
use ptouch_raster::parser::{LabelPart, PrinterSettings};
use ptouch_raster::preamble::{check_preamble, skip_while};

fn invalidate(offset: usize) -> Failure {
    Failure { error: FormatError::InvalidInvalidate, offset }
}

fn initialize(offset: usize) -> Failure {
    Failure { error: FormatError::InvalidInitialize, offset }
}

fn stream(commands: &[u8]) -> Vec<u8> {
    let mut src = vec![0u8; 200];
    src.extend_from_slice(&[0x1B, 0x40]);
    src.extend_from_slice(commands);
    src
}

#[test]
fn skip_while_stops_at_the_first_other_byte() {
    assert_eq!(skip_while(&[0, 0, 0, 5, 0], 0, 0), 3);
    assert_eq!(skip_while(&[0, 0, 0, 5, 0], 3, 0), 3);
    assert_eq!(skip_while(&[0, 0, 0, 5, 0], 4, 0), 5);
    assert_eq!(skip_while(&[7, 7, 7], 0, 7), 3);
    assert_eq!(skip_while(&[7, 7, 7], 1, 8), 1);
    assert_eq!(skip_while(&[], 0, 0), 0);
    assert_eq!(skip_while(&[0, 0], 9, 0), 9);
}

#[test]
fn preamble_of_exactly_200_zero_bytes() {
    assert_eq!(check_preamble(&stream(&[])), Ok(202));
    assert_eq!(check_preamble(&stream(&[0x5A, 0x00])), Ok(202));
}

#[test]
fn preamble_with_a_longer_invalidate_sequence() {
    let mut src = vec![0u8; 350];
    src.extend_from_slice(&[0x1B, 0x40, 0x0C]);
    assert_eq!(check_preamble(&src), Ok(352));
}

#[test]
fn preamble_with_too_few_zero_bytes() {
    let mut src = vec![0u8; 199];
    src.extend_from_slice(&[0x1B, 0x40]);
    assert_eq!(check_preamble(&src), Err(invalidate(199)));
    assert_eq!(check_preamble(&[]), Err(invalidate(0)));
    assert_eq!(check_preamble(&vec![0u8; 150]), Err(invalidate(150)));
    let mut dirty = vec![0u8; 200];
    dirty[57] = 1;
    dirty.extend_from_slice(&[0x1B, 0x40]);
    assert_eq!(check_preamble(&dirty), Err(invalidate(57)));
}

#[test]
fn preamble_without_initialize() {
    assert_eq!(check_preamble(&vec![0u8; 200]), Err(initialize(200)));
    assert_eq!(check_preamble(&vec![0u8; 500]), Err(initialize(500)));
    let mut short = vec![0u8; 200];
    short.push(0x1B);
    assert_eq!(check_preamble(&short), Err(initialize(200)));
    let mut wrong = vec![0u8; 200];
    wrong.extend_from_slice(&[0x1B, 0x69]);
    assert_eq!(check_preamble(&wrong), Err(initialize(200)));
    let mut other = vec![0u8; 200];
    other.extend_from_slice(&[0x40, 0x1B]);
    assert_eq!(check_preamble(&other), Err(initialize(200)));
}

#[test]
fn decode_reports_where_the_preamble_fails() {
    let mut dirty = vec![0u8; 200];
    dirty[57] = 1;
    assert_eq!(
        decode(&dirty),
        Err(Failure { error: FormatError::InvalidInvalidate, offset: 57 })
    );
    assert_eq!(
        decode(&vec![0u8; 10]),
        Err(Failure { error: FormatError::InvalidInvalidate, offset: 10 })
    );
    let mut wrong = vec![0u8; 230];
    wrong.extend_from_slice(&[0x1B, 0x69]);
    assert_eq!(
        decode(&wrong),
        Err(Failure { error: FormatError::InvalidInitialize, offset: 230 })
    );
}

#[test]
fn decode_of_the_preamble_alone_is_an_empty_document() {
    let document = decode(&stream(&[])).unwrap();
    assert_eq!(
        document,
        Document {
            settings: PrinterSettings::new(),
            width: 0,
            parts: vec![LabelPart::RasterBlock { rows: vec![] }],
        }
    );
}

#[test]
fn decode_minimal_stream() {
    let src = stream(&[0x1B, 0x69, 0x61, 0x01, 0x47, 0x01, 0x00, 0xA5, 0x0C]);
    let document = decode(&src).unwrap();
    assert_eq!(document.width, 8);
    assert_eq!(
        document.parts,
        vec![
            LabelPart::RasterBlock { rows: vec![vec![1, 0, 1, 0, 0, 1, 0, 1]] },
            LabelPart::PrintMarker,
            LabelPart::RasterBlock { rows: vec![] },
        ]
    );
    let image = render(&document);
    assert_eq!(image.width, 8);
    assert_eq!(image.lines.len(), 2);
    assert_eq!(image.lines[0], vec![1, 0, 1, 0, 0, 1, 0, 1]);
    assert_eq!(image.lines[1], vec![2u8; 8]);
}

#[test]
fn decode_print_and_feed_gives_a_blue_line() {
    let src = stream(&[0x1B, 0x69, 0x61, 0x01, 0x47, 0x01, 0x00, 0xFF, 0x5A, 0x1A, 0x5A]);
    let image = render(&decode(&src).unwrap());
    assert_eq!(
        image,
        IndexedImage {
            width: 8,
            lines: vec![vec![1u8; 8], vec![0u8; 8], vec![3u8; 8], vec![0u8; 8]],
        }
    );
}

#[test]
fn decode_fails_at_the_offset_of_raster_data_before_raster_mode() {
    let transfer = stream(&[0x1B, 0x69, 0x53, 0x47, 0x01, 0x00, 0xFF, 0x0C]);
    assert_eq!(
        decode(&transfer),
        Err(Failure { error: FormatError::RasterBeforeRasterMode { command: 0x47 }, offset: 205 })
    );
    let zero = stream(&[0x5A, 0x1B, 0x69, 0x61, 0x01]);
    assert_eq!(
        decode(&zero),
        Err(Failure { error: FormatError::RasterBeforeRasterMode { command: 0x5A }, offset: 202 })
    );
}

#[test]
fn decode_fails_at_the_offset_of_the_failing_command() {
    let unknown = stream(&[0x1B, 0x69, 0x61, 0x01, 0x5A, 0x99]);
    assert_eq!(
        decode(&unknown),
        Err(Failure { error: FormatError::UnknownCommand { byte: 0x99 }, offset: 207 })
    );
    let truncated = stream(&[0x1B, 0x69, 0x61, 0x01, 0x47, 0x05, 0x00, 0x01]);
    assert_eq!(decode(&truncated), Err(Failure { error: FormatError::Truncated, offset: 206 }));
    let language = stream(&[0x1B, 0x69, 0x61, 0x00]);
    assert_eq!(
        decode(&language),
        Err(Failure { error: FormatError::UnsupportedLanguage { language: 0 }, offset: 202 })
    );
    let template = stream(&[0x1B, 0x69, 0x61, 0x03]);
    assert_eq!(
        decode(&template),
        Err(Failure { error: FormatError::UnsupportedLanguage { language: 3 }, offset: 202 })
    );
    let strange = stream(&[0x1B, 0x69, 0x61, 0x04]);
    assert_eq!(
        decode(&strange),
        Err(Failure { error: FormatError::UnknownLanguage { language: 4 }, offset: 202 })
    );
    let compression = stream(&[0x4D, 0x00, 0x4D, 0x01]);
    assert_eq!(
        decode(&compression),
        Err(Failure { error: FormatError::UnsupportedCompression { mode: 1 }, offset: 204 })
    );
    let escape = stream(&[0x1B, 0x21]);
    assert_eq!(
        decode(&escape),
        Err(Failure { error: FormatError::UnknownEscape { byte: 0x21 }, offset: 202 })
    );
    let setting = stream(&[0x1B, 0x69, 0x00]);
    assert_eq!(
        decode(&setting),
        Err(Failure { error: FormatError::UnknownSetting { byte: 0x00 }, offset: 202 })
    );
    let packed = stream(&[0x1B, 0x69, 0x61, 0x01, 0x4D, 0x02, 0x47, 0x01, 0x00, 0x05]);
    assert_eq!(
        decode(&packed),
        Err(Failure { error: FormatError::TruncatedPackBits, offset: 208 })
    );
}

#[test]
fn decode_rejects_a_second_first_page() {
    let info_first = [0x1B, 0x69, 0x7A, 0x00, 0, 0, 0, 1, 0, 0, 0, 0, 0];
    let mut commands = Vec::new();
    commands.extend_from_slice(&info_first);
    commands.extend_from_slice(&info_first);
    assert_eq!(
        decode(&stream(&commands)),
        Err(Failure {
            error: FormatError::PageAnnouncement {
                announced: 0,
                state: PageAnnouncementState::First
            },
            offset: 215,
        })
    );
}

#[test]
fn decode_keeps_the_settings() {
    let src = stream(&[
        0x1B, 0x69, 0x61, 0x01, 0x1B, 0x69, 0x4D, 0x40, 0x1B, 0x69, 0x4B, 0x08, 0x1B, 0x69, 0x41,
        0x02, 0x1B, 0x69, 0x64, 0x0E, 0x00, 0x1B, 0x69, 0x21, 0x1B, 0x69, 0x7A, 0x86, 0x09, 0x18,
        0x00, 0x02, 0x01, 0x00, 0x00, 0x02, 0x00,
    ]);
    let document = decode(&src).unwrap();
    let expected = PrinterSettings {
        media_type: Some(9),
        media_width: Some(24),
        media_length: None,
        row_count: Some(258),
        auto_cut: Some(true),
        mirror_print: Some(false),
        draft: Some(false),
        half_cut: Some(false),
        no_chain: Some(true),
        special_tape: Some(false),
        hi_res: Some(false),
        dont_clean: Some(false),
        feed_amount: Some(14),
        cut_every: Some(2),
    };
    assert_eq!(document.settings, expected);
}

#[test]
fn pad_fills_up_and_never_cuts() {
    assert_eq!(pad_row(&[1, 0, 1], 5), vec![1, 0, 1, 0, 0]);
    assert_eq!(pad_row(&[1, 0, 1], 3), vec![1, 0, 1]);
    assert_eq!(pad_row(&[1, 0, 1], 2), vec![1, 0, 1]);
    assert_eq!(pad_row(&[], 2), vec![0, 0]);
    assert_eq!(pad_rows(&vec![vec![1], vec![]], 2), vec![vec![1, 0], vec![0, 0]]);
    assert_eq!(
        pad_part(&LabelPart::RasterBlock { rows: vec![vec![1]] }, 3),
        LabelPart::RasterBlock { rows: vec![vec![1, 0, 0]] }
    );
    assert_eq!(pad_part(&LabelPart::PrintMarker, 3), LabelPart::PrintMarker);
    assert_eq!(pad_part(&LabelPart::PrintFeedMarker, 3), LabelPart::PrintFeedMarker);
}

#[test]
fn palette_is_white_black_red_blue() {
    assert_eq!(
        palette(),
        vec![0xFF, 0xFF, 0xFF, 0x00, 0x00, 0x00, 0xFF, 0x00, 0x00, 0x00, 0x00, 0xFF]
    );
    assert_eq!(solid(3, 2), vec![2, 2, 2]);
    assert_eq!(solid(0, 3), Vec::<u8>::new());
}
