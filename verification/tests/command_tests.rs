use ptouch_raster::command::{read_command, Command, PrintInformation};
use ptouch_raster::error::FormatError;

#[test]
fn read_reinitialize() {
    assert_eq!(read_command(&[0x1B, 0x40, 0x5A], 0), Ok((Command::Reinitialize, 2)));
}

#[test]
fn read_at_an_offset() {
    assert_eq!(read_command(&[0x00, 0x5A, 0x0C, 0x1A], 1), Ok((Command::ZeroRaster, 2)));
    assert_eq!(read_command(&[0x00, 0x5A, 0x0C, 0x1A], 2), Ok((Command::Print, 3)));
    assert_eq!(read_command(&[0x00, 0x5A, 0x0C, 0x1A], 3), Ok((Command::PrintFeed, 4)));
}

#[test]
fn read_settings_without_operands() {
    assert_eq!(read_command(&[0x1B, 0x69, 0x53], 0), Ok((Command::StatusRequest, 3)));
    assert_eq!(read_command(&[0x1B, 0x69, 0x21], 0), Ok((Command::StatusNotify, 3)));
}

#[test]
fn read_settings_with_one_operand() {
    assert_eq!(
        read_command(&[0x1B, 0x69, 0x61, 0x01], 0),
        Ok((Command::SwitchLanguage { language: 1 }, 4))
    );
    assert_eq!(
        read_command(&[0x1B, 0x69, 0x4D, 0xC0], 0),
        Ok((Command::PrintMode { flags: 0xC0 }, 4))
    );
    assert_eq!(
        read_command(&[0x1B, 0x69, 0x41, 0x05], 0),
        Ok((Command::CutEvery { count: 5 }, 4))
    );
    assert_eq!(
        read_command(&[0x1B, 0x69, 0x4B, 0x0C], 0),
        Ok((Command::AdvancedSettings { flags: 0x0C }, 4))
    );
}

#[test]
fn read_feed_amount_little_endian() {
    assert_eq!(
        read_command(&[0x1B, 0x69, 0x64, 0x23, 0x01], 0),
        Ok((Command::FeedAmount { amount: 0x0123 }, 5))
    );
    assert_eq!(
        read_command(&[0x1B, 0x69, 0x64, 0xFF, 0xFF], 0),
        Ok((Command::FeedAmount { amount: 0xFFFF }, 5))
    );
}

#[test]
fn read_print_information() {
    let src = [0x1B, 0x69, 0x7A, 0x8E, 0x0A, 0x0C, 0x64, 0x78, 0x56, 0x34, 0x12, 0x02, 0x55];
    assert_eq!(
        read_command(&src, 0),
        Ok((
            Command::PrintInformation {
                info: PrintInformation {
                    flags: 0x8E,
                    media_type: 0x0A,
                    media_width: 0x0C,
                    media_length: 0x64,
                    row_count: 0x12345678,
                    page: 2,
                }
            },
            13
        ))
    );
    let top = [0x1B, 0x69, 0x7A, 0, 0, 0, 0, 0xFF, 0xFF, 0xFF, 0xFF, 0, 0];
    match read_command(&top, 0) {
        Ok((Command::PrintInformation { info }, 13)) => assert_eq!(info.row_count, u32::MAX),
        other => panic!("{:?}", other),
    }
}

#[test]
fn read_select_compression() {
    assert_eq!(read_command(&[0x4D, 0x02], 0), Ok((Command::SelectCompression { mode: 2 }, 2)));
    assert_eq!(read_command(&[0x4D, 0x07], 0), Ok((Command::SelectCompression { mode: 7 }, 2)));
}

#[test]
fn read_raster_transfer() {
    assert_eq!(
        read_command(&[0x47, 0x03, 0x00, 1, 2, 3, 0x5A], 0),
        Ok((Command::RasterTransfer { payload: vec![1, 2, 3] }, 6))
    );
    assert_eq!(
        read_command(&[0x47, 0x00, 0x00], 0),
        Ok((Command::RasterTransfer { payload: vec![] }, 3))
    );
    let mut long = vec![0x47, 0x01, 0x01];
    long.extend(std::iter::repeat(9u8).take(257));
    assert_eq!(
        read_command(&long, 0),
        Ok((Command::RasterTransfer { payload: vec![9u8; 257] }, 260))
    );
}

#[test]
fn read_past_the_end_is_truncated() {
    assert_eq!(read_command(&[], 0), Err(FormatError::Truncated));
    assert_eq!(read_command(&[0x5A], 1), Err(FormatError::Truncated));
    assert_eq!(read_command(&[0x5A], 7), Err(FormatError::Truncated));
}

#[test]
fn missing_operands_are_truncated() {
    assert_eq!(read_command(&[0x1B], 0), Err(FormatError::Truncated));
    assert_eq!(read_command(&[0x1B, 0x69], 0), Err(FormatError::Truncated));
    assert_eq!(read_command(&[0x1B, 0x69, 0x61], 0), Err(FormatError::Truncated));
    assert_eq!(read_command(&[0x1B, 0x69, 0x4D], 0), Err(FormatError::Truncated));
    assert_eq!(read_command(&[0x1B, 0x69, 0x41], 0), Err(FormatError::Truncated));
    assert_eq!(read_command(&[0x1B, 0x69, 0x4B], 0), Err(FormatError::Truncated));
    assert_eq!(read_command(&[0x1B, 0x69, 0x64, 0x01], 0), Err(FormatError::Truncated));
    assert_eq!(
        read_command(&[0x1B, 0x69, 0x7A, 0, 0, 0, 0, 0, 0, 0, 0, 0], 0),
        Err(FormatError::Truncated)
    );
    assert_eq!(read_command(&[0x4D], 0), Err(FormatError::Truncated));
    assert_eq!(read_command(&[0x47], 0), Err(FormatError::Truncated));
    assert_eq!(read_command(&[0x47, 0x02], 0), Err(FormatError::Truncated));
    assert_eq!(read_command(&[0x47, 0x02, 0x00, 0x01], 0), Err(FormatError::Truncated));
}

#[test]
fn unknown_bytes_are_named() {
    assert_eq!(read_command(&[0x42], 0), Err(FormatError::UnknownCommand { byte: 0x42 }));
    assert_eq!(read_command(&[0x00], 0), Err(FormatError::UnknownCommand { byte: 0x00 }));
    assert_eq!(read_command(&[0x1B, 0x41], 0), Err(FormatError::UnknownEscape { byte: 0x41 }));
    assert_eq!(
        read_command(&[0x1B, 0x69, 0x5A, 0x00], 0),
        Err(FormatError::UnknownSetting { byte: 0x5A })
    );
}
