//! The commands of the stream and their layout in bytes.
//!
//! Integers of more than one byte are little-endian.

use vstd::prelude::*;
use vstd::slice::{slice_subrange, slice_to_vec};
use crate::error::FormatError;

verus! {

/// Escape: introduces the control commands.
pub const ESC: u8 = 0x1B;

/// `@` after `ESC`: initialize.
pub const INITIALIZE: u8 = 0x40;

/// `i` after `ESC`: introduces the settings.
pub const SETTING: u8 = 0x69;

/// `S` after `ESC i`: status request.
pub const STATUS_REQUEST: u8 = 0x53;

/// `a` after `ESC i`: switch the print data language.
pub const SWITCH_LANGUAGE: u8 = 0x61;

/// `z` after `ESC i`: print information.
pub const PRINT_INFORMATION: u8 = 0x7A;

/// `M` after `ESC i`: print mode.
pub const PRINT_MODE: u8 = 0x4D;

/// `A` after `ESC i`: cut after every so many labels.
pub const CUT_EVERY: u8 = 0x41;

/// `K` after `ESC i`: advanced settings.
pub const ADVANCED_SETTINGS: u8 = 0x4B;

/// `d` after `ESC i`: feed amount.
pub const FEED_AMOUNT: u8 = 0x64;

/// `!` after `ESC i`: automatic status notification.
pub const STATUS_NOTIFY: u8 = 0x21;

/// `M`: select the compression mode.
pub const SELECT_COMPRESSION: u8 = 0x4D;

/// `G`: raster graphics transfer.
pub const RASTER_TRANSFER: u8 = 0x47;

/// `Z`: a raster row without marks.
pub const ZERO_RASTER: u8 = 0x5A;

/// Form feed: print.
pub const PRINT: u8 = 0x0C;

/// Substitute: print and feed.
pub const PRINT_FEED: u8 = 0x1A;

/// The language value that selects raster mode.
pub const LANGUAGE_RASTER: u8 = 1;

/// The compression mode value for rows sent as they are.
pub const COMPRESSION_RAW: u8 = 0x00;

/// The compression mode value for rows sent packed.
pub const COMPRESSION_PACKBITS: u8 = 0x02;

/// The operands of the print information command.
#[derive(Clone, Copy, Debug, PartialEq, Eq, Structural)]
pub struct PrintInformation {
    /// Which of the media fields are meant: `0x02` type, `0x04` width,
    /// `0x08` length; `0x80` asks for printer recovery.
    pub flags: u8,
    pub media_type: u8,
    pub media_width: u8,
    pub media_length: u8,
    /// How many raster rows the page is announced to have.
    pub row_count: u32,
    /// `0` for the first page of several, `1` for one in the middle, `2`
    /// for the last or only one.
    pub page: u8,
}

/// One command of the stream.
#[derive(Clone, Debug, PartialEq, Eq)]
pub enum Command {
    Reinitialize,
    StatusRequest,
    SwitchLanguage { language: u8 },
    PrintInformation { info: PrintInformation },
    PrintMode { flags: u8 },
    CutEvery { count: u8 },
    AdvancedSettings { flags: u8 },
    FeedAmount { amount: u16 },
    StatusNotify,
    SelectCompression { mode: u8 },
    RasterTransfer { payload: Vec<u8> },
    ZeroRaster,
    Print,
    PrintFeed,
}

/// What a `Command` holds.
pub enum CommandModel {
    Reinitialize,
    StatusRequest,
    SwitchLanguage { language: u8 },
    PrintInformation { info: PrintInformation },
    PrintMode { flags: u8 },
    CutEvery { count: u8 },
    AdvancedSettings { flags: u8 },
    FeedAmount { amount: u16 },
    StatusNotify,
    SelectCompression { mode: u8 },
    RasterTransfer { payload: Seq<u8> },
    ZeroRaster,
    Print,
    PrintFeed,
}

impl View for Command {
    type V = CommandModel;

    open spec fn view(&self) -> CommandModel {
        match *self {
            Command::Reinitialize => CommandModel::Reinitialize,
            Command::StatusRequest => CommandModel::StatusRequest,
            Command::SwitchLanguage { language } => CommandModel::SwitchLanguage { language },
            Command::PrintInformation { info } => CommandModel::PrintInformation { info },
            Command::PrintMode { flags } => CommandModel::PrintMode { flags },
            Command::CutEvery { count } => CommandModel::CutEvery { count },
            Command::AdvancedSettings { flags } => CommandModel::AdvancedSettings { flags },
            Command::FeedAmount { amount } => CommandModel::FeedAmount { amount },
            Command::StatusNotify => CommandModel::StatusNotify,
            Command::SelectCompression { mode } => CommandModel::SelectCompression { mode },
            Command::RasterTransfer { payload } => CommandModel::RasterTransfer {
                payload: payload@,
            },
            Command::ZeroRaster => CommandModel::ZeroRaster,
            Command::Print => CommandModel::Print,
            Command::PrintFeed => CommandModel::PrintFeed,
        }
    }
}

/// The 16-bit value whose little-endian bytes are `b0`, `b1`.
pub open spec fn le_u16(b0: u8, b1: u8) -> u16 {
    (b0 + 256 * b1) as u16
}

/// The 32-bit value whose little-endian bytes are `b0` to `b3`.
pub open spec fn le_u32(b0: u8, b1: u8, b2: u8, b3: u8) -> u32 {
    (b0 + 256 * b1 + 65536 * b2 + 16777216 * b3) as u32
}

/// The little-endian bytes of a 16-bit value.
pub open spec fn le_bytes_u16(value: u16) -> Seq<u8> {
    seq![(value % 256) as u8, (value / 256) as u8]
}

/// The little-endian bytes of a 32-bit value.
pub open spec fn le_bytes_u32(value: u32) -> Seq<u8> {
    seq![
        (value % 256) as u8,
        (value / 256 % 256) as u8,
        (value / 65536 % 256) as u8,
        (value / 16777216) as u8,
    ]
}

/// `src` holds `count` bytes from `pos` on.
pub open spec fn has_bytes(src: Seq<u8>, pos: int, count: int) -> bool {
    pos + count <= src.len()
}

/// The setting that follows `ESC i` at `pos`, with its length in bytes.
pub open spec fn setting_at(src: Seq<u8>, pos: int) -> Result<(CommandModel, nat), FormatError> {
    if !has_bytes(src, pos, 3) {
        Err(FormatError::Truncated)
    } else {
        let kind = src[pos + 2];
        if kind == STATUS_REQUEST {
            Ok((CommandModel::StatusRequest, 3))
        } else if kind == STATUS_NOTIFY {
            Ok((CommandModel::StatusNotify, 3))
        } else if kind == SWITCH_LANGUAGE {
            if has_bytes(src, pos, 4) {
                Ok((CommandModel::SwitchLanguage { language: src[pos + 3] }, 4))
            } else {
                Err(FormatError::Truncated)
            }
        } else if kind == PRINT_MODE {
            if has_bytes(src, pos, 4) {
                Ok((CommandModel::PrintMode { flags: src[pos + 3] }, 4))
            } else {
                Err(FormatError::Truncated)
            }
        } else if kind == CUT_EVERY {
            if has_bytes(src, pos, 4) {
                Ok((CommandModel::CutEvery { count: src[pos + 3] }, 4))
            } else {
                Err(FormatError::Truncated)
            }
        } else if kind == ADVANCED_SETTINGS {
            if has_bytes(src, pos, 4) {
                Ok((CommandModel::AdvancedSettings { flags: src[pos + 3] }, 4))
            } else {
                Err(FormatError::Truncated)
            }
        } else if kind == FEED_AMOUNT {
            if has_bytes(src, pos, 5) {
                Ok(
                    (
                        CommandModel::FeedAmount { amount: le_u16(src[pos + 3], src[pos + 4]) },
                        5,
                    ),
                )
            } else {
                Err(FormatError::Truncated)
            }
        } else if kind == PRINT_INFORMATION {
            if has_bytes(src, pos, 13) {
                Ok(
                    (
                        CommandModel::PrintInformation {
                            info: PrintInformation {
                                flags: src[pos + 3],
                                media_type: src[pos + 4],
                                media_width: src[pos + 5],
                                media_length: src[pos + 6],
                                row_count: le_u32(
                                    src[pos + 7],
                                    src[pos + 8],
                                    src[pos + 9],
                                    src[pos + 10],
                                ),
                                page: src[pos + 11],
                            },
                        },
                        13,
                    ),
                )
            } else {
                Err(FormatError::Truncated)
            }
        } else {
            Err(FormatError::UnknownSetting { byte: kind })
        }
    }
}

/// The raster transfer at `pos`, with its length in bytes.
pub open spec fn transfer_at(src: Seq<u8>, pos: int) -> Result<(CommandModel, nat), FormatError> {
    if !has_bytes(src, pos, 3) {
        Err(FormatError::Truncated)
    } else {
        let count = le_u16(src[pos + 1], src[pos + 2]);
        if has_bytes(src, pos, 3 + count) {
            Ok(
                (
                    CommandModel::RasterTransfer {
                        payload: src.subrange(pos + 3, pos + 3 + count),
                    },
                    (3 + count) as nat,
                ),
            )
        } else {
            Err(FormatError::Truncated)
        }
    }
}

/// The command that starts at `pos`, with its length in bytes.
///
/// A missing operand byte is a truncation; an unknown command byte is
/// reported as soon as it is reached.
pub open spec fn command_at(src: Seq<u8>, pos: int) -> Result<(CommandModel, nat), FormatError> {
    if !(0 <= pos < src.len()) {
        Err(FormatError::Truncated)
    } else if src[pos] == ESC {
        if !has_bytes(src, pos, 2) {
            Err(FormatError::Truncated)
        } else if src[pos + 1] == INITIALIZE {
            Ok((CommandModel::Reinitialize, 2))
        } else if src[pos + 1] == SETTING {
            setting_at(src, pos)
        } else {
            Err(FormatError::UnknownEscape { byte: src[pos + 1] })
        }
    } else if src[pos] == SELECT_COMPRESSION {
        if has_bytes(src, pos, 2) {
            Ok((CommandModel::SelectCompression { mode: src[pos + 1] }, 2))
        } else {
            Err(FormatError::Truncated)
        }
    } else if src[pos] == RASTER_TRANSFER {
        transfer_at(src, pos)
    } else if src[pos] == ZERO_RASTER {
        Ok((CommandModel::ZeroRaster, 1))
    } else if src[pos] == PRINT {
        Ok((CommandModel::Print, 1))
    } else if src[pos] == PRINT_FEED {
        Ok((CommandModel::PrintFeed, 1))
    } else {
        Err(FormatError::UnknownCommand { byte: src[pos] })
    }
}

/// A command, where there is one, takes at least one byte and ends inside
/// the stream.
pub proof fn lemma_command_length(src: Seq<u8>, pos: int)
    ensures
        command_at(src, pos) matches Ok((_, length)) ==> 1 <= length && pos + length <= src.len(),
{
}

/// The bytes of a command.
pub open spec fn command_bytes(command: CommandModel) -> Seq<u8> {
    match command {
        CommandModel::Reinitialize => seq![ESC, INITIALIZE],
        CommandModel::StatusRequest => seq![ESC, SETTING, STATUS_REQUEST],
        CommandModel::SwitchLanguage { language } => seq![ESC, SETTING, SWITCH_LANGUAGE, language],
        CommandModel::PrintInformation { info } => seq![
            ESC,
            SETTING,
            PRINT_INFORMATION,
            info.flags,
            info.media_type,
            info.media_width,
            info.media_length,
        ] + le_bytes_u32(info.row_count) + seq![info.page, 0u8],
        CommandModel::PrintMode { flags } => seq![ESC, SETTING, PRINT_MODE, flags],
        CommandModel::CutEvery { count } => seq![ESC, SETTING, CUT_EVERY, count],
        CommandModel::AdvancedSettings { flags } => seq![ESC, SETTING, ADVANCED_SETTINGS, flags],
        CommandModel::FeedAmount { amount } => seq![ESC, SETTING, FEED_AMOUNT] + le_bytes_u16(
            amount,
        ),
        CommandModel::StatusNotify => seq![ESC, SETTING, STATUS_NOTIFY],
        CommandModel::SelectCompression { mode } => seq![SELECT_COMPRESSION, mode],
        CommandModel::RasterTransfer { payload } => seq![RASTER_TRANSFER] + le_bytes_u16(
            payload.len() as u16,
        ) + payload,
        CommandModel::ZeroRaster => seq![ZERO_RASTER],
        CommandModel::Print => seq![PRINT],
        CommandModel::PrintFeed => seq![PRINT_FEED],
    }
}

/// The command can be written: the payload of a raster transfer fits the
/// 16-bit length in front of it.
pub open spec fn encodable(command: CommandModel) -> bool {
    command matches CommandModel::RasterTransfer { payload } ==> payload.len() <= 0xFFFF
}

/// Reading a command's bytes back, wherever they stand in a stream, gives
/// the command and the number of its bytes.
pub proof fn lemma_command_round_trip(command: CommandModel, before: Seq<u8>, after: Seq<u8>)
    requires
        encodable(command),
    ensures
        command_at(before + command_bytes(command) + after, before.len() as int) == Ok::<
            (CommandModel, nat),
            FormatError,
        >((command, command_bytes(command).len())),
{
    let bytes = command_bytes(command);
    let src = before + bytes + after;
    let pos = before.len() as int;
    assert forall|k: int| 0 <= k < bytes.len() implies #[trigger] src[pos + k] == bytes[k] by {}
    match command {
        CommandModel::Reinitialize => {
            assert(src[pos] == bytes[0] && src[pos + 1] == bytes[1]);
        },
        CommandModel::StatusRequest => {
            assert(src[pos] == bytes[0] && src[pos + 1] == bytes[1] && src[pos + 2] == bytes[2]);
        },
        CommandModel::StatusNotify => {
            assert(src[pos] == bytes[0] && src[pos + 1] == bytes[1] && src[pos + 2] == bytes[2]);
        },
        CommandModel::SwitchLanguage { language } => {
            assert(src[pos] == bytes[0] && src[pos + 1] == bytes[1] && src[pos + 2] == bytes[2]
                && src[pos + 3] == bytes[3]);
        },
        CommandModel::PrintMode { flags } => {
            assert(src[pos] == bytes[0] && src[pos + 1] == bytes[1] && src[pos + 2] == bytes[2]
                && src[pos + 3] == bytes[3]);
        },
        CommandModel::CutEvery { count } => {
            assert(src[pos] == bytes[0] && src[pos + 1] == bytes[1] && src[pos + 2] == bytes[2]
                && src[pos + 3] == bytes[3]);
        },
        CommandModel::AdvancedSettings { flags } => {
            assert(src[pos] == bytes[0] && src[pos + 1] == bytes[1] && src[pos + 2] == bytes[2]
                && src[pos + 3] == bytes[3]);
        },
        CommandModel::FeedAmount { amount } => {
            assert(src[pos] == bytes[0] && src[pos + 1] == bytes[1] && src[pos + 2] == bytes[2]
                && src[pos + 3] == bytes[3] && src[pos + 4] == bytes[4]);
            assert(le_u16(bytes[3], bytes[4]) == amount);
        },
        CommandModel::PrintInformation { info } => {
            assert(src[pos] == bytes[0] && src[pos + 1] == bytes[1] && src[pos + 2] == bytes[2]
                && src[pos + 3] == bytes[3] && src[pos + 4] == bytes[4] && src[pos + 5] == bytes[5]
                && src[pos + 6] == bytes[6] && src[pos + 7] == bytes[7] && src[pos + 8] == bytes[8]
                && src[pos + 9] == bytes[9] && src[pos + 10] == bytes[10] && src[pos + 11]
                == bytes[11]);
            assert(le_u32(bytes[7], bytes[8], bytes[9], bytes[10]) == info.row_count);
        },
        CommandModel::SelectCompression { mode } => {
            assert(src[pos] == bytes[0] && src[pos + 1] == bytes[1]);
        },
        CommandModel::RasterTransfer { payload } => {
            assert(src[pos] == bytes[0] && src[pos + 1] == bytes[1] && src[pos + 2] == bytes[2]);
            assert(le_u16(bytes[1], bytes[2]) == payload.len());
            assert(src.subrange(pos + 3, pos + 3 + payload.len()) =~= payload);
        },
        CommandModel::ZeroRaster => {
            assert(src[pos] == bytes[0]);
        },
        CommandModel::Print => {
            assert(src[pos] == bytes[0]);
        },
        CommandModel::PrintFeed => {
            assert(src[pos] == bytes[0]);
        },
    }
}

/// Reads the command that starts at `pos`.
///
/// Returns the command and the offset behind it, or the error that
/// `command_at` names. Nothing is read before `pos`.
pub fn read_command(src: &[u8], pos: usize) -> (r: Result<(Command, usize), FormatError>)
    ensures
        match command_at(src@, pos as int) {
            Ok((command, length)) => r matches Ok((c, next)) && c@ == command && next == pos
                + length,
            Err(e) => r == Err::<(Command, usize), FormatError>(e),
        },
{
    if pos >= src.len() {
        return Err(FormatError::Truncated);
    }
    let left: usize = src.len() - pos;
    let lead: u8 = src[pos];
    if lead == ESC {
        if left < 2 {
            return Err(FormatError::Truncated);
        }
        let kind: u8 = src[pos + 1];
        if kind == INITIALIZE {
            Ok((Command::Reinitialize, pos + 2))
        } else if kind == SETTING {
            read_setting(src, pos)
        } else {
            Err(FormatError::UnknownEscape { byte: kind })
        }
    } else if lead == SELECT_COMPRESSION {
        if left < 2 {
            return Err(FormatError::Truncated);
        }
        Ok((Command::SelectCompression { mode: src[pos + 1] }, pos + 2))
    } else if lead == RASTER_TRANSFER {
        if left < 3 {
            return Err(FormatError::Truncated);
        }
        let count: usize = src[pos + 1] as usize + 256 * (src[pos + 2] as usize);
        if left - 3 < count {
            return Err(FormatError::Truncated);
        }
        let payload = slice_to_vec(slice_subrange(src, pos + 3, pos + 3 + count));
        Ok((Command::RasterTransfer { payload }, pos + 3 + count))
    } else if lead == ZERO_RASTER {
        Ok((Command::ZeroRaster, pos + 1))
    } else if lead == PRINT {
        Ok((Command::Print, pos + 1))
    } else if lead == PRINT_FEED {
        Ok((Command::PrintFeed, pos + 1))
    } else {
        Err(FormatError::UnknownCommand { byte: lead })
    }
}

/// Reads the setting that follows `ESC i` at `pos`.
fn read_setting(src: &[u8], pos: usize) -> (r: Result<(Command, usize), FormatError>)
    requires
        pos + 2 <= src.len(),
    ensures
        match setting_at(src@, pos as int) {
            Ok((command, length)) => r matches Ok((c, next)) && c@ == command && next == pos
                + length,
            Err(e) => r == Err::<(Command, usize), FormatError>(e),
        },
{
    let left: usize = src.len() - pos;
    if left < 3 {
        return Err(FormatError::Truncated);
    }
    let kind: u8 = src[pos + 2];
    if kind == STATUS_REQUEST {
        Ok((Command::StatusRequest, pos + 3))
    } else if kind == STATUS_NOTIFY {
        Ok((Command::StatusNotify, pos + 3))
    } else if kind == SWITCH_LANGUAGE {
        if left < 4 {
            return Err(FormatError::Truncated);
        }
        Ok((Command::SwitchLanguage { language: src[pos + 3] }, pos + 4))
    } else if kind == PRINT_MODE {
        if left < 4 {
            return Err(FormatError::Truncated);
        }
        Ok((Command::PrintMode { flags: src[pos + 3] }, pos + 4))
    } else if kind == CUT_EVERY {
        if left < 4 {
            return Err(FormatError::Truncated);
        }
        Ok((Command::CutEvery { count: src[pos + 3] }, pos + 4))
    } else if kind == ADVANCED_SETTINGS {
        if left < 4 {
            return Err(FormatError::Truncated);
        }
        Ok((Command::AdvancedSettings { flags: src[pos + 3] }, pos + 4))
    } else if kind == FEED_AMOUNT {
        if left < 5 {
            return Err(FormatError::Truncated);
        }
        let amount: u16 = src[pos + 3] as u16 + 256 * (src[pos + 4] as u16);
        Ok((Command::FeedAmount { amount }, pos + 5))
    } else if kind == PRINT_INFORMATION {
        if left < 13 {
            return Err(FormatError::Truncated);
        }
        let row_count: u32 = src[pos + 7] as u32 + 256 * (src[pos + 8] as u32) + 65536 * (src[pos
            + 9] as u32) + 16777216 * (src[pos + 10] as u32);
        let info = PrintInformation {
            flags: src[pos + 3],
            media_type: src[pos + 4],
            media_width: src[pos + 5],
            media_length: src[pos + 6],
            row_count,
            page: src[pos + 11],
        };
        Ok((Command::PrintInformation { info }, pos + 13))
    } else {
        Err(FormatError::UnknownSetting { byte: kind })
    }
}

} // verus!
