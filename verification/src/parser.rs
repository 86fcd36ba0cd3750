//! The decoder's state and what each command does to it.
//!
//! A `Parser` walks a command stream from the offset behind the initialize
//! command to its end. Raster rows gather until a print command closes them
//! into a block. A command that cannot be carried out leaves the parser as
//! it was, its cursor on the first byte of that command.

use vstd::prelude::*;
use crate::command::{
    command_at, lemma_command_length, read_command, Command, CommandModel, PrintInformation,
    COMPRESSION_PACKBITS, COMPRESSION_RAW, LANGUAGE_RASTER, RASTER_TRANSFER, ZERO_RASTER,
};
use crate::error::FormatError;
use crate::packbits::{unpack_bits, unpack_spec};
use crate::page::{announce_spec, PageAnnouncementState};
use crate::raster::{expand_bits, expand_spec, rows_of};

verus! {

/// How the payload of a raster transfer is stored.
#[derive(Clone, Copy, Debug, PartialEq, Eq, Structural)]
pub enum CompressionMode {
    Raw,
    PackBits,
}

/// The settings a stream has given so far; `None` for one it has not given.
#[derive(Clone, Copy, Debug, PartialEq, Eq)]
pub struct PrinterSettings {
    pub media_type: Option<u8>,
    pub media_width: Option<u8>,
    pub media_length: Option<u8>,
    pub row_count: Option<u32>,
    pub auto_cut: Option<bool>,
    pub mirror_print: Option<bool>,
    pub draft: Option<bool>,
    pub half_cut: Option<bool>,
    pub no_chain: Option<bool>,
    pub special_tape: Option<bool>,
    pub hi_res: Option<bool>,
    pub dont_clean: Option<bool>,
    pub feed_amount: Option<u16>,
    pub cut_every: Option<u8>,
}

/// Print information flag: the media type is given.
pub const HAS_MEDIA_TYPE: u8 = 0x02;

/// Print information flag: the media width is given.
pub const HAS_MEDIA_WIDTH: u8 = 0x04;

/// Print information flag: the media length is given.
pub const HAS_MEDIA_LENGTH: u8 = 0x08;

/// Print information flag: printer recovery is on.
pub const PRINTER_RECOVERY: u8 = 0x80;

/// Print mode bit: cut after each label.
pub const AUTO_CUT: u8 = 0x40;

/// Print mode bit: print mirrored.
pub const MIRROR_PRINT: u8 = 0x80;

/// Advanced settings bit: draft quality.
pub const DRAFT: u8 = 0x01;

/// Advanced settings bit: half cut.
pub const HALF_CUT: u8 = 0x04;

/// Advanced settings bit: no chain printing.
pub const NO_CHAIN: u8 = 0x08;

/// Advanced settings bit: special tape, no cutting.
pub const SPECIAL_TAPE: u8 = 0x10;

/// Advanced settings bit: high resolution.
pub const HI_RES: u8 = 0x40;

/// Advanced settings bit: keep the print buffer.
pub const DONT_CLEAN: u8 = 0x80;

/// `byte` has a bit of `mask` set.
pub open spec fn bit_set(byte: u8, mask: u8) -> bool {
    byte & mask != 0
}

/// Tells whether `byte` has a bit of `mask` set.
pub fn has_bit(byte: u8, mask: u8) -> (set: bool)
    ensures
        set == bit_set(byte, mask),
{
    byte & mask != 0
}

/// The settings of a stream that has given none.
pub open spec fn unset_settings() -> PrinterSettings {
    PrinterSettings {
        media_type: None,
        media_width: None,
        media_length: None,
        row_count: None,
        auto_cut: None,
        mirror_print: None,
        draft: None,
        half_cut: None,
        no_chain: None,
        special_tape: None,
        hi_res: None,
        dont_clean: None,
        feed_amount: None,
        cut_every: None,
    }
}

/// `settings` after an initialize command: the media fields and the row
/// count are forgotten, the rest stays.
pub open spec fn reset_media(settings: PrinterSettings) -> PrinterSettings {
    PrinterSettings {
        media_type: None,
        media_width: None,
        media_length: None,
        row_count: None,
        ..settings
    }
}

/// `settings` after a print information command: each media field that the
/// flags name is taken over, and so is the row count.
pub open spec fn with_print_information(
    settings: PrinterSettings,
    info: PrintInformation,
) -> PrinterSettings {
    PrinterSettings {
        media_type: if bit_set(info.flags, HAS_MEDIA_TYPE) {
            Some(info.media_type)
        } else {
            settings.media_type
        },
        media_width: if bit_set(info.flags, HAS_MEDIA_WIDTH) {
            Some(info.media_width)
        } else {
            settings.media_width
        },
        media_length: if bit_set(info.flags, HAS_MEDIA_LENGTH) {
            Some(info.media_length)
        } else {
            settings.media_length
        },
        row_count: Some(info.row_count),
        ..settings
    }
}

/// `settings` after a print mode command.
pub open spec fn with_print_mode(settings: PrinterSettings, flags: u8) -> PrinterSettings {
    PrinterSettings {
        auto_cut: Some(bit_set(flags, AUTO_CUT)),
        mirror_print: Some(bit_set(flags, MIRROR_PRINT)),
        ..settings
    }
}

/// `settings` after an advanced settings command.
pub open spec fn with_advanced_settings(settings: PrinterSettings, flags: u8) -> PrinterSettings {
    PrinterSettings {
        draft: Some(bit_set(flags, DRAFT)),
        half_cut: Some(bit_set(flags, HALF_CUT)),
        no_chain: Some(bit_set(flags, NO_CHAIN)),
        special_tape: Some(bit_set(flags, SPECIAL_TAPE)),
        hi_res: Some(bit_set(flags, HI_RES)),
        dont_clean: Some(bit_set(flags, DONT_CLEAN)),
        ..settings
    }
}

impl PrinterSettings {
    /// Settings with every field unset.
    pub fn new() -> (settings: PrinterSettings)
        ensures
            settings == unset_settings(),
    {
        PrinterSettings {
            media_type: None,
            media_width: None,
            media_length: None,
            row_count: None,
            auto_cut: None,
            mirror_print: None,
            draft: None,
            half_cut: None,
            no_chain: None,
            special_tape: None,
            hi_res: None,
            dont_clean: None,
            feed_amount: None,
            cut_every: None,
        }
    }
}

/// One part of a decoded label.
#[derive(Clone, Debug, PartialEq, Eq)]
pub enum LabelPart {
    /// The rows of one page, one byte per pixel, in the order they were
    /// sent.
    RasterBlock { rows: Vec<Vec<u8>> },
    /// The page before was printed.
    PrintMarker,
    /// The page before was printed and fed out.
    PrintFeedMarker,
}

/// What a `LabelPart` holds.
pub enum PartModel {
    RasterBlock { rows: Seq<Seq<u8>> },
    PrintMarker,
    PrintFeedMarker,
}

impl View for LabelPart {
    type V = PartModel;

    open spec fn view(&self) -> PartModel {
        match *self {
            LabelPart::RasterBlock { rows } => PartModel::RasterBlock { rows: rows_of(rows@) },
            LabelPart::PrintMarker => PartModel::PrintMarker,
            LabelPart::PrintFeedMarker => PartModel::PrintFeedMarker,
        }
    }
}

/// The contents of a vector of parts.
pub open spec fn parts_of(parts: Seq<LabelPart>) -> Seq<PartModel> {
    Seq::new(parts.len(), |i: int| parts[i]@)
}

/// The state of a decoding pass.
#[derive(Clone, Debug, PartialEq, Eq)]
pub struct Parser {
    /// Offset of the next command.
    pub pos: usize,
    /// Raster mode has been switched on.
    pub raster_mode: bool,
    pub compression: CompressionMode,
    pub settings: PrinterSettings,
    pub page_state: PageAnnouncementState,
    /// Width in pixels of the widest row so far.
    pub width: usize,
    /// The rows since the last print command.
    pub rows: Vec<Vec<u8>>,
    /// The parts closed so far.
    pub parts: Vec<LabelPart>,
}

/// What a `Parser` holds.
pub struct ParserModel {
    pub pos: nat,
    pub raster_mode: bool,
    pub compression: CompressionMode,
    pub settings: PrinterSettings,
    pub page_state: PageAnnouncementState,
    pub width: nat,
    pub rows: Seq<Seq<u8>>,
    pub parts: Seq<PartModel>,
}

impl View for Parser {
    type V = ParserModel;

    open spec fn view(&self) -> ParserModel {
        ParserModel {
            pos: self.pos as nat,
            raster_mode: self.raster_mode,
            compression: self.compression,
            settings: self.settings,
            page_state: self.page_state,
            width: self.width as nat,
            rows: rows_of(self.rows@),
            parts: parts_of(self.parts@),
        }
    }
}

/// The state in which a pass starts at offset `start`.
pub open spec fn initial_state(start: nat) -> ParserModel {
    ParserModel {
        pos: start,
        raster_mode: false,
        compression: CompressionMode::Raw,
        settings: unset_settings(),
        page_state: PageAnnouncementState::BeforeFirst,
        width: 0,
        rows: Seq::empty(),
        parts: Seq::empty(),
    }
}

/// No row of `rows` is wider than `width`.
pub open spec fn rows_fit(rows: Seq<Seq<u8>>, width: nat) -> bool {
    forall|i: int| 0 <= i < rows.len() ==> (#[trigger] rows[i]).len() <= width
}

/// No row of any block of `parts` is wider than `width`.
pub open spec fn parts_fit(parts: Seq<PartModel>, width: nat) -> bool {
    forall|i: int|
        0 <= i < parts.len() ==> (#[trigger] parts[i] matches PartModel::RasterBlock { rows }
            ==> rows_fit(rows, width))
}

impl ParserModel {
    /// The running width bounds every row seen so far.
    pub open spec fn wf(self) -> bool {
        rows_fit(self.rows, self.width) && parts_fit(self.parts, self.width)
    }
}

/// The bytes a raster transfer stands for: its payload, unpacked where the
/// mode is PackBits; `None` where the payload cannot be unpacked.
pub open spec fn transfer_bytes(compression: CompressionMode, payload: Seq<u8>) -> Option<
    Seq<u8>,
> {
    match compression {
        CompressionMode::Raw => Some(payload),
        CompressionMode::PackBits => unpack_spec(payload),
    }
}

/// The larger of two widths.
pub open spec fn wider(a: nat, b: nat) -> nat {
    if a >= b {
        a
    } else {
        b
    }
}

/// `state` with its open rows closed into a block and `marker` behind it.
pub open spec fn close_block(state: ParserModel, marker: PartModel) -> ParserModel {
    ParserModel {
        parts: state.parts.push(PartModel::RasterBlock { rows: state.rows }).push(marker),
        rows: Seq::empty(),
        ..state
    }
}

/// The state after `command`, the cursor left alone, or the reason why the
/// command cannot be carried out.
pub open spec fn apply_spec(state: ParserModel, command: CommandModel) -> Result<
    ParserModel,
    FormatError,
> {
    match command {
        CommandModel::Reinitialize => Ok(
            ParserModel {
                settings: reset_media(state.settings),
                page_state: PageAnnouncementState::BeforeFirst,
                ..state
            },
        ),
        CommandModel::StatusRequest => Ok(state),
        CommandModel::StatusNotify => Ok(state),
        CommandModel::SwitchLanguage { language } => if language == LANGUAGE_RASTER {
            Ok(ParserModel { raster_mode: true, ..state })
        } else if language == 0 || language == 3 {
            Err(FormatError::UnsupportedLanguage { language })
        } else {
            Err(FormatError::UnknownLanguage { language })
        },
        CommandModel::PrintInformation { info } => match announce_spec(
            state.page_state,
            info.page,
        ) {
            Ok(page_state) => Ok(
                ParserModel {
                    settings: with_print_information(state.settings, info),
                    page_state,
                    ..state
                },
            ),
            Err(e) => Err(e),
        },
        CommandModel::PrintMode { flags } => Ok(
            ParserModel { settings: with_print_mode(state.settings, flags), ..state },
        ),
        CommandModel::CutEvery { count } => Ok(
            ParserModel {
                settings: PrinterSettings { cut_every: Some(count), ..state.settings },
                ..state
            },
        ),
        CommandModel::AdvancedSettings { flags } => Ok(
            ParserModel { settings: with_advanced_settings(state.settings, flags), ..state },
        ),
        CommandModel::FeedAmount { amount } => Ok(
            ParserModel {
                settings: PrinterSettings { feed_amount: Some(amount), ..state.settings },
                ..state
            },
        ),
        CommandModel::SelectCompression { mode } => if mode == COMPRESSION_RAW {
            Ok(ParserModel { compression: CompressionMode::Raw, ..state })
        } else if mode == COMPRESSION_PACKBITS {
            Ok(ParserModel { compression: CompressionMode::PackBits, ..state })
        } else {
            Err(FormatError::UnsupportedCompression { mode })
        },
        CommandModel::RasterTransfer { payload } => if !state.raster_mode {
            Err(FormatError::RasterBeforeRasterMode { command: RASTER_TRANSFER })
        } else {
            match transfer_bytes(state.compression, payload) {
                Some(bytes) => Ok(
                    ParserModel {
                        width: wider(state.width, expand_spec(bytes).len()),
                        rows: state.rows.push(expand_spec(bytes)),
                        ..state
                    },
                ),
                None => Err(FormatError::TruncatedPackBits),
            }
        },
        CommandModel::ZeroRaster => if !state.raster_mode {
            Err(FormatError::RasterBeforeRasterMode { command: ZERO_RASTER })
        } else {
            Ok(ParserModel { rows: state.rows.push(Seq::empty()), ..state })
        },
        CommandModel::Print => Ok(close_block(state, PartModel::PrintMarker)),
        CommandModel::PrintFeed => Ok(close_block(state, PartModel::PrintFeedMarker)),
    }
}

/// The byte at the cursor starts a raster command while raster mode is off.
pub open spec fn raster_refused(state: ParserModel, src: Seq<u8>) -> bool {
    &&& state.pos < src.len()
    &&& !state.raster_mode
    &&& (src[state.pos as int] == RASTER_TRANSFER || src[state.pos as int] == ZERO_RASTER)
}

/// The state after the command at the cursor, the cursor behind it.
///
/// Raster data before raster mode is refused on its command byte, before
/// any operand is looked at.
pub open spec fn step_spec(state: ParserModel, src: Seq<u8>) -> Result<ParserModel, FormatError> {
    if raster_refused(state, src) {
        Err(FormatError::RasterBeforeRasterMode { command: src[state.pos as int] })
    } else {
        match command_at(src, state.pos as int) {
            Ok((command, length)) => match apply_spec(state, command) {
                Ok(next) => Ok(ParserModel { pos: state.pos + length, ..next }),
                Err(e) => Err(e),
            },
            Err(e) => Err(e),
        }
    }
}

/// Where a pass from `state` over `src` stops, and why: at the end of the
/// stream with `None`, or on the first command that cannot be carried out.
pub open spec fn run_spec(state: ParserModel, src: Seq<u8>) -> (ParserModel, Option<FormatError>)
    decreases src.len() - state.pos,
{
    if state.pos >= src.len() {
        (state, None)
    } else {
        match step_spec(state, src) {
            Ok(next) => {
                proof {
                    lemma_command_length(src, state.pos as int);
                }
                run_spec(next, src)
            },
            Err(e) => (state, Some(e)),
        }
    }
}

/// Each step moves the cursor forward and keeps it inside the stream.
pub proof fn lemma_step_advances(state: ParserModel, src: Seq<u8>)
    ensures
        step_spec(state, src) matches Ok(next) ==> state.pos < next.pos <= src.len(),
{
    lemma_command_length(src, state.pos as int);
}

/// A command that is carried out keeps the running width a bound of every
/// row.
pub proof fn lemma_apply_keeps_wf(state: ParserModel, command: CommandModel)
    requires
        state.wf(),
    ensures
        apply_spec(state, command) matches Ok(next) ==> next.wf() && next.width >= state.width,
{
    match apply_spec(state, command) {
        Ok(next) => {
            assert forall|i: int| 0 <= i < next.rows.len() implies (#[trigger] next.rows[i]).len()
                <= next.width by {
                if i < state.rows.len() {
                    assert(next.rows[i] == state.rows[i]);
                }
            }
            assert forall|i: int| 0 <= i < next.parts.len() implies (
            #[trigger] next.parts[i] matches PartModel::RasterBlock { rows } ==> rows_fit(
                rows,
                next.width,
            )) by {
                if i < state.parts.len() {
                    assert(next.parts[i] == state.parts[i]);
                    if let PartModel::RasterBlock { rows } = state.parts[i] {
                        assert(rows_fit(rows, state.width));
                        assert forall|k: int| 0 <= k < rows.len() implies (#[trigger] rows[k]).len()
                            <= next.width by {}
                    }
                }
            }
        },
        Err(_) => {},
    }
}

/// A whole pass keeps the running width a bound of every row and never
/// moves the cursor back; where it ends without an error, the cursor has
/// reached the end of the stream.
pub proof fn lemma_run_keeps_wf(state: ParserModel, src: Seq<u8>)
    requires
        state.wf(),
    ensures
        run_spec(state, src).0.wf(),
        run_spec(state, src).0.pos >= state.pos,
        run_spec(state, src).1 is None ==> run_spec(state, src).0.pos >= src.len(),
    decreases src.len() - state.pos,
{
    if state.pos < src.len() {
        match step_spec(state, src) {
            Ok(next) => {
                lemma_step_advances(state, src);
                let command = command_at(src, state.pos as int)->Ok_0.0;
                lemma_apply_keeps_wf(state, command);
                lemma_run_keeps_wf(next, src);
            },
            Err(_) => {},
        }
    }
}

impl Parser {
    /// A parser about to read the command at `start`, with nothing seen
    /// yet: raster mode off, rows sent raw, no page announced.
    pub fn new(start: usize) -> (parser: Parser)
        ensures
            parser@ == initial_state(start as nat),
            parser@.wf(),
    {
        let parser = Parser {
            pos: start,
            raster_mode: false,
            compression: CompressionMode::Raw,
            settings: PrinterSettings::new(),
            page_state: PageAnnouncementState::BeforeFirst,
            width: 0,
            rows: Vec::new(),
            parts: Vec::new(),
        };
        assert(parser@.rows =~= Seq::<Seq<u8>>::empty());
        assert(parser@.parts =~= Seq::<PartModel>::empty());
        parser
    }

    /// Closes the open rows into a block and puts `marker` behind it.
    fn close_rows(&mut self, marker: LabelPart)
        ensures
            final(self)@ == close_block(old(self)@, marker@),
    {
        let mut block: Vec<Vec<u8>> = Vec::new();
        std::mem::swap(&mut block, &mut self.rows);
        self.parts.push(LabelPart::RasterBlock { rows: block });
        self.parts.push(marker);
        proof {
            let target = close_block(old(self)@, marker@);
            assert(self@.rows =~= target.rows);
            assert(self@.parts =~= target.parts);
        }
    }

    /// Carries out `command`. The cursor is left alone.
    ///
    /// Where the command cannot be carried out the parser is left as it
    /// was.
    pub fn apply(&mut self, command: Command) -> (r: Result<(), FormatError>)
        ensures
            match apply_spec(old(self)@, command@) {
                Ok(next) => r is Ok && final(self)@ == next,
                Err(e) => r == Err::<(), FormatError>(e) && final(self)@ == old(self)@,
            },
            old(self)@.wf() ==> final(self)@.wf(),
    {
        proof {
            if self@.wf() {
                lemma_apply_keeps_wf(self@, command@);
            }
        }
        match command {
            Command::Reinitialize => {
                self.settings.media_type = None;
                self.settings.media_width = None;
                self.settings.media_length = None;
                self.settings.row_count = None;
                self.page_state = PageAnnouncementState::BeforeFirst;
                Ok(())
            },
            Command::StatusRequest => Ok(()),
            Command::StatusNotify => Ok(()),
            Command::SwitchLanguage { language } => {
                if language == LANGUAGE_RASTER {
                    self.raster_mode = true;
                    Ok(())
                } else if language == 0 || language == 3 {
                    Err(FormatError::UnsupportedLanguage { language })
                } else {
                    Err(FormatError::UnknownLanguage { language })
                }
            },
            Command::PrintInformation { info } => {
                match self.page_state.announce(info.page) {
                    Ok(page_state) => {
                        if has_bit(info.flags, HAS_MEDIA_TYPE) {
                            self.settings.media_type = Some(info.media_type);
                        }
                        if has_bit(info.flags, HAS_MEDIA_WIDTH) {
                            self.settings.media_width = Some(info.media_width);
                        }
                        if has_bit(info.flags, HAS_MEDIA_LENGTH) {
                            self.settings.media_length = Some(info.media_length);
                        }
                        self.settings.row_count = Some(info.row_count);
                        self.page_state = page_state;
                        Ok(())
                    },
                    Err(e) => Err(e),
                }
            },
            Command::PrintMode { flags } => {
                self.settings.auto_cut = Some(has_bit(flags, AUTO_CUT));
                self.settings.mirror_print = Some(has_bit(flags, MIRROR_PRINT));
                Ok(())
            },
            Command::CutEvery { count } => {
                self.settings.cut_every = Some(count);
                Ok(())
            },
            Command::AdvancedSettings { flags } => {
                self.settings.draft = Some(has_bit(flags, DRAFT));
                self.settings.half_cut = Some(has_bit(flags, HALF_CUT));
                self.settings.no_chain = Some(has_bit(flags, NO_CHAIN));
                self.settings.special_tape = Some(has_bit(flags, SPECIAL_TAPE));
                self.settings.hi_res = Some(has_bit(flags, HI_RES));
                self.settings.dont_clean = Some(has_bit(flags, DONT_CLEAN));
                Ok(())
            },
            Command::FeedAmount { amount } => {
                self.settings.feed_amount = Some(amount);
                Ok(())
            },
            Command::SelectCompression { mode } => {
                if mode == COMPRESSION_RAW {
                    self.compression = CompressionMode::Raw;
                    Ok(())
                } else if mode == COMPRESSION_PACKBITS {
                    self.compression = CompressionMode::PackBits;
                    Ok(())
                } else {
                    Err(FormatError::UnsupportedCompression { mode })
                }
            },
            Command::RasterTransfer { payload } => {
                if !self.raster_mode {
                    return Err(FormatError::RasterBeforeRasterMode { command: RASTER_TRANSFER });
                }
                let bytes: Vec<u8> = match self.compression {
                    CompressionMode::Raw => payload,
                    CompressionMode::PackBits => match unpack_bits(payload.as_slice()) {
                        Ok(bytes) => bytes,
                        Err(e) => {
                            return Err(e);
                        },
                    },
                };
                let row = expand_bits(bytes.as_slice());
                if row.len() > self.width {
                    self.width = row.len();
                }
                self.rows.push(row);
                proof {
                    let target = apply_spec(old(self)@, command@)->Ok_0;
                    assert(self@.rows =~= target.rows);
                }
                Ok(())
            },
            Command::ZeroRaster => {
                if !self.raster_mode {
                    return Err(FormatError::RasterBeforeRasterMode { command: ZERO_RASTER });
                }
                self.rows.push(Vec::new());
                proof {
                    let target = apply_spec(old(self)@, command@)->Ok_0;
                    assert(self@.rows =~= target.rows);
                }
                Ok(())
            },
            Command::Print => {
                self.close_rows(LabelPart::PrintMarker);
                Ok(())
            },
            Command::PrintFeed => {
                self.close_rows(LabelPart::PrintFeedMarker);
                Ok(())
            },
        }
    }

    /// Reads the command at the cursor and carries it out.
    ///
    /// Returns `Ok(false)` at the end of the stream and `Ok(true)` after a
    /// command, the cursor behind it. On an error the parser is left as it
    /// was, its cursor on the command that failed.
    pub fn step(&mut self, src: &[u8]) -> (r: Result<bool, FormatError>)
        ensures
            old(self)@.pos >= src@.len() ==> r == Ok::<bool, FormatError>(false) && final(self)@
                == old(self)@,
            old(self)@.pos < src@.len() ==> match step_spec(old(self)@, src@) {
                Ok(next) => r == Ok::<bool, FormatError>(true) && final(self)@ == next,
                Err(e) => r == Err::<bool, FormatError>(e) && final(self)@ == old(self)@,
            },
            old(self)@.wf() ==> final(self)@.wf(),
    {
        if self.pos >= src.len() {
            return Ok(false);
        }
        let lead: u8 = src[self.pos];
        if !self.raster_mode && (lead == RASTER_TRANSFER || lead == ZERO_RASTER) {
            return Err(FormatError::RasterBeforeRasterMode { command: lead });
        }
        match read_command(src, self.pos) {
            Ok((command, next)) => match self.apply(command) {
                Ok(()) => {
                    self.pos = next;
                    Ok(true)
                },
                Err(e) => Err(e),
            },
            Err(e) => Err(e),
        }
    }

    /// Carries out the commands from the cursor to the end of the stream.
    ///
    /// Stops on the first command that fails, with the parser as it was
    /// before that command and the cursor on it.
    pub fn run(&mut self, src: &[u8]) -> (r: Result<(), FormatError>)
        ensures
            final(self)@ == run_spec(old(self)@, src@).0,
            match run_spec(old(self)@, src@).1 {
                None => r is Ok,
                Some(e) => r == Err::<(), FormatError>(e),
            },
            old(self)@.wf() ==> final(self)@.wf(),
    {
        loop
            invariant
                run_spec(self@, src@) == run_spec(old(self)@, src@),
                old(self)@.wf() ==> self@.wf(),
            decreases src@.len() - self@.pos,
        {
            proof {
                lemma_step_advances(self@, src@);
            }
            match self.step(src) {
                Ok(true) => {},
                Ok(false) => {
                    return Ok(());
                },
                Err(e) => {
                    return Err(e);
                },
            }
        }
    }
}

} // verus!
