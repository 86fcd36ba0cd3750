//! Writing of a command stream that prints a set of pages.
//!
//! A stream is the invalidate sequence, the initialize command, the job's
//! settings, and for each page its print information, its rows and a print
//! command. The last page is printed and fed out.

use vstd::prelude::*;
use crate::command::{
    command_bytes, le_bytes_u16, CommandModel, PrintInformation, ADVANCED_SETTINGS,
    COMPRESSION_PACKBITS, CUT_EVERY, ESC, FEED_AMOUNT, INITIALIZE, LANGUAGE_RASTER, PRINT,
    PRINT_FEED, PRINT_INFORMATION, PRINT_MODE, RASTER_TRANSFER, SELECT_COMPRESSION, SETTING,
    SWITCH_LANGUAGE, ZERO_RASTER,
};
use crate::error::InputError;
use crate::page::{PAGE_FIRST, PAGE_LAST, PAGE_OTHER};
use crate::parser::{
    AUTO_CUT, DONT_CLEAN, DRAFT, HALF_CUT, HAS_MEDIA_WIDTH, HI_RES, MIRROR_PRINT, NO_CHAIN,
    PRINTER_RECOVERY, SPECIAL_TAPE,
};
use crate::preamble::INVALIDATE_LENGTH;
use crate::raster::rows_of;

verus! {

/// How a job is to be printed.
#[derive(Clone, Copy, Debug, PartialEq, Eq)]
pub struct PrintOptions {
    pub auto_cut: bool,
    pub mirror_print: bool,
    pub draft: bool,
    pub half_cut: bool,
    pub no_chain: bool,
    pub special_tape: bool,
    pub hi_res: bool,
    pub dont_clean: bool,
    /// Cut after every so many labels.
    pub cut_every: u8,
    /// Feed amount behind the label.
    pub feed: u16,
    /// Width of the tape in millimetres.
    pub width_mm: u8,
}

/// `bit` where `on` holds, no bit otherwise.
pub open spec fn flag(on: bool, bit: u8) -> u8 {
    if on {
        bit
    } else {
        0
    }
}

/// The operand of the print mode command.
pub open spec fn print_mode_byte(options: PrintOptions) -> u8 {
    flag(options.auto_cut, AUTO_CUT) | flag(options.mirror_print, MIRROR_PRINT)
}

/// The operand of the advanced settings command.
pub open spec fn advanced_byte(options: PrintOptions) -> u8 {
    flag(options.draft, DRAFT) | flag(options.half_cut, HALF_CUT) | flag(
        options.no_chain,
        NO_CHAIN,
    ) | flag(options.special_tape, SPECIAL_TAPE) | flag(options.hi_res, HI_RES) | flag(
        options.dont_clean,
        DONT_CLEAN,
    )
}

/// The commands that set a job up: raster mode, the print mode, the
/// advanced settings, the cut interval, the feed amount, and PackBits for
/// the rows.
pub open spec fn setup_commands(options: PrintOptions) -> Seq<CommandModel> {
    seq![
        CommandModel::SwitchLanguage { language: LANGUAGE_RASTER },
        CommandModel::PrintMode { flags: print_mode_byte(options) },
        CommandModel::AdvancedSettings { flags: advanced_byte(options) },
        CommandModel::CutEvery { count: options.cut_every },
        CommandModel::FeedAmount { amount: options.feed },
        CommandModel::SelectCompression { mode: COMPRESSION_PACKBITS },
    ]
}

/// The announcement value of page `index` out of `count`: last for the
/// last or only page, first for the first of several, other in between.
pub open spec fn page_byte(index: int, count: int) -> u8 {
    if index == count - 1 {
        PAGE_LAST
    } else if index == 0 {
        PAGE_FIRST
    } else {
        PAGE_OTHER
    }
}

/// The print information of page `index` out of `count` with `rows` rows:
/// the media width is given and printer recovery is on; the length is zero
/// for endless tape.
pub open spec fn page_information(options: PrintOptions, rows: nat, index: int, count: int)
    -> PrintInformation {
    PrintInformation {
        flags: HAS_MEDIA_WIDTH | PRINTER_RECOVERY,
        media_type: 0,
        media_width: options.width_mm,
        media_length: 0,
        row_count: rows as u32,
        page: page_byte(index, count),
    }
}

/// The command that sends one row: a zero raster row for an empty row, a
/// raster transfer otherwise.
pub open spec fn row_command(row: Seq<u8>) -> CommandModel {
    if row.len() == 0 {
        CommandModel::ZeroRaster
    } else {
        CommandModel::RasterTransfer { payload: row }
    }
}

/// The commands that send `rows`.
pub open spec fn row_commands(rows: Seq<Seq<u8>>) -> Seq<CommandModel> {
    Seq::new(rows.len(), |i: int| row_command(rows[i]))
}

/// The command that ends page `index` out of `count`: print and feed for
/// the last page, print for the others.
pub open spec fn page_end(index: int, count: int) -> CommandModel {
    if index == count - 1 {
        CommandModel::PrintFeed
    } else {
        CommandModel::Print
    }
}

/// The commands of page `index` out of `count`.
pub open spec fn page_commands(options: PrintOptions, rows: Seq<Seq<u8>>, index: int, count: int)
    -> Seq<CommandModel> {
    seq![
        CommandModel::PrintInformation {
            info: page_information(options, rows.len(), index, count),
        },
    ] + row_commands(rows) + seq![page_end(index, count)]
}

/// The commands of the first `upto` pages of `pages`.
pub open spec fn pages_commands(options: PrintOptions, pages: Seq<Seq<Seq<u8>>>, upto: nat) -> Seq<
    CommandModel,
>
    decreases upto,
{
    if upto == 0 {
        Seq::empty()
    } else {
        pages_commands(options, pages, (upto - 1) as nat) + page_commands(
            options,
            pages[upto - 1],
            upto - 1,
            pages.len() as int,
        )
    }
}

/// All commands of a job behind the initialize command.
pub open spec fn job_commands(options: PrintOptions, pages: Seq<Seq<Seq<u8>>>) -> Seq<
    CommandModel,
> {
    setup_commands(options) + pages_commands(options, pages, pages.len())
}

/// The bytes of `commands`, one command after the other.
pub open spec fn serialize(commands: Seq<CommandModel>) -> Seq<u8>
    decreases commands.len(),
{
    if commands.len() == 0 {
        Seq::empty()
    } else {
        serialize(commands.drop_last()) + command_bytes(commands.last())
    }
}

/// The invalidate sequence and the initialize command.
pub open spec fn preamble_bytes() -> Seq<u8> {
    Seq::new(INVALIDATE_LENGTH as nat, |i: int| 0u8) + seq![ESC, INITIALIZE]
}

/// The stream that prints `pages` with `options`.
pub open spec fn stream_spec(options: PrintOptions, pages: Seq<Seq<Seq<u8>>>) -> Seq<u8> {
    preamble_bytes() + serialize(job_commands(options, pages))
}

/// The bytes of a command sequence with one more command are the bytes of
/// the sequence and the bytes of that command.
pub proof fn lemma_serialize_push(commands: Seq<CommandModel>, command: CommandModel)
    ensures
        serialize(commands.push(command)) == serialize(commands) + command_bytes(command),
{
    assert(commands.push(command).drop_last() =~= commands);
}

/// The bytes of two command sequences in a row are the bytes of the first
/// and the bytes of the second.
pub proof fn lemma_serialize_concat(first: Seq<CommandModel>, second: Seq<CommandModel>)
    ensures
        serialize(first + second) == serialize(first) + serialize(second),
    decreases second.len(),
{
    if second.len() == 0 {
        assert(first + second =~= first);
        assert(serialize(first) + serialize(second) =~= serialize(first));
    } else {
        lemma_serialize_concat(first, second.drop_last());
        assert((first + second).drop_last() =~= first + second.drop_last());
        assert((first + second).last() == second.last());
        assert((serialize(first) + serialize(second.drop_last())) + command_bytes(second.last())
            =~= serialize(first) + (serialize(second.drop_last()) + command_bytes(
            second.last(),
        )));
    }
}

/// The first row of `rows` at or behind `from` whose wire form does not fit
/// a raster transfer, as the error that names it.
pub open spec fn row_fault(rows: Seq<Seq<u8>>, page: int, from: int) -> Option<InputError>
    decreases rows.len() - from,
{
    if from < 0 || from >= rows.len() {
        None
    } else if rows[from].len() > 0xFFFF {
        Some(
            InputError::RowTooLong {
                page: page as usize,
                row: from as usize,
                length: rows[from].len() as usize,
            },
        )
    } else {
        row_fault(rows, page, from + 1)
    }
}

/// What keeps a page from being written: too many rows, or else its first
/// row that is too long.
pub open spec fn page_fault(rows: Seq<Seq<u8>>, page: int) -> Option<InputError> {
    if rows.len() > u32::MAX {
        Some(InputError::TooManyRows { page: page as usize, rows: rows.len() as usize })
    } else {
        row_fault(rows, page, 0)
    }
}

/// What keeps the pages at or behind `from` from being written: the fault
/// of the first page that has one.
pub open spec fn job_fault(pages: Seq<Seq<Seq<u8>>>, from: int) -> Option<InputError>
    decreases pages.len() - from,
{
    if from < 0 || from >= pages.len() {
        None
    } else {
        match page_fault(pages[from], from) {
            Some(e) => Some(e),
            None => job_fault(pages, from + 1),
        }
    }
}

/// Pages have no fault exactly where every page has at most `u32::MAX` rows
/// and every row at most 65535 bytes.
pub proof fn lemma_job_fault(pages: Seq<Seq<Seq<u8>>>, from: int)
    requires
        0 <= from,
    ensures
        job_fault(pages, from) is None <==> forall|p: int|
            from <= p < pages.len() ==> (#[trigger] pages[p]).len() <= u32::MAX && forall|k: int|
                0 <= k < pages[p].len() ==> (#[trigger] pages[p][k]).len() <= 0xFFFF,
    decreases pages.len() - from,
{
    if from < pages.len() {
        lemma_row_fault(pages[from], from, 0);
        lemma_job_fault(pages, from + 1);
        if job_fault(pages, from) is None {
            assert forall|p: int| from <= p < pages.len() implies (#[trigger] pages[p]).len()
                <= u32::MAX && forall|k: int|
                0 <= k < pages[p].len() ==> (#[trigger] pages[p][k]).len() <= 0xFFFF by {
                if p > from {
                }
            }
        }
    }
}

/// Rows have no fault exactly where every row from `from` on has at most
/// 65535 bytes.
pub proof fn lemma_row_fault(rows: Seq<Seq<u8>>, page: int, from: int)
    requires
        0 <= from,
    ensures
        row_fault(rows, page, from) is None <==> forall|k: int|
            from <= k < rows.len() ==> (#[trigger] rows[k]).len() <= 0xFFFF,
    decreases rows.len() - from,
{
    if from < rows.len() {
        lemma_row_fault(rows, page, from + 1);
    }
}

/// The fault of a page is never that of an empty set of bitmaps.
pub proof fn lemma_job_fault_kind(pages: Seq<Seq<Seq<u8>>>, from: int)
    ensures
        job_fault(pages, from) != Some(InputError::NoImages),
    decreases pages.len() - from,
{
    if 0 <= from < pages.len() {
        lemma_row_fault_kind(pages[from], from, 0);
        lemma_job_fault_kind(pages, from + 1);
    }
}

/// The fault of a row is never that of an empty set of bitmaps.
pub proof fn lemma_row_fault_kind(rows: Seq<Seq<u8>>, page: int, from: int)
    ensures
        row_fault(rows, page, from) != Some(InputError::NoImages),
    decreases rows.len() - from,
{
    if 0 <= from < rows.len() {
        lemma_row_fault_kind(rows, page, from + 1);
    }
}

/// The contents of a vector of pages.
pub open spec fn pages_of(pages: Seq<Vec<Vec<u8>>>) -> Seq<Seq<Seq<u8>>> {
    Seq::new(pages.len(), |i: int| rows_of(pages[i]@))
}

/// `bit` where `on` holds, no bit otherwise.
fn flag_bit(on: bool, bit: u8) -> (b: u8)
    ensures
        b == flag(on, bit),
{
    if on {
        bit
    } else {
        0
    }
}

/// Looks for the first row that is too long for a raster transfer.
fn check_rows(rows: &Vec<Vec<u8>>, page: usize) -> (fault: Option<InputError>)
    ensures
        fault == row_fault(rows_of(rows@), page as int, 0),
{
    let mut k: usize = 0;
    while k < rows.len()
        invariant
            k <= rows.len(),
            row_fault(rows_of(rows@), page as int, 0) == row_fault(
                rows_of(rows@),
                page as int,
                k as int,
            ),
        decreases rows.len() - k,
    {
        if rows[k].len() > 0xFFFF {
            return Some(InputError::RowTooLong { page, row: k, length: rows[k].len() });
        }
        k += 1;
    }
    None
}

/// Looks for what keeps `pages` from being written.
pub fn check_pages(pages: &Vec<Vec<Vec<u8>>>) -> (fault: Option<InputError>)
    ensures
        fault == job_fault(pages_of(pages@), 0),
{
    let mut i: usize = 0;
    while i < pages.len()
        invariant
            i <= pages.len(),
            job_fault(pages_of(pages@), 0) == job_fault(pages_of(pages@), i as int),
        decreases pages.len() - i,
    {
        let rows = &pages[i];
        if rows.len() > u32::MAX as usize {
            return Some(InputError::TooManyRows { page: i, rows: rows.len() });
        }
        match check_rows(rows, i) {
            Some(e) => {
                return Some(e);
            },
            None => {},
        }
        i += 1;
    }
    None
}

/// Appends a setting with a one-byte operand.
fn put_setting(out: &mut Vec<u8>, kind: u8, operand: u8)
    ensures
        final(out)@ == old(out)@ + seq![ESC, SETTING, kind, operand],
{
    out.push(ESC);
    out.push(SETTING);
    out.push(kind);
    out.push(operand);
    assert(out@ =~= old(out)@ + seq![ESC, SETTING, kind, operand]);
}

/// The bytes of the commands that set a job up.
proof fn lemma_setup_bytes(options: PrintOptions)
    ensures
        serialize(setup_commands(options)) == seq![
            ESC,
            SETTING,
            SWITCH_LANGUAGE,
            LANGUAGE_RASTER,
        ] + seq![ESC, SETTING, PRINT_MODE, print_mode_byte(options)] + seq![
            ESC,
            SETTING,
            ADVANCED_SETTINGS,
            advanced_byte(options),
        ] + seq![ESC, SETTING, CUT_EVERY, options.cut_every] + (seq![ESC, SETTING, FEED_AMOUNT]
            + le_bytes_u16(options.feed)) + seq![SELECT_COMPRESSION, COMPRESSION_PACKBITS],
{
    let commands = setup_commands(options);
    let c0 = commands.take(0);
    let c1 = commands.take(1);
    let c2 = commands.take(2);
    let c3 = commands.take(3);
    let c4 = commands.take(4);
    let c5 = commands.take(5);
    assert(serialize(c0) =~= Seq::<u8>::empty());
    assert(c1 =~= c0.push(commands[0]));
    lemma_serialize_push(c0, commands[0]);
    assert(serialize(c1) =~= command_bytes(commands[0]));
    assert(c2 =~= c1.push(commands[1]));
    lemma_serialize_push(c1, commands[1]);
    assert(c3 =~= c2.push(commands[2]));
    lemma_serialize_push(c2, commands[2]);
    assert(c4 =~= c3.push(commands[3]));
    lemma_serialize_push(c3, commands[3]);
    assert(c5 =~= c4.push(commands[4]));
    lemma_serialize_push(c4, commands[4]);
    assert(commands =~= c5.push(commands[5]));
    lemma_serialize_push(c5, commands[5]);
}

/// Appends the feed amount command.
fn put_feed(out: &mut Vec<u8>, feed: u16)
    ensures
        final(out)@ == old(out)@ + (seq![ESC, SETTING, FEED_AMOUNT] + le_bytes_u16(feed)),
{
    out.push(ESC);
    out.push(SETTING);
    out.push(FEED_AMOUNT);
    out.push((feed % 256) as u8);
    out.push((feed / 256) as u8);
    assert(out@ =~= old(out)@ + (seq![ESC, SETTING, FEED_AMOUNT] + le_bytes_u16(feed)));
}

/// Appends the command that selects a compression mode.
fn put_compression(out: &mut Vec<u8>, mode: u8)
    ensures
        final(out)@ == old(out)@ + seq![SELECT_COMPRESSION, mode],
{
    out.push(SELECT_COMPRESSION);
    out.push(mode);
    assert(out@ =~= old(out)@ + seq![SELECT_COMPRESSION, mode]);
}

/// Six byte runs appended one by one are their concatenation appended.
proof fn lemma_append_six(
    s: Seq<u8>,
    a: Seq<u8>,
    b: Seq<u8>,
    c: Seq<u8>,
    d: Seq<u8>,
    e: Seq<u8>,
    f: Seq<u8>,
)
    ensures
        s + a + b + c + d + e + f == s + (a + b + c + d + e + f),
{
    assert(s + a + b + c + d + e + f =~= s + (a + b + c + d + e + f));
}

/// Appends the commands that set a job up.
fn put_setup(out: &mut Vec<u8>, options: &PrintOptions)
    ensures
        final(out)@ == old(out)@ + serialize(setup_commands(*options)),
{
    let mode: u8 = flag_bit(options.auto_cut, AUTO_CUT) | flag_bit(
        options.mirror_print,
        MIRROR_PRINT,
    );
    let advanced: u8 = flag_bit(options.draft, DRAFT) | flag_bit(options.half_cut, HALF_CUT)
        | flag_bit(options.no_chain, NO_CHAIN) | flag_bit(options.special_tape, SPECIAL_TAPE)
        | flag_bit(options.hi_res, HI_RES) | flag_bit(options.dont_clean, DONT_CLEAN);
    put_setting(out, SWITCH_LANGUAGE, LANGUAGE_RASTER);
    put_setting(out, PRINT_MODE, mode);
    put_setting(out, ADVANCED_SETTINGS, advanced);
    put_setting(out, CUT_EVERY, options.cut_every);
    put_feed(out, options.feed);
    put_compression(out, COMPRESSION_PACKBITS);
    proof {
        lemma_setup_bytes(*options);
        lemma_append_six(
            old(out)@,
            seq![ESC, SETTING, SWITCH_LANGUAGE, LANGUAGE_RASTER],
            seq![ESC, SETTING, PRINT_MODE, mode],
            seq![ESC, SETTING, ADVANCED_SETTINGS, advanced],
            seq![ESC, SETTING, CUT_EVERY, options.cut_every],
            seq![ESC, SETTING, FEED_AMOUNT] + le_bytes_u16(options.feed),
            seq![SELECT_COMPRESSION, COMPRESSION_PACKBITS],
        );
    }
}

/// Appends the print information of a page.
fn put_page_information(
    out: &mut Vec<u8>,
    options: &PrintOptions,
    rows: u32,
    index: usize,
    count: usize,
)
    requires
        index < count,
    ensures
        final(out)@ == old(out)@ + command_bytes(
            CommandModel::PrintInformation {
                info: page_information(*options, rows as nat, index as int, count as int),
            },
        ),
{
    let page: u8 = if index == count - 1 {
        PAGE_LAST
    } else if index == 0 {
        PAGE_FIRST
    } else {
        PAGE_OTHER
    };
    out.push(ESC);
    out.push(SETTING);
    out.push(PRINT_INFORMATION);
    out.push(HAS_MEDIA_WIDTH | PRINTER_RECOVERY);
    out.push(0);
    out.push(options.width_mm);
    out.push(0);
    out.push((rows % 256) as u8);
    out.push((rows / 256 % 256) as u8);
    out.push((rows / 65536 % 256) as u8);
    out.push((rows / 16777216) as u8);
    out.push(page);
    out.push(0);
    assert(out@ =~= old(out)@ + command_bytes(
        CommandModel::PrintInformation {
            info: page_information(*options, rows as nat, index as int, count as int),
        },
    ));
}

/// Appends the command that sends `row`.
fn put_row(out: &mut Vec<u8>, row: &Vec<u8>)
    requires
        row@.len() <= 0xFFFF,
    ensures
        final(out)@ == old(out)@ + command_bytes(row_command(row@)),
{
    if row.len() == 0 {
        out.push(ZERO_RASTER);
        assert(out@ =~= old(out)@ + command_bytes(row_command(row@)));
    } else {
        let length: u16 = row.len() as u16;
        out.push(RASTER_TRANSFER);
        out.push((length % 256) as u8);
        out.push((length / 256) as u8);
        let ghost head = out@;
        let mut k: usize = 0;
        while k < row.len()
            invariant
                k <= row.len(),
                out@ == head + row@.take(k as int),
            decreases row.len() - k,
        {
            out.push(row[k]);
            proof {
                assert(row@.take(k + 1) =~= row@.take(k as int).push(row@[k as int]));
            }
            k += 1;
        }
        proof {
            assert(row@.take(k as int) =~= row@);
            assert(out@ =~= old(out)@ + command_bytes(row_command(row@)));
        }
    }
}

/// Writes the stream that prints `pages` with `options`.
///
/// Each page holds its rows in wire form and feed order. Nothing is
/// written where a page has more rows than a 32-bit count can announce or a
/// row more bytes than a 16-bit length can announce.
pub fn write_job(options: &PrintOptions, pages: &Vec<Vec<Vec<u8>>>) -> (r: Result<
    Vec<u8>,
    InputError,
>)
    ensures
        match job_fault(pages_of(pages@), 0) {
            Some(e) => r == Err::<Vec<u8>, InputError>(e),
            None => r matches Ok(out) && out@ == stream_spec(*options, pages_of(pages@)),
        },
{
    match check_pages(pages) {
        Some(e) => {
            return Err(e);
        },
        None => {},
    }
    let ghost all = pages_of(pages@);
    proof {
        lemma_job_fault(all, 0);
    }
    let mut out: Vec<u8> = Vec::new();
    let mut z: usize = 0;
    while z < INVALIDATE_LENGTH
        invariant
            z <= INVALIDATE_LENGTH,
            out@ == Seq::new(z as nat, |i: int| 0u8),
        decreases INVALIDATE_LENGTH - z,
    {
        out.push(0u8);
        proof {
            assert(out@ =~= Seq::new((z + 1) as nat, |i: int| 0u8));
        }
        z += 1;
    }
    out.push(ESC);
    out.push(INITIALIZE);
    assert(out@ =~= preamble_bytes());
    put_setup(&mut out, options);
    let ghost mut done: Seq<CommandModel> = setup_commands(*options);
    let count: usize = pages.len();
    let mut i: usize = 0;
    proof {
        assert(done =~= setup_commands(*options) + pages_commands(*options, all, 0));
        assert(out@ =~= preamble_bytes() + serialize(done));
    }
    while i < count
        invariant
            i <= count,
            count == pages@.len(),
            all == pages_of(pages@),
            forall|p: int|
                0 <= p < all.len() ==> (#[trigger] all[p]).len() <= u32::MAX && forall|k: int|
                    0 <= k < all[p].len() ==> (#[trigger] all[p][k]).len() <= 0xFFFF,
            done == setup_commands(*options) + pages_commands(*options, all, i as nat),
            out@ == preamble_bytes() + serialize(done),
        decreases count - i,
    {
        let rows = &pages[i];
        let ghost page = page_commands(*options, all[i as int], i as int, count as int);
        let ghost start = done;
        assert(all[i as int] == rows_of(rows@));
        assert(all[i as int].len() <= u32::MAX);
        put_page_information(&mut out, options, rows.len() as u32, i, count);
        proof {
            lemma_serialize_push(done, page[0]);
            done = done.push(page[0]);
            assert(out@ =~= preamble_bytes() + serialize(done));
            assert(done =~= start + page.take(1));
        }
        let mut k: usize = 0;
        while k < rows.len()
            invariant
                k <= rows.len(),
                i < count,
                count == pages@.len(),
                rows == &pages@[i as int],
                all == pages_of(pages@),
                forall|j: int| 0 <= j < all[i as int].len() ==> (#[trigger] all[i as int][j]).len()
                    <= 0xFFFF,
                page == page_commands(*options, all[i as int], i as int, count as int),
                done == start + page.take(k + 1),
                out@ == preamble_bytes() + serialize(done),
            decreases rows.len() - k,
        {
            assert(all[i as int][k as int] == rows@[k as int]@);
            put_row(&mut out, &rows[k]);
            proof {
                assert(page[k + 1] == row_command(rows@[k as int]@));
                lemma_serialize_push(done, page[k + 1]);
                done = done.push(page[k + 1]);
                assert(page.take(k + 2) =~= page.take(k + 1).push(page[k + 1]));
                assert(done =~= start + page.take(k + 2));
                assert(out@ =~= preamble_bytes() + serialize(done));
            }
            k += 1;
        }
        if i == count - 1 {
            out.push(PRINT_FEED);
        } else {
            out.push(PRINT);
        }
        proof {
            let last = page_end(i as int, count as int);
            assert(page[k + 1] == last);
            lemma_serialize_push(done, last);
            assert(out@ =~= preamble_bytes() + (serialize(done) + command_bytes(last)));
            done = done.push(last);
            assert(page.take(k + 2) =~= page);
            assert(done =~= start + page);
            assert(done =~= setup_commands(*options) + pages_commands(
                *options,
                all,
                (i + 1) as nat,
            ));
        }
        i += 1;
    }
    Ok(out)
}

} // verus!
