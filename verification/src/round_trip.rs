//! What decoding makes of a stream that the writer wrote.

use vstd::prelude::*;
use crate::command::{command_bytes, encodable, lemma_command_round_trip, CommandModel};
use crate::decoder::decode_spec;
use crate::document::{finish_spec, pad_rows_spec, DocumentModel};
use crate::encoder::{encode_spec, input_fault, lemma_bitmaps_fault, pages_spec, SOURCE_BIT_DEPTH};
use crate::error::{Failure, FormatError, InputError};
use crate::packbits::{
    lemma_literal_run, lemma_pack_round_trip, lemma_repeat_run, pack_spec, unpack_spec,
};
use crate::page::{announce_spec, PageAnnouncementState};
use crate::parser::{
    apply_spec, bit_set, initial_state, run_spec, step_spec, unset_settings, wider,
    with_print_information, CompressionMode, ParserModel, PartModel, PrinterSettings, AUTO_CUT,
    DONT_CLEAN, DRAFT, HALF_CUT, HAS_MEDIA_LENGTH, HAS_MEDIA_TYPE, HAS_MEDIA_WIDTH, HI_RES,
    MIRROR_PRINT, NO_CHAIN, PRINTER_RECOVERY, SPECIAL_TAPE,
};
use crate::preamble::{lemma_run_end_is, preamble_spec, INVALIDATE_LENGTH};
use crate::raster::{
    encode_row_spec, expand_spec, invert_spec, is_blank, lemma_invert_pixel, page_rows_spec,
    pixel_at, BitmapModel,
};
use crate::writer::{
    advanced_byte, flag, job_commands, job_fault, lemma_job_fault, lemma_serialize_concat,
    lemma_serialize_push, page_byte, page_commands, page_end, page_information, pages_commands,
    preamble_bytes, print_mode_byte, row_command, row_commands, serialize, setup_commands,
    stream_spec, PrintOptions,
};

verus! {

/// The state after carrying out `commands` one after the other, the cursor
/// left alone, or the first error.
pub open spec fn apply_all(state: ParserModel, commands: Seq<CommandModel>) -> Result<
    ParserModel,
    FormatError,
>
    decreases commands.len(),
{
    if commands.len() == 0 {
        Ok(state)
    } else {
        match apply_spec(state, commands[0]) {
            Ok(next) => apply_all(next, commands.drop_first()),
            Err(e) => Err(e),
        }
    }
}

/// `state` with its cursor at `pos`.
pub open spec fn at(state: ParserModel, pos: nat) -> ParserModel {
    ParserModel { pos, ..state }
}

/// `result` with the cursor of its state at `pos`.
pub open spec fn result_at(result: Result<ParserModel, FormatError>, pos: nat) -> Result<
    ParserModel,
    FormatError,
> {
    match result {
        Ok(state) => Ok(at(state, pos)),
        Err(e) => Err(e),
    }
}

/// What a command does to a state does not depend on the cursor.
pub proof fn lemma_apply_at(state: ParserModel, command: CommandModel, pos: nat)
    ensures
        apply_spec(at(state, pos), command) == result_at(apply_spec(state, command), pos),
{
}

/// What commands do to a state does not depend on the cursor.
pub proof fn lemma_apply_all_at(state: ParserModel, commands: Seq<CommandModel>, pos: nat)
    ensures
        apply_all(at(state, pos), commands) == result_at(apply_all(state, commands), pos),
    decreases commands.len(),
{
    if commands.len() > 0 {
        lemma_apply_at(state, commands[0], pos);
        match apply_spec(state, commands[0]) {
            Ok(next) => {
                lemma_apply_all_at(next, commands.drop_first(), pos);
            },
            Err(_) => {},
        }
    }
}

/// Carrying out two command sequences in a row is carrying out the first
/// and, from where it ends, the second.
pub proof fn lemma_apply_all_concat(
    state: ParserModel,
    first: Seq<CommandModel>,
    second: Seq<CommandModel>,
)
    ensures
        apply_all(state, first + second) == match apply_all(state, first) {
            Ok(middle) => apply_all(middle, second),
            Err(e) => Err(e),
        },
    decreases first.len(),
{
    if first.len() == 0 {
        assert(first + second =~= second);
    } else {
        assert((first + second)[0] == first[0]);
        assert((first + second).drop_first() =~= first.drop_first() + second);
        match apply_spec(state, first[0]) {
            Ok(next) => {
                lemma_apply_all_concat(next, first.drop_first(), second);
            },
            Err(_) => {},
        }
    }
}

/// The bytes of a command sequence start with the bytes of its first
/// command.
pub proof fn lemma_serialize_front(commands: Seq<CommandModel>)
    requires
        commands.len() > 0,
    ensures
        serialize(commands) == command_bytes(commands[0]) + serialize(commands.drop_first()),
{
    let head = seq![commands[0]];
    assert(head + commands.drop_first() =~= commands);
    lemma_serialize_concat(head, commands.drop_first());
    let none = Seq::<CommandModel>::empty();
    assert(head =~= none.push(commands[0]));
    lemma_serialize_push(none, commands[0]);
    assert(serialize(none) =~= Seq::<u8>::empty());
    assert(serialize(head) =~= command_bytes(commands[0]));
}

/// A step over the bytes of a command does what the command does, and
/// moves the cursor behind those bytes.
pub proof fn lemma_step_command(
    state: ParserModel,
    src: Seq<u8>,
    command: CommandModel,
    after: Seq<u8>,
)
    requires
        encodable(command),
        state.pos <= src.len(),
        src.skip(state.pos as int) == command_bytes(command) + after,
    ensures
        step_spec(state, src) == result_at(
            apply_spec(state, command),
            state.pos + command_bytes(command).len(),
        ),
{
    let before = src.take(state.pos as int);
    let bytes = command_bytes(command);
    assert(src =~= before + src.skip(state.pos as int));
    assert(src =~= before + bytes + after);
    lemma_command_round_trip(command, before, after);
    assert(before.len() == state.pos);
    assert(src[state.pos as int] == bytes[0]);
}

/// A pass over the bytes of a command sequence ends where carrying out the
/// commands ends, the cursor at the end of the stream; where a command
/// cannot be carried out, the pass fails with that command's error.
pub proof fn lemma_run_commands(state: ParserModel, src: Seq<u8>, commands: Seq<CommandModel>)
    requires
        state.pos <= src.len(),
        src.skip(state.pos as int) == serialize(commands),
        forall|i: int| 0 <= i < commands.len() ==> encodable(#[trigger] commands[i]),
    ensures
        match apply_all(state, commands) {
            Ok(end) => run_spec(state, src) == (at(end, src.len()), None::<FormatError>),
            Err(e) => run_spec(state, src).1 == Some(e),
        },
    decreases commands.len(),
{
    if commands.len() == 0 {
        assert(src.skip(state.pos as int).len() == 0);
        assert(state.pos == src.len());
        assert(at(state, src.len()) == state);
    } else {
        let rest = commands.drop_first();
        lemma_serialize_front(commands);
        lemma_step_command(state, src, commands[0], serialize(rest));
        let length = command_bytes(commands[0]).len();
        assert(length >= 1);
        assert(src.skip(state.pos as int).len() == length + serialize(rest).len());
        match apply_spec(state, commands[0]) {
            Ok(next) => {
                let moved = at(next, state.pos + length);
                assert(step_spec(state, src) == Ok::<ParserModel, FormatError>(moved));
                assert(src.skip(moved.pos as int) =~= src.skip(state.pos as int).skip(
                    length as int,
                ));
                assert(src.skip(state.pos as int).skip(length as int) =~= serialize(rest));
                assert forall|i: int| 0 <= i < rest.len() implies encodable(#[trigger] rest[i]) by {
                    assert(rest[i] == commands[i + 1]);
                }
                lemma_run_commands(moved, src, rest);
                lemma_apply_all_at(next, rest, state.pos + length);
                match apply_all(next, rest) {
                    Ok(end) => {
                        assert(at(at(end, state.pos + length), src.len()) == at(end, src.len()));
                    },
                    Err(_) => {},
                }
            },
            Err(_) => {},
        }
    }
}

/// Carrying out one command is carrying out the sequence that holds it
/// alone.
pub proof fn lemma_apply_all_one(state: ParserModel, command: CommandModel)
    ensures
        apply_all(state, seq![command]) == apply_spec(state, command),
{
    let one = seq![command];
    assert(one.drop_first() =~= Seq::<CommandModel>::empty());
    match apply_spec(state, command) {
        Ok(next) => {
            assert(apply_all(next, one.drop_first()) == Ok::<ParserModel, FormatError>(next));
        },
        Err(_) => {},
    }
}

/// What a row in wire form decodes to while the mode is PackBits: no pixel
/// for an empty row, the pixels of the unpacked bytes otherwise.
pub open spec fn decoded_row(wire: Seq<u8>) -> Seq<u8> {
    if wire.len() == 0 {
        Seq::empty()
    } else {
        match unpack_spec(wire) {
            Some(bytes) => expand_spec(bytes),
            None => Seq::empty(),
        }
    }
}

/// What rows in wire form decode to.
pub open spec fn decoded_rows(rows: Seq<Seq<u8>>) -> Seq<Seq<u8>> {
    Seq::new(rows.len(), |i: int| decoded_row(rows[i]))
}

/// Every row of `rows` that is not empty can be unpacked.
pub open spec fn unpackable(rows: Seq<Seq<u8>>) -> bool {
    forall|i: int|
        0 <= i < rows.len() && (#[trigger] rows[i]).len() > 0 ==> unpack_spec(rows[i]) is Some
}

/// Width of the widest row of `rows`.
pub open spec fn widest(rows: Seq<Seq<u8>>) -> nat
    decreases rows.len(),
{
    if rows.len() == 0 {
        0
    } else {
        wider(widest(rows.drop_last()), rows.last().len())
    }
}

/// The widest row is as wide as any row, and where there is a row, as wide
/// as one of them.
pub proof fn lemma_widest(rows: Seq<Seq<u8>>)
    ensures
        forall|i: int| 0 <= i < rows.len() ==> (#[trigger] rows[i]).len() <= widest(rows),
        rows.len() > 0 ==> exists|i: int|
            0 <= i < rows.len() && (#[trigger] rows[i]).len() == widest(rows),
        rows.len() == 0 ==> widest(rows) == 0,
    decreases rows.len(),
{
    if rows.len() > 0 {
        let front = rows.drop_last();
        lemma_widest(front);
        assert forall|i: int| 0 <= i < rows.len() implies (#[trigger] rows[i]).len() <= widest(
            rows,
        ) by {
            if i < front.len() {
                assert(rows[i] == front[i]);
            }
        }
        if widest(rows) == rows.last().len() {
            assert(rows[rows.len() - 1].len() == widest(rows));
        } else {
            let i = choose|i: int| 0 <= i < front.len() && (#[trigger] front[i]).len() == widest(front);
            assert(rows[i] == front[i]);
        }
    }
}

/// `state` after the rows `rows` in wire form: the decoded rows behind the
/// open rows, the width grown to the widest of them.
pub open spec fn with_rows(state: ParserModel, rows: Seq<Seq<u8>>) -> ParserModel {
    ParserModel {
        width: wider(state.width, widest(decoded_rows(rows))),
        rows: state.rows + decoded_rows(rows),
        ..state
    }
}

/// In raster mode with PackBits selected, the row commands of `rows` add
/// the decoded rows.
pub proof fn lemma_apply_rows(state: ParserModel, rows: Seq<Seq<u8>>)
    requires
        state.raster_mode,
        state.compression == CompressionMode::PackBits,
        unpackable(rows),
    ensures
        apply_all(state, row_commands(rows)) == Ok::<ParserModel, FormatError>(
            with_rows(state, rows),
        ),
    decreases rows.len(),
{
    if rows.len() == 0 {
        assert(row_commands(rows) =~= Seq::<CommandModel>::empty());
        assert(decoded_rows(rows) =~= Seq::<Seq<u8>>::empty());
        assert(state.rows + decoded_rows(rows) =~= state.rows);
    } else {
        let front = rows.drop_last();
        let last = rows.last();
        assert forall|i: int| 0 <= i < front.len() && (#[trigger] front[i]).len()
            > 0 implies unpack_spec(front[i]) is Some by {
            assert(front[i] == rows[i]);
        }
        lemma_apply_rows(state, front);
        let middle = with_rows(state, front);
        assert(row_commands(rows) =~= row_commands(front) + seq![row_command(last)]);
        lemma_apply_all_concat(state, row_commands(front), seq![row_command(last)]);
        lemma_apply_all_one(middle, row_command(last));
        assert(rows[rows.len() - 1] == last);
        assert(decoded_rows(rows).drop_last() =~= decoded_rows(front));
        assert(decoded_rows(rows).last() == decoded_row(last));
        let end = apply_spec(middle, row_command(last))->Ok_0;
        assert(end.rows =~= state.rows + decoded_rows(rows));
    }
}

/// The page state after `done` pages out of `count` have been announced.
pub open spec fn pages_announced(done: int, count: int) -> PageAnnouncementState {
    if done <= 0 {
        PageAnnouncementState::BeforeFirst
    } else if done >= count {
        PageAnnouncementState::Last
    } else if done == 1 {
        PageAnnouncementState::First
    } else {
        PageAnnouncementState::Other
    }
}

/// The announcements that the writer makes are accepted in their order.
pub proof fn lemma_page_order(index: int, count: int)
    requires
        0 <= index < count,
    ensures
        announce_spec(pages_announced(index, count), page_byte(index, count)) == Ok::<
            PageAnnouncementState,
            FormatError,
        >(pages_announced(index + 1, count)),
{
}

/// The marker that the end of page `index` out of `count` leaves.
pub open spec fn page_marker(index: int, count: int) -> PartModel {
    if index == count - 1 {
        PartModel::PrintFeedMarker
    } else {
        PartModel::PrintMarker
    }
}

/// `state` after the commands of page `index` out of `count`.
pub open spec fn with_page(
    state: ParserModel,
    options: PrintOptions,
    rows: Seq<Seq<u8>>,
    index: int,
    count: int,
) -> ParserModel {
    ParserModel {
        settings: with_print_information(
            state.settings,
            page_information(options, rows.len(), index, count),
        ),
        page_state: pages_announced(index + 1, count),
        width: wider(state.width, widest(decoded_rows(rows))),
        rows: Seq::empty(),
        parts: state.parts.push(
            PartModel::RasterBlock { rows: state.rows + decoded_rows(rows) },
        ).push(page_marker(index, count)),
        ..state
    }
}

/// In raster mode with PackBits selected and the pages before announced,
/// the commands of a page announce it, add its rows and close them.
pub proof fn lemma_apply_page(
    state: ParserModel,
    options: PrintOptions,
    rows: Seq<Seq<u8>>,
    index: int,
    count: int,
)
    requires
        0 <= index < count,
        state.raster_mode,
        state.compression == CompressionMode::PackBits,
        state.page_state == pages_announced(index, count),
        unpackable(rows),
    ensures
        apply_all(state, page_commands(options, rows, index, count)) == Ok::<
            ParserModel,
            FormatError,
        >(with_page(state, options, rows, index, count)),
{
    let info = CommandModel::PrintInformation {
        info: page_information(options, rows.len(), index, count),
    };
    let end = page_end(index, count);
    lemma_page_order(index, count);
    lemma_apply_all_one(state, info);
    let announced = apply_spec(state, info)->Ok_0;
    lemma_apply_rows(announced, rows);
    let filled = with_rows(announced, rows);
    lemma_apply_all_one(filled, end);
    lemma_apply_all_concat(state, seq![info], row_commands(rows));
    lemma_apply_all_concat(state, seq![info] + row_commands(rows), seq![end]);
}

/// The operand bytes of the print mode and advanced settings commands give
/// each option back.
pub proof fn lemma_option_bits(options: PrintOptions)
    ensures
        bit_set(print_mode_byte(options), AUTO_CUT) == options.auto_cut,
        bit_set(print_mode_byte(options), MIRROR_PRINT) == options.mirror_print,
        bit_set(advanced_byte(options), DRAFT) == options.draft,
        bit_set(advanced_byte(options), HALF_CUT) == options.half_cut,
        bit_set(advanced_byte(options), NO_CHAIN) == options.no_chain,
        bit_set(advanced_byte(options), SPECIAL_TAPE) == options.special_tape,
        bit_set(advanced_byte(options), HI_RES) == options.hi_res,
        bit_set(advanced_byte(options), DONT_CLEAN) == options.dont_clean,
{
    let a = flag(options.auto_cut, AUTO_CUT);
    let m = flag(options.mirror_print, MIRROR_PRINT);
    assert((a | m) & 0x40u8 != 0 <==> a != 0) by (bit_vector)
        requires
            a == 0 || a == 0x40,
            m == 0 || m == 0x80,
    ;
    assert((a | m) & 0x80u8 != 0 <==> m != 0) by (bit_vector)
        requires
            a == 0 || a == 0x40,
            m == 0 || m == 0x80,
    ;
    let d = flag(options.draft, DRAFT);
    let h = flag(options.half_cut, HALF_CUT);
    let n = flag(options.no_chain, NO_CHAIN);
    let s = flag(options.special_tape, SPECIAL_TAPE);
    let r = flag(options.hi_res, HI_RES);
    let c = flag(options.dont_clean, DONT_CLEAN);
    assert({
        &&& ((d | h | n | s | r | c) & 0x01u8 != 0 <==> d != 0)
        &&& ((d | h | n | s | r | c) & 0x04u8 != 0 <==> h != 0)
        &&& ((d | h | n | s | r | c) & 0x08u8 != 0 <==> n != 0)
        &&& ((d | h | n | s | r | c) & 0x10u8 != 0 <==> s != 0)
        &&& ((d | h | n | s | r | c) & 0x40u8 != 0 <==> r != 0)
        &&& ((d | h | n | s | r | c) & 0x80u8 != 0 <==> c != 0)
    }) by (bit_vector)
        requires
            d == 0 || d == 0x01,
            h == 0 || h == 0x04,
            n == 0 || n == 0x08,
            s == 0 || s == 0x10,
            r == 0 || r == 0x40,
            c == 0 || c == 0x80,
    ;
}

/// The settings a decoder holds after the commands that set a job up.
pub open spec fn setup_settings(options: PrintOptions) -> PrinterSettings {
    PrinterSettings {
        auto_cut: Some(options.auto_cut),
        mirror_print: Some(options.mirror_print),
        draft: Some(options.draft),
        half_cut: Some(options.half_cut),
        no_chain: Some(options.no_chain),
        special_tape: Some(options.special_tape),
        hi_res: Some(options.hi_res),
        dont_clean: Some(options.dont_clean),
        feed_amount: Some(options.feed),
        cut_every: Some(options.cut_every),
        ..unset_settings()
    }
}

/// Carrying out the commands from `index` on starts with the command at
/// `index`.
pub proof fn lemma_apply_all_step(state: ParserModel, commands: Seq<CommandModel>, index: int)
    requires
        0 <= index < commands.len(),
    ensures
        apply_all(state, commands.skip(index)) == match apply_spec(state, commands[index]) {
            Ok(next) => apply_all(next, commands.skip(index + 1)),
            Err(e) => Err(e),
        },
{
    assert(commands.skip(index)[0] == commands[index]);
    assert(commands.skip(index).drop_first() =~= commands.skip(index + 1));
}

/// The commands that set a job up leave a decoder in raster mode with
/// PackBits selected and the job's options as its settings.
pub proof fn lemma_apply_setup(options: PrintOptions, start: nat)
    ensures
        apply_all(initial_state(start), setup_commands(options)) == Ok::<
            ParserModel,
            FormatError,
        >(
            ParserModel {
                raster_mode: true,
                compression: CompressionMode::PackBits,
                settings: setup_settings(options),
                ..initial_state(start)
            },
        ),
{
    let commands = setup_commands(options);
    let s0 = initial_state(start);
    lemma_option_bits(options);
    assert(commands.skip(0) =~= commands);
    lemma_apply_all_step(s0, commands, 0);
    let s1 = apply_spec(s0, commands[0])->Ok_0;
    lemma_apply_all_step(s1, commands, 1);
    let s2 = apply_spec(s1, commands[1])->Ok_0;
    lemma_apply_all_step(s2, commands, 2);
    let s3 = apply_spec(s2, commands[2])->Ok_0;
    lemma_apply_all_step(s3, commands, 3);
    let s4 = apply_spec(s3, commands[3])->Ok_0;
    lemma_apply_all_step(s4, commands, 4);
    let s5 = apply_spec(s4, commands[4])->Ok_0;
    lemma_apply_all_step(s5, commands, 5);
    let s6 = apply_spec(s5, commands[5])->Ok_0;
    assert(commands.skip(6) =~= Seq::<CommandModel>::empty());
    assert(apply_all(s6, commands.skip(6)) == Ok::<ParserModel, FormatError>(s6));
}

/// The parts a decoder holds after the first `done` pages: for each page
/// the block of its decoded rows and the marker of its print command.
pub open spec fn job_parts(pages: Seq<Seq<Seq<u8>>>, done: nat) -> Seq<PartModel> {
    Seq::new(
        2 * done,
        |j: int|
            if j % 2 == 0 {
                PartModel::RasterBlock { rows: decoded_rows(pages[j / 2]) }
            } else {
                page_marker(j / 2, pages.len() as int)
            },
    )
}

/// Width of the widest decoded row of the first `done` pages.
pub open spec fn job_width(pages: Seq<Seq<Seq<u8>>>, done: nat) -> nat
    decreases done,
{
    if done == 0 {
        0
    } else {
        wider(job_width(pages, (done - 1) as nat), widest(decoded_rows(pages[done - 1])))
    }
}

/// The settings a decoder holds after the first `done` pages: the job's
/// options, and from the last page announced the tape width and the row
/// count.
pub open spec fn job_settings(options: PrintOptions, pages: Seq<Seq<Seq<u8>>>, done: nat)
    -> PrinterSettings {
    if done == 0 {
        setup_settings(options)
    } else {
        PrinterSettings {
            media_width: Some(options.width_mm),
            row_count: Some(pages[done - 1].len() as u32),
            ..setup_settings(options)
        }
    }
}

/// The state of a decoder after the setup commands of a job and its first
/// `done` pages, the cursor at `pos`.
pub open spec fn job_state(options: PrintOptions, pages: Seq<Seq<Seq<u8>>>, done: nat, pos: nat)
    -> ParserModel {
    ParserModel {
        pos,
        raster_mode: true,
        compression: CompressionMode::PackBits,
        settings: job_settings(options, pages, done),
        page_state: pages_announced(done as int, pages.len() as int),
        width: job_width(pages, done),
        rows: Seq::empty(),
        parts: job_parts(pages, done),
    }
}

/// The print information that the writer sends names the tape width and
/// nothing else of the media.
pub proof fn lemma_information_flags()
    ensures
        !bit_set(HAS_MEDIA_WIDTH | PRINTER_RECOVERY, HAS_MEDIA_TYPE),
        bit_set(HAS_MEDIA_WIDTH | PRINTER_RECOVERY, HAS_MEDIA_WIDTH),
        !bit_set(HAS_MEDIA_WIDTH | PRINTER_RECOVERY, HAS_MEDIA_LENGTH),
{
    assert((0x04u8 | 0x80u8) & 0x02u8 == 0) by (bit_vector);
    assert((0x04u8 | 0x80u8) & 0x04u8 != 0) by (bit_vector);
    assert((0x04u8 | 0x80u8) & 0x08u8 == 0) by (bit_vector);
}

/// The setup commands of a job and the commands of its first `done` pages
/// lead a decoder to `job_state`.
pub proof fn lemma_apply_job(
    options: PrintOptions,
    pages: Seq<Seq<Seq<u8>>>,
    done: nat,
    start: nat,
)
    requires
        done <= pages.len(),
        forall|p: int| 0 <= p < pages.len() ==> unpackable(#[trigger] pages[p]),
    ensures
        apply_all(job_state(options, pages, 0, start), pages_commands(options, pages, done))
            == Ok::<ParserModel, FormatError>(job_state(options, pages, done, start)),
    decreases done,
{
    if done > 0 {
        let before = (done - 1) as nat;
        let count = pages.len() as int;
        let rows = pages[done - 1];
        lemma_apply_job(options, pages, before, start);
        let state = job_state(options, pages, before, start);
        lemma_apply_page(state, options, rows, done - 1, count);
        lemma_apply_all_concat(
            job_state(options, pages, 0, start),
            pages_commands(options, pages, before),
            page_commands(options, rows, done - 1, count),
        );
        lemma_information_flags();
        let reached = with_page(state, options, rows, done - 1, count);
        let target = job_state(options, pages, done, start);
        assert(state.rows + decoded_rows(rows) =~= decoded_rows(rows));
        assert(reached.parts =~= target.parts);
        assert(reached.settings == target.settings);
        assert(reached == target);
    } else {
        assert(pages_commands(options, pages, 0) =~= Seq::<CommandModel>::empty());
    }
}

/// Every command of the first `done` pages can be written where no page
/// has a row of more than 65535 bytes.
pub proof fn lemma_job_encodable(options: PrintOptions, pages: Seq<Seq<Seq<u8>>>, done: nat)
    requires
        done <= pages.len(),
        forall|p: int, k: int|
            0 <= p < pages.len() && 0 <= k < pages[p].len() ==> (#[trigger] pages[p][k]).len()
                <= 0xFFFF,
    ensures
        forall|i: int|
            0 <= i < pages_commands(options, pages, done).len() ==> encodable(
                #[trigger] pages_commands(options, pages, done)[i],
            ),
    decreases done,
{
    if done > 0 {
        let before = (done - 1) as nat;
        lemma_job_encodable(options, pages, before);
        let head = pages_commands(options, pages, before);
        let rows = pages[done - 1];
        let page = page_commands(options, rows, done - 1, pages.len() as int);
        let all = pages_commands(options, pages, done);
        assert(all == head + page);
        assert forall|i: int| 0 <= i < all.len() implies encodable(#[trigger] all[i]) by {
            if i < head.len() {
                assert(all[i] == head[i]);
            } else {
                let k = i - head.len();
                assert(all[i] == page[k]);
                if 1 <= k <= rows.len() {
                    assert(page[k] == row_command(rows[k - 1]));
                    assert(pages[done - 1][k - 1].len() <= 0xFFFF);
                }
            }
        }
    }
}

/// The document that decoding makes of the stream written for `pages`:
/// for each page the block of its decoded rows and a print marker, the
/// marker of the last page a print-and-feed marker, and an empty block
/// behind them; every row filled up to the widest.
pub open spec fn printed_document(options: PrintOptions, pages: Seq<Seq<Seq<u8>>>)
    -> DocumentModel {
    finish_spec(job_state(options, pages, pages.len(), 0))
}

/// Decoding the stream written for a job gives the job back: its options
/// as settings, and each page as the block of its decoded rows.
pub proof fn lemma_written_stream_decodes(options: PrintOptions, pages: Seq<Seq<Seq<u8>>>)
    requires
        forall|p: int, k: int|
            0 <= p < pages.len() && 0 <= k < pages[p].len() ==> (#[trigger] pages[p][k]).len()
                <= 0xFFFF,
        forall|p: int| 0 <= p < pages.len() ==> unpackable(#[trigger] pages[p]),
    ensures
        decode_spec(stream_spec(options, pages)) == Ok::<DocumentModel, Failure>(
            printed_document(options, pages),
        ),
{
    let commands = job_commands(options, pages);
    let src = stream_spec(options, pages);
    let head = preamble_bytes();
    let start = (INVALIDATE_LENGTH + 2) as nat;
    assert(head.len() == start);
    assert forall|k: int| 0 <= k < INVALIDATE_LENGTH implies #[trigger] src[k] == 0 by {
        assert(src[k] == head[k]);
    }
    assert(src[INVALIDATE_LENGTH as int] == head[INVALIDATE_LENGTH as int]);
    assert(src[INVALIDATE_LENGTH + 1] == head[INVALIDATE_LENGTH + 1]);
    lemma_run_end_is(src, 0, INVALIDATE_LENGTH as int, 0u8);
    assert(preamble_spec(src) == Ok::<nat, Failure>(start));
    let begin = initial_state(start);
    assert(src.skip(start as int) =~= serialize(commands));
    lemma_job_encodable(options, pages, pages.len());
    let setup = setup_commands(options);
    let rest = pages_commands(options, pages, pages.len());
    assert forall|i: int| 0 <= i < commands.len() implies encodable(#[trigger] commands[i]) by {
        if i < setup.len() {
            assert(commands[i] == setup[i]);
        } else {
            assert(commands[i] == rest[i - setup.len()]);
        }
    }
    lemma_apply_setup(options, start);
    assert(job_parts(pages, 0) =~= Seq::<PartModel>::empty());
    assert(apply_all(begin, setup) == Ok::<ParserModel, FormatError>(
        job_state(options, pages, 0, start),
    ));
    lemma_apply_job(options, pages, pages.len(), start);
    lemma_apply_all_concat(begin, setup, rest);
    lemma_run_commands(begin, src, commands);
    let end = job_state(options, pages, pages.len(), start);
    assert(run_spec(begin, src) == (at(end, src.len()), None::<FormatError>));
    assert(finish_spec(at(end, src.len())) == finish_spec(job_state(options, pages, pages.len(), 0)));
}

/// The width after some pages bounds the widest row of each of them.
pub proof fn lemma_job_width(pages: Seq<Seq<Seq<u8>>>, done: nat, page: int)
    requires
        0 <= page < done,
    ensures
        widest(decoded_rows(pages[page])) <= job_width(pages, done),
    decreases done,
{
    if page < done - 1 {
        lemma_job_width(pages, (done - 1) as nat, page);
    }
}

/// The document decoded from a written job, part by part: page `p` is the
/// part at `2 * p`, its decoded rows filled up to the widest row of the
/// job; its marker is the part behind it; an empty block ends the
/// document; every row is as wide as the document.
pub proof fn lemma_printed_document(options: PrintOptions, pages: Seq<Seq<Seq<u8>>>)
    ensures
        printed_document(options, pages).settings == job_settings(options, pages, pages.len()),
        printed_document(options, pages).width == job_width(pages, pages.len()),
        printed_document(options, pages).parts.len() == 2 * pages.len() + 1,
        forall|p: int|
            0 <= p < pages.len() ==> #[trigger] printed_document(options, pages).parts[2 * p] == (
            PartModel::RasterBlock {
                rows: pad_rows_spec(decoded_rows(pages[p]), job_width(pages, pages.len())),
            }),
        forall|p: int|
            0 <= p < pages.len() ==> #[trigger] printed_document(options, pages).parts[2 * p + 1]
                == page_marker(p, pages.len() as int),
        printed_document(options, pages).parts[2 * (pages.len() as int)] == (PartModel::RasterBlock {
            rows: Seq::<Seq<u8>>::empty(),
        }),
        printed_document(options, pages).uniform(),
{
    let count = pages.len();
    let state = job_state(options, pages, count, 0);
    let document = printed_document(options, pages);
    let width = job_width(pages, count);
    assert forall|i: int| 0 <= i < state.parts.len() implies (
    #[trigger] state.parts[i] matches PartModel::RasterBlock { rows } ==> crate::parser::rows_fit(
        rows,
        width,
    )) by {
        if i % 2 == 0 {
            let rows = decoded_rows(pages[i / 2]);
            lemma_widest(rows);
            lemma_job_width(pages, count, i / 2);
        }
    }
    assert(state.wf());
    crate::document::lemma_finish_uniform(state);
    assert(pad_rows_spec(Seq::<Seq<u8>>::empty(), width) =~= Seq::<Seq<u8>>::empty());
    assert(document.parts[2 * (count as int)] == document.parts.last());
}

/// The packed form of a buffer that is not empty is not empty.
pub proof fn lemma_pack_not_empty(bytes: Seq<u8>)
    requires
        bytes.len() > 0,
    ensures
        pack_spec(bytes).len() > 0,
{
    lemma_repeat_run(bytes);
    lemma_literal_run(bytes);
}

/// Decoding the wire form of a bitmap row gives the pixels of the flipped
/// row, and no pixel at all where the flipped row holds no mark.
pub proof fn lemma_decoded_bitmap_row(row: Seq<u8>, width: nat)
    ensures
        unpackable(seq![encode_row_spec(row, width)]),
        decoded_row(encode_row_spec(row, width)) == if is_blank(invert_spec(row, width)) {
            Seq::<u8>::empty()
        } else {
            expand_spec(invert_spec(row, width))
        },
{
    let flipped = invert_spec(row, width);
    lemma_pack_round_trip(flipped);
    if !is_blank(flipped) {
        assert(flipped.len() > 0);
        lemma_pack_not_empty(flipped);
    }
    assert(seq![encode_row_spec(row, width)][0] == encode_row_spec(row, width));
}

/// Every row of a page made from a bitmap can be unpacked.
pub proof fn lemma_page_unpackable(bitmap: BitmapModel)
    ensures
        unpackable(page_rows_spec(bitmap)),
{
    let page = page_rows_spec(bitmap);
    assert forall|i: int| 0 <= i < page.len() && (#[trigger] page[i]).len() > 0 implies unpack_spec(
        page[i],
    ) is Some by {
        lemma_decoded_bitmap_row(bitmap.rows[bitmap.rows.len() - 1 - i], bitmap.width);
        lemma_pack_round_trip(invert_spec(bitmap.rows[bitmap.rows.len() - 1 - i], bitmap.width));
    }
}

/// Decoding the stream that was encoded from bitmaps gives a document with
/// one block per bitmap, in which row `k` of page `p` is row `k` from the
/// bottom of bitmap `p`, flipped.
pub proof fn lemma_encoded_bitmaps_decode(options: PrintOptions, bitmaps: Seq<BitmapModel>)
    requires
        encode_spec(options, bitmaps) is Ok,
    ensures
        decode_spec(encode_spec(options, bitmaps)->Ok_0) == Ok::<DocumentModel, Failure>(
            printed_document(options, pages_spec(bitmaps)),
        ),
        forall|p: int, k: int|
            0 <= p < bitmaps.len() && 0 <= k < bitmaps[p].rows.len() ==> decoded_row(
                #[trigger] pages_spec(bitmaps)[p][k],
            ) == if is_blank(
                invert_spec(bitmaps[p].rows[bitmaps[p].rows.len() - 1 - k], bitmaps[p].width),
            ) {
                Seq::<u8>::empty()
            } else {
                expand_spec(
                    invert_spec(bitmaps[p].rows[bitmaps[p].rows.len() - 1 - k], bitmaps[p].width),
                )
            },
{
    let pages = pages_spec(bitmaps);
    lemma_job_fault(pages, 0);
    assert forall|p: int| 0 <= p < pages.len() implies unpackable(#[trigger] pages[p]) by {
        lemma_page_unpackable(bitmaps[p]);
    }
    assert forall|p: int, k: int|
        0 <= p < pages.len() && 0 <= k < pages[p].len() implies (#[trigger] pages[p][k]).len()
        <= 0xFFFF by {
        assert(pages[p].len() <= u32::MAX);
    }
    lemma_written_stream_decodes(options, pages);
    assert forall|p: int, k: int|
        0 <= p < bitmaps.len() && 0 <= k < bitmaps[p].rows.len() implies decoded_row(
        #[trigger] pages_spec(bitmaps)[p][k],
    ) == if is_blank(
        invert_spec(bitmaps[p].rows[bitmaps[p].rows.len() - 1 - k], bitmaps[p].width),
    ) {
        Seq::<u8>::empty()
    } else {
        expand_spec(invert_spec(bitmaps[p].rows[bitmaps[p].rows.len() - 1 - k], bitmaps[p].width))
    } by {
        lemma_decoded_bitmap_row(bitmaps[p].rows[bitmaps[p].rows.len() - 1 - k], bitmaps[p].width);
    }
}

/// Where every pixel of a row is set below `width` and clear from there
/// on, every bit of the flipped row is clear.
proof fn lemma_blank_bit(row: Seq<u8>, width: nat, index: int, place: int)
    requires
        0 <= index < row.len(),
        0 <= place < 8,
        forall|i: int|
            0 <= i < 8 * row.len() ==> #[trigger] pixel_at(row, i) == if i < width {
                1u8
            } else {
                0u8
            },
    ensures
        (invert_spec(row, width)[index] >> ((7 - place) as u8)) & 1 == 0,
{
    let i = 8 * index + place;
    assert(i / 8 == index && i % 8 == place);
    lemma_invert_pixel(row, width, i);
    assert(pixel_at(row, i) == if i < width {
        1u8
    } else {
        0u8
    });
}

/// A row of a bitmap holds no mark once flipped exactly where each of its
/// pixels below `width` is set and each bit from `width` on is clear.
pub proof fn lemma_blank_row(row: Seq<u8>, width: nat)
    ensures
        is_blank(invert_spec(row, width)) <==> forall|i: int|
            0 <= i < 8 * row.len() ==> #[trigger] pixel_at(row, i) == if i < width {
                1u8
            } else {
                0u8
            },
{
    let flipped = invert_spec(row, width);
    if is_blank(flipped) {
        assert forall|i: int| 0 <= i < 8 * row.len() implies #[trigger] pixel_at(row, i) == if i
            < width {
            1u8
        } else {
            0u8
        } by {
            lemma_invert_pixel(row, width, i);
            let byte = flipped[i / 8];
            let shift = (7 - i % 8) as u8;
            assert(byte == 0);
            assert((0u8 >> shift) & 1 == 0) by (bit_vector);
            let pixel = pixel_at(row, i);
            assert(pixel == 0 || pixel == 1) by {
                let source = row[i / 8];
                assert((source >> shift) & 1 == 0 || (source >> shift) & 1 == 1) by (bit_vector);
            }
        }
    }
    if forall|i: int|
        0 <= i < 8 * row.len() ==> #[trigger] pixel_at(row, i) == if i < width {
            1u8
        } else {
            0u8
        } {
        assert forall|b: int| 0 <= b < flipped.len() implies #[trigger] flipped[b] == 0 by {
            let byte = flipped[b];
            lemma_blank_bit(row, width, b, 0);
            lemma_blank_bit(row, width, b, 1);
            lemma_blank_bit(row, width, b, 2);
            lemma_blank_bit(row, width, b, 3);
            lemma_blank_bit(row, width, b, 4);
            lemma_blank_bit(row, width, b, 5);
            lemma_blank_bit(row, width, b, 6);
            lemma_blank_bit(row, width, b, 7);
            assert((byte >> 7u8) & 1 == 0);
            assert((byte >> 6u8) & 1 == 0);
            assert((byte >> 5u8) & 1 == 0);
            assert((byte >> 4u8) & 1 == 0);
            assert((byte >> 3u8) & 1 == 0);
            assert((byte >> 2u8) & 1 == 0);
            assert((byte >> 1u8) & 1 == 0);
            assert((byte >> 0u8) & 1 == 0);
            assert(byte == 0) by (bit_vector)
                requires
                    (byte >> 7u8) & 1 == 0,
                    (byte >> 6u8) & 1 == 0,
                    (byte >> 5u8) & 1 == 0,
                    (byte >> 4u8) & 1 == 0,
                    (byte >> 3u8) & 1 == 0,
                    (byte >> 2u8) & 1 == 0,
                    (byte >> 1u8) & 1 == 0,
                    (byte >> 0u8) & 1 == 0,
            ;
        }
    }
}

/// A page of `count` rows without marks.
pub open spec fn blank_page(count: nat) -> Seq<Seq<u8>> {
    Seq::new(count, |i: int| Seq::<u8>::empty())
}

/// A single bitmap without marks is encoded with zero raster rows as its
/// only row commands, and the stream decodes to a block of as many rows
/// without pixels, a print-and-feed marker and an empty block.
///
/// A zero raster row carries no width: the decoded document is zero pixels
/// wide, whatever the width of the bitmap was.
pub proof fn lemma_blank_bitmap(options: PrintOptions, bitmap: BitmapModel)
    requires
        bitmap.bit_depth == SOURCE_BIT_DEPTH,
        bitmap.rows.len() <= u32::MAX,
        forall|i: int|
            0 <= i < bitmap.rows.len() ==> is_blank(
                invert_spec(#[trigger] bitmap.rows[i], bitmap.width),
            ),
    ensures
        page_rows_spec(bitmap) == blank_page(bitmap.rows.len()),
        row_commands(page_rows_spec(bitmap)) == Seq::new(
            bitmap.rows.len(),
            |i: int| CommandModel::ZeroRaster,
        ),
        encode_spec(options, seq![bitmap]) == Ok::<Seq<u8>, InputError>(
            stream_spec(options, seq![blank_page(bitmap.rows.len())]),
        ),
        decode_spec(stream_spec(options, seq![blank_page(bitmap.rows.len())])) == Ok::<
            DocumentModel,
            Failure,
        >(
            DocumentModel {
                settings: job_settings(options, seq![blank_page(bitmap.rows.len())], 1),
                width: 0,
                parts: seq![
                    PartModel::RasterBlock { rows: blank_page(bitmap.rows.len()) },
                    PartModel::PrintFeedMarker,
                    PartModel::RasterBlock { rows: Seq::<Seq<u8>>::empty() },
                ],
            },
        ),
{
    let count = bitmap.rows.len();
    let page = blank_page(count);
    let pages = seq![page];
    let bitmaps = seq![bitmap];
    assert(page_rows_spec(bitmap) =~= page) by {
        assert forall|i: int| 0 <= i < count implies #[trigger] page_rows_spec(bitmap)[i]
            == Seq::<u8>::empty() by {
            assert(is_blank(invert_spec(bitmap.rows[count - 1 - i], bitmap.width)));
        }
    }
    assert(row_commands(page) =~= Seq::new(count, |i: int| CommandModel::ZeroRaster));
    assert(pages_spec(bitmaps) =~= pages);
    lemma_bitmaps_fault(bitmaps, 0);
    assert(input_fault(bitmaps) is None);
    lemma_job_fault(pages, 0);
    assert(job_fault(pages, 0) is None);
    assert(unpackable(page));
    lemma_written_stream_decodes(options, pages);
    lemma_printed_document(options, pages);
    let document = printed_document(options, pages);
    assert(decoded_rows(page) =~= page);
    lemma_widest(page);
    assert(widest(page) == 0) by {
        if count > 0 {
            let i = choose|i: int| 0 <= i < page.len() && (#[trigger] page[i]).len() == widest(page);
        }
    }
    assert(job_width(pages, 0) == 0);
    assert(job_width(pages, 1) == 0);
    assert(pad_rows_spec(page, 0) =~= page);
    assert(document.parts[2 * 0int] == PartModel::RasterBlock { rows: page });
    assert(document.parts[2 * 0int + 1] == PartModel::PrintFeedMarker);
    assert(document.parts =~= seq![
        PartModel::RasterBlock { rows: page },
        PartModel::PrintFeedMarker,
        PartModel::RasterBlock { rows: Seq::<Seq<u8>>::empty() },
    ]);
}

} // verus!
