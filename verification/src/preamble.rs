//! The start of a stream: the invalidate sequence and the initialize
//! command.
//!
//! A stream opens with at least 200 zero bytes, which flush whatever the
//! printer still holds of an earlier job. The printer accepts any number of
//! further zero bytes. The first byte that is not zero must start `ESC @`.

use vstd::prelude::*;
use crate::command::{ESC, INITIALIZE};
use crate::error::{Failure, FormatError};

verus! {

/// The least number of zero bytes in front of the initialize command.
pub const INVALIDATE_LENGTH: usize = 200;

/// Offset of the first byte at or behind `from` that differs from `byte`;
/// the length of `src` where there is none.
pub open spec fn run_end(src: Seq<u8>, from: int, byte: u8) -> int
    decreases src.len() - from,
{
    if 0 <= from < src.len() && src[from] == byte {
        run_end(src, from + 1, byte)
    } else {
        from
    }
}

/// What `run_end` marks: every byte from `from` up to it equals `byte`, and
/// the byte at it, if any, does not.
pub proof fn lemma_run_end(src: Seq<u8>, from: int, byte: u8)
    requires
        0 <= from <= src.len(),
    ensures
        from <= run_end(src, from, byte) <= src.len(),
        forall|k: int| from <= k < run_end(src, from, byte) ==> #[trigger] src[k] == byte,
        run_end(src, from, byte) < src.len() ==> src[run_end(src, from, byte)] != byte,
    decreases src.len() - from,
{
    if from < src.len() && src[from] == byte {
        lemma_run_end(src, from + 1, byte);
    }
}

/// A run of `byte` from `from` to `end` that cannot be extended ends at
/// `run_end`.
pub proof fn lemma_run_end_is(src: Seq<u8>, from: int, end: int, byte: u8)
    requires
        0 <= from <= end <= src.len(),
        forall|k: int| from <= k < end ==> #[trigger] src[k] == byte,
        end < src.len() ==> src[end] != byte,
    ensures
        run_end(src, from, byte) == end,
    decreases end - from,
{
    if from < end {
        assert(src[from] == byte);
        lemma_run_end_is(src, from + 1, end, byte);
    }
}

/// Skips the bytes equal to `byte` from `from` on.
///
/// Returns the offset of the first byte that differs, or the length of
/// `src` where every byte to the end equals `byte`.
pub fn skip_while(src: &[u8], from: usize, byte: u8) -> (end: usize)
    ensures
        end == run_end(src@, from as int, byte),
        from <= src@.len() ==> from <= end <= src@.len(),
{
    if from >= src.len() {
        return from;
    }
    let mut end: usize = from;
    while end < src.len() && src[end] == byte
        invariant
            from <= end <= src.len(),
            forall|k: int| from <= k < end ==> #[trigger] src@[k] == byte,
        decreases src.len() - end,
    {
        end += 1;
    }
    proof {
        lemma_run_end_is(src@, from as int, end as int, byte);
    }
    end
}

/// Offset of the first command behind the initialize command, or the reason
/// why the stream does not start as it must, with the offset of the first
/// byte that is not zero.
pub open spec fn preamble_spec(src: Seq<u8>) -> Result<nat, Failure> {
    let zeros = run_end(src, 0, 0u8);
    if zeros < INVALIDATE_LENGTH {
        Err(Failure { error: FormatError::InvalidInvalidate, offset: zeros as usize })
    } else if zeros + 2 <= src.len() && src[zeros] == ESC && src[zeros + 1] == INITIALIZE {
        Ok((zeros + 2) as nat)
    } else {
        Err(Failure { error: FormatError::InvalidInitialize, offset: zeros as usize })
    }
}

/// A stream passes exactly where its first 200 bytes are zero and the first
/// byte that is not zero starts `ESC @`.
pub proof fn lemma_preamble(src: Seq<u8>)
    ensures
        (preamble_spec(src) matches Err(failure) && failure.error
            == FormatError::InvalidInvalidate) <==> !(src.len() >= INVALIDATE_LENGTH && forall|
            k: int,
        |
            0 <= k < INVALIDATE_LENGTH ==> #[trigger] src[k] == 0),
        preamble_spec(src) matches Ok(start) ==> {
            &&& INVALIDATE_LENGTH + 2 <= start <= src.len()
            &&& src[start - 2] == ESC
            &&& src[start - 1] == INITIALIZE
            &&& forall|k: int| 0 <= k < start - 2 ==> #[trigger] src[k] == 0
        },
{
    lemma_run_end(src, 0, 0u8);
    let zeros = run_end(src, 0, 0u8);
    if src.len() >= INVALIDATE_LENGTH && (forall|k: int|
        0 <= k < INVALIDATE_LENGTH ==> #[trigger] src[k] == 0) {
        if zeros < INVALIDATE_LENGTH {
            assert(src[zeros] == 0);
        }
    }
}

/// Checks the start of a stream.
///
/// Returns the offset of the first command behind the initialize command.
pub fn check_preamble(src: &[u8]) -> (r: Result<usize, Failure>)
    ensures
        match preamble_spec(src@) {
            Ok(start) => r matches Ok(s) && s == start && start <= src@.len(),
            Err(failure) => r == Err::<usize, Failure>(failure),
        },
{
    let zeros: usize = skip_while(src, 0, 0);
    if zeros < INVALIDATE_LENGTH {
        return Err(Failure { error: FormatError::InvalidInvalidate, offset: zeros });
    }
    if src.len() - zeros < 2 {
        return Err(Failure { error: FormatError::InvalidInitialize, offset: zeros });
    }
    if src[zeros] != ESC || src[zeros + 1] != INITIALIZE {
        return Err(Failure { error: FormatError::InvalidInitialize, offset: zeros });
    }
    Ok(zeros + 2)
}

} // verus!
