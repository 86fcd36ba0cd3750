//! Decoding of a whole command stream.

use vstd::prelude::*;
use crate::document::{finish_spec, Document, DocumentModel};
use crate::error::{Failure, FormatError};
use crate::parser::{
    initial_state, lemma_run_keeps_wf, raster_refused, run_spec, step_spec, Parser, ParserModel,
};
use crate::preamble::{check_preamble, preamble_spec};

verus! {

/// What a stream decodes to: a document, or the first failure with the
/// offset at which it was met.
///
/// A stream that does not start as it must fails at its first byte that is
/// not zero. A command that cannot be carried out fails at its first byte.
pub open spec fn decode_spec(src: Seq<u8>) -> Result<DocumentModel, Failure> {
    match preamble_spec(src) {
        Err(failure) => Err(failure),
        Ok(start) => {
            let end = run_spec(initial_state(start), src);
            match end.1 {
                Some(error) => Err(Failure { error, offset: end.0.pos as usize }),
                None => Ok(finish_spec(end.0)),
            }
        },
    }
}

/// Raster data while raster mode is off stops the pass on the spot: the
/// step fails, and the pass ends in the state it had, its cursor on the
/// raster command.
pub proof fn lemma_raster_refused(state: ParserModel, src: Seq<u8>)
    requires
        raster_refused(state, src),
    ensures
        step_spec(state, src) == Err::<ParserModel, FormatError>(
            FormatError::RasterBeforeRasterMode { command: src[state.pos as int] },
        ),
        run_spec(state, src) == (
            state,
            Some(FormatError::RasterBeforeRasterMode { command: src[state.pos as int] }),
        ),
{
}

/// Decodes a command stream.
///
/// Every row of the document is exactly as wide as the document.
pub fn decode(src: &[u8]) -> (r: Result<Document, Failure>)
    ensures
        match decode_spec(src@) {
            Ok(document) => r matches Ok(d) && d@ == document && d@.uniform(),
            Err(failure) => r == Err::<Document, Failure>(failure),
        },
{
    let start: usize = match check_preamble(src) {
        Ok(start) => start,
        Err(failure) => {
            return Err(failure);
        },
    };
    let mut parser = Parser::new(start);
    proof {
        lemma_run_keeps_wf(parser@, src@);
    }
    match parser.run(src) {
        Ok(()) => Ok(parser.finish()),
        Err(error) => Err(Failure { error, offset: parser.pos }),
    }
}

} // verus!
