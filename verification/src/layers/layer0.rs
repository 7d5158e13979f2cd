//! First stage: the payload is one base-85 envelope and nothing more.

use vstd::prelude::*;

use crate::ascii85::{
    all_ascii, all_symbol_or_ws, decode, decode_symbols, envelope_interior, strip_ws,
};
use crate::errors::LayerError;

verus! {

/// Decodes the stage's envelope; the decoded bytes are the stage's output.
pub fn run(bytes: &[u8]) -> (r: Result<Vec<u8>, LayerError>)
    ensures
        match envelope_interior(bytes@) {
            None => r matches Err(e) && e == LayerError::MissingDelimiter,
            Some(inner) => if !all_ascii(inner) {
                r matches Err(e) && e == LayerError::NonAsciiInput
            } else if !all_symbol_or_ws(inner) {
                r matches Err(e) && e == LayerError::InvalidSymbol
            } else {
                r matches Ok(v) && v@ == decode_symbols(strip_ws(inner))
            },
        },
{
    decode(bytes)
}

} // verus!
