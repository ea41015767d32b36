//! Why a batch of log lines could not be turned into typed call trees.
use vstd::prelude::*;

use crate::structured_log::StructureError;

verus! {

/// The error of a whole batch: a decode failure or a malformed call structure.
#[derive(Debug)]
pub enum LogParseError {
    /// A program identifier's text did not decode.
    Pubkey(solana_pubkey::ParsePubkeyError),
    /// A payload's base64 text did not decode.
    Base64(base64::DecodeError),
    /// The invocations and outcomes did not nest.
    Structure(StructureError),
}

} // verus!
