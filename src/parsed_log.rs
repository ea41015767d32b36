//! Classified lines with their identifiers and payloads decoded.
use vstd::prelude::*;

use crate::codec::{base64_from_text, decode_base64, decode_pubkey, pubkey_from_text};
use crate::error::LogParseError;
use crate::raw_log::{
    LineModel, RawCuLog, RawDataLog, RawFailedLog, RawInvokeLog, RawLog, RawOtherLog,
    RawProgramLog, RawReturnLog, RawSuccessLog,
};
use crate::structured_log::{ComputeUnits, ProgramKey};

verus! {

/// What a decoded line holds.
pub enum ParsedModel {
    Invoke { raw: Seq<char>, program_id: Seq<u8>, depth: u8 },
    Success { raw: Seq<char>, program_id: Seq<u8> },
    Failed { raw: Seq<char>, program_id: Seq<u8>, err: Seq<char> },
    Log { raw: Seq<char>, msg: Seq<char> },
    Data { raw: Seq<char>, data: Seq<u8> },
    Return { raw: Seq<char>, program_id: Seq<u8>, data: Seq<u8> },
    Cu { raw: Seq<char>, program_id: Seq<u8>, consumed: u64, budget: u64 },
    Other { raw: Seq<char> },
}

/// The decoded form of a classified line, if its identifier and payload
/// decode.
pub open spec fn decode_model(m: LineModel) -> Option<ParsedModel> {
    match m {
        LineModel::Invoke { raw, program_id, depth } => match pubkey_from_text(program_id) {
            Some(k) => Some(ParsedModel::Invoke { raw, program_id: k, depth }),
            None => None,
        },
        LineModel::Success { raw, program_id } => match pubkey_from_text(program_id) {
            Some(k) => Some(ParsedModel::Success { raw, program_id: k }),
            None => None,
        },
        LineModel::Failed { raw, program_id, err } => match pubkey_from_text(program_id) {
            Some(k) => Some(ParsedModel::Failed { raw, program_id: k, err }),
            None => None,
        },
        LineModel::Log { raw, msg } => Some(ParsedModel::Log { raw, msg }),
        LineModel::Data { raw, data } => match base64_from_text(data) {
            Some(d) => Some(ParsedModel::Data { raw, data: d }),
            None => None,
        },
        LineModel::Return { raw, program_id, data } => match (
            pubkey_from_text(program_id),
            base64_from_text(data),
        ) {
            (Some(k), Some(d)) => Some(ParsedModel::Return { raw, program_id: k, data: d }),
            _ => None,
        },
        LineModel::Cu { raw, program_id, consumed, budget } => match pubkey_from_text(program_id) {
            Some(k) => Some(ParsedModel::Cu { raw, program_id: k, consumed, budget }),
            None => None,
        },
        LineModel::Other { raw } => Some(ParsedModel::Other { raw }),
    }
}

/// The line names a program whose identifier text does not decode.
pub open spec fn pubkey_fails(m: LineModel) -> bool {
    match m {
        LineModel::Invoke { program_id, .. } => pubkey_from_text(program_id) is None,
        LineModel::Success { program_id, .. } => pubkey_from_text(program_id) is None,
        LineModel::Failed { program_id, .. } => pubkey_from_text(program_id) is None,
        LineModel::Return { program_id, .. } => pubkey_from_text(program_id) is None,
        LineModel::Cu { program_id, .. } => pubkey_from_text(program_id) is None,
        _ => false,
    }
}

/// The error of decoding a line, as its contract states it: an identifier
/// that does not decode is reported before a payload.
pub open spec fn decode_error_matches(m: LineModel, e: LogParseError) -> bool {
    &&& decode_model(m) is None
    &&& pubkey_fails(m) ==> e is Pubkey
    &&& !pubkey_fails(m) ==> e is Base64
}

/// A classified line with its identifier and payload decoded.
#[derive(Debug, Clone, PartialEq, Eq)]
pub enum ParsedLog {
    Invoke(ParsedInvokeLog),
    Success(ParsedSuccessLog),
    Failed(ParsedFailedLog),
    Log(ParsedProgramLog),
    Data(ParsedDataLog),
    Return(ParsedReturnLog),
    Cu(ParsedCuLog),
    Other(ParsedOtherLog),
}

/// `Program <id> invoke [n]`
#[derive(Debug, Clone, PartialEq, Eq)]
pub struct ParsedInvokeLog {
    pub raw: String,
    pub program_id: [u8; 32],
    pub depth: u8,
}

/// `Program <id> success`
#[derive(Debug, Clone, PartialEq, Eq)]
pub struct ParsedSuccessLog {
    pub raw: String,
    pub program_id: [u8; 32],
}

/// `Program <id> failed: <err>`
#[derive(Debug, Clone, PartialEq, Eq)]
pub struct ParsedFailedLog {
    pub raw: String,
    pub program_id: [u8; 32],
    pub err: String,
}

/// `Program log: <msg>`
#[derive(Debug, Clone, PartialEq, Eq)]
pub struct ParsedProgramLog {
    pub raw: String,
    pub msg: String,
}

/// `Program data: <base64>`
#[derive(Debug, Clone, PartialEq, Eq)]
pub struct ParsedDataLog {
    pub raw: String,
    pub data: Vec<u8>,
}

/// `Program return: <id> <base64>`
#[derive(Debug, Clone, PartialEq, Eq)]
pub struct ParsedReturnLog {
    pub raw: String,
    pub program_id: [u8; 32],
    pub data: Vec<u8>,
}

/// `Program <id> consumed <x> of <y> compute units`
#[derive(Debug, Clone, PartialEq, Eq)]
pub struct ParsedCuLog {
    pub raw: String,
    pub program_id: [u8; 32],
    pub consumed: u64,
    pub budget: u64,
}

/// Any other line.
#[derive(Debug, Clone, PartialEq, Eq)]
pub struct ParsedOtherLog {
    pub raw: String,
}

impl From<ParsedCuLog> for ComputeUnits {
    fn from(value: ParsedCuLog) -> (r: ComputeUnits) {
        ComputeUnits { consumed: value.consumed, budget: value.budget }
    }
}

impl vstd::std_specs::convert::FromSpecImpl<ParsedCuLog> for ComputeUnits {
    open spec fn obeys_from_spec() -> bool {
        true
    }

    open spec fn from_spec(v: ParsedCuLog) -> ComputeUnits {
        ComputeUnits { consumed: v.consumed, budget: v.budget }
    }
}

impl View for ParsedLog {
    type V = ParsedModel;

    open spec fn view(&self) -> ParsedModel {
        match self {
            ParsedLog::Invoke(l) => ParsedModel::Invoke {
                raw: l.raw@,
                program_id: l.program_id@,
                depth: l.depth,
            },
            ParsedLog::Success(l) => ParsedModel::Success {
                raw: l.raw@,
                program_id: l.program_id@,
            },
            ParsedLog::Failed(l) => ParsedModel::Failed {
                raw: l.raw@,
                program_id: l.program_id@,
                err: l.err@,
            },
            ParsedLog::Log(l) => ParsedModel::Log { raw: l.raw@, msg: l.msg@ },
            ParsedLog::Data(l) => ParsedModel::Data { raw: l.raw@, data: l.data@ },
            ParsedLog::Return(l) => ParsedModel::Return {
                raw: l.raw@,
                program_id: l.program_id@,
                data: l.data@,
            },
            ParsedLog::Cu(l) => ParsedModel::Cu {
                raw: l.raw@,
                program_id: l.program_id@,
                consumed: l.consumed,
                budget: l.budget,
            },
            ParsedLog::Other(l) => ParsedModel::Other { raw: l.raw@ },
        }
    }
}

impl ProgramKey for [u8; 32] {
    open spec fn same_program_spec(&self, other: &Self) -> bool {
        self@ == other@
    }

    fn same_program(&self, other: &Self) -> (r: bool) {
        let mut i: usize = 0;
        while i < 32
            invariant
                i <= 32,
                self@.len() == 32,
                other@.len() == 32,
                forall|k: int| 0 <= k < i ==> self@[k] == other@[k],
            decreases 32 - i,
        {
            if self[i] != other[i] {
                return false;
            }
            i = i + 1;
        }
        assert(self@ =~= other@);
        true
    }
}

/// Decodes a program identifier's text, with the library's error.
fn program_key(s: &str) -> (r: Result<[u8; 32], LogParseError>)
    ensures
        match r {
            Ok(k) => pubkey_from_text(s@) == Some(k@),
            Err(e) => pubkey_from_text(s@) is None && e is Pubkey,
        },
{
    match decode_pubkey(s) {
        Ok(k) => Ok(k),
        Err(e) => Err(LogParseError::Pubkey(e)),
    }
}

/// Decodes a payload's base64 text, with the library's error.
fn payload_bytes(s: &str) -> (r: Result<Vec<u8>, LogParseError>)
    ensures
        match r {
            Ok(v) => base64_from_text(s@) == Some(v@),
            Err(e) => base64_from_text(s@) is None && e is Base64,
        },
{
    match decode_base64(s) {
        Ok(v) => Ok(v),
        Err(e) => Err(LogParseError::Base64(e)),
    }
}

impl ParsedLog {
    /// Decodes a whole batch of classified lines: the first line whose
    /// identifier or payload does not decode fails the batch, and nothing of
    /// it is returned.
    pub fn from_raw_logs<'a>(logs: &Vec<RawLog<'a>>) -> (r: Result<Vec<ParsedLog>, LogParseError>)
        ensures
            match r {
                Ok(v) => v@.len() == logs@.len() && forall|i: int|
                    0 <= i < logs@.len() ==> decode_model(logs@[i]@) == Some(#[trigger] v@[i]@),
                Err(e) => exists|i: int|
                    0 <= i < logs@.len() && decode_error_matches(#[trigger] logs@[i]@, e) && forall|
                        j: int,
                    | 0 <= j < i ==> decode_model(#[trigger] logs@[j]@) is Some,
            },
    {
        let mut out: Vec<ParsedLog> = Vec::new();
        let mut i: usize = 0;
        while i < logs.len()
            invariant
                i <= logs@.len(),
                out@.len() == i,
                forall|k: int| 0 <= k < i ==> decode_model(logs@[k]@) == Some(#[trigger] out@[k]@),
            decreases logs@.len() - i,
        {
            match ParsedLog::from_raw(&logs[i]) {
                Ok(p) => {
                    out.push(p);
                },
                Err(e) => {
                    assert(forall|j: int| 0 <= j < i ==> decode_model(#[trigger] logs@[j]@) is Some) by {
                        assert forall|j: int| 0 <= j < i implies decode_model(
                            #[trigger] logs@[j]@,
                        ) is Some by {
                            assert(decode_model(logs@[j]@) == Some(out@[j]@));
                        }
                    }
                    return Err(e);
                },
            }
            i = i + 1;
        }
        Ok(out)
    }

    /// Decodes the identifier and payload of a classified line.
    pub fn from_raw(raw: &RawLog) -> (r: Result<Self, LogParseError>)
        ensures
            match r {
                Ok(p) => decode_model(raw@) == Some(p@),
                Err(e) => decode_error_matches(raw@, e),
            },
    {
        match raw {
            RawLog::Invoke(log) => match ParsedInvokeLog::from_raw(log) {
                Ok(p) => Ok(ParsedLog::Invoke(p)),
                Err(e) => Err(e),
            },
            RawLog::Success(log) => match ParsedSuccessLog::from_raw(log) {
                Ok(p) => Ok(ParsedLog::Success(p)),
                Err(e) => Err(e),
            },
            RawLog::Failed(log) => match ParsedFailedLog::from_raw(log) {
                Ok(p) => Ok(ParsedLog::Failed(p)),
                Err(e) => Err(e),
            },
            RawLog::Log(log) => match ParsedProgramLog::from_raw(log) {
                Ok(p) => Ok(ParsedLog::Log(p)),
                Err(e) => Err(e),
            },
            RawLog::Data(log) => match ParsedDataLog::from_raw(log) {
                Ok(p) => Ok(ParsedLog::Data(p)),
                Err(e) => Err(e),
            },
            RawLog::Return(log) => match ParsedReturnLog::from_raw(log) {
                Ok(p) => Ok(ParsedLog::Return(p)),
                Err(e) => Err(e),
            },
            RawLog::Cu(log) => match ParsedCuLog::from_raw(log) {
                Ok(p) => Ok(ParsedLog::Cu(p)),
                Err(e) => Err(e),
            },
            RawLog::Other(log) => match ParsedOtherLog::from_raw(log) {
                Ok(p) => Ok(ParsedLog::Other(p)),
                Err(e) => Err(e),
            },
        }
    }
}

impl ParsedInvokeLog {
    pub fn from_raw(log: &RawInvokeLog) -> (r: Result<Self, LogParseError>)
        ensures
            match r {
                Ok(p) => pubkey_from_text(log.program_id@) == Some(p.program_id@) && p.raw@
                    == log.raw@ && p.depth == log.depth,
                Err(e) => pubkey_from_text(log.program_id@) is None && e is Pubkey,
            },
    {
        let program_id = match program_key(log.program_id) {
            Ok(k) => k,
            Err(e) => {
                return Err(e);
            },
        };
        Ok(ParsedInvokeLog { raw: String::from_str(log.raw), program_id, depth: log.depth })
    }
}

impl ParsedSuccessLog {
    pub fn from_raw(log: &RawSuccessLog) -> (r: Result<Self, LogParseError>)
        ensures
            match r {
                Ok(p) => pubkey_from_text(log.program_id@) == Some(p.program_id@) && p.raw@
                    == log.raw@,
                Err(e) => pubkey_from_text(log.program_id@) is None && e is Pubkey,
            },
    {
        let program_id = match program_key(log.program_id) {
            Ok(k) => k,
            Err(e) => {
                return Err(e);
            },
        };
        Ok(ParsedSuccessLog { raw: String::from_str(log.raw), program_id })
    }
}

impl ParsedFailedLog {
    pub fn from_raw(log: &RawFailedLog) -> (r: Result<Self, LogParseError>)
        ensures
            match r {
                Ok(p) => pubkey_from_text(log.program_id@) == Some(p.program_id@) && p.raw@
                    == log.raw@ && p.err@ == log.err@,
                Err(e) => pubkey_from_text(log.program_id@) is None && e is Pubkey,
            },
    {
        let program_id = match program_key(log.program_id) {
            Ok(k) => k,
            Err(e) => {
                return Err(e);
            },
        };
        Ok(
            ParsedFailedLog {
                raw: String::from_str(log.raw),
                program_id,
                err: String::from_str(log.err),
            },
        )
    }
}

impl ParsedProgramLog {
    /// Never fails: a message has nothing to decode.
    pub fn from_raw(log: &RawProgramLog) -> (r: Result<Self, LogParseError>)
        ensures
            r matches Ok(p) && p.raw@ == log.raw@ && p.msg@ == log.msg@,
    {
        Ok(ParsedProgramLog { raw: String::from_str(log.raw), msg: String::from_str(log.msg) })
    }
}

impl ParsedDataLog {
    pub fn from_raw(log: &RawDataLog) -> (r: Result<Self, LogParseError>)
        ensures
            match r {
                Ok(p) => base64_from_text(log.data@) == Some(p.data@) && p.raw@ == log.raw@,
                Err(e) => base64_from_text(log.data@) is None && e is Base64,
            },
    {
        let data = match payload_bytes(log.data) {
            Ok(d) => d,
            Err(e) => {
                return Err(e);
            },
        };
        Ok(ParsedDataLog { raw: String::from_str(log.raw), data })
    }
}

impl ParsedReturnLog {
    pub fn from_raw(log: &RawReturnLog) -> (r: Result<Self, LogParseError>)
        ensures
            match r {
                Ok(p) => pubkey_from_text(log.program_id@) == Some(p.program_id@)
                    && base64_from_text(log.data@) == Some(p.data@) && p.raw@ == log.raw@,
                Err(e) => if pubkey_from_text(log.program_id@) is None {
                    e is Pubkey
                } else {
                    base64_from_text(log.data@) is None && e is Base64
                },
            },
    {
        let program_id = match program_key(log.program_id) {
            Ok(k) => k,
            Err(e) => {
                return Err(e);
            },
        };
        let data = match payload_bytes(log.data) {
            Ok(d) => d,
            Err(e) => {
                return Err(e);
            },
        };
        Ok(ParsedReturnLog { raw: String::from_str(log.raw), program_id, data })
    }
}

impl ParsedCuLog {
    pub fn from_raw(log: &RawCuLog) -> (r: Result<Self, LogParseError>)
        ensures
            match r {
                Ok(p) => pubkey_from_text(log.program_id@) == Some(p.program_id@) && p.raw@
                    == log.raw@ && p.consumed == log.consumed && p.budget == log.budget,
                Err(e) => pubkey_from_text(log.program_id@) is None && e is Pubkey,
            },
    {
        let program_id = match program_key(log.program_id) {
            Ok(k) => k,
            Err(e) => {
                return Err(e);
            },
        };
        Ok(
            ParsedCuLog {
                raw: String::from_str(log.raw),
                program_id,
                consumed: log.consumed,
                budget: log.budget,
            },
        )
    }
}

impl ParsedOtherLog {
    /// Never fails: the line has nothing to decode.
    pub fn from_raw(log: &RawOtherLog) -> (r: Result<Self, LogParseError>)
        ensures
            r matches Ok(p) && p.raw@ == log.raw@,
    {
        Ok(ParsedOtherLog { raw: String::from_str(log.raw) })
    }
}

} // verus!
