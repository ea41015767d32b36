//! The call tree over decoded lines: identifiers as bytes, payloads decoded.
use vstd::prelude::*;

use super::{
    frames_model, reconstruct, reversed, ComputeUnits, LogLine,
    ProgramResult, StructuredLog,
};
use crate::error::LogParseError;
use crate::parsed_log::{ParsedDataLog, ParsedLog, ParsedProgramLog};

verus! {

/// How a decoded frame ended.
pub type ParsedProgramResult = ProgramResult<String>;

/// A completed invocation over decoded lines.
pub type ParsedStructuredLog = StructuredLog<
    [u8; 32],
    String,
    ParsedProgramLog,
    ParsedDataLog,
    Vec<u8>,
    String,
>;

/// A decoded line as the stack machine reads it.
pub type ParsedLine = LogLine<[u8; 32], String, ParsedProgramLog, ParsedDataLog, Vec<u8>, String>;


pub open spec fn parsed_line(l: ParsedLog) -> ParsedLine {
    match l {
        ParsedLog::Invoke(x) => LogLine::Invoke {
            program_id: x.program_id,
            depth: x.depth,
            raw: x.raw,
        },
        ParsedLog::Success(x) => LogLine::Success { program_id: x.program_id, raw: x.raw },
        ParsedLog::Failed(x) => LogLine::Failed {
            program_id: x.program_id,
            err: x.err,
            raw: x.raw,
        },
        ParsedLog::Log(x) => LogLine::Log { entry: x, raw: x.raw },
        ParsedLog::Data(x) => LogLine::Data { entry: x, raw: x.raw },
        ParsedLog::Return(x) => LogLine::Return {
            program_id: x.program_id,
            data: x.data,
            raw: x.raw,
        },
        ParsedLog::Cu(x) => LogLine::Cu {
            program_id: x.program_id,
            units: ComputeUnits { consumed: x.consumed, budget: x.budget },
            raw: x.raw,
        },
        ParsedLog::Other(x) => LogLine::Other { raw: x.raw },
    }
}

pub open spec fn parsed_lines(logs: Seq<ParsedLog>) -> Seq<ParsedLine> {
    Seq::new(logs.len(), |i: int| parsed_line(logs[i]))
}

fn to_line(l: ParsedLog) -> (r: ParsedLine)
    ensures
        r == parsed_line(l),
{
    match l {
        ParsedLog::Invoke(x) => LogLine::Invoke {
            program_id: x.program_id,
            depth: x.depth,
            raw: x.raw,
        },
        ParsedLog::Success(x) => LogLine::Success { program_id: x.program_id, raw: x.raw },
        ParsedLog::Failed(x) => LogLine::Failed { program_id: x.program_id, err: x.err, raw: x.raw },
        ParsedLog::Log(x) => {
            let raw = x.raw.clone();
            LogLine::Log { entry: x, raw }
        },
        ParsedLog::Data(x) => {
            let raw = x.raw.clone();
            LogLine::Data { entry: x, raw }
        },
        ParsedLog::Return(x) => LogLine::Return { program_id: x.program_id, data: x.data, raw: x.raw },
        ParsedLog::Cu(x) => {
            let program_id = x.program_id;
            let raw = x.raw.clone();
            LogLine::Cu { program_id, units: ComputeUnits::from(x), raw }
        },
        ParsedLog::Other(x) => LogLine::Other { raw: x.raw },
    }
}

impl StructuredLog<[u8; 32], String, ParsedProgramLog, ParsedDataLog, Vec<u8>, String> {
    /// Rebuilds the call forest of a sequence of decoded lines.
    pub fn from_parsed_logs(logs: Vec<ParsedLog>) -> (r: Result<Vec<Self>, LogParseError>)
        ensures
            match (r, reconstruct(parsed_lines(logs@))) {
                (Ok(v), Ok(m)) => frames_model(v@) == m,
                (Err(LogParseError::Structure(e)), Err(se)) => e == se,
                _ => false,
            },
    {
        let ghost src = logs@;
        let n = logs.len();
        let mut rev = reversed(logs);
        let mut lines: Vec<ParsedLine> = Vec::new();
        let mut i: usize = 0;
        while i < n
            invariant
                n == src.len(),
                i <= n,
                rev@.len() == n - i,
                forall|j: int| 0 <= j < n - i ==> #[trigger] rev@[j] == src[n - 1 - j],
                lines@ == parsed_lines(src).take(i as int),
            decreases n - i,
        {
            let ghost before = rev@;
            let l = rev.pop().unwrap();
            assert(l == src[i as int]) by {
                assert(before[before.len() - 1] == src[n - 1 - (n - i - 1)]);
            }
            assert forall|j: int| 0 <= j < n - (i + 1) implies #[trigger] rev@[j] == src[n - 1 - j] by {
                assert(rev@[j] == before[j]);
            }
            lines.push(to_line(l));
            assert(lines@ =~= parsed_lines(src).take(i + 1));
            i = i + 1;
        }
        assert(lines@ =~= parsed_lines(src));
        match Self::from_logs(lines) {
            Ok(v) => Ok(v),
            Err(e) => Err(LogParseError::Structure(e)),
        }
    }
}

} // verus!
