//! The call tree over the text of the lines, borrowed from the input.
use vstd::prelude::*;

use super::{
    frames_model, reconstruct, reversed, ComputeUnits, LogLine,
    ProgramResult, StructuredLog,
};
use crate::error::LogParseError;
use crate::raw_log::{RawDataLog, RawLog, RawProgramLog};

verus! {

/// How a frame over line text ended.
pub type RawProgramResult<'a> = ProgramResult<&'a str>;

/// A completed invocation over line text.
pub type RawStructuredLog<'a> = StructuredLog<
    &'a str,
    &'a str,
    RawProgramLog<'a>,
    RawDataLog<'a>,
    &'a str,
    &'a str,
>;

/// A classified line of text as the stack machine reads it.
pub type RawLine<'a> = LogLine<&'a str, &'a str, RawProgramLog<'a>, RawDataLog<'a>, &'a str, &'a str>;


pub open spec fn raw_line<'a>(l: RawLog<'a>) -> RawLine<'a> {
    match l {
        RawLog::Invoke(x) => LogLine::Invoke { program_id: x.program_id, depth: x.depth, raw: x.raw },
        RawLog::Success(x) => LogLine::Success { program_id: x.program_id, raw: x.raw },
        RawLog::Failed(x) => LogLine::Failed { program_id: x.program_id, err: x.err, raw: x.raw },
        RawLog::Log(x) => LogLine::Log { entry: x, raw: x.raw },
        RawLog::Data(x) => LogLine::Data { entry: x, raw: x.raw },
        RawLog::Return(x) => LogLine::Return { program_id: x.program_id, data: x.data, raw: x.raw },
        RawLog::Cu(x) => LogLine::Cu {
            program_id: x.program_id,
            units: ComputeUnits { consumed: x.consumed, budget: x.budget },
            raw: x.raw,
        },
        RawLog::Other(x) => LogLine::Other { raw: x.raw },
    }
}

pub open spec fn raw_lines<'a>(logs: Seq<RawLog<'a>>) -> Seq<RawLine<'a>> {
    Seq::new(logs.len(), |i: int| raw_line(logs[i]))
}

fn to_line<'a>(l: RawLog<'a>) -> (r: RawLine<'a>)
    ensures
        r == raw_line(l),
{
    match l {
        RawLog::Invoke(x) => LogLine::Invoke { program_id: x.program_id, depth: x.depth, raw: x.raw },
        RawLog::Success(x) => LogLine::Success { program_id: x.program_id, raw: x.raw },
        RawLog::Failed(x) => LogLine::Failed { program_id: x.program_id, err: x.err, raw: x.raw },
        RawLog::Log(x) => {
            let raw = x.raw;
            LogLine::Log { entry: x, raw }
        },
        RawLog::Data(x) => {
            let raw = x.raw;
            LogLine::Data { entry: x, raw }
        },
        RawLog::Return(x) => LogLine::Return { program_id: x.program_id, data: x.data, raw: x.raw },
        RawLog::Cu(x) => {
            let program_id = x.program_id;
            let raw = x.raw;
            LogLine::Cu { program_id, units: ComputeUnits::from(x), raw }
        },
        RawLog::Other(x) => LogLine::Other { raw: x.raw },
    }
}

impl<'a> StructuredLog<&'a str, &'a str, RawProgramLog<'a>, RawDataLog<'a>, &'a str, &'a str> {
    /// Rebuilds the call forest of a sequence of classified lines.
    pub fn from_raw_logs(logs: Vec<RawLog<'a>>) -> (r: Result<Vec<Self>, LogParseError>)
        ensures
            match (r, reconstruct(raw_lines(logs@))) {
                (Ok(v), Ok(m)) => frames_model(v@) == m,
                (Err(LogParseError::Structure(e)), Err(se)) => e == se,
                _ => false,
            },
    {
        let ghost src = logs@;
        let n = logs.len();
        let mut rev = reversed(logs);
        let mut lines: Vec<RawLine<'a>> = Vec::new();
        let mut i: usize = 0;
        while i < n
            invariant
                n == src.len(),
                i <= n,
                rev@.len() == n - i,
                forall|j: int| 0 <= j < n - i ==> #[trigger] rev@[j] == src[n - 1 - j],
                lines@ == raw_lines(src).take(i as int),
            decreases n - i,
        {
            let ghost before = rev@;
            let l = rev.pop().unwrap();
            assert(l == src[i as int]) by {
                assert(before[before.len() - 1] == src[n - 1 - (n - i - 1)]);
            }
            assert forall|j: int| 0 <= j < n - (i + 1) implies #[trigger] rev@[j] == src[n - 1 - j] by {
                assert(rev@[j] == before[j]);
            }
            lines.push(to_line(l));
            assert(lines@ =~= raw_lines(src).take(i + 1));
            i = i + 1;
        }
        assert(lines@ =~= raw_lines(src));
        match Self::from_logs(lines) {
            Ok(v) => Ok(v),
            Err(e) => Err(LogParseError::Structure(e)),
        }
    }
}

} // verus!
