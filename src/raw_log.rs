//! Classification of one log line into its kind, borrowing from the line.
use vstd::prelude::*;

use crate::text::{
    ends_with_at, equals_at, find_at, has_prefix, has_suffix, is_whitespace,
    lemma_first_match_unique, matches_at, parse_u64, parse_u64_at, parse_u8, parse_u8_at,
    split_once, starts_with_at, to_chars, trim, trim_bounds,
};
use crate::structured_log::ComputeUnits;
use crate::{is_pubkey_shape, quick_pubkey_check};

verus! {

/// What a classified line holds, as text.
pub enum LineModel {
    Invoke { raw: Seq<char>, program_id: Seq<char>, depth: u8 },
    Success { raw: Seq<char>, program_id: Seq<char> },
    Failed { raw: Seq<char>, program_id: Seq<char>, err: Seq<char> },
    Log { raw: Seq<char>, msg: Seq<char> },
    Data { raw: Seq<char>, data: Seq<char> },
    Return { raw: Seq<char>, program_id: Seq<char>, data: Seq<char> },
    Cu { raw: Seq<char>, program_id: Seq<char>, consumed: u64, budget: u64 },
    Other { raw: Seq<char> },
}

impl LineModel {
    /// The full text of the line the model was read from.
    pub open spec fn raw(self) -> Seq<char> {
        match self {
            LineModel::Invoke { raw, .. } => raw,
            LineModel::Success { raw, .. } => raw,
            LineModel::Failed { raw, .. } => raw,
            LineModel::Log { raw, .. } => raw,
            LineModel::Data { raw, .. } => raw,
            LineModel::Return { raw, .. } => raw,
            LineModel::Cu { raw, .. } => raw,
            LineModel::Other { raw } => raw,
        }
    }
}

// The fixed words of the line grammar.
pub open spec fn log_prefix() -> Seq<char> {
    "Program log: "@
}

pub open spec fn data_prefix() -> Seq<char> {
    "Program data: "@
}

pub open spec fn return_prefix() -> Seq<char> {
    "Program return: "@
}

pub open spec fn program_prefix() -> Seq<char> {
    "Program "@
}

pub open spec fn space() -> Seq<char> {
    " "@
}

pub open spec fn invoke_prefix() -> Seq<char> {
    "invoke ["@
}

pub open spec fn invoke_suffix() -> Seq<char> {
    "]"@
}

pub open spec fn success_word() -> Seq<char> {
    "success"@
}

pub open spec fn failed_prefix() -> Seq<char> {
    "failed: "@
}

pub open spec fn consumed_prefix() -> Seq<char> {
    "consumed "@
}

pub open spec fn of_separator() -> Seq<char> {
    " of "@
}

pub open spec fn units_suffix() -> Seq<char> {
    " compute units"@
}

/// The kind of a `Program <id> <suffix>` line whose identifier has the right shape.
pub open spec fn classify_status(line: Seq<char>, id: Seq<char>, suffix: Seq<char>) -> LineModel {
    let after_invoke = suffix.skip(invoke_prefix().len() as int);
    if has_prefix(suffix, invoke_prefix()) && has_suffix(after_invoke, invoke_suffix()) {
        match parse_u8(after_invoke.take(after_invoke.len() - invoke_suffix().len())) {
            Some(depth) => LineModel::Invoke { raw: line, program_id: id, depth },
            None => LineModel::Other { raw: line },
        }
    } else if suffix == success_word() {
        LineModel::Success { raw: line, program_id: id }
    } else if has_prefix(suffix, failed_prefix()) {
        LineModel::Failed {
            raw: line,
            program_id: id,
            err: suffix.skip(failed_prefix().len() as int),
        }
    } else if has_prefix(suffix, consumed_prefix()) {
        match split_once(suffix.skip(consumed_prefix().len() as int), of_separator()) {
            Some((a, of_budget)) => if has_suffix(of_budget, units_suffix()) {
                let b = of_budget.take(of_budget.len() - units_suffix().len());
                match (parse_u64(a), parse_u64(b)) {
                    (Some(consumed), Some(budget)) => LineModel::Cu {
                        raw: line,
                        program_id: id,
                        consumed,
                        budget,
                    },
                    _ => LineModel::Other { raw: line },
                }
            } else {
                LineModel::Other { raw: line }
            },
            None => LineModel::Other { raw: line },
        }
    } else {
        LineModel::Other { raw: line }
    }
}

/// The kind of a line: the grammar tried in order on the trimmed text, with
/// `Other` wherever it does not match.
pub open spec fn classify(line: Seq<char>) -> LineModel {
    let t = trim(line);
    if has_prefix(t, log_prefix()) {
        LineModel::Log { raw: line, msg: t.skip(log_prefix().len() as int) }
    } else if has_prefix(t, data_prefix()) {
        LineModel::Data { raw: line, data: t.skip(data_prefix().len() as int) }
    } else if has_prefix(t, return_prefix()) {
        match split_once(t.skip(return_prefix().len() as int), space()) {
            Some((id, data)) => LineModel::Return { raw: line, program_id: id, data },
            None => LineModel::Other { raw: line },
        }
    } else if has_prefix(t, program_prefix()) {
        match split_once(t.skip(program_prefix().len() as int), space()) {
            Some((id, suffix)) => if is_pubkey_shape(id) {
                classify_status(line, id, suffix)
            } else {
                LineModel::Other { raw: line }
            },
            None => LineModel::Other { raw: line },
        }
    } else {
        LineModel::Other { raw: line }
    }
}

/// A log line, classified by its kind.
#[derive(Debug, Clone, PartialEq, Eq)]
pub enum RawLog<'a> {
    Invoke(RawInvokeLog<'a>),
    Success(RawSuccessLog<'a>),
    Failed(RawFailedLog<'a>),
    Log(RawProgramLog<'a>),
    Data(RawDataLog<'a>),
    Return(RawReturnLog<'a>),
    Cu(RawCuLog<'a>),
    Other(RawOtherLog<'a>),
}

/// `Program <id> invoke [n]`
#[derive(Debug, Clone, PartialEq, Eq)]
pub struct RawInvokeLog<'a> {
    pub raw: &'a str,
    pub program_id: &'a str,
    pub depth: u8,
}

/// `Program <id> success`
#[derive(Debug, Clone, PartialEq, Eq)]
pub struct RawSuccessLog<'a> {
    pub raw: &'a str,
    pub program_id: &'a str,
}

/// `Program <id> failed: <err>`
#[derive(Debug, Clone, PartialEq, Eq)]
pub struct RawFailedLog<'a> {
    pub raw: &'a str,
    pub program_id: &'a str,
    pub err: &'a str,
}

/// `Program log: <msg>`
#[derive(Debug, Clone, PartialEq, Eq)]
pub struct RawProgramLog<'a> {
    pub raw: &'a str,
    pub msg: &'a str,
}

/// `Program data: <base64>`
#[derive(Debug, Clone, PartialEq, Eq)]
pub struct RawDataLog<'a> {
    pub raw: &'a str,
    pub data: &'a str,
}

/// `Program return: <id> <base64>`
#[derive(Debug, Clone, PartialEq, Eq)]
pub struct RawReturnLog<'a> {
    pub raw: &'a str,
    pub program_id: &'a str,
    pub data: &'a str,
}

/// `Program <id> consumed <x> of <y> compute units`
#[derive(Debug, Clone, PartialEq, Eq)]
pub struct RawCuLog<'a> {
    pub raw: &'a str,
    pub program_id: &'a str,
    pub consumed: u64,
    pub budget: u64,
}

/// Any other line.
#[derive(Debug, Clone, PartialEq, Eq)]
pub struct RawOtherLog<'a> {
    pub raw: &'a str,
}

impl<'a> From<RawCuLog<'a>> for ComputeUnits {
    fn from(value: RawCuLog<'a>) -> (r: ComputeUnits) {
        ComputeUnits { consumed: value.consumed, budget: value.budget }
    }
}

impl<'a> vstd::std_specs::convert::FromSpecImpl<RawCuLog<'a>> for ComputeUnits {
    open spec fn obeys_from_spec() -> bool {
        true
    }

    open spec fn from_spec(v: RawCuLog<'a>) -> ComputeUnits {
        ComputeUnits { consumed: v.consumed, budget: v.budget }
    }
}

impl<'a> View for RawLog<'a> {
    type V = LineModel;

    open spec fn view(&self) -> LineModel {
        match self {
            RawLog::Invoke(l) => LineModel::Invoke {
                raw: l.raw@,
                program_id: l.program_id@,
                depth: l.depth,
            },
            RawLog::Success(l) => LineModel::Success { raw: l.raw@, program_id: l.program_id@ },
            RawLog::Failed(l) => LineModel::Failed {
                raw: l.raw@,
                program_id: l.program_id@,
                err: l.err@,
            },
            RawLog::Log(l) => LineModel::Log { raw: l.raw@, msg: l.msg@ },
            RawLog::Data(l) => LineModel::Data { raw: l.raw@, data: l.data@ },
            RawLog::Return(l) => LineModel::Return {
                raw: l.raw@,
                program_id: l.program_id@,
                data: l.data@,
            },
            RawLog::Cu(l) => LineModel::Cu {
                raw: l.raw@,
                program_id: l.program_id@,
                consumed: l.consumed,
                budget: l.budget,
            },
            RawLog::Other(l) => LineModel::Other { raw: l.raw@ },
        }
    }
}

impl<'a> RawLog<'a> {
    /// Classifies one line of a log. Never fails: a line that matches no
    /// form of the grammar is `Other`.
    pub fn parse(log: &'a str) -> (r: RawLog<'a>)
        ensures
            r@ == classify(log@),
    {
        let v = to_chars(log);
        let (ts, te) = trim_bounds(&v);
        let ghost t = v@.subrange(ts as int, te as int);
        let log_p = to_chars("Program log: ");
        if starts_with_at(&v, ts, te, &log_p) {
            let msg = log.substring_char(ts + log_p.len(), te);
            assert(t.skip(log_p@.len() as int) =~= msg@);
            return RawLog::Log(RawProgramLog { raw: log, msg });
        }
        let data_p = to_chars("Program data: ");
        if starts_with_at(&v, ts, te, &data_p) {
            let data = log.substring_char(ts + data_p.len(), te);
            assert(t.skip(data_p@.len() as int) =~= data@);
            return RawLog::Data(RawDataLog { raw: log, data });
        }
        let space_p = to_chars(" ");
        let return_p = to_chars("Program return: ");
        if starts_with_at(&v, ts, te, &return_p) {
            let lo = ts + return_p.len();
            assert(t.skip(return_p@.len() as int) =~= v@.subrange(lo as int, te as int));
            return match find_at(&v, lo, te, &space_p) {
                Some(k) => {
                    let program_id = log.substring_char(lo, k);
                    let data = log.substring_char(k + space_p.len(), te);
                    RawLog::Return(RawReturnLog { raw: log, program_id, data })
                },
                None => RawLog::Other(RawOtherLog { raw: log }),
            };
        }
        let program_p = to_chars("Program ");
        if starts_with_at(&v, ts, te, &program_p) {
            let lo = ts + program_p.len();
            assert(t.skip(program_p@.len() as int) =~= v@.subrange(lo as int, te as int));
            return match find_at(&v, lo, te, &space_p) {
                Some(k) => {
                    let program_id = log.substring_char(lo, k);
                    if quick_pubkey_check(program_id) {
                        Self::parse_status(log, &v, program_id, k + space_p.len(), te)
                    } else {
                        RawLog::Other(RawOtherLog { raw: log })
                    }
                },
                None => RawLog::Other(RawOtherLog { raw: log }),
            };
        }
        RawLog::Other(RawOtherLog { raw: log })
    }

    /// Classifies the part of a `Program <id> ...` line after the identifier,
    /// which stands at `lo..hi` of the line's characters `v`.
    fn parse_status(log: &'a str, v: &Vec<char>, program_id: &'a str, lo: usize, hi: usize) -> (r:
        RawLog<'a>)
        requires
            v@ == log@,
            lo <= hi <= v.len(),
        ensures
            r@ == classify_status(log@, program_id@, v@.subrange(lo as int, hi as int)),
    {
        let ghost suffix = v@.subrange(lo as int, hi as int);
        let invoke_p = to_chars("invoke [");
        let close_p = to_chars("]");
        if starts_with_at(&v, lo, hi, &invoke_p) {
            let a = lo + invoke_p.len();
            let ghost after = suffix.skip(invoke_p@.len() as int);
            assert(after =~= v@.subrange(a as int, hi as int));
            if ends_with_at(&v, a, hi, &close_p) {
                let b = hi - close_p.len();
                assert(after.take(after.len() - close_p@.len()) =~= v@.subrange(a as int, b as int));
                return match parse_u8_at(&v, a, b) {
                    Some(depth) => RawLog::Invoke(RawInvokeLog { raw: log, program_id, depth }),
                    None => RawLog::Other(RawOtherLog { raw: log }),
                };
            }
        }
        let success_w = to_chars("success");
        if equals_at(&v, lo, hi, &success_w) {
            return RawLog::Success(RawSuccessLog { raw: log, program_id });
        }
        let failed_p = to_chars("failed: ");
        if starts_with_at(&v, lo, hi, &failed_p) {
            let err = log.substring_char(lo + failed_p.len(), hi);
            assert(suffix.skip(failed_p@.len() as int) =~= err@);
            return RawLog::Failed(RawFailedLog { raw: log, program_id, err });
        }
        let consumed_p = to_chars("consumed ");
        if starts_with_at(&v, lo, hi, &consumed_p) {
            let a = lo + consumed_p.len();
            assert(suffix.skip(consumed_p@.len() as int) =~= v@.subrange(a as int, hi as int));
            let of_p = to_chars(" of ");
            return match find_at(&v, a, hi, &of_p) {
                Some(k) => {
                    let units_p = to_chars(" compute units");
                    let c = k + of_p.len();
                    if ends_with_at(&v, c, hi, &units_p) {
                        let d = hi - units_p.len();
                        let ghost of_budget = v@.subrange(c as int, hi as int);
                        assert(of_budget.take(of_budget.len() - units_p@.len()) =~= v@.subrange(
                            c as int,
                            d as int,
                        ));
                        match (parse_u64_at(&v, a, k), parse_u64_at(&v, c, d)) {
                            (Some(consumed), Some(budget)) => RawLog::Cu(
                                RawCuLog { raw: log, program_id, consumed, budget },
                            ),
                            _ => RawLog::Other(RawOtherLog { raw: log }),
                        }
                    } else {
                        RawLog::Other(RawOtherLog { raw: log })
                    }
                },
                None => RawLog::Other(RawOtherLog { raw: log }),
            };
        }
        RawLog::Other(RawOtherLog { raw: log })
    }
}

/// A line keeps its full text whatever its kind, so classifying the text kept
/// by a line of kind `Other` gives `Other` again.
pub proof fn lemma_other_is_stable(line: Seq<char>)
    requires
        classify(line) is Other,
    ensures
        classify(line).raw() == line,
        classify(classify(line).raw()) is Other,
{
}

proof fn lemma_trim_of_plain(s: Seq<char>)
    requires
        s.len() > 0,
        !is_whitespace(s[0]),
        !is_whitespace(s.last()),
    ensures
        trim(s) == s,
{
}

/// A line `Program log: <msg>` is a program message with exactly `<msg>` as
/// its text and the line as its raw text, for every message that is not
/// empty and does not end in whitespace (trimming would take that away).
pub proof fn lemma_program_message(msg: Seq<char>)
    requires
        msg.len() > 0,
        !is_whitespace(msg.last()),
    ensures
        classify(log_prefix() + msg) == (LineModel::Log { raw: log_prefix() + msg, msg }),
{
    reveal_strlit("Program log: ");
    let line = log_prefix() + msg;
    assert(line[0] == 'P');
    assert(line.last() == msg.last());
    lemma_trim_of_plain(line);
    assert(line.subrange(0, log_prefix().len() as int) =~= log_prefix());
    assert(line.skip(log_prefix().len() as int) =~= msg);
}

/// A letter or a digit of ASCII.
pub open spec fn is_ascii_alnum(c: char) -> bool {
    ('0' <= c && c <= '9') || ('A' <= c && c <= 'Z') || ('a' <= c && c <= 'z')
}

/// The line `Program <id> invoke [<n>]`.
pub open spec fn invoke_line(id: Seq<char>, n: Seq<char>) -> Seq<char> {
    program_prefix() + id + space() + invoke_prefix() + n + invoke_suffix()
}

/// A line `Program <id> invoke [<n>]`, for an identifier token of ASCII
/// letters and digits: an invocation of `<id>` at depth `<n>` when `<id>`
/// has the shape of an identifier and `<n>` reads as a depth, and `Other`
/// when either check fails.
pub proof fn lemma_invoke_line(id: Seq<char>, n: Seq<char>)
    requires
        id.len() > 0,
        forall|i: int| 0 <= i < id.len() ==> is_ascii_alnum(#[trigger] id[i]),
    ensures
        is_pubkey_shape(id) && parse_u8(n) is Some ==> classify(invoke_line(id, n)) == (
        LineModel::Invoke { raw: invoke_line(id, n), program_id: id, depth: parse_u8(n)->0 }),
        !(is_pubkey_shape(id) && parse_u8(n) is Some) ==> classify(invoke_line(id, n)) is Other,
{
    reveal_strlit("Program ");
    reveal_strlit(" ");
    reveal_strlit("invoke [");
    reveal_strlit("]");
    reveal_strlit("Program log: ");
    reveal_strlit("Program data: ");
    reveal_strlit("Program return: ");
    let line = invoke_line(id, n);
    let m = id.len() as int;
    assert(line[0] == 'P');
    assert(line.last() == ']');
    lemma_trim_of_plain(line);
    assert(line[11] != ':') by {
        if m > 3 {
            assert(line[11] == id[3]);
        }
    }
    assert(line[12] != ':') by {
        if m > 4 {
            assert(line[12] == id[4]);
        }
    }
    assert(line[14] != ':') by {
        if m > 6 {
            assert(line[14] == id[6]);
        }
    }
    assert(!has_prefix(line, log_prefix())) by {
        if has_prefix(line, log_prefix()) {
            assert(line.subrange(0, 13)[11] == log_prefix()[11]);
        }
    }
    assert(!has_prefix(line, data_prefix())) by {
        if has_prefix(line, data_prefix()) {
            assert(line.subrange(0, 14)[12] == data_prefix()[12]);
        }
    }
    assert(!has_prefix(line, return_prefix())) by {
        if has_prefix(line, return_prefix()) {
            assert(line.subrange(0, 16)[14] == return_prefix()[14]);
        }
    }
    assert(line.subrange(0, 8) =~= program_prefix());
    let rest = line.skip(8);
    let suffix = invoke_prefix() + n + invoke_suffix();
    assert(rest =~= id + space() + suffix);
    assert(rest.subrange(m, m + 1) =~= space());
    assert forall|j: int| 0 <= j < m implies !#[trigger] matches_at(rest, space(), j) by {
        if matches_at(rest, space(), j) {
            assert(rest.subrange(j, j + 1)[0] == rest[j]);
            assert(rest[j] == id[j]);
        }
    }
    lemma_first_match_unique(rest, space(), m);
    assert(rest.take(m) =~= id);
    assert(rest.skip(m + 1) =~= suffix);
    assert(suffix.subrange(0, 8) =~= invoke_prefix());
    let after = suffix.skip(8);
    assert(after =~= n + invoke_suffix());
    assert(after.subrange(after.len() - 1, after.len() as int) =~= invoke_suffix());
    assert(after.take(after.len() - 1) =~= n);
}

} // verus!
