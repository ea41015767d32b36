//! What reconstruction guarantees of the forest it builds, and when it fails.
use vstd::prelude::*;

use super::{
    attach, finalize, open_frame, reconstruct, run, step, EngineState,
    FrameModel, LogLine, OpenModel, ProgramKey, StructureError,
};

verus! {

/// The identifiers of the invocations still open after the first `n` lines,
/// innermost last, or the first outcome line that does not close the
/// innermost open invocation.
pub open spec fn id_walk<Id: ProgramKey, E, M, D, R, W>(
    lines: Seq<LogLine<Id, E, M, D, R, W>>,
    n: nat,
) -> Result<Seq<Id>, StructureError>
    decreases n,
{
    if n == 0 || n > lines.len() {
        Ok(Seq::empty())
    } else {
        match id_walk(lines, (n - 1) as nat) {
            Err(e) => Err(e),
            Ok(ids) => match lines[n - 1] {
                LogLine::Invoke { program_id, .. } => Ok(ids.push(program_id)),
                LogLine::Success { program_id, .. } => closes(ids, program_id, n - 1),
                LogLine::Failed { program_id, .. } => closes(ids, program_id, n - 1),
                _ => Ok(ids),
            },
        }
    }
}

/// An outcome line at index `i` for `program_id`, with `ids` open.
pub open spec fn closes<Id: ProgramKey>(ids: Seq<Id>, program_id: Id, i: int) -> Result<
    Seq<Id>,
    StructureError,
> {
    if ids.len() == 0 {
        Err(StructureError::UnmatchedOutcome { line: i as usize })
    } else if !ids.last().same_program_spec(&program_id) {
        Err(StructureError::MismatchedOutcome { line: i as usize })
    } else {
        Ok(ids.drop_last())
    }
}

/// Invocation and outcome lines nest properly and match by identifier.
pub open spec fn is_balanced<Id: ProgramKey, E, M, D, R, W>(
    lines: Seq<LogLine<Id, E, M, D, R, W>>,
) -> bool {
    id_walk(lines, lines.len()) == Ok::<Seq<Id>, StructureError>(Seq::empty())
}

/// The number of outcome lines among the first `n` lines.
pub open spec fn outcome_count<Id, E, M, D, R, W>(
    lines: Seq<LogLine<Id, E, M, D, R, W>>,
    n: nat,
) -> nat
    decreases n,
{
    if n == 0 || n > lines.len() {
        0
    } else {
        outcome_count(lines, (n - 1) as nat) + if lines[n - 1] is Success
            || lines[n - 1] is Failed {
            1nat
        } else {
            0nat
        }
    }
}

/// The number of frames in a tree.
pub open spec fn frame_count<Id, E, M, D, R, W>(f: FrameModel<Id, E, M, D, R, W>) -> nat
    decreases f,
{
    1 + forest_count(f.cpi_logs)
}

/// The number of frames in a forest.
pub open spec fn forest_count<Id, E, M, D, R, W>(s: Seq<FrameModel<Id, E, M, D, R, W>>) -> nat
    decreases s,
{
    if s.len() == 0 {
        0
    } else {
        forest_count(s.drop_last()) + frame_count(s.last())
    }
}

/// The identifiers of a stack of open invocations.
pub open spec fn stack_ids<Id, E, M, D, R, W>(stack: Seq<OpenModel<Id, E, M, D, R, W>>) -> Seq<Id> {
    Seq::new(stack.len(), |k: int| stack[k].program_id)
}

/// The open invocations taken together hold this many completed frames.
pub open spec fn open_count<Id, E, M, D, R, W>(stack: Seq<OpenModel<Id, E, M, D, R, W>>) -> nat
    decreases stack.len(),
{
    if stack.len() == 0 {
        0
    } else {
        open_count(stack.drop_last()) + forest_count(stack.last().cpi_logs)
    }
}

proof fn lemma_forest_count_push<Id, E, M, D, R, W>(
    s: Seq<FrameModel<Id, E, M, D, R, W>>,
    f: FrameModel<Id, E, M, D, R, W>,
)
    ensures
        forest_count(s.push(f)) == forest_count(s) + frame_count(f),
{
    assert(s.push(f).drop_last() =~= s);
}

proof fn lemma_open_count_push<Id, E, M, D, R, W>(
    s: Seq<OpenModel<Id, E, M, D, R, W>>,
    b: OpenModel<Id, E, M, D, R, W>,
)
    ensures
        open_count(s.push(b)) == open_count(s) + forest_count(b.cpi_logs),
{
    assert(s.push(b).drop_last() =~= s);
}

/// The stack machine fails exactly where the identifier walk fails, with the
/// same error; otherwise its open invocations are those of the walk.
proof fn lemma_run_follows_walk<Id: ProgramKey, E, M, D, R, W>(
    lines: Seq<LogLine<Id, E, M, D, R, W>>,
    n: nat,
)
    requires
        n <= lines.len(),
    ensures
        match (run(lines, n), id_walk(lines, n)) {
            (Ok(st), Ok(ids)) => stack_ids(st.stack) == ids,
            (Err(a), Err(b)) => a == b,
            _ => false,
        },
    decreases n,
{
    if n == 0 {
        assert(stack_ids(Seq::<OpenModel<Id, E, M, D, R, W>>::empty()) =~= Seq::<Id>::empty());
    } else {
        lemma_run_follows_walk(lines, (n - 1) as nat);
        let i = n - 1;
        match (run(lines, (n - 1) as nat), id_walk(lines, (n - 1) as nat)) {
            (Ok(st), Ok(ids)) => {
                let line = lines[i];
                let s = st.stack;
                if s.len() > 0 {
                    assert(s.last().program_id == ids.last());
                    assert(stack_ids(s.drop_last()) =~= ids.drop_last());
                }
                match line {
                    LogLine::Invoke { program_id, depth, raw } => {
                        assert(stack_ids(s.push(open_frame(program_id, depth, raw))) =~= ids.push(
                            program_id,
                        ));
                    },
                    LogLine::Success { .. } => {
                        lemma_close_follows_walk(st, ids, line, i);
                    },
                    LogLine::Failed { .. } => {
                        lemma_close_follows_walk(st, ids, line, i);
                    },
                    _ => {
                        let next = step(st, line, i);
                        if s.len() > 0 {
                            assert(stack_ids(next->Ok_0.stack) =~= ids);
                        }
                    },
                }
            },
            _ => {},
        }
    }
}

proof fn lemma_close_follows_walk<Id: ProgramKey, E, M, D, R, W>(
    st: EngineState<Id, E, M, D, R, W>,
    ids: Seq<Id>,
    line: LogLine<Id, E, M, D, R, W>,
    i: int,
)
    requires
        stack_ids(st.stack) == ids,
        line is Success || line is Failed,
    ensures
        match (step(st, line, i), closes(ids, outcome_id(line), i)) {
            (Ok(next), Ok(rest)) => stack_ids(next.stack) == rest,
            (Err(a), Err(b)) => a == b,
            _ => false,
        },
{
    let s = st.stack;
    if s.len() > 0 {
        assert(s.last().program_id == ids.last());
        let parent_stack = s.drop_last();
        if parent_stack.len() > 0 {
            let next = step(st, line, i);
            if next is Ok {
                assert(stack_ids(next->Ok_0.stack) =~= ids.drop_last());
            }
        } else {
            assert(stack_ids(parent_stack) =~= ids.drop_last());
        }
    }
}

/// The identifier an outcome line names.
pub open spec fn outcome_id<Id, E, M, D, R, W>(line: LogLine<Id, E, M, D, R, W>) -> Id {
    match line {
        LogLine::Success { program_id, .. } => program_id,
        LogLine::Failed { program_id, .. } => program_id,
        _ => arbitrary(),
    }
}

/// Every outcome line read so far has made exactly one frame, which stands
/// in the forest or under an open invocation.
proof fn lemma_run_counts<Id: ProgramKey, E, M, D, R, W>(
    lines: Seq<LogLine<Id, E, M, D, R, W>>,
    n: nat,
)
    requires
        n <= lines.len(),
        run(lines, n) is Ok,
    ensures
        forest_count(run(lines, n)->Ok_0.roots) + open_count(run(lines, n)->Ok_0.stack)
            == outcome_count(lines, n),
    decreases n,
{
    if n == 0 {
        assert(forest_count(Seq::<FrameModel<Id, E, M, D, R, W>>::empty()) == 0);
    } else {
        let i = n - 1;
        if run(lines, i as nat) is Err {
            assert(run(lines, n) is Err);
        } else {
            lemma_run_counts(lines, i as nat);
            let st = run(lines, i as nat)->Ok_0;
            let next = run(lines, n)->Ok_0;
            let line = lines[i];
            let s = st.stack;
            match line {
                LogLine::Invoke { program_id, depth, raw } => {
                    lemma_open_count_push(s, open_frame::<Id, E, M, D, R, W>(program_id, depth, raw));
                    assert(forest_count(Seq::<FrameModel<Id, E, M, D, R, W>>::empty()) == 0);
                },
                LogLine::Success { .. } | LogLine::Failed { .. } => {
                    let top = s.last();
                    let rest = s.drop_last();
                    let result = match line {
                        LogLine::Success { .. } => super::ProgramResult::Success,
                        LogLine::Failed { err, .. } => super::ProgramResult::Failed(err),
                        _ => arbitrary(),
                    };
                    let raw = match line {
                        LogLine::Success { raw, .. } => raw,
                        LogLine::Failed { raw, .. } => raw,
                        _ => arbitrary(),
                    };
                    let f = finalize(top, result, raw);
                    assert(next == attach(EngineState { stack: rest, roots: st.roots }, f));
                    assert(rest.push(top) =~= s);
                    lemma_open_count_push(rest, top);
                    assert(frame_count(f) == 1 + forest_count(top.cpi_logs));
                    if rest.len() > 0 {
                        let p = rest.last();
                        let p2 = OpenModel {
                            cpi_logs: p.cpi_logs.push(f),
                            raw_logs: p.raw_logs + f.raw_logs,
                            ..p
                        };
                        assert(rest.drop_last().push(p) =~= rest);
                        lemma_open_count_push(rest.drop_last(), p);
                        lemma_open_count_push(rest.drop_last(), p2);
                        lemma_forest_count_push(p.cpi_logs, f);
                    } else {
                        lemma_forest_count_push(st.roots, f);
                    }
                },
                _ => {
                    if s.len() > 0 {
                        let top = s.last();
                        let rest = s.drop_last();
                        assert(rest.push(top) =~= s);
                        lemma_open_count_push(rest, top);
                        lemma_open_count_push(rest, next.stack.last());
                        assert(next.stack =~= rest.push(next.stack.last()));
                    }
                },
            }
        }
    }
}

/// Input whose invocation and outcome lines nest and match by identifier is
/// rebuilt without error, into a forest with one frame per outcome line.
pub proof fn lemma_balanced_input<Id: ProgramKey, E, M, D, R, W>(
    lines: Seq<LogLine<Id, E, M, D, R, W>>,
)
    requires
        is_balanced(lines),
    ensures
        reconstruct(lines) is Ok,
        forest_count(reconstruct(lines)->Ok_0) == outcome_count(lines, lines.len()),
{
    lemma_run_follows_walk(lines, lines.len());
    lemma_run_counts(lines, lines.len());
    let st = run(lines, lines.len())->Ok_0;
    assert(stack_ids(st.stack).len() == 0);
    assert(st.stack =~= Seq::<OpenModel<Id, E, M, D, R, W>>::empty());
}

/// Input with an outcome line that closes no open invocation, or one of
/// another program, or with invocations left open, is rejected as a whole,
/// with the error of the first such fault.
pub proof fn lemma_unbalanced_input<Id: ProgramKey, E, M, D, R, W>(
    lines: Seq<LogLine<Id, E, M, D, R, W>>,
)
    requires
        !is_balanced(lines),
    ensures
        match id_walk(lines, lines.len()) {
            Err(e) => reconstruct(lines) == Err::<Seq<FrameModel<Id, E, M, D, R, W>>, StructureError>(e),
            Ok(ids) => reconstruct(lines) == Err::<Seq<FrameModel<Id, E, M, D, R, W>>, StructureError>(
                StructureError::UnclosedInvocations { open: ids.len() as usize },
            ),
        },
{
    lemma_run_follows_walk(lines, lines.len());
    match id_walk(lines, lines.len()) {
        Ok(ids) => {
            assert(ids.len() > 0) by {
                if ids.len() == 0 {
                    assert(ids =~= Seq::<Id>::empty());
                }
            }
            assert(stack_ids(run(lines, lines.len())->Ok_0.stack).len() == ids.len());
        },
        Err(e) => {},
    }
}

/// The full text of a line.
pub open spec fn line_raw<Id, E, M, D, R, W>(line: LogLine<Id, E, M, D, R, W>) -> W {
    match line {
        LogLine::Invoke { raw, .. } => raw,
        LogLine::Success { raw, .. } => raw,
        LogLine::Failed { raw, .. } => raw,
        LogLine::Log { raw, .. } => raw,
        LogLine::Data { raw, .. } => raw,
        LogLine::Return { raw, .. } => raw,
        LogLine::Cu { raw, .. } => raw,
        LogLine::Other { raw } => raw,
    }
}

/// The full texts of the lines, in order.
pub open spec fn raw_texts<Id, E, M, D, R, W>(lines: Seq<LogLine<Id, E, M, D, R, W>>) -> Seq<W> {
    Seq::new(lines.len(), |i: int| line_raw(lines[i]))
}

/// The indices of the invocation lines still open after the first `n` lines.
pub open spec fn opens<Id, E, M, D, R, W>(lines: Seq<LogLine<Id, E, M, D, R, W>>, n: nat) -> Seq<
    int,
>
    decreases n,
{
    if n == 0 || n > lines.len() {
        Seq::empty()
    } else {
        let o = opens(lines, (n - 1) as nat);
        if lines[n - 1] is Invoke {
            o.push(n - 1)
        } else if (lines[n - 1] is Success || lines[n - 1] is Failed) && o.len() > 0 {
            o.drop_last()
        } else {
            o
        }
    }
}

/// A frame's lines are the input lines `s..s + len`, from its invocation
/// line to its outcome line.
pub open spec fn spans_from<Id, E, M, D, R, W>(
    lines: Seq<LogLine<Id, E, M, D, R, W>>,
    f: FrameModel<Id, E, M, D, R, W>,
    s: int,
) -> bool {
    &&& 0 <= s
    &&& s + f.raw_logs.len() <= lines.len()
    &&& f.raw_logs.len() >= 2
    &&& f.raw_logs == raw_texts(lines).subrange(s, s + f.raw_logs.len())
    &&& lines[s] is Invoke
    &&& lines[s + f.raw_logs.len() - 1] is Success || lines[s + f.raw_logs.len() - 1] is Failed
}

/// A frame's lines are a stretch of the input from an invocation line to an
/// outcome line.
#[verifier::opaque]
pub open spec fn spans_somewhere<Id, E, M, D, R, W>(
    lines: Seq<LogLine<Id, E, M, D, R, W>>,
    f: FrameModel<Id, E, M, D, R, W>,
) -> bool {
    exists|s: int| spans_from(lines, f, s)
}

/// A frame and each of its descendants hold a stretch of the input from an
/// invocation line to an outcome line.
pub open spec fn tree_spans<Id, E, M, D, R, W>(
    lines: Seq<LogLine<Id, E, M, D, R, W>>,
    f: FrameModel<Id, E, M, D, R, W>,
) -> bool
    decreases f,
{
    &&& spans_somewhere(lines, f)
    &&& forall|c: int| 0 <= c < f.cpi_logs.len() ==> tree_spans(lines, #[trigger] f.cpi_logs[c])
}

/// Every frame of a forest, at any depth, holds a stretch of the input.
pub open spec fn forest_spans<Id, E, M, D, R, W>(
    lines: Seq<LogLine<Id, E, M, D, R, W>>,
    s: Seq<FrameModel<Id, E, M, D, R, W>>,
) -> bool {
    forall|c: int| 0 <= c < s.len() ==> tree_spans(lines, #[trigger] s[c])
}

/// The state after `n` lines: each open invocation holds the lines from its
/// invocation line to the next open one, the innermost up to line `n`; each
/// completed top-level frame holds a contiguous stretch of the input.
pub open spec fn spans_ok<Id, E, M, D, R, W>(
    lines: Seq<LogLine<Id, E, M, D, R, W>>,
    n: nat,
    st: EngineState<Id, E, M, D, R, W>,
) -> bool {
    let o = opens(lines, n);
    let d = st.stack.len();
    let raws = raw_texts(lines);
    &&& o.len() == d
    &&& forall|k: int| 0 <= k < d ==> 0 <= #[trigger] o[k] < n && lines[o[k]] is Invoke
    &&& forall|k: int|
        0 <= k < d - 1 ==> #[trigger] o[k] < o[k + 1] && st.stack[k].raw_logs == raws.subrange(
            o[k],
            o[k + 1],
        )
    &&& d > 0 ==> st.stack[d - 1].raw_logs == raws.subrange(o[d - 1], n as int)
    &&& forall|k: int| 0 <= k < d ==> forest_spans(lines, #[trigger] st.stack[k].cpi_logs)
    &&& forest_spans(lines, st.roots)
}

proof fn lemma_invoke_spans<Id: ProgramKey, E, M, D, R, W>(
    lines: Seq<LogLine<Id, E, M, D, R, W>>,
    i: int,
    st: EngineState<Id, E, M, D, R, W>,
)
    requires
        0 <= i < lines.len(),
        lines[i] is Invoke,
        spans_ok(lines, i as nat, st),
    ensures
        spans_ok(lines, (i + 1) as nat, step(st, lines[i], i)->Ok_0),
{
    let raws = raw_texts(lines);
    let n = (i + 1) as nat;
    let next = step(st, lines[i], i)->Ok_0;
    let o = opens(lines, i as nat);
    let o2 = opens(lines, n);
    let d = st.stack.len();
    assert(o2 == o.push(i));
    assert(line_raw(lines[i]) == raws[i]);
    assert(next.stack == st.stack.push(next.stack.last()));
    assert(next.stack.last().raw_logs =~= raws.subrange(i, n as int));
    assert forall|k: int| 0 <= k < next.stack.len() - 1 implies #[trigger] o2[k] < o2[k + 1]
        && next.stack[k].raw_logs == raws.subrange(o2[k], o2[k + 1]) by {
        assert(next.stack[k] == st.stack[k]);
        if k < d - 1 {
            assert(o[k] < o[k + 1]);
        }
    }
    assert forall|k: int| 0 <= k < next.stack.len() implies forest_spans(
        lines,
        #[trigger] next.stack[k].cpi_logs,
    ) by {
        if k < d {
            assert(next.stack[k] == st.stack[k]);
        }
    }
    assert(next.roots == st.roots);
}

proof fn lemma_close_spans<Id: ProgramKey, E, M, D, R, W>(
    lines: Seq<LogLine<Id, E, M, D, R, W>>,
    i: int,
    st: EngineState<Id, E, M, D, R, W>,
)
    requires
        0 <= i < lines.len(),
        lines[i] is Success || lines[i] is Failed,
        spans_ok(lines, i as nat, st),
        step(st, lines[i], i) is Ok,
    ensures
        spans_ok(lines, (i + 1) as nat, step(st, lines[i], i)->Ok_0),
{
    let raws = raw_texts(lines);
    let n = (i + 1) as nat;
    let line = lines[i];
    let next = step(st, line, i)->Ok_0;
    let o = opens(lines, i as nat);
    let s = st.stack;
    let d = s.len();
    let top = s.last();
    let rest = s.drop_last();
    let result = match line {
        LogLine::Success { .. } => super::ProgramResult::Success,
        LogLine::Failed { err, .. } => super::ProgramResult::Failed(err),
        _ => arbitrary(),
    };
    let f = finalize(top, result, line_raw(line));
    assert(next == attach(EngineState { stack: rest, roots: st.roots }, f));
    assert(opens(lines, n) == o.drop_last());
    assert(line_raw(line) == raws[i]);
    let ft_raw = raws.subrange(o[d - 1], n as int);
    assert(top.raw_logs.push(raws[i]) =~= ft_raw);
    assert(spans_from(lines, f, o[d - 1]));
    assert(spans_somewhere(lines, f)) by {
        reveal(spans_somewhere);
    }
    assert(forest_spans(lines, top.cpi_logs));
    assert(tree_spans(lines, f));
    if rest.len() > 0 {
        let p = rest.last();
        assert(p.raw_logs + ft_raw =~= raws.subrange(o[d - 2], n as int)) by {
            assert(o[d - 2] < o[d - 1]);
        }
        assert(next.stack.last().raw_logs == p.raw_logs + ft_raw);
        assert forall|k: int| 0 <= k < d - 2 implies next.stack[k] == s[k] by {
            assert(next.stack[k] == rest.drop_last()[k]);
        }
        assert(forest_spans(lines, p.cpi_logs));
        assert forall|c: int| 0 <= c < p.cpi_logs.len() + 1 implies tree_spans(
            lines,
            #[trigger] p.cpi_logs.push(f)[c],
        ) by {
            if c < p.cpi_logs.len() {
                assert(p.cpi_logs.push(f)[c] == p.cpi_logs[c]);
            }
        }
        assert(forest_spans(lines, next.stack.last().cpi_logs));
        assert forall|k: int| 0 <= k < next.stack.len() implies forest_spans(
            lines,
            #[trigger] next.stack[k].cpi_logs,
        ) by {
            if k < d - 2 {
                assert(next.stack[k] == s[k]);
            }
        }
        assert(next.roots == st.roots);
    } else {
        assert forall|k: int| 0 <= k < next.roots.len() implies tree_spans(
            lines,
            #[trigger] next.roots[k],
        ) by {
            if k < st.roots.len() {
                assert(next.roots[k] == st.roots[k]);
            }
        }
    }
}

proof fn lemma_attach_spans<Id: ProgramKey, E, M, D, R, W>(
    lines: Seq<LogLine<Id, E, M, D, R, W>>,
    i: int,
    st: EngineState<Id, E, M, D, R, W>,
)
    requires
        0 <= i < lines.len(),
        !(lines[i] is Invoke || lines[i] is Success || lines[i] is Failed),
        spans_ok(lines, i as nat, st),
    ensures
        spans_ok(lines, (i + 1) as nat, step(st, lines[i], i)->Ok_0),
{
    let raws = raw_texts(lines);
    let n = (i + 1) as nat;
    let next = step(st, lines[i], i)->Ok_0;
    let o = opens(lines, i as nat);
    let s = st.stack;
    let d = s.len();
    assert(opens(lines, n) == o);
    assert(line_raw(lines[i]) == raws[i]);
    if d > 0 {
        assert(next.stack.last().raw_logs =~= raws.subrange(o[d - 1], n as int));
        assert forall|k: int| 0 <= k < d - 1 implies next.stack[k] == s[k] by {
            assert(next.stack[k] == s.drop_last()[k]);
        }
        assert forall|k: int| 0 <= k < d implies forest_spans(
            lines,
            #[trigger] next.stack[k].cpi_logs,
        ) by {
            if k < d - 1 {
                assert(next.stack[k] == s[k]);
            }
        }
    }
    assert(next.roots == st.roots);
}

proof fn lemma_run_spans<Id: ProgramKey, E, M, D, R, W>(
    lines: Seq<LogLine<Id, E, M, D, R, W>>,
    n: nat,
)
    requires
        n <= lines.len(),
        run(lines, n) is Ok,
    ensures
        spans_ok(lines, n, run(lines, n)->Ok_0),
    decreases n,
{
    if n > 0 {
        let i = n - 1;
        if run(lines, i as nat) is Err {
            assert(run(lines, n) is Err);
        } else {
            lemma_run_spans(lines, i as nat);
            let st = run(lines, i as nat)->Ok_0;
            assert(run(lines, n) == step(st, lines[i], i));
            if lines[i] is Invoke {
                lemma_invoke_spans(lines, i, st);
            } else if lines[i] is Success || lines[i] is Failed {
                lemma_close_spans(lines, i, st);
            } else {
                lemma_attach_spans(lines, i, st);
            }
        }
    }
}

/// Round trip: every frame of a rebuilt forest, and each of its descendants,
/// holds exactly the input lines from its invocation line to its outcome
/// line, in order, those of the invocations it made included.
pub proof fn lemma_frames_hold_their_lines<Id: ProgramKey, E, M, D, R, W>(
    lines: Seq<LogLine<Id, E, M, D, R, W>>,
)
    requires
        reconstruct(lines) is Ok,
    ensures
        forest_spans(lines, reconstruct(lines)->Ok_0),
{
    lemma_run_spans(lines, lines.len());
}

} // verus!
