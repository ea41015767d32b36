//! Reconstruction of the call tree from classified lines: one stack machine,
//! shared by the text form and the decoded form of the lines.
use vstd::prelude::*;

pub mod laws;
pub mod parsed;
pub mod raw;

verus! {

/// Compute units reported for one invocation.
#[derive(Debug, Clone, Copy, PartialEq, Eq)]
pub struct ComputeUnits {
    pub consumed: u64,
    pub budget: u64,
}

/// How an invocation ended.
#[derive(Debug, Clone, PartialEq, Eq)]
pub enum ProgramResult<E> {
    Success,
    Failed(E),
}

/// Why a sequence of lines does not form a call tree.
#[derive(Debug, Clone, Copy, PartialEq, Eq)]
pub enum StructureError {
    /// The outcome line at this index has no open invocation to close.
    UnmatchedOutcome { line: usize },
    /// The outcome line at this index names another program than the
    /// innermost open invocation.
    MismatchedOutcome { line: usize },
    /// This many invocations are still open at the end of the input.
    UnclosedInvocations { open: usize },
}

/// Identifiers that can be compared for the same program.
pub trait ProgramKey: Sized {
    spec fn same_program_spec(&self, other: &Self) -> bool;

    fn same_program(&self, other: &Self) -> (r: bool)
        ensures
            r == self.same_program_spec(other),
    ;
}

/// Line texts that a frame and its parent both keep.
pub trait LineText: Sized {
    fn duplicate(&self) -> (r: Self)
        ensures
            r == *self,
    ;
}

impl<'a> ProgramKey for &'a str {
    open spec fn same_program_spec(&self, other: &Self) -> bool {
        (*self)@ == (*other)@
    }

    fn same_program(&self, other: &Self) -> (r: bool) {
        let n = self.unicode_len();
        if n != other.unicode_len() {
            return false;
        }
        let mut i: usize = 0;
        while i < n
            invariant
                n == (*self)@.len(),
                n == (*other)@.len(),
                i <= n,
                forall|k: int| 0 <= k < i ==> (*self)@[k] == (*other)@[k],
            decreases n - i,
        {
            if self.get_char(i) != other.get_char(i) {
                return false;
            }
            i = i + 1;
        }
        assert((*self)@ =~= (*other)@);
        true
    }
}

impl<'a> LineText for &'a str {
    fn duplicate(&self) -> (r: Self) {
        *self
    }
}

impl LineText for String {
    fn duplicate(&self) -> (r: Self) {
        self.clone()
    }
}

/// One classified line, as the stack machine reads it.
pub enum LogLine<Id, E, M, D, R, W> {
    Invoke { program_id: Id, depth: u8, raw: W },
    Success { program_id: Id, raw: W },
    Failed { program_id: Id, err: E, raw: W },
    Log { entry: M, raw: W },
    Data { entry: D, raw: W },
    Return { program_id: Id, data: R, raw: W },
    Cu { program_id: Id, units: ComputeUnits, raw: W },
    Other { raw: W },
}

/// One completed invocation, with the invocations it made.
#[derive(Debug, PartialEq, Eq)]
pub struct StructuredLog<Id, E, M, D, R, W> {
    pub program_id: Id,
    pub depth: u8,
    pub result: ProgramResult<E>,
    pub program_logs: Vec<M>,
    pub data_logs: Vec<D>,
    pub return_data: Option<R>,
    pub compute_log: Option<ComputeUnits>,
    pub cpi_logs: Vec<StructuredLog<Id, E, M, D, R, W>>,
    pub raw_logs: Vec<W>,
}

/// The model of a completed invocation.
pub struct FrameModel<Id, E, M, D, R, W> {
    pub program_id: Id,
    pub depth: u8,
    pub result: ProgramResult<E>,
    pub program_logs: Seq<M>,
    pub data_logs: Seq<D>,
    pub return_data: Option<R>,
    pub compute_log: Option<ComputeUnits>,
    pub cpi_logs: Seq<FrameModel<Id, E, M, D, R, W>>,
    pub raw_logs: Seq<W>,
}

/// The model of an invocation that is still open.
pub struct OpenModel<Id, E, M, D, R, W> {
    pub program_id: Id,
    pub depth: u8,
    pub program_logs: Seq<M>,
    pub data_logs: Seq<D>,
    pub return_data: Option<R>,
    pub compute_log: Option<ComputeUnits>,
    pub cpi_logs: Seq<FrameModel<Id, E, M, D, R, W>>,
    pub raw_logs: Seq<W>,
}

/// The stack machine's state: the open invocations, innermost last, and the
/// completed top-level invocations.
pub struct EngineState<Id, E, M, D, R, W> {
    pub stack: Seq<OpenModel<Id, E, M, D, R, W>>,
    pub roots: Seq<FrameModel<Id, E, M, D, R, W>>,
}

impl<Id, E, M, D, R, W> StructuredLog<Id, E, M, D, R, W> {
    /// The frame's model, its callees' included.
    pub open spec fn model(self) -> FrameModel<Id, E, M, D, R, W>
        decreases self,
    {
        FrameModel {
            program_id: self.program_id,
            depth: self.depth,
            result: self.result,
            program_logs: self.program_logs@,
            data_logs: self.data_logs@,
            return_data: self.return_data,
            compute_log: self.compute_log,
            cpi_logs: Seq::new(
                self.cpi_logs@.len(),
                |i: int|
                    if 0 <= i < self.cpi_logs@.len() {
                        self.cpi_logs@[i].model()
                    } else {
                        arbitrary()
                    },
            ),
            raw_logs: self.raw_logs@,
        }
    }
}

/// The models of a sequence of completed invocations.
pub open spec fn frames_model<Id, E, M, D, R, W>(s: Seq<StructuredLog<Id, E, M, D, R, W>>) -> Seq<
    FrameModel<Id, E, M, D, R, W>,
> {
    Seq::new(s.len(), |i: int| s[i].model())
}

/// An invocation just opened by its invocation line.
pub open spec fn open_frame<Id, E, M, D, R, W>(program_id: Id, depth: u8, raw: W) -> OpenModel<
    Id,
    E,
    M,
    D,
    R,
    W,
> {
    OpenModel {
        program_id,
        depth,
        program_logs: Seq::empty(),
        data_logs: Seq::empty(),
        return_data: None,
        compute_log: None,
        cpi_logs: Seq::empty(),
        raw_logs: seq![raw],
    }
}

/// An open invocation closed by its outcome line.
pub open spec fn finalize<Id, E, M, D, R, W>(
    b: OpenModel<Id, E, M, D, R, W>,
    result: ProgramResult<E>,
    raw: W,
) -> FrameModel<Id, E, M, D, R, W> {
    FrameModel {
        program_id: b.program_id,
        depth: b.depth,
        result,
        program_logs: b.program_logs,
        data_logs: b.data_logs,
        return_data: b.return_data,
        compute_log: b.compute_log,
        cpi_logs: b.cpi_logs,
        raw_logs: b.raw_logs.push(raw),
    }
}

/// A completed invocation joins its caller, or the top level if it has none;
/// the caller keeps the lines of its callee too.
pub open spec fn attach<Id, E, M, D, R, W>(
    st: EngineState<Id, E, M, D, R, W>,
    f: FrameModel<Id, E, M, D, R, W>,
) -> EngineState<Id, E, M, D, R, W> {
    if st.stack.len() > 0 {
        let top = st.stack.last();
        EngineState {
            stack: st.stack.drop_last().push(
                OpenModel { cpi_logs: top.cpi_logs.push(f), raw_logs: top.raw_logs + f.raw_logs, ..top },
            ),
            roots: st.roots,
        }
    } else {
        EngineState { stack: st.stack, roots: st.roots.push(f) }
    }
}

/// Applies `change` to the innermost open invocation; with none open the
/// state stays as it is.
pub open spec fn with_top<Id, E, M, D, R, W>(
    st: EngineState<Id, E, M, D, R, W>,
    change: spec_fn(OpenModel<Id, E, M, D, R, W>) -> OpenModel<Id, E, M, D, R, W>,
) -> EngineState<Id, E, M, D, R, W> {
    if st.stack.len() > 0 {
        EngineState {
            stack: st.stack.drop_last().push(change(st.stack.last())),
            roots: st.roots,
        }
    } else {
        st
    }
}

/// An outcome line at index `i` closes the innermost open invocation.
pub open spec fn close<Id: ProgramKey, E, M, D, R, W>(
    st: EngineState<Id, E, M, D, R, W>,
    program_id: Id,
    result: ProgramResult<E>,
    raw: W,
    i: int,
) -> Result<EngineState<Id, E, M, D, R, W>, StructureError> {
    if st.stack.len() == 0 {
        Err(StructureError::UnmatchedOutcome { line: i as usize })
    } else if !st.stack.last().program_id.same_program_spec(&program_id) {
        Err(StructureError::MismatchedOutcome { line: i as usize })
    } else {
        Ok(
            attach(
                EngineState { stack: st.stack.drop_last(), roots: st.roots },
                finalize(st.stack.last(), result, raw),
            ),
        )
    }
}

/// One step of the stack machine on the line at index `i`.
pub open spec fn step<Id: ProgramKey, E, M, D, R, W>(
    st: EngineState<Id, E, M, D, R, W>,
    line: LogLine<Id, E, M, D, R, W>,
    i: int,
) -> Result<EngineState<Id, E, M, D, R, W>, StructureError> {
    match line {
        LogLine::Invoke { program_id, depth, raw } => Ok(
            EngineState { stack: st.stack.push(open_frame(program_id, depth, raw)), roots: st.roots },
        ),
        LogLine::Success { program_id, raw } => close(
            st,
            program_id,
            ProgramResult::Success,
            raw,
            i,
        ),
        LogLine::Failed { program_id, err, raw } => close(
            st,
            program_id,
            ProgramResult::Failed(err),
            raw,
            i,
        ),
        LogLine::Log { entry, raw } => Ok(
            with_top(
                st,
                |b: OpenModel<Id, E, M, D, R, W>|
                    OpenModel {
                        program_logs: b.program_logs.push(entry),
                        raw_logs: b.raw_logs.push(raw),
                        ..b
                    },
            ),
        ),
        LogLine::Data { entry, raw } => Ok(
            with_top(
                st,
                |b: OpenModel<Id, E, M, D, R, W>|
                    OpenModel { data_logs: b.data_logs.push(entry), raw_logs: b.raw_logs.push(raw), ..b },
            ),
        ),
        LogLine::Return { program_id, data, raw } => Ok(
            with_top(
                st,
                |b: OpenModel<Id, E, M, D, R, W>|
                    if b.program_id.same_program_spec(&program_id) {
                        OpenModel { return_data: Some(data), raw_logs: b.raw_logs.push(raw), ..b }
                    } else {
                        OpenModel { raw_logs: b.raw_logs.push(raw), ..b }
                    },
            ),
        ),
        LogLine::Cu { program_id, units, raw } => Ok(
            with_top(
                st,
                |b: OpenModel<Id, E, M, D, R, W>|
                    if b.program_id.same_program_spec(&program_id) {
                        OpenModel { compute_log: Some(units), raw_logs: b.raw_logs.push(raw), ..b }
                    } else {
                        OpenModel { raw_logs: b.raw_logs.push(raw), ..b }
                    },
            ),
        ),
        LogLine::Other { raw } => Ok(
            with_top(
                st,
                |b: OpenModel<Id, E, M, D, R, W>| OpenModel { raw_logs: b.raw_logs.push(raw), ..b },
            ),
        ),
    }
}

/// The state after the first `n` lines, or the first error among them.
pub open spec fn run<Id: ProgramKey, E, M, D, R, W>(
    lines: Seq<LogLine<Id, E, M, D, R, W>>,
    n: nat,
) -> Result<EngineState<Id, E, M, D, R, W>, StructureError>
    decreases n,
{
    if n == 0 || n > lines.len() {
        Ok(EngineState { stack: Seq::empty(), roots: Seq::empty() })
    } else {
        match run(lines, (n - 1) as nat) {
            Ok(st) => step(st, lines[n - 1], n - 1),
            Err(e) => Err(e),
        }
    }
}

/// The call forest of a whole sequence of lines: every invocation must be
/// closed at the end.
pub open spec fn reconstruct<Id: ProgramKey, E, M, D, R, W>(
    lines: Seq<LogLine<Id, E, M, D, R, W>>,
) -> Result<Seq<FrameModel<Id, E, M, D, R, W>>, StructureError> {
    match run(lines, lines.len()) {
        Ok(st) => if st.stack.len() == 0 {
            Ok(st.roots)
        } else {
            Err(StructureError::UnclosedInvocations { open: st.stack.len() as usize })
        },
        Err(e) => Err(e),
    }
}

/// The models of a stack of open invocations.
pub open spec fn builders_model<Id, E, M, D, R, W>(s: Seq<FrameBuilder<Id, E, M, D, R, W>>) -> Seq<
    OpenModel<Id, E, M, D, R, W>,
> {
    Seq::new(s.len(), |i: int| s[i].model())
}

/// An invocation that is still open: it gathers the lines that belong to it.
pub struct FrameBuilder<Id, E, M, D, R, W> {
    program_id: Id,
    depth: u8,
    program_logs: Vec<M>,
    data_logs: Vec<D>,
    return_data: Option<R>,
    compute_log: Option<ComputeUnits>,
    cpi_logs: Vec<StructuredLog<Id, E, M, D, R, W>>,
    raw_logs: Vec<W>,
}

impl<Id, E, M, D, R, W> FrameBuilder<Id, E, M, D, R, W> {
    pub closed spec fn model(self) -> OpenModel<Id, E, M, D, R, W> {
        OpenModel {
            program_id: self.program_id,
            depth: self.depth,
            program_logs: self.program_logs@,
            data_logs: self.data_logs@,
            return_data: self.return_data,
            compute_log: self.compute_log,
            cpi_logs: frames_model(self.cpi_logs@),
            raw_logs: self.raw_logs@,
        }
    }

    pub fn new(program_id: Id, depth: u8, raw: W) -> (r: Self)
        ensures
            r.model() == open_frame::<Id, E, M, D, R, W>(program_id, depth, raw),
    {
        let mut raw_logs = Vec::new();
        raw_logs.push(raw);
        let r = FrameBuilder {
            program_id,
            depth,
            program_logs: Vec::new(),
            data_logs: Vec::new(),
            return_data: None,
            compute_log: None,
            cpi_logs: Vec::new(),
            raw_logs,
        };
        assert(r.model().raw_logs =~= seq![raw]);
        assert(r.model().cpi_logs =~= Seq::empty());
        r
    }

    pub fn push_program_log(&mut self, log: M, raw: W)
        ensures
            final(self).model() == (OpenModel {
                program_logs: old(self).model().program_logs.push(log),
                raw_logs: old(self).model().raw_logs.push(raw),
                ..old(self).model()
            }),
    {
        self.raw_logs.push(raw);
        self.program_logs.push(log);
    }

    pub fn push_data_log(&mut self, log: D, raw: W)
        ensures
            final(self).model() == (OpenModel {
                data_logs: old(self).model().data_logs.push(log),
                raw_logs: old(self).model().raw_logs.push(raw),
                ..old(self).model()
            }),
    {
        self.raw_logs.push(raw);
        self.data_logs.push(log);
    }

    pub fn push_raw(&mut self, raw: W)
        ensures
            final(self).model() == (OpenModel {
                raw_logs: old(self).model().raw_logs.push(raw),
                ..old(self).model()
            }),
    {
        self.raw_logs.push(raw);
    }

    pub fn set_return_data(&mut self, data: R, raw: W)
        ensures
            final(self).model() == (OpenModel {
                return_data: Some(data),
                raw_logs: old(self).model().raw_logs.push(raw),
                ..old(self).model()
            }),
    {
        self.raw_logs.push(raw);
        self.return_data = Some(data);
    }

    pub fn set_compute_log(&mut self, units: ComputeUnits, raw: W)
        ensures
            final(self).model() == (OpenModel {
                compute_log: Some(units),
                raw_logs: old(self).model().raw_logs.push(raw),
                ..old(self).model()
            }),
    {
        self.raw_logs.push(raw);
        self.compute_log = Some(units);
    }

    /// Takes a completed callee, and a copy of its lines.
    pub fn push_child(&mut self, child: StructuredLog<Id, E, M, D, R, W>)
        where W: LineText,
        ensures
            final(self).model() == (OpenModel {
                cpi_logs: old(self).model().cpi_logs.push(child.model()),
                raw_logs: old(self).model().raw_logs + child.model().raw_logs,
                ..old(self).model()
            }),
    {
        let ghost before = self.raw_logs@;
        let n = child.raw_logs.len();
        let mut j: usize = 0;
        while j < n
            invariant
                n == child.raw_logs@.len(),
                j <= n,
                self.raw_logs@ == before + child.raw_logs@.take(j as int),
                self.program_id == old(self).program_id,
                self.depth == old(self).depth,
                self.program_logs == old(self).program_logs,
                self.data_logs == old(self).data_logs,
                self.return_data == old(self).return_data,
                self.compute_log == old(self).compute_log,
                self.cpi_logs == old(self).cpi_logs,
            decreases n - j,
        {
            let line = child.raw_logs[j].duplicate();
            self.raw_logs.push(line);
            assert(child.raw_logs@.take(j + 1) =~= child.raw_logs@.take(j as int).push(line));
            j = j + 1;
        }
        assert(child.raw_logs@.take(n as int) =~= child.raw_logs@);
        let ghost old_cpi = self.cpi_logs@;
        self.cpi_logs.push(child);
        assert(frames_model(self.cpi_logs@) =~= frames_model(old_cpi).push(child.model()));
    }

    /// Closes the invocation with its outcome line.
    pub fn finalize(self, result: ProgramResult<E>, final_raw: W) -> (r: StructuredLog<
        Id,
        E,
        M,
        D,
        R,
        W,
    >)
        ensures
            r.model() == finalize(self.model(), result, final_raw),
    {
        let mut raw_logs = self.raw_logs;
        raw_logs.push(final_raw);
        let r = StructuredLog {
            program_id: self.program_id,
            depth: self.depth,
            result,
            program_logs: self.program_logs,
            data_logs: self.data_logs,
            return_data: self.return_data,
            compute_log: self.compute_log,
            cpi_logs: self.cpi_logs,
            raw_logs,
        };
        assert(r.model().cpi_logs =~= frames_model(r.cpi_logs@));
        r
    }
}

/// The same items in reverse order.
fn reversed<T>(v: Vec<T>) -> (r: Vec<T>)
    ensures
        r@.len() == v@.len(),
        forall|j: int| 0 <= j < v@.len() ==> #[trigger] r@[j] == v@[v@.len() - 1 - j],
{
    let ghost s = v@;
    let mut v = v;
    let mut r: Vec<T> = Vec::new();
    while v.len() > 0
        invariant
            v@ == s.take(v@.len() as int),
            v@.len() + r@.len() == s.len(),
            forall|j: int| 0 <= j < r@.len() ==> #[trigger] r@[j] == s[s.len() - 1 - j],
        decreases v@.len(),
    {
        let ghost k = v@.len();
        match v.pop() {
            Some(x) => {
                r.push(x);
                assert(v@ =~= s.take(k - 1));
            },
            None => {},
        }
    }
    r
}

/// The stack machine's state as the executable stack and forest hold it.
pub open spec fn state_of<Id, E, M, D, R, W>(
    stack: Seq<FrameBuilder<Id, E, M, D, R, W>>,
    completed: Seq<StructuredLog<Id, E, M, D, R, W>>,
) -> EngineState<Id, E, M, D, R, W> {
    EngineState { stack: builders_model(stack), roots: frames_model(completed) }
}

/// Puts a completed invocation under its caller, or at the top level.
fn attach_frame<Id, E, M, D, R, W: LineText>(
    stack: &mut Vec<FrameBuilder<Id, E, M, D, R, W>>,
    completed: &mut Vec<StructuredLog<Id, E, M, D, R, W>>,
    frame: StructuredLog<Id, E, M, D, R, W>,
)
    ensures
        state_of(final(stack)@, final(completed)@) == attach(
            state_of(old(stack)@, old(completed)@),
            frame.model(),
        ),
{
    let ghost st = state_of(stack@, completed@);
    match stack.pop() {
        Some(mut parent) => {
            let ghost rest = stack@;
            parent.push_child(frame);
            stack.push(parent);
            assert(builders_model(stack@) =~= st.stack.drop_last().push(parent.model()));
        },
        None => {
            let ghost old_done = completed@;
            completed.push(frame);
            assert(frames_model(completed@) =~= frames_model(old_done).push(frame.model()));
        },
    }
}

/// Closes the innermost open invocation with an outcome line at index `i`.
fn close_top<Id: ProgramKey, E, M, D, R, W: LineText>(
    stack: &mut Vec<FrameBuilder<Id, E, M, D, R, W>>,
    completed: &mut Vec<StructuredLog<Id, E, M, D, R, W>>,
    program_id: Id,
    result: ProgramResult<E>,
    raw: W,
    i: usize,
) -> (r: Result<(), StructureError>)
    ensures
        match close(state_of(old(stack)@, old(completed)@), program_id, result, raw, i as int) {
            Ok(st) => r is Ok && st == state_of(final(stack)@, final(completed)@),
            Err(e) => r == Err::<(), StructureError>(e),
        },
{
    let ghost st = state_of(stack@, completed@);
    match stack.pop() {
        None => Err(StructureError::UnmatchedOutcome { line: i }),
        Some(top) => {
            assert(top.model() == st.stack.last());
            if !top.program_id.same_program(&program_id) {
                return Err(StructureError::MismatchedOutcome { line: i });
            }
            assert(builders_model(stack@) =~= st.stack.drop_last());
            let frame = top.finalize(result, raw);
            attach_frame(stack, completed, frame);
            Ok(())
        },
    }
}

/// Applies one line that does not open or close an invocation to the
/// innermost open one; with none open, the line is dropped.
fn apply_to_top<Id: ProgramKey, E, M, D, R, W>(
    stack: &mut Vec<FrameBuilder<Id, E, M, D, R, W>>,
    completed: &Vec<StructuredLog<Id, E, M, D, R, W>>,
    line: LogLine<Id, E, M, D, R, W>,
    i: usize,
)
    requires
        !(line is Invoke || line is Success || line is Failed),
    ensures
        step(state_of(old(stack)@, completed@), line, i as int) == Ok::<
            EngineState<Id, E, M, D, R, W>,
            StructureError,
        >(state_of(final(stack)@, completed@)),
{
    let ghost st = state_of(stack@, completed@);
    match stack.pop() {
        None => {},
        Some(mut top) => {
            assert(top.model() == st.stack.last());
            match line {
                LogLine::Log { entry, raw } => top.push_program_log(entry, raw),
                LogLine::Data { entry, raw } => top.push_data_log(entry, raw),
                LogLine::Return { program_id, data, raw } => {
                    if top.program_id.same_program(&program_id) {
                        top.set_return_data(data, raw);
                    } else {
                        top.push_raw(raw);
                    }
                },
                LogLine::Cu { program_id, units, raw } => {
                    if top.program_id.same_program(&program_id) {
                        top.set_compute_log(units, raw);
                    } else {
                        top.push_raw(raw);
                    }
                },
                LogLine::Other { raw } => top.push_raw(raw),
                _ => {},
            }
            stack.push(top);
            assert(builders_model(stack@) =~= st.stack.drop_last().push(top.model()));
        },
    }
}

/// The model of a reconstruction's result.
pub open spec fn forest_result<Id, E, M, D, R, W>(
    r: Result<Vec<StructuredLog<Id, E, M, D, R, W>>, StructureError>,
) -> Result<Seq<FrameModel<Id, E, M, D, R, W>>, StructureError> {
    match r {
        Ok(v) => Ok(frames_model(v@)),
        Err(e) => Err(e),
    }
}

/// Once a line fails, the run stays failed with that error.
pub proof fn lemma_run_error_stays<Id: ProgramKey, E, M, D, R, W>(
    lines: Seq<LogLine<Id, E, M, D, R, W>>,
    k: nat,
    m: nat,
)
    requires
        run(lines, k) is Err,
        0 < k <= m <= lines.len(),
    ensures
        run(lines, m) == run(lines, k),
    decreases m - k,
{
    if k < m {
        lemma_run_error_stays(lines, k, (m - 1) as nat);
    }
}

impl<Id: ProgramKey, E, M, D, R, W: LineText> StructuredLog<Id, E, M, D, R, W> {
    /// Rebuilds the call forest from classified lines, in order: the stack
    /// machine of `reconstruct`, run on the lines.
    pub fn from_logs(logs: Vec<LogLine<Id, E, M, D, R, W>>) -> (r: Result<Vec<Self>, StructureError>)
        ensures
            forest_result(r) == reconstruct(logs@),
    {
        let ghost lines = logs@;
        let n = logs.len();
        let mut rev = reversed(logs);
        let mut stack: Vec<FrameBuilder<Id, E, M, D, R, W>> = Vec::new();
        let mut completed: Vec<StructuredLog<Id, E, M, D, R, W>> = Vec::new();
        let mut i: usize = 0;
        assert(builders_model(stack@) =~= Seq::empty());
        assert(frames_model(completed@) =~= Seq::empty());
        while i < n
            invariant
                n == lines.len(),
                lines == logs@,
                i <= n,
                rev@.len() == n - i,
                forall|j: int| 0 <= j < n - i ==> #[trigger] rev@[j] == lines[n - 1 - j],
                run(lines, i as nat) == Ok::<EngineState<Id, E, M, D, R, W>, StructureError>(
                    state_of(stack@, completed@),
                ),
            decreases n - i,
        {
            let ghost before = rev@;
            let line = rev.pop().unwrap();
            assert(line == lines[i as int]) by {
                assert(before[before.len() - 1] == lines[n - 1 - (n - i - 1)]);
            }
            assert forall|j: int| 0 <= j < n - (i + 1) implies #[trigger] rev@[j] == lines[n - 1 - j] by {
                assert(rev@[j] == before[j]);
            }
            let ghost st = state_of(stack@, completed@);
            match line {
                LogLine::Invoke { program_id, depth, raw } => {
                    let b = FrameBuilder::new(program_id, depth, raw);
                    stack.push(b);
                    assert(builders_model(stack@) =~= st.stack.push(b.model()));
                },
                LogLine::Success { program_id, raw } => {
                    match close_top(&mut stack, &mut completed, program_id, ProgramResult::Success, raw, i) {
                        Ok(()) => {},
                        Err(e) => {
                            proof {
                                assert(run(lines, (i + 1) as nat) == step(st, line, i as int));
                                lemma_run_error_stays(lines, (i + 1) as nat, n as nat);
                            }
                            return Err(e);
                        },
                    }
                },
                LogLine::Failed { program_id, err, raw } => {
                    match close_top(
                        &mut stack,
                        &mut completed,
                        program_id,
                        ProgramResult::Failed(err),
                        raw,
                        i,
                    ) {
                        Ok(()) => {},
                        Err(e) => {
                            proof {
                                assert(run(lines, (i + 1) as nat) == step(st, line, i as int));
                                lemma_run_error_stays(lines, (i + 1) as nat, n as nat);
                            }
                            return Err(e);
                        },
                    }
                },
                _ => {
                    apply_to_top(&mut stack, &completed, line, i);
                },
            }
            i = i + 1;
        }
        if stack.len() > 0 {
            return Err(StructureError::UnclosedInvocations { open: stack.len() });
        }
        Ok(completed)
    }

}

} // verus!
