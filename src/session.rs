//! The debug session: lifecycle, breakpoints by source, and the run state of
//! the debuggee. The execution engine is driven through `Order`s and reports
//! back through `EngineReport`s; the session decides every transition.
use vstd::prelude::*;

verus! {

#[derive(Debug, Clone, Copy, PartialEq, Eq, Structural)]
pub enum StopReason {
    Breakpoint,
    Step,
    Pause,
}

/// Stepping granularity: into the callee, out to the caller, over the line.
#[derive(Debug, Clone, Copy, PartialEq, Eq, Structural)]
pub enum Granularity {
    In,
    Out,
    Over,
}

#[derive(Debug, Clone, Copy, PartialEq, Eq, Structural)]
pub enum Phase {
    Uninitialized,
    Initialized,
    Running,
    Stopped { reason: StopReason, thread: u64 },
    Terminated,
    Disconnected,
}

/// Events pushed to the client outside the request/response cycle.
#[derive(Debug, Clone, Copy, PartialEq, Eq, Structural)]
pub enum Event {
    Initialized,
    Stopped { reason: StopReason, thread: u64 },
    Terminated,
}

/// What the execution engine is told to do.
#[derive(Debug, Clone, Copy, PartialEq, Eq, Structural)]
pub enum Order {
    /// Begin running the launched program.
    Start,
    /// Resume the stopped thread.
    Resume,
    /// Resume the stopped thread for one step.
    Step(Granularity),
    /// Suspend the running thread at its next safe point.
    Interrupt,
    /// Tear the execution context down, whatever it is doing.
    Halt,
}

/// What the execution engine tells the session.
#[derive(Debug)]
pub enum EngineReport {
    /// A thread is about to run `line` of `source`; `condition_holds` is
    /// what the engine found the condition of a breakpoint there to be
    /// (it is not read where the breakpoint has no condition).
    Reached { thread: u64, source: String, line: u64, condition_holds: bool },
    /// A step that was ordered has completed.
    StepDone { thread: u64 },
    /// An interrupt that was ordered has taken effect.
    Paused { thread: u64 },
    /// The program ran to its end.
    Finished,
}

/// Commands that the session state does not allow.
#[derive(Debug, Clone, Copy, PartialEq, Eq, Structural)]
pub enum SessionError {
    NotInitialized,
    AlreadyInitialized,
    NotLaunched,
    AlreadyLaunched,
    AlreadyConfigured,
    NotRunning,
    NotStopped,
    WrongThread,
    Ended,
}

/// A breakpoint as the client asks for it: a line and, optionally, a
/// condition that must hold for the breakpoint to stop the thread.
#[derive(Debug, Clone)]
pub struct SourceBreakpoint {
    pub line: u64,
    pub condition: Option<String>,
}

/// A requested breakpoint as a value: its line and its condition's text.
pub type BreakpointSpec = (u64, Option<Seq<char>>);

pub open spec fn breakpoint_view(b: SourceBreakpoint) -> BreakpointSpec {
    (
        b.line,
        match b.condition {
            Some(c) => Some(c@),
            None => None,
        },
    )
}

pub open spec fn requests_view(v: Seq<SourceBreakpoint>) -> Seq<BreakpointSpec> {
    v.map_values(|b: SourceBreakpoint| breakpoint_view(b))
}

/// A breakpoint as the session resolved it.
#[derive(Debug, Clone, Copy, PartialEq, Eq, Structural)]
pub struct Breakpoint {
    pub line: u64,
    pub verified: bool,
}

/// Breakpoints by source, in the order that sources were first given.
pub type BreakpointTable = Seq<(Seq<char>, Seq<BreakpointSpec>)>;

/// Index of the first entry for `source` at or after `i`, or the length.
pub open spec fn index_from(t: BreakpointTable, source: Seq<char>, i: int) -> int
    decreases t.len() - i,
{
    if i < 0 || i >= t.len() {
        t.len() as int
    } else if t[i].0 == source {
        i
    } else {
        index_from(t, source, i + 1)
    }
}

/// The table with the lines of `source` replaced by `lines`.
pub open spec fn put(t: BreakpointTable, source: Seq<char>, lines: Seq<BreakpointSpec>) -> BreakpointTable {
    let i = index_from(t, source, 0);
    if i < t.len() {
        t.update(i, (source, lines))
    } else {
        t.push((source, lines))
    }
}

/// The breakpoints of `source`.
pub open spec fn lines_for(t: BreakpointTable, source: Seq<char>) -> Seq<BreakpointSpec> {
    let i = index_from(t, source, 0);
    if i < t.len() {
        t[i].1
    } else {
        Seq::empty()
    }
}

/// The resolved breakpoints for requested lines: one each, in order.
pub open spec fn resolved(lines: Seq<BreakpointSpec>) -> Seq<Breakpoint> {
    lines.map_values(|b: BreakpointSpec| Breakpoint { line: b.0, verified: true })
}

/// The condition of the first breakpoint on `line` among `bps`: `None` where
/// no breakpoint is on that line, `Some(None)` for one without a condition.
pub open spec fn first_at(bps: Seq<BreakpointSpec>, line: u64) -> Option<Option<Seq<char>>>
    decreases bps.len(),
{
    if bps.len() == 0 {
        None
    } else if bps[0].0 == line {
        Some(bps[0].1)
    } else {
        first_at(bps.drop_first(), line)
    }
}

/// Reaching `line` of `source` stops the thread: a breakpoint is there, and
/// it has no condition or its condition holds.
pub open spec fn stops_at(t: BreakpointTable, source: Seq<char>, line: u64, condition_holds: bool) -> bool {
    match first_at(lines_for(t, source), line) {
        None => false,
        Some(None) => true,
        Some(Some(_)) => condition_holds,
    }
}

pub open spec fn ended(p: Phase) -> bool {
    p is Terminated || p is Disconnected
}

/// Why a command on a stopped thread is refused, if it is.
pub open spec fn stopped_check(p: Phase, thread: u64) -> Option<SessionError> {
    match p {
        Phase::Stopped { reason, thread: t } => if t == thread {
            None
        } else {
            Some(SessionError::WrongThread)
        },
        Phase::Terminated | Phase::Disconnected => Some(SessionError::Ended),
        _ => Some(SessionError::NotStopped),
    }
}

pub struct SessionView {
    pub phase: Phase,
    pub program: Option<Seq<char>>,
    pub breakpoints: BreakpointTable,
}

pub struct DebugSession {
    phase: Phase,
    program: Option<String>,
    breakpoints: Vec<(String, Vec<SourceBreakpoint>)>,
}

impl View for DebugSession {
    type V = SessionView;

    closed spec fn view(&self) -> SessionView {
        SessionView {
            phase: self.phase,
            program: match self.program {
                Some(p) => Some(p@),
                None => None,
            },
            breakpoints: self.breakpoints@.map_values(
                |e: (String, Vec<SourceBreakpoint>)| (e.0@, requests_view(e.1@)),
            ),
        }
    }
}

proof fn lemma_index_from(t: BreakpointTable, source: Seq<char>, i: int)
    requires
        0 <= i <= t.len(),
    ensures
        i <= index_from(t, source, i) <= t.len(),
        index_from(t, source, i) < t.len() ==> t[index_from(t, source, i)].0 == source,
        forall|j: int| i <= j < index_from(t, source, i) ==> t[j].0 != source,
    decreases t.len() - i,
{
    if i < t.len() && t[i].0 != source {
        lemma_index_from(t, source, i + 1);
    }
}

proof fn lemma_index_is(t: BreakpointTable, source: Seq<char>, i: int, k: int)
    requires
        0 <= i <= k <= t.len(),
        k < t.len() ==> t[k].0 == source,
        forall|j: int| i <= j < k ==> t[j].0 != source,
    ensures
        index_from(t, source, i) == k,
    decreases k - i,
{
    if i < k {
        lemma_index_is(t, source, i + 1, k);
    }
}

/// Replacing the breakpoints of a source twice with the same lines leaves the
/// same table as doing it once, so every source keeps the same lines.
pub proof fn lemma_set_breakpoints_idempotent(t: BreakpointTable, source: Seq<char>, lines: Seq<BreakpointSpec>)
    ensures
        put(put(t, source, lines), source, lines) == put(t, source, lines),
        forall|s: Seq<char>|
            lines_for(put(put(t, source, lines), source, lines), s) == lines_for(
                put(t, source, lines),
                s,
            ),
{
    let k = index_from(t, source, 0);
    lemma_index_from(t, source, 0);
    let w = put(t, source, lines);
    assert forall|j: int| 0 <= j < k implies w[j].0 != source by {
        assert(t[j].0 != source);
    }
    lemma_index_is(w, source, 0, k);
    assert(put(w, source, lines) =~= w);
}

/// Replacing the breakpoints of a source gives it exactly the new lines and
/// leaves every other source as it was.
pub proof fn lemma_put_lines(t: BreakpointTable, source: Seq<char>, lines: Seq<BreakpointSpec>, other: Seq<char>)
    ensures
        lines_for(put(t, source, lines), source) == lines,
        other != source ==> lines_for(put(t, source, lines), other) == lines_for(t, other),
{
    let k = index_from(t, source, 0);
    lemma_index_from(t, source, 0);
    let w = put(t, source, lines);
    assert forall|j: int| 0 <= j < k implies w[j].0 != source by {
        assert(t[j].0 != source);
    }
    lemma_index_is(w, source, 0, k);
    if other != source {
        let m = index_from(t, other, 0);
        lemma_index_from(t, other, 0);
        if m < t.len() {
            assert forall|j: int| 0 <= j < m implies w[j].0 != other by {
                assert(t[j].0 != other);
            }
            lemma_index_is(w, other, 0, m);
        } else {
            assert forall|j: int| 0 <= j < w.len() implies w[j].0 != other by {
                if j < t.len() && j != k {
                    assert(t[j].0 != other);
                }
            }
            lemma_index_is(w, other, 0, w.len() as int);
        }
    }
}

impl DebugSession {
    pub fn new() -> (r: DebugSession)
        ensures
            r@.phase == Phase::Uninitialized,
            r@.program is None,
            r@.breakpoints.len() == 0,
    {
        DebugSession { phase: Phase::Uninitialized, program: None, breakpoints: Vec::new() }
    }

    pub fn phase(&self) -> (r: Phase)
        ensures
            r == self@.phase,
    {
        self.phase
    }

    /// `initialize`: the session becomes ready for configuration, and the
    /// `initialized` event is to be sent.
    pub fn initialize(&mut self) -> (r: Result<Event, SessionError>)
        ensures
            old(self)@.phase is Uninitialized ==> r == Ok::<Event, SessionError>(Event::Initialized)
                && final(self)@ == (SessionView { phase: Phase::Initialized, ..old(self)@ }),
            old(self)@.phase is Disconnected ==> r == Err::<Event, SessionError>(SessionError::Ended)
                && final(self)@ == old(self)@,
            !(old(self)@.phase is Uninitialized) && !(old(self)@.phase is Disconnected) ==> r
                == Err::<Event, SessionError>(SessionError::AlreadyInitialized) && final(self)@
                == old(self)@,
    {
        match self.phase {
            Phase::Uninitialized => {
                self.phase = Phase::Initialized;
                Ok(Event::Initialized)
            },
            Phase::Disconnected => Err(SessionError::Ended),
            _ => Err(SessionError::AlreadyInitialized),
        }
    }

    /// `launch`: records the program; it starts at `configurationDone`.
    pub fn launch(&mut self, program: String) -> (r: Result<(), SessionError>)
        ensures
            old(self)@.phase is Initialized && old(self)@.program is None ==> r is Ok && final(self)@ == (SessionView { program: Some(program@), ..old(self)@ }),
            old(self)@.phase is Uninitialized ==> r == Err::<(), SessionError>(
                SessionError::NotInitialized,
            ) && final(self)@ == old(self)@,
            ended(old(self)@.phase) ==> r == Err::<(), SessionError>(SessionError::Ended) && final(self)@ == old(self)@,
            !(old(self)@.phase is Uninitialized) && !ended(old(self)@.phase) && !(old(self)@.phase is Initialized && old(self)@.program is None) ==> r == Err::<(), SessionError>(
                SessionError::AlreadyLaunched,
            ) && final(self)@ == old(self)@,
    {
        match self.phase {
            Phase::Uninitialized => Err(SessionError::NotInitialized),
            Phase::Terminated | Phase::Disconnected => Err(SessionError::Ended),
            Phase::Initialized => {
                if self.program.is_some() {
                    return Err(SessionError::AlreadyLaunched);
                }
                self.program = Some(program);
                Ok(())
            },
            _ => Err(SessionError::AlreadyLaunched),
        }
    }

    /// `setBreakpoints`: replaces every breakpoint of `source` by
    /// `requested` and answers one resolved breakpoint per request, in the
    /// order given. Allowed in any phase from initialization until
    /// disconnection; while the program runs, the new set applies from the
    /// next line it reaches.
    pub fn set_breakpoints(&mut self, source: String, requested: Vec<SourceBreakpoint>) -> (r: Result<
        Vec<Breakpoint>,
        SessionError,
    >)
        ensures
            old(self)@.phase is Uninitialized ==> r == Err::<Vec<Breakpoint>, SessionError>(
                SessionError::NotInitialized,
            ) && final(self)@ == old(self)@,
            old(self)@.phase is Disconnected ==> r == Err::<Vec<Breakpoint>, SessionError>(
                SessionError::Ended,
            ) && final(self)@ == old(self)@,
            !(old(self)@.phase is Uninitialized) && !(old(self)@.phase is Disconnected) ==> r is Ok
                && r->Ok_0@ == resolved(requests_view(requested@)) && final(self)@ == (SessionView {
                breakpoints: put(old(self)@.breakpoints, source@, requests_view(requested@)),
                ..old(self)@
            }),
    {
        match self.phase {
            Phase::Uninitialized => {
                return Err(SessionError::NotInitialized);
            },
            Phase::Disconnected => {
                return Err(SessionError::Ended);
            },
            _ => {},
        }
        let ghost wanted = requests_view(requested@);
        let mut out: Vec<Breakpoint> = Vec::new();
        let mut k: usize = 0;
        while k < requested.len()
            invariant
                k <= requested@.len(),
                wanted == requests_view(requested@),
                out@ == resolved(wanted).subrange(0, k as int),
            decreases requested@.len() - k,
        {
            out.push(Breakpoint { line: requested[k].line, verified: true });
            k += 1;
            assert(out@ =~= resolved(wanted).subrange(0, k as int));
        }
        assert(out@ =~= resolved(wanted));
        let ghost before = self@.breakpoints;
        let mut i: usize = 0;
        while i < self.breakpoints.len() && self.breakpoints[i].0 != source
            invariant
                i <= self.breakpoints@.len(),
                before == self@.breakpoints,
                before.len() == self.breakpoints@.len(),
                index_from(before, source@, 0) == index_from(before, source@, i as int),
            decreases self.breakpoints@.len() - i,
        {
            assert(before[i as int].0 == self.breakpoints@[i as int].0@);
            i += 1;
        }
        let ghost source_view = source@;
        if i < self.breakpoints.len() {
            assert(before[i as int].0 == self.breakpoints@[i as int].0@);
            self.breakpoints.set(i, (source, requested));
        } else {
            self.breakpoints.push((source, requested));
        }
        assert(self@.breakpoints =~= put(before, source_view, wanted));
        Ok(out)
    }

    /// `configurationDone`: the launched program starts running.
    pub fn configuration_done(&mut self) -> (r: Result<Order, SessionError>)
        ensures
            old(self)@.phase is Initialized && old(self)@.program is Some ==> r == Ok::<
                Order,
                SessionError,
            >(Order::Start) && final(self)@ == (SessionView { phase: Phase::Running, ..old(self)@ }),
            old(self)@.phase is Initialized && old(self)@.program is None ==> r == Err::<
                Order,
                SessionError,
            >(SessionError::NotLaunched) && final(self)@ == old(self)@,
            old(self)@.phase is Uninitialized ==> r == Err::<Order, SessionError>(
                SessionError::NotInitialized,
            ) && final(self)@ == old(self)@,
            ended(old(self)@.phase) ==> r == Err::<Order, SessionError>(SessionError::Ended) && final(self)@ == old(self)@,
            old(self)@.phase is Running || old(self)@.phase is Stopped ==> r == Err::<
                Order,
                SessionError,
            >(SessionError::AlreadyConfigured) && final(self)@ == old(self)@,
    {
        match self.phase {
            Phase::Initialized => {
                if self.program.is_none() {
                    return Err(SessionError::NotLaunched);
                }
                self.phase = Phase::Running;
                Ok(Order::Start)
            },
            Phase::Uninitialized => Err(SessionError::NotInitialized),
            Phase::Terminated | Phase::Disconnected => Err(SessionError::Ended),
            _ => Err(SessionError::AlreadyConfigured),
        }
    }

    fn check_stopped(&self, thread: u64) -> (r: Option<SessionError>)
        ensures
            r == stopped_check(self@.phase, thread),
    {
        match self.phase {
            Phase::Stopped { reason: _, thread: t } => if t == thread {
                None
            } else {
                Some(SessionError::WrongThread)
            },
            Phase::Terminated | Phase::Disconnected => Some(SessionError::Ended),
            _ => Some(SessionError::NotStopped),
        }
    }

    /// `continue`: the stopped thread runs on.
    pub fn resume(&mut self, thread: u64) -> (r: Result<Order, SessionError>)
        ensures
            stopped_check(old(self)@.phase, thread) is None ==> r == Ok::<Order, SessionError>(
                Order::Resume,
            ) && final(self)@ == (SessionView { phase: Phase::Running, ..old(self)@ }),
            stopped_check(old(self)@.phase, thread) is Some ==> r == Err::<Order, SessionError>(
                stopped_check(old(self)@.phase, thread)->0,
            ) && final(self)@ == old(self)@,
    {
        match self.check_stopped(thread) {
            Some(e) => Err(e),
            None => {
                self.phase = Phase::Running;
                Ok(Order::Resume)
            },
        }
    }

    /// `stepIn`, `stepOut`, `next`: the stopped thread runs one step.
    pub fn step(&mut self, thread: u64, granularity: Granularity) -> (r: Result<Order, SessionError>)
        ensures
            stopped_check(old(self)@.phase, thread) is None ==> r == Ok::<Order, SessionError>(
                Order::Step(granularity),
            ) && final(self)@ == (SessionView { phase: Phase::Running, ..old(self)@ }),
            stopped_check(old(self)@.phase, thread) is Some ==> r == Err::<Order, SessionError>(
                stopped_check(old(self)@.phase, thread)->0,
            ) && final(self)@ == old(self)@,
    {
        match self.check_stopped(thread) {
            Some(e) => Err(e),
            None => {
                self.phase = Phase::Running;
                Ok(Order::Step(granularity))
            },
        }
    }

    /// Whether stack and variable queries on `thread` can be answered: only
    /// while that thread is stopped; otherwise the reason for refusing.
    pub fn inspect(&self, thread: u64) -> (r: Result<(), SessionError>)
        ensures
            stopped_check(self@.phase, thread) is None ==> r is Ok,
            stopped_check(self@.phase, thread) is Some ==> r == Err::<(), SessionError>(
                stopped_check(self@.phase, thread)->0,
            ),
    {
        match self.check_stopped(thread) {
            Some(e) => Err(e),
            None => Ok(()),
        }
    }

    /// `pause`: the running program is asked to suspend; the stop comes
    /// later as a report.
    pub fn pause(&mut self) -> (r: Result<Order, SessionError>)
        ensures
            final(self)@ == old(self)@,
            old(self)@.phase is Running ==> r == Ok::<Order, SessionError>(Order::Interrupt),
            ended(old(self)@.phase) ==> r == Err::<Order, SessionError>(SessionError::Ended),
            !(old(self)@.phase is Running) && !ended(old(self)@.phase) ==> r == Err::<
                Order,
                SessionError,
            >(SessionError::NotRunning),
    {
        match self.phase {
            Phase::Running => Ok(Order::Interrupt),
            Phase::Terminated | Phase::Disconnected => Err(SessionError::Ended),
            _ => Err(SessionError::NotRunning),
        }
    }

    /// `disconnect`: in any phase, the execution context is torn down.
    pub fn disconnect(&mut self) -> (r: Order)
        ensures
            r == Order::Halt,
            final(self)@ == (SessionView { phase: Phase::Disconnected, ..old(self)@ }),
    {
        self.phase = Phase::Disconnected;
        Order::Halt
    }

    /// The breakpoint on `line` of `source`, by its condition: `None` where
    /// there is none, `Some(None)` for one without a condition. An engine
    /// reaching the line evaluates the condition and reports the verdict.
    pub fn breakpoint_at(&self, source: &str, line: u64) -> (r: Option<Option<String>>)
        ensures
            r is None <==> first_at(lines_for(self@.breakpoints, source@), line) is None,
            r is Some ==> first_at(lines_for(self@.breakpoints, source@), line) == Some(
                match r->0 {
                    Some(c) => Some(c@),
                    None => None::<Seq<char>>,
                },
            ),
    {
        let ghost t = self@.breakpoints;
        let wanted = source.to_owned();
        let mut i: usize = 0;
        while i < self.breakpoints.len() && self.breakpoints[i].0 != wanted
            invariant
                i <= self.breakpoints@.len(),
                t == self@.breakpoints,
                t.len() == self.breakpoints@.len(),
                wanted@ == source@,
                index_from(t, source@, 0) == index_from(t, source@, i as int),
            decreases self.breakpoints@.len() - i,
        {
            assert(t[i as int].0 == self.breakpoints@[i as int].0@);
            i += 1;
        }
        if i == self.breakpoints.len() {
            return None;
        }
        assert(t[i as int].0 == self.breakpoints@[i as int].0@);
        let bps = &self.breakpoints[i].1;
        let ghost all = requests_view(bps@);
        assert(all == lines_for(t, source@));
        let mut k: usize = 0;
        assert(all.subrange(0, all.len() as int) =~= all);
        while k < bps.len()
            invariant
                k <= bps@.len(),
                all == requests_view(bps@),
                all == lines_for(t, source@),
                t == self@.breakpoints,
                first_at(all, line) == first_at(all.subrange(k as int, all.len() as int), line),
            decreases bps@.len() - k,
        {
            let ghost rest = all.subrange(k as int, all.len() as int);
            assert(rest[0] == all[k as int]);
            assert(all[k as int] == breakpoint_view(bps@[k as int]));
            if bps[k].line == line {
                return match &bps[k].condition {
                    Some(c) => Some(Some(c.clone())),
                    None => Some(None),
                };
            }
            assert(rest.drop_first() =~= all.subrange(k + 1, all.len() as int));
            k += 1;
        }
        None
    }

    /// Takes in what the engine reports. Reports that come while the program
    /// is not running (one racing a pause or a disconnection) change nothing.
    /// A reached line stops the thread exactly when it holds a breakpoint
    /// whose condition, if it has one, holds.
    pub fn report(&mut self, report: EngineReport) -> (r: Option<Event>)
        ensures
            !(old(self)@.phase is Running) ==> r is None && final(self)@ == old(self)@,
            old(self)@.phase is Running ==> match report {
                EngineReport::Reached { thread, source, line, condition_holds } => if stops_at(
                    old(self)@.breakpoints,
                    source@,
                    line,
                    condition_holds,
                ) {
                    r == Some(Event::Stopped { reason: StopReason::Breakpoint, thread })
                        && final(self)@ == (SessionView {
                        phase: Phase::Stopped { reason: StopReason::Breakpoint, thread },
                        ..old(self)@
                    })
                } else {
                    r is None && final(self)@ == old(self)@
                },
                EngineReport::StepDone { thread } => r == Some(
                    Event::Stopped { reason: StopReason::Step, thread },
                ) && final(self)@ == (SessionView {
                    phase: Phase::Stopped { reason: StopReason::Step, thread },
                    ..old(self)@
                }),
                EngineReport::Paused { thread } => r == Some(
                    Event::Stopped { reason: StopReason::Pause, thread },
                ) && final(self)@ == (SessionView {
                    phase: Phase::Stopped { reason: StopReason::Pause, thread },
                    ..old(self)@
                }),
                EngineReport::Finished => r == Some(Event::Terminated) && final(self)@ == (
                SessionView { phase: Phase::Terminated, ..old(self)@ }),
            },
    {
        if !matches!(self.phase, Phase::Running) {
            return None;
        }
        let (reason, thread) = match report {
            EngineReport::Reached { thread, source, line, condition_holds } => {
                let stops = match self.breakpoint_at(source.as_str(), line) {
                    None => false,
                    Some(None) => true,
                    Some(Some(_)) => condition_holds,
                };
                if !stops {
                    return None;
                }
                (StopReason::Breakpoint, thread)
            },
            EngineReport::StepDone { thread } => (StopReason::Step, thread),
            EngineReport::Paused { thread } => (StopReason::Pause, thread),
            EngineReport::Finished => {
                self.phase = Phase::Terminated;
                return Some(Event::Terminated);
            },
        };
        self.phase = Phase::Stopped { reason, thread };
        Some(Event::Stopped { reason, thread })
    }
}

} // verus!
