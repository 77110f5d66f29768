use lsp_rpc::session::{
    Breakpoint, DebugSession, EngineReport, Event, Granularity, Order, Phase, SessionError,
    SourceBreakpoint, StopReason,
};

const SOURCE: &str = "tests/main.glu";

fn lines(ls: &[u64]) -> Vec<SourceBreakpoint> {
    ls.iter().map(|&line| SourceBreakpoint { line, condition: None }).collect()
}

fn configured(at: Vec<u64>) -> DebugSession {
    let mut s = DebugSession::new();
    assert_eq!(s.initialize(), Ok(Event::Initialized));
    assert_eq!(s.launch(SOURCE.to_string()), Ok(()));
    s.set_breakpoints(SOURCE.to_string(), lines(&at)).unwrap();
    assert_eq!(s.configuration_done(), Ok(Order::Start));
    s
}

fn reach(s: &mut DebugSession, line: u64) -> Option<Event> {
    s.report(EngineReport::Reached { thread: 1, source: SOURCE.to_string(), line, condition_holds: false })
}

/// Runs a straight-line program of `last` lines, resuming at every stop;
/// returns the events sent.
fn run_to_end(s: &mut DebugSession, last: u64) -> Vec<Event> {
    let mut events = Vec::new();
    for line in 1..=last {
        if let Some(e) = reach(s, line) {
            events.push(e);
            assert_eq!(s.resume(1), Ok(Order::Resume));
        }
    }
    events.extend(s.report(EngineReport::Finished));
    events
}

#[test]
fn breakpoint_stops_then_terminates() {
    let mut s = configured(vec![1, 14]);
    let events = run_to_end(&mut s, 15);
    let stop = Event::Stopped { reason: StopReason::Breakpoint, thread: 1 };
    assert_eq!(events, vec![stop, stop, Event::Terminated]);
    assert_eq!(s.phase(), Phase::Terminated);
}

#[test]
fn repeated_set_breakpoints_is_idempotent() {
    let mut s = DebugSession::new();
    s.initialize().unwrap();
    s.launch(SOURCE.to_string()).unwrap();
    let first = s.set_breakpoints(SOURCE.to_string(), lines(&[1, 14])).unwrap();
    let second = s.set_breakpoints(SOURCE.to_string(), lines(&[1, 14])).unwrap();
    assert_eq!(first, second);
    assert_eq!(
        first,
        vec![Breakpoint { line: 1, verified: true }, Breakpoint { line: 14, verified: true }]
    );
    s.configuration_done().unwrap();
    let events = run_to_end(&mut s, 15);
    assert_eq!(events.len(), 3);
}

#[test]
fn set_breakpoints_replaces_lines_of_a_source() {
    let mut s = DebugSession::new();
    s.initialize().unwrap();
    s.set_breakpoints(SOURCE.to_string(), lines(&[3, 4])).unwrap();
    s.set_breakpoints("other.glu".to_string(), lines(&[9])).unwrap();
    s.set_breakpoints(SOURCE.to_string(), lines(&[14])).unwrap();
    assert_eq!(s.breakpoint_at(SOURCE, 3), None);
    assert_eq!(s.breakpoint_at(SOURCE, 4), None);
    assert_eq!(s.breakpoint_at(SOURCE, 14), Some(None));
    assert_eq!(s.breakpoint_at("other.glu", 9), Some(None));
    assert_eq!(s.breakpoint_at("other.glu", 14), None);
}

#[test]
fn step_in_then_step_out() {
    let mut s = configured(vec![14]);
    for line in 1..14 {
        assert_eq!(reach(&mut s, line), None);
    }
    let stop = Event::Stopped { reason: StopReason::Breakpoint, thread: 1 };
    assert_eq!(reach(&mut s, 14), Some(stop));
    assert!(s.inspect(1).is_ok());
    assert_eq!(s.step(1, Granularity::In), Ok(Order::Step(Granularity::In)));
    assert_eq!(s.inspect(1), Err(SessionError::NotStopped));
    let step = Event::Stopped { reason: StopReason::Step, thread: 1 };
    assert_eq!(s.report(EngineReport::StepDone { thread: 1 }), Some(step));
    assert_eq!(s.step(1, Granularity::Out), Ok(Order::Step(Granularity::Out)));
    assert_eq!(s.report(EngineReport::StepDone { thread: 1 }), Some(step));
    assert_eq!(s.step(1, Granularity::Over), Ok(Order::Step(Granularity::Over)));
    assert_eq!(s.report(EngineReport::StepDone { thread: 1 }), Some(step));
    assert_eq!(s.resume(1), Ok(Order::Resume));
    assert_eq!(s.report(EngineReport::Finished), Some(Event::Terminated));
}

#[test]
fn pause_and_continue_a_runaway_program() {
    let mut s = configured(vec![]);
    for line in 1..100 {
        assert_eq!(reach(&mut s, line % 3 + 1), None);
    }
    assert_eq!(s.pause(), Ok(Order::Interrupt));
    let paused = Event::Stopped { reason: StopReason::Pause, thread: 1 };
    assert_eq!(s.report(EngineReport::Paused { thread: 1 }), Some(paused));
    assert_eq!(s.pause(), Err(SessionError::NotRunning));
    assert_eq!(s.resume(1), Ok(Order::Resume));
    assert_eq!(s.disconnect(), Order::Halt);
    assert_eq!(s.phase(), Phase::Disconnected);
    assert_eq!(s.report(EngineReport::Finished), None);
}

#[test]
fn disconnect_halts_in_any_phase() {
    let mut s = configured(vec![]);
    assert_eq!(s.disconnect(), Order::Halt);
    assert_eq!(s.phase(), Phase::Disconnected);
    assert_eq!(s.initialize(), Err(SessionError::Ended));
    assert_eq!(s.set_breakpoints(SOURCE.to_string(), lines(&[1])), Err(SessionError::Ended));
    let mut fresh = DebugSession::new();
    assert_eq!(fresh.disconnect(), Order::Halt);
}

#[test]
fn commands_out_of_order_are_refused() {
    let mut s = DebugSession::new();
    assert_eq!(s.launch(SOURCE.to_string()), Err(SessionError::NotInitialized));
    assert_eq!(s.set_breakpoints(SOURCE.to_string(), lines(&[1])), Err(SessionError::NotInitialized));
    assert_eq!(s.configuration_done(), Err(SessionError::NotInitialized));
    assert_eq!(s.initialize(), Ok(Event::Initialized));
    assert_eq!(s.initialize(), Err(SessionError::AlreadyInitialized));
    assert_eq!(s.configuration_done(), Err(SessionError::NotLaunched));
    assert_eq!(s.resume(1), Err(SessionError::NotStopped));
    assert_eq!(s.launch(SOURCE.to_string()), Ok(()));
    assert_eq!(s.launch(SOURCE.to_string()), Err(SessionError::AlreadyLaunched));
    assert_eq!(s.configuration_done(), Ok(Order::Start));
    assert_eq!(s.configuration_done(), Err(SessionError::AlreadyConfigured));
    assert_eq!(s.report(EngineReport::Paused { thread: 2 }), Some(Event::Stopped { reason: StopReason::Pause, thread: 2 }));
    assert_eq!(s.step(1, Granularity::In), Err(SessionError::WrongThread));
    assert_eq!(s.report(EngineReport::Finished), None);
    assert_eq!(s.resume(2), Ok(Order::Resume));
    assert_eq!(s.report(EngineReport::Finished), Some(Event::Terminated));
    assert_eq!(s.pause(), Err(SessionError::Ended));
    assert_eq!(s.resume(2), Err(SessionError::Ended));
}

#[test]
fn conditional_breakpoint_stops_only_when_it_holds() {
    let mut s = DebugSession::new();
    s.initialize().unwrap();
    s.launch(SOURCE.to_string()).unwrap();
    let requested = vec![
        SourceBreakpoint { line: 5, condition: Some("x > 3".to_string()) },
        SourceBreakpoint { line: 7, condition: None },
    ];
    let resolved = s.set_breakpoints(SOURCE.to_string(), requested).unwrap();
    assert_eq!(resolved, vec![Breakpoint { line: 5, verified: true }, Breakpoint { line: 7, verified: true }]);
    assert_eq!(s.breakpoint_at(SOURCE, 5), Some(Some("x > 3".to_string())));
    s.configuration_done().unwrap();
    let at = |line: u64, condition_holds: bool| EngineReport::Reached {
        thread: 1,
        source: SOURCE.to_string(),
        line,
        condition_holds,
    };
    assert_eq!(s.report(at(5, false)), None);
    assert_eq!(s.report(at(6, true)), None);
    let stop = Event::Stopped { reason: StopReason::Breakpoint, thread: 1 };
    assert_eq!(s.report(at(5, true)), Some(stop));
    s.resume(1).unwrap();
    assert_eq!(s.report(at(7, false)), Some(stop));
}
