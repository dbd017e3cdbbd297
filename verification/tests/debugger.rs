use deet::debugger::{Action, Breakpoint, Debugger, Frame, Report};
use deet::debugger_command::DebuggerCommand;
use deet::inferior::{InstallFailure, Status, TraceError};
use std::collections::HashMap;

const NO_SUCH_PROCESS: i32 = i32::MAX;
const ESRCH: i32 = 3;

fn breakpoint_at(text: &str) -> DebuggerCommand {
    DebuggerCommand::Breakpoint(Some(text.to_string()))
}

#[test]
fn new_session_is_empty() {
    let debugger = Debugger::new("samples/sleepy_print");
    assert_eq!(debugger.target(), "samples/sleepy_print");
    assert_eq!(debugger.inferior(), None);
    assert!(debugger.breakpoints().is_empty());
}

#[test]
fn parse_address_reads_hexadecimal() {
    let mut debugger = Debugger::new("t");
    assert_eq!(debugger.parse_address("0x1f"), Some(0x1f));
    assert_eq!(debugger.parse_address("1F"), Some(0x1f));
    assert_eq!(debugger.parse_address("0X10"), Some(16));
    assert_eq!(debugger.parse_address("401136"), Some(0x401136));
    assert_eq!(debugger.parse_address("0"), Some(0));
    assert_eq!(debugger.parse_address("0x0"), Some(0));
    assert_eq!(debugger.parse_address("+10"), Some(16));
    assert_eq!(debugger.parse_address("0x+10"), Some(16));
    assert_eq!(debugger.parse_address("00000000000000000000001"), Some(1));
}

#[test]
fn parse_address_takes_the_largest_address() {
    let mut debugger = Debugger::new("t");
    assert_eq!(debugger.parse_address("ffffffffffffffff"), Some(usize::MAX));
    assert_eq!(debugger.parse_address("0xFFFFFFFFFFFFFFFF"), Some(usize::MAX));
}

#[test]
fn parse_address_refuses_what_is_no_address() {
    let mut debugger = Debugger::new("t");
    assert_eq!(debugger.parse_address(""), None);
    assert_eq!(debugger.parse_address("0x"), None);
    assert_eq!(debugger.parse_address("+"), None);
    assert_eq!(debugger.parse_address("-1"), None);
    assert_eq!(debugger.parse_address("++1"), None);
    assert_eq!(debugger.parse_address("+0x10"), None);
    assert_eq!(debugger.parse_address("xyz"), None);
    assert_eq!(debugger.parse_address("12g4"), None);
    assert_eq!(debugger.parse_address(" 10"), None);
    assert_eq!(debugger.parse_address("10 "), None);
    assert_eq!(debugger.parse_address("0x0x10"), None);
    assert_eq!(debugger.parse_address("10000000000000000"), None);
    assert_eq!(debugger.parse_address("fffffffffffffffff"), None);
}

#[test]
fn parse_address_agrees_with_std() {
    let mut debugger = Debugger::new("t");
    for text in ["0", "7", "a", "F", "10", "dead", "BEEF", "+cafe", "zz", "", "+", "1.0", "٣"] {
        assert_eq!(debugger.parse_address(text), usize::from_str_radix(text, 16).ok());
    }
}

#[test]
fn continue_without_a_process_changes_nothing() {
    let mut debugger = Debugger::new("t");
    debugger.run(&breakpoint_at("0x10"));
    let before: HashMap<usize, Option<Breakpoint>> = debugger.breakpoints().clone();
    let action = debugger.run(&DebuggerCommand::Continue);
    assert_eq!(action, Action::Show(Report::NoProcess));
    assert_eq!(debugger.inferior(), None);
    assert_eq!(debugger.target(), "t");
    assert_eq!(debugger.breakpoints(), &before);
    let again = debugger.run(&DebuggerCommand::Continue);
    assert_eq!(again, Action::Show(Report::NoProcess));
    assert_eq!(debugger.breakpoints(), &before);
}

#[test]
fn backtrace_without_a_process_is_an_error_report() {
    let mut debugger = Debugger::new("t");
    let action = debugger.run(&DebuggerCommand::Backtrace);
    assert_eq!(
        action,
        Action::Show(Report::BacktraceFailed { error: TraceError::NoInferior })
    );
    assert_eq!(debugger.inferior(), None);
}

#[test]
fn quit_and_run_without_a_process_have_nothing_to_kill() {
    let mut debugger = Debugger::new("t");
    assert_eq!(debugger.run(&DebuggerCommand::Run(vec![])), Action::Launch { kill: None });
    assert_eq!(debugger.run(&DebuggerCommand::Quit), Action::Exit { kill: None });
}

#[test]
fn breakpoints_before_a_run_are_pending() {
    let mut debugger = Debugger::new("t");
    let first = debugger.run(&breakpoint_at("0x401000"));
    assert_eq!(first, Action::Show(Report::BreakpointSet { index: 0, addr: 0x401000 }));
    let second = debugger.run(&breakpoint_at("401010"));
    assert_eq!(second, Action::Show(Report::BreakpointSet { index: 1, addr: 0x401010 }));
    assert_eq!(debugger.breakpoints().len(), 2);
    assert_eq!(debugger.breakpoints().get(&0x401000), Some(&None));
    assert_eq!(debugger.breakpoints().get(&0x401010), Some(&None));
}

#[test]
fn the_same_address_twice_is_one_breakpoint() {
    let mut debugger = Debugger::new("t");
    debugger.run(&breakpoint_at("0x401000"));
    let again = debugger.run(&breakpoint_at("0X401000"));
    assert_eq!(again, Action::Show(Report::BreakpointSet { index: 0, addr: 0x401000 }));
    assert_eq!(debugger.breakpoints().len(), 1);
}

#[test]
fn a_bad_address_records_nothing() {
    let mut debugger = Debugger::new("t");
    let action = debugger.run(&breakpoint_at("main"));
    assert_eq!(action, Action::Show(Report::BadAddress));
    assert!(debugger.breakpoints().is_empty());
}

#[test]
fn a_breakpoint_command_without_address_does_nothing() {
    let mut debugger = Debugger::new("t");
    let action = debugger.run(&DebuggerCommand::Breakpoint(None));
    assert_eq!(action, Action::Idle);
    assert!(debugger.breakpoints().is_empty());
}

#[test]
fn a_target_that_did_not_start_leaves_the_session_alone() {
    let mut debugger = Debugger::new("t");
    debugger.run(&breakpoint_at("0x401000"));
    assert_eq!(debugger.run(&DebuggerCommand::Run(vec![])), Action::Launch { kill: None });
    let (report, failures) = debugger.launched(None);
    assert_eq!(report, Report::SpawnFailed);
    assert!(failures.is_empty());
    assert_eq!(debugger.inferior(), None);
    assert_eq!(debugger.breakpoints().get(&0x401000), Some(&None));
    assert_eq!(debugger.run(&DebuggerCommand::Continue), Action::Show(Report::NoProcess));
}

#[test]
fn a_process_that_cannot_be_traced_is_reported() {
    let mut debugger = Debugger::new("t");
    debugger.run(&breakpoint_at("0x401000"));
    let (report, failures) = debugger.launched(Some(NO_SUCH_PROCESS));
    assert_eq!(report, Report::ResumeFailed { error: TraceError::Os(ESRCH) });
    assert_eq!(
        failures,
        vec![InstallFailure { addr: 0x401000, error: TraceError::Os(ESRCH) }]
    );
    assert_eq!(debugger.breakpoints().get(&0x401000), Some(&None));
    assert_eq!(debugger.inferior(), Some(NO_SUCH_PROCESS));

    let action = debugger.run(&breakpoint_at("0x401010"));
    assert_eq!(
        action,
        Action::Show(Report::BreakpointFailed { addr: 0x401010, error: TraceError::Os(ESRCH) })
    );
    assert_eq!(debugger.breakpoints().len(), 1);

    let resumed = debugger.run(&DebuggerCommand::Continue);
    assert_eq!(resumed, Action::Show(Report::ResumeFailed { error: TraceError::Os(ESRCH) }));
    assert_eq!(debugger.inferior(), Some(NO_SUCH_PROCESS));

    let walk = debugger.run(&DebuggerCommand::Backtrace);
    assert_eq!(
        walk,
        Action::Show(Report::BacktraceFailed { error: TraceError::Os(ESRCH) })
    );

    assert_eq!(
        debugger.run(&DebuggerCommand::Run(vec![])),
        Action::Launch { kill: Some(NO_SUCH_PROCESS) }
    );
    assert_eq!(debugger.inferior(), None);
}

#[test]
fn quit_names_the_process_to_kill() {
    let mut debugger = Debugger::new("t");
    debugger.launched(Some(NO_SUCH_PROCESS));
    assert_eq!(debugger.run(&DebuggerCommand::Quit), Action::Exit { kill: Some(NO_SUCH_PROCESS) });
    assert_eq!(debugger.inferior(), None);
}

#[test]
fn settle_forgets_a_process_that_is_gone() {
    let mut debugger = Debugger::new("t");
    debugger.launched(Some(NO_SUCH_PROCESS));
    assert_eq!(
        debugger.settle(Ok(Status::Stopped(5, 0x401001))),
        Report::Stopped { signal: 5, addr: 0x401001 }
    );
    assert_eq!(debugger.inferior(), Some(NO_SUCH_PROCESS));
    assert_eq!(
        debugger.settle(Err(TraceError::Os(ESRCH))),
        Report::ResumeFailed { error: TraceError::Os(ESRCH) }
    );
    assert_eq!(debugger.inferior(), Some(NO_SUCH_PROCESS));
    assert_eq!(debugger.settle(Ok(Status::Exited(0))), Report::Exited { code: 0 });
    assert_eq!(debugger.inferior(), None);
    assert_eq!(debugger.run(&DebuggerCommand::Continue), Action::Show(Report::NoProcess));

    debugger.launched(Some(NO_SUCH_PROCESS));
    assert_eq!(debugger.settle(Ok(Status::Signaled(9))), Report::Signaled { signal: 9 });
    assert_eq!(debugger.inferior(), None);
}

#[test]
fn the_walk_ends_at_main() {
    let mut debugger = Debugger::new("t");
    let frame = Frame { instruction_ptr: 0x401136, base_ptr: 0x7ffd_0000_1000 };
    assert_eq!(debugger.caller_frame(frame, Some("main")), Ok(None));
    let odd = Frame { instruction_ptr: 0, base_ptr: u64::MAX };
    assert_eq!(debugger.caller_frame(odd, Some("main")), Ok(None));
    assert!(Debugger::is_entry(Some("main")));
    assert!(!Debugger::is_entry(Some("main2")));
    assert!(!Debugger::is_entry(Some("Main")));
    assert!(!Debugger::is_entry(Some("")));
    assert!(!Debugger::is_entry(None));
}

#[test]
fn the_walk_needs_a_process() {
    let mut debugger = Debugger::new("t");
    let frame = Frame { instruction_ptr: 0x401136, base_ptr: 0x7ffd_0000_1000 };
    assert_eq!(debugger.caller_frame(frame, Some("helper")), Err(TraceError::NoInferior));
    assert_eq!(debugger.caller_frame(frame, None), Err(TraceError::NoInferior));
}

#[test]
fn the_walk_refuses_a_frame_pointer_at_the_top_of_memory() {
    let mut debugger = Debugger::new("t");
    debugger.launched(Some(NO_SUCH_PROCESS));
    let top = Frame { instruction_ptr: 0x401136, base_ptr: u64::MAX - 7 };
    assert_eq!(debugger.caller_frame(top, Some("helper")), Err(TraceError::AddressOverflow));
    let below = Frame { instruction_ptr: 0x401136, base_ptr: u64::MAX - 8 };
    assert_eq!(debugger.caller_frame(below, Some("helper")), Err(TraceError::Os(ESRCH)));
}
