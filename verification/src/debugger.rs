//! The session: one target, at most one traced process, and the breakpoints
//! that outlive it.
//!
//! The session neither starts processes nor reads names of functions: a front
//! end does both. [`Debugger::run`] takes one command and answers with what
//! the front end has to do next; [`Debugger::launched`] and
//! [`Debugger::caller_frame`] take what the front end found out.

use crate::debugger_command::{Command, DebuggerCommand};
use crate::inferior::{
    after_installs, after_patch, after_resume, all_tried, install_failures, installed,
    patch_result, Answers, Exchange, Inferior, InstallFailure, Status, TraceError,
};
use crate::text::{chars_of, same_text};
use crate::tracing::Registers;
use crate::word::TRAP_BYTE;
use std::collections::HashMap;
use vstd::prelude::*;

verus! {

broadcast use vstd::std_specs::hash::group_hash_axioms;

/// A software breakpoint that stands in a process's memory.
#[derive(Clone, Copy, Debug, PartialEq, Eq, Structural)]
pub struct Breakpoint {
    /// Where the trap byte was written.
    pub addr: usize,
    /// The byte that the trap replaced.
    pub orig_byte: u8,
}

/// One frame of the call stack: where its code stands and where its saved
/// registers lie.
#[derive(Clone, Copy, Debug, PartialEq, Eq, Structural)]
pub struct Frame {
    /// An address inside the function that the frame belongs to.
    pub instruction_ptr: u64,
    /// The frame pointer: the address of the caller's saved frame pointer, with
    /// the return address one word above.
    pub base_ptr: u64,
}

/// What the operator is to be told.
#[derive(Clone, Copy, Debug, PartialEq, Eq, Structural)]
pub enum Report {
    /// The process stopped, by this signal, at this address.
    Stopped { signal: i32, addr: usize },
    /// The process ended by itself, with this exit code.
    Exited { code: i32 },
    /// This signal killed the process.
    Signaled { signal: i32 },
    /// The process could not be resumed or waited for.
    ResumeFailed { error: TraceError },
    /// There is no process to resume.
    NoProcess,
    /// The target could not be started.
    SpawnFailed,
    /// A breakpoint was recorded at `addr`; `index` is the number of
    /// breakpoints in the table, less one.
    BreakpointSet { index: usize, addr: usize },
    /// The trap byte could not be written at `addr`; nothing was recorded.
    BreakpointFailed { addr: usize, error: TraceError },
    /// The address of a breakpoint command is no hexadecimal number that fits
    /// an address.
    BadAddress,
    /// The call stack cannot be shown.
    BacktraceFailed { error: TraceError },
}

/// What the front end has to do after a command.
#[derive(Clone, Copy, Debug, PartialEq, Eq, Structural)]
pub enum Action {
    /// Kill the process `kill`, if there is one; start the target under trace
    /// with the command's arguments; hand the outcome to
    /// [`Debugger::launched`].
    Launch { kill: Option<i32> },
    /// Kill the process `kill`, if there is one, and end the session.
    Exit { kill: Option<i32> },
    /// Show the call stack from this frame upwards: name the frame, then ask
    /// [`Debugger::caller_frame`] for the next one.
    Walk(Frame),
    /// Tell the operator.
    Show(Report),
    /// Nothing.
    Idle,
}

/// The session as contracts see it.
pub struct Session {
    /// The path of the target.
    pub target: Seq<char>,
    /// The id of the process under trace, if there is one.
    pub inferior: Option<i32>,
    /// What has been asked of the session's process so far, in order, with
    /// the answers; of the last process, once it is given up. It begins anew
    /// with every process.
    pub record: Seq<Exchange>,
    /// The breakpoint table. An entry `None` is a breakpoint asked for and not
    /// written into a process; an entry `Some` is one that was written.
    pub breakpoints: Map<usize, Option<Breakpoint>>,
}

impl Session {
    /// The same session with no process.
    pub open spec fn without_inferior(self) -> Session {
        Session { inferior: None, ..self }
    }

    /// The same session with another record of requests.
    pub open spec fn with_record(self, record: Seq<Exchange>) -> Session {
        Session { record, ..self }
    }

    /// The same session with another breakpoint table.
    pub open spec fn with_breakpoints(self, breakpoints: Map<usize, Option<Breakpoint>>) -> Session {
        Session { breakpoints, ..self }
    }

    /// The number of breakpoints, less one: what a breakpoint command reports.
    pub open spec fn last_index(self) -> int {
        self.breakpoints.dom().len() - 1
    }

    /// Whether a breakpoint stands written at `addr`.
    pub open spec fn installed_at(self, addr: usize) -> bool {
        self.breakpoints.contains_key(addr) && self.breakpoints[addr] is Some
    }
}

/// What the operator is told after a process was resumed.
pub open spec fn report_of(outcome: Result<Status, TraceError>) -> Report {
    match outcome {
        Ok(Status::Stopped(signal, addr)) => Report::Stopped { signal, addr },
        Ok(Status::Exited(code)) => Report::Exited { code },
        Ok(Status::Signaled(signal)) => Report::Signaled { signal },
        Err(error) => Report::ResumeFailed { error },
    }
}

/// Whether a report says that the process is gone.
pub open spec fn ends_process(report: Report) -> bool {
    report is Exited || report is Signaled
}

/// Whether a report is one that follows a resume.
pub open spec fn follows_resume(report: Report) -> bool {
    ||| report is Stopped
    ||| report is Exited
    ||| report is Signaled
    ||| (report matches Report::ResumeFailed { error } && !(error is NoInferior) && !(error
        is AddressOverflow))
}

/// The value of a hexadecimal digit.
pub open spec fn hex_digit(c: char) -> Option<nat> {
    if '0' <= c <= '9' {
        Some((c as u32 - '0' as u32) as nat)
    } else if 'a' <= c <= 'f' {
        Some((c as u32 - 'a' as u32 + 10) as nat)
    } else if 'A' <= c <= 'F' {
        Some((c as u32 - 'A' as u32 + 10) as nat)
    } else {
        None
    }
}

/// Whether every character is a hexadecimal digit.
pub open spec fn all_hex(digits: Seq<char>) -> bool {
    forall|i: int| 0 <= i < digits.len() ==> hex_digit(#[trigger] digits[i]) is Some
}

/// The number that a row of hexadecimal digits writes, the first digit being
/// the highest.
pub open spec fn hex_value(digits: Seq<char>) -> nat
    decreases digits.len(),
{
    if digits.len() == 0 {
        0
    } else {
        hex_value(digits.drop_last()) * 16 + match hex_digit(digits.last()) {
            Some(d) => d,
            None => 0,
        }
    }
}

/// The text without a leading `0x` or `0X`.
pub open spec fn without_prefix(text: Seq<char>) -> Seq<char> {
    if text.len() >= 2 && text[0] == '0' && (text[1] == 'x' || text[1] == 'X') {
        text.skip(2)
    } else {
        text
    }
}

/// The text without a leading `+`.
pub open spec fn without_sign(text: Seq<char>) -> Seq<char> {
    if text.len() >= 1 && text[0] == '+' {
        text.skip(1)
    } else {
        text
    }
}

/// The address that a text writes: an optional `0x`, an optional `+`, then at
/// least one hexadecimal digit and nothing else, the number fitting an
/// address. `None` for every other text.
pub open spec fn address_of(text: Seq<char>) -> Option<usize> {
    let digits = without_sign(without_prefix(text));
    if digits.len() > 0 && all_hex(digits) && hex_value(digits) <= usize::MAX {
        Some(hex_value(digits) as usize)
    } else {
        None
    }
}

/// Whether a function name is that of the outermost frame, `main`.
pub open spec fn names_entry(function: Option<&str>) -> bool {
    function is Some && function->0@ == "main"@
}

/// The session after one resume of its process that was answered with
/// `answers`, and what the front end is told: the report of the resume's
/// outcome. The breakpoint table handed to the resume is the session's. A
/// process that is gone is forgotten.
pub open spec fn resumed(before: Session, answers: Answers, after: Session, action: Action) -> bool {
    let (record, outcome) = after_resume(before.record, before.breakpoints, answers);
    let report = report_of(outcome);
    &&& action == Action::Show(report)
    &&& after == (if ends_process(report) {
        before.with_record(record).without_inferior()
    } else {
        before.with_record(record)
    })
}

/// What `continue` does: with no process nothing but a report; with one, one
/// resume of that process, for some course of answers.
pub open spec fn continued(before: Session, after: Session, action: Action) -> bool {
    match before.inferior {
        None => after == before && action == Action::Show(Report::NoProcess),
        Some(_) => exists|answers: Answers| #[trigger] resumed(before, answers, after, action),
    }
}

/// The session after the registers were read for a backtrace, with this
/// answer: the walk starts from the frame that the registers show, or the
/// errno of the read is reported.
pub open spec fn walk_begun(
    before: Session,
    answer: Result<Registers, i32>,
    after: Session,
    action: Action,
) -> bool {
    &&& after == before.with_record(before.record.push(Exchange::Registers { answer }))
    &&& action == (match answer {
        Ok(regs) => Action::Walk(Frame { instruction_ptr: regs.rip, base_ptr: regs.rbp }),
        Err(errno) => Action::Show(Report::BacktraceFailed { error: TraceError::Os(errno) }),
    })
}

/// What `backtrace` does: with no process an error report and nothing else;
/// with one, one read of the registers.
pub open spec fn backtrace_begun(before: Session, after: Session, action: Action) -> bool {
    match before.inferior {
        None => after == before && action == Action::Show(
            Report::BacktraceFailed { error: TraceError::NoInferior },
        ),
        Some(_) => exists|answer: Result<Registers, i32>| #[trigger]
            walk_begun(before, answer, after, action),
    }
}

/// The session after the trap byte was patched in at `addr`, with these
/// answers to the read and the write. If the patch went through, the
/// breakpoint is recorded with the byte that the patch returned; if it was
/// refused, the errno is reported and the table stays as it was.
pub open spec fn patched_in(
    before: Session,
    addr: usize,
    peeked: Result<u64, i32>,
    poked: Result<(), i32>,
    after: Session,
    action: Action,
) -> bool {
    let asked = before.with_record(after_patch(before.record, addr, TRAP_BYTE, peeked, poked));
    match patch_result(addr, peeked, poked) {
        Ok(orig_byte) => {
            &&& after == asked.with_breakpoints(
                before.breakpoints.insert(addr, Some(Breakpoint { addr, orig_byte })),
            )
            &&& action == Action::Show(
                Report::BreakpointSet { index: after.last_index() as usize, addr },
            )
        },
        Err(error) => after == asked && action == Action::Show(
            Report::BreakpointFailed { addr, error },
        ),
    }
}

/// What `breakpoint` does with the text of an address.
///
/// A text that is no address changes nothing. With no process the address is
/// recorded as pending. With a process, an address that is already installed
/// is left alone, so that the byte saved for it stays the one that the trap
/// replaced, and nothing is asked of the process; any other address is
/// patched once.
pub open spec fn breakpoint_requested(
    before: Session,
    text: Seq<char>,
    after: Session,
    action: Action,
) -> bool {
    match address_of(text) {
        None => after == before && action == Action::Show(Report::BadAddress),
        Some(addr) => {
            let set = Action::Show(
                Report::BreakpointSet { index: after.last_index() as usize, addr },
            );
            if before.inferior is None {
                after == before.with_breakpoints(before.breakpoints.insert(addr, None)) && action
                    == set
            } else if before.installed_at(addr) {
                after == before && action == set
            } else {
                exists|peeked: Result<u64, i32>, poked: Result<(), i32>| #[trigger]
                    patched_in(before, addr, peeked, poked, after, action)
            }
        },
    }
}

/// What a command does to the session, and what it asks of the front end.
pub open spec fn answered(before: Session, command: Command, after: Session, action: Action) -> bool {
    match command {
        Command::Quit => after == before.without_inferior() && action == (Action::Exit {
            kill: before.inferior,
        }),
        Command::Run(_) => after == before.without_inferior() && action == (Action::Launch {
            kill: before.inferior,
        }),
        Command::Continue => continued(before, after, action),
        Command::Backtrace => backtrace_begun(before, after, action),
        Command::Breakpoint(None) => after == before && action == Action::Idle,
        Command::Breakpoint(Some(text)) => breakpoint_requested(before, text, after, action),
    }
}

/// The session after the process `pid` was taken over: the breakpoints of the
/// table were patched in in `order`, with the answers `installs`, and the
/// process was then resumed once, with the answers `answers` and the table
/// as the patches left it. The record begins with the first patch. The report
/// is that of the resume, the list names the patches that were refused, and
/// a process that is gone after the resume is forgotten.
pub open spec fn launched_with(
    before: Session,
    pid: i32,
    order: Seq<usize>,
    installs: Seq<(Result<u64, i32>, Result<(), i32>)>,
    answers: Answers,
    after: Session,
    report: Report,
    failures: Seq<InstallFailure>,
) -> bool {
    let (record, outcome) = after_resume(
        after_installs(Seq::empty(), order, installs),
        after.breakpoints,
        answers,
    );
    &&& installed(before.breakpoints, order, installs, after.breakpoints)
    &&& failures == install_failures(order, installs)
    &&& report == report_of(outcome)
    &&& after.target == before.target
    &&& after.record == record
    &&& after.inferior == (if ends_process(report) {
        None
    } else {
        Some(pid)
    })
}

/// What holds once the front end has tried to start the target.
///
/// If it could not, nothing changes. If it could, the new process is the
/// session's process, every breakpoint of the table was tried in it, and it
/// was resumed exactly once.
pub open spec fn launch_settled(
    before: Session,
    spawned: Option<i32>,
    after: Session,
    report: Report,
    failures: Seq<InstallFailure>,
) -> bool {
    match spawned {
        None => after == before && report == Report::SpawnFailed && failures.len() == 0,
        Some(pid) => {
            &&& all_tried(after.breakpoints, failures)
            &&& follows_resume(report)
            &&& exists|
                order: Seq<usize>,
                installs: Seq<(Result<u64, i32>, Result<(), i32>)>,
                answers: Answers,
            | #[trigger]
                launched_with(before, pid, order, installs, answers, after, report, failures)
        },
    }
}

/// The session after the two words of a frame were asked for: the word one
/// word above the frame pointer, which is the caller's return address, and,
/// if that was answered, the word at the frame pointer, which is the caller's
/// frame pointer. The result is the caller's frame, or the errno of the first
/// read that was refused.
pub open spec fn frame_read(
    before: Session,
    frame: Frame,
    above: Result<u64, i32>,
    at: Result<u64, i32>,
    after: Session,
    next: Result<Option<Frame>, TraceError>,
) -> bool {
    let first = before.record.push(
        Exchange::Peek { addr: (frame.base_ptr + 8) as usize, answer: above },
    );
    let second = first.push(Exchange::Peek { addr: frame.base_ptr as usize, answer: at });
    match above {
        Err(errno) => after == before.with_record(first) && next == Err::<
            Option<Frame>,
            TraceError,
        >(TraceError::Os(errno)),
        Ok(instruction_ptr) => after == before.with_record(second) && next == (match at {
            Ok(base_ptr) => Ok(Some(Frame { instruction_ptr, base_ptr })),
            Err(errno) => Err(TraceError::Os(errno)),
        }),
    }
}

/// What the walk up the call stack does at one frame.
///
/// At the outermost frame it ends, whatever the memory holds, and nothing is
/// asked of the process. Elsewhere it needs a process and a frame pointer
/// with room for a word above it; then the caller's frame is read.
pub open spec fn walked(
    before: Session,
    frame: Frame,
    function: Option<&str>,
    after: Session,
    next: Result<Option<Frame>, TraceError>,
) -> bool {
    if names_entry(function) {
        after == before && next == Ok::<Option<Frame>, TraceError>(None)
    } else if before.inferior is None {
        after == before && next == Err::<Option<Frame>, TraceError>(TraceError::NoInferior)
    } else if frame.base_ptr + 8 > usize::MAX {
        after == before && next == Err::<Option<Frame>, TraceError>(TraceError::AddressOverflow)
    } else {
        exists|above: Result<u64, i32>, at: Result<u64, i32>| #[trigger]
            frame_read(before, frame, above, at, after, next)
    }
}

/// Resuming a process never touches the breakpoint table, and never changes
/// which process the session has: it keeps it or loses it. So a breakpoint
/// that stood installed before a `continue` stands installed after it.
pub proof fn lemma_continue_keeps_breakpoints(before: Session, after: Session, action: Action)
    requires
        continued(before, after, action),
    ensures
        after.breakpoints == before.breakpoints,
        after.target == before.target,
        after.inferior is Some ==> after.inferior == before.inferior,
        before.inferior is None ==> after == before && action == Action::Show(Report::NoProcess),
{
}

/// A longer row of digits writes no smaller number than its beginning.
proof fn lemma_hex_prefix(digits: Seq<char>, k: int)
    requires
        0 <= k <= digits.len(),
    ensures
        hex_value(digits.take(k)) <= hex_value(digits),
    decreases digits.len() - k,
{
    if k == digits.len() {
        assert(digits.take(k) =~= digits);
    } else {
        assert(digits.take(k + 1).drop_last() =~= digits.take(k));
        lemma_hex_prefix(digits, k + 1);
    }
}

fn digit_value(c: char) -> (d: Option<usize>)
    ensures
        d is Some <==> hex_digit(c) is Some,
        d is Some ==> d->0 == hex_digit(c)->0 && d->0 < 16,
{
    if '0' <= c && c <= '9' {
        Some((c as u32 - '0' as u32) as usize)
    } else if 'a' <= c && c <= 'f' {
        Some((c as u32 - 'a' as u32 + 10) as usize)
    } else if 'A' <= c && c <= 'F' {
        Some((c as u32 - 'A' as u32 + 10) as usize)
    } else {
        None
    }
}

/// One debugging session.
pub struct Debugger {
    target: String,
    inferior: Option<Inferior>,
    breakpoints: HashMap<usize, Option<Breakpoint>>,
    gone: Ghost<Seq<Exchange>>,
}

impl View for Debugger {
    type V = Session;

    closed spec fn view(&self) -> Session {
        Session {
            target: self.target@,
            inferior: match self.inferior {
                Some(inferior) => Some(inferior.id()),
                None => None,
            },
            record: match self.inferior {
                Some(inferior) => inferior.record(),
                None => self.gone@,
            },
            breakpoints: self.breakpoints@,
        }
    }
}

impl Debugger {
    /// Initializes the debugger: a session for `target` with no process and
    /// no breakpoints.
    pub fn new(target: &str) -> (debugger: Debugger)
        ensures
            debugger@ == (Session {
                target: target@,
                inferior: None,
                record: Seq::empty(),
                breakpoints: Map::empty(),
            }),
    {
        Debugger {
            target: target.to_owned(),
            inferior: None,
            breakpoints: HashMap::new(),
            gone: Ghost(Seq::empty()),
        }
    }

    /// The path of the target.
    pub fn target(&self) -> (target: &str)
        ensures
            target@ == self@.target,
    {
        self.target.as_str()
    }

    /// The id of the process under trace, if there is one.
    pub fn inferior(&self) -> (pid: Option<i32>)
        ensures
            pid == self@.inferior,
    {
        match &self.inferior {
            Some(inferior) => Some(inferior.pid()),
            None => None,
        }
    }

    /// The breakpoint table.
    pub fn breakpoints(&self) -> (table: &HashMap<usize, Option<Breakpoint>>)
        ensures
            table@ == self@.breakpoints,
    {
        &self.breakpoints
    }

    /// Reads an address written in hexadecimal, with or without `0x` in
    /// front. The session is not changed.
    pub fn parse_address(&mut self, addr: &str) -> (parsed: Option<usize>)
        ensures
            parsed == address_of(addr@),
            final(self)@ == old(self)@,
    {
        let chars = chars_of(addr);
        let mut start: usize = 0;
        if chars.len() >= 2 && chars[0] == '0' && (chars[1] == 'x' || chars[1] == 'X') {
            start = 2;
        }
        assert(chars@.skip(start as int) =~= without_prefix(addr@));
        if start < chars.len() && chars[start] == '+' {
            assert(without_sign(without_prefix(addr@)) =~= chars@.skip(start + 1));
            start = start + 1;
        }
        let ghost digits = without_sign(without_prefix(addr@));
        assert(digits =~= chars@.skip(start as int));
        if start == chars.len() {
            return None;
        }
        let mut value: usize = 0;
        let mut n: usize = start;
        assert(digits.take(0) =~= Seq::<char>::empty());
        while n < chars.len()
            invariant
                start <= n <= chars.len(),
                digits == chars@.skip(start as int),
                digits == without_sign(without_prefix(addr@)),
                all_hex(digits.take(n - start)),
                value == hex_value(digits.take(n - start)),
            decreases chars.len() - n,
        {
            let ghost seen = digits.take(n - start);
            let ghost next = digits.take(n - start + 1);
            assert(next.drop_last() =~= seen);
            assert(next.last() == chars@[n as int]);
            let d = match digit_value(chars[n]) {
                Some(d) => d,
                None => {
                    assert(hex_digit(digits[n - start]) is None);
                    return None;
                },
            };
            assert(hex_value(next) == value * 16 + d);
            if value > (usize::MAX - d) / 16 {
                proof {
                    lemma_hex_prefix(digits, n - start + 1);
                }
                return None;
            }
            value = value * 16 + d;
            assert forall|i: int| 0 <= i < next.len() implies hex_digit(#[trigger] next[i]) is Some by {
                if i < seen.len() {
                    assert(next[i] == seen[i]);
                }
            }
            n += 1;
        }
        assert(digits.take(n - start) =~= digits);
        Some(value)
    }
    /// Gives up the session's process, if there is one, and names it.
    fn give_up(&mut self) -> (pid: Option<i32>)
        ensures
            pid == old(self)@.inferior,
            final(self)@ == old(self)@.without_inferior(),
    {
        match self.inferior.take() {
            Some(inferior) => {
                self.gone = Ghost(inferior.record());
                Some(inferior.pid())
            },
            None => None,
        }
    }

    /// Records how a resume ended, and says what to tell the operator.
    ///
    /// After a stop, or after a request that was refused, the process stays
    /// the session's process. After an exit or a death by signal it is gone,
    /// and the session has no process any more.
    pub fn settle(&mut self, outcome: Result<Status, TraceError>) -> (report: Report)
        ensures
            report == report_of(outcome),
            final(self)@ == (if ends_process(report) {
                old(self)@.without_inferior()
            } else {
                old(self)@
            }),
    {
        match outcome {
            Ok(Status::Stopped(signal, addr)) => Report::Stopped { signal, addr },
            Ok(Status::Exited(code)) => {
                self.give_up();
                Report::Exited { code }
            },
            Ok(Status::Signaled(signal)) => {
                self.give_up();
                Report::Signaled { signal }
            },
            Err(error) => Report::ResumeFailed { error },
        }
    }

    /// Carries out one command.
    ///
    /// `quit` and `run` give up the session's process and name it for the
    /// front end to kill. `continue` resumes the process past the breakpoint
    /// it may stand on. `backtrace` reads the registers for the first frame.
    /// `breakpoint` records an address, and patches the process if there is
    /// one. A command that needs a process and finds none is answered with a
    /// report; the session is then as it was.
    pub fn run(&mut self, command: &DebuggerCommand) -> (action: Action)
        ensures
            answered(old(self)@, command@, final(self)@, action),
    {
        match command {
            DebuggerCommand::Quit => {
                let kill = self.give_up();
                Action::Exit { kill }
            },
            DebuggerCommand::Run(_) => {
                let kill = self.give_up();
                Action::Launch { kill }
            },
            DebuggerCommand::Continue => {
                let ghost before = self@;
                match self.inferior.take() {
                    None => Action::Show(Report::NoProcess),
                    Some(mut inferior) => {
                        let outcome = inferior.continue_exec(&self.breakpoints);
                        proof {
                            let answers = choose|answers: Answers|
                                (#[trigger] after_resume(
                                    before.record,
                                    before.breakpoints,
                                    answers,
                                )) == (inferior.record(), outcome);
                            assert(after_resume(before.record, before.breakpoints, answers) == (
                                inferior.record(),
                                outcome,
                            ));
                        }
                        self.inferior = Some(inferior);
                        let action = Action::Show(self.settle(outcome));
                        proof {
                            let answers = choose|answers: Answers|
                                (#[trigger] after_resume(
                                    before.record,
                                    before.breakpoints,
                                    answers,
                                )) == (self@.record, outcome);
                            assert(resumed(before, answers, self@, action));
                        }
                        action
                    },
                }
            },
            DebuggerCommand::Backtrace => {
                let ghost before = self@;
                match self.inferior.take() {
                    None => Action::Show(Report::BacktraceFailed { error: TraceError::NoInferior }),
                    Some(mut inferior) => {
                        let answer = inferior.registers();
                        self.inferior = Some(inferior);
                        let action = match answer {
                            Ok(regs) => Action::Walk(
                                Frame { instruction_ptr: regs.rip, base_ptr: regs.rbp },
                            ),
                            Err(errno) => Action::Show(
                                Report::BacktraceFailed { error: TraceError::Os(errno) },
                            ),
                        };
                        assert(walk_begun(before, answer, self@, action));
                        action
                    },
                }
            },
            DebuggerCommand::Breakpoint(None) => Action::Idle,
            DebuggerCommand::Breakpoint(Some(text)) => self.set_breakpoint(text.as_str()),
        }
    }

    /// Records a breakpoint at the address that `text` writes.
    fn set_breakpoint(&mut self, text: &str) -> (action: Action)
        ensures
            breakpoint_requested(old(self)@, text@, final(self)@, action),
    {
        let ghost before = self@;
        let addr = match self.parse_address(text) {
            Some(addr) => addr,
            None => return Action::Show(Report::BadAddress),
        };
        match self.inferior.take() {
            None => {
                self.breakpoints.insert(addr, None);
                assert(self.breakpoints@.dom().contains(addr));
                let index = self.breakpoints.len() - 1;
                Action::Show(Report::BreakpointSet { index, addr })
            },
            Some(mut inferior) => {
                let installed = match self.breakpoints.get(&addr) {
                    Some(Some(_)) => true,
                    _ => false,
                };
                if installed {
                    self.inferior = Some(inferior);
                    assert(self.breakpoints@.dom().contains(addr));
                    let index = self.breakpoints.len() - 1;
                    Action::Show(Report::BreakpointSet { index, addr })
                } else {
                    let outcome = inferior.write_byte(addr, TRAP_BYTE);
                    proof {
                        let (peeked, poked) = choose|
                            peeked: Result<u64, i32>,
                            poked: Result<(), i32>,
                        |
                            inferior.record() == #[trigger] after_patch(
                                before.record,
                                addr,
                                TRAP_BYTE,
                                peeked,
                                poked,
                            ) && outcome == patch_result(addr, peeked, poked);
                        assert(inferior.record() == after_patch(
                            before.record,
                            addr,
                            TRAP_BYTE,
                            peeked,
                            poked,
                        ));
                    }
                    self.inferior = Some(inferior);
                    let action = match outcome {
                        Ok(orig_byte) => {
                            self.breakpoints.insert(addr, Some(Breakpoint { addr, orig_byte }));
                            assert(self.breakpoints@.dom().contains(addr));
                            let index = self.breakpoints.len() - 1;
                            Action::Show(Report::BreakpointSet { index, addr })
                        },
                        Err(error) => Action::Show(Report::BreakpointFailed { addr, error }),
                    };
                    proof {
                        let (peeked, poked) = choose|
                            peeked: Result<u64, i32>,
                            poked: Result<(), i32>,
                        |
                            self@.record == #[trigger] after_patch(
                                before.record,
                                addr,
                                TRAP_BYTE,
                                peeked,
                                poked,
                            ) && outcome == patch_result(addr, peeked, poked);
                        assert(patched_in(before, addr, peeked, poked, self@, action));
                    }
                    action
                }
            },
        }
    }

    /// Takes in what became of starting the target: `spawned` is the id of
    /// the new process, or `None` if there is none. A new process gets every
    /// breakpoint of the table written into it and is resumed once. The list
    /// names the breakpoints that could not be written.
    pub fn launched(&mut self, spawned: Option<i32>) -> (shown: (Report, Vec<InstallFailure>))
        ensures
            launch_settled(old(self)@, spawned, final(self)@, shown.0, shown.1@),
    {
        let ghost before = self@;
        let (started, failures) = Inferior::new(spawned, &mut self.breakpoints);
        match started {
            None => (Report::SpawnFailed, failures),
            Some(mut inferior) => {
                let ghost pid = inferior.id();
                let ghost begun = inferior.record();
                let ghost table = self.breakpoints@;
                let outcome = inferior.continue_exec(&self.breakpoints);
                self.inferior = Some(inferior);
                let ghost record = self@.record;
                let report = self.settle(outcome);
                proof {
                    let (order, installs) = choose|
                        order: Seq<usize>,
                        installs: Seq<(Result<u64, i32>, Result<(), i32>)>,
                    |
                        begun == #[trigger] after_installs(Seq::empty(), order, installs)
                            && installed(before.breakpoints, order, installs, table) && failures@
                            == install_failures(order, installs);
                    let answers = choose|answers: Answers|
                        (#[trigger] after_resume(begun, table, answers)) == (record, outcome);
                    assert(launched_with(
                        before,
                        pid,
                        order,
                        installs,
                        answers,
                        self@,
                        report,
                        failures@,
                    ));
                }
                (report, failures)
            },
        }
    }

    /// Whether a function name is that of the outermost frame.
    pub fn is_entry(function: Option<&str>) -> (entry: bool)
        ensures
            entry == names_entry(function),
    {
        match function {
            Some(name) => same_text(name, "main"),
            None => false,
        }
    }

    /// Steps from a frame to the frame of its caller.
    ///
    /// `function` is the name of the function that `frame` belongs to, as far
    /// as it is known. The frame of `main` has no caller to show: the walk
    /// ends there with `None`. For any other frame the caller's return
    /// address is the word one word above the frame pointer, and the caller's
    /// frame pointer is the word at the frame pointer.
    pub fn caller_frame(&mut self, frame: Frame, function: Option<&str>) -> (next: Result<
        Option<Frame>,
        TraceError,
    >)
        ensures
            walked(old(self)@, frame, function, final(self)@, next),
    {
        let ghost before = self@;
        if Self::is_entry(function) {
            return Ok(None);
        }
        let mut inferior = match self.inferior.take() {
            Some(inferior) => inferior,
            None => return Err(TraceError::NoInferior),
        };
        if frame.base_ptr > usize::MAX as u64 - 8 {
            self.inferior = Some(inferior);
            return Err(TraceError::AddressOverflow);
        }
        let base: usize = frame.base_ptr as usize;
        let above = inferior.read_word(base + 8);
        let instruction_ptr = match above {
            Ok(word) => word,
            Err(errno) => {
                self.inferior = Some(inferior);
                let next = Err(TraceError::Os(errno));
                assert(frame_read(before, frame, above, Err(0), self@, next));
                return next;
            },
        };
        let at = inferior.read_word(base);
        self.inferior = Some(inferior);
        let next = match at {
            Ok(base_ptr) => Ok(Some(Frame { instruction_ptr, base_ptr })),
            Err(errno) => Err(TraceError::Os(errno)),
        };
        assert(frame_read(before, frame, above, at, self@, next));
        next
    }
}

} // verus!
