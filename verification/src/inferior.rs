//! The traced process: patching its memory, resuming it past a breakpoint,
//! waiting for it.
//!
//! What the process answers to a request is not known before it is asked. An
//! inferior therefore keeps a record of the requests made through it and of
//! the answers, and the contracts say, for every course of answers, which
//! requests were made and what is returned. The record is kept for contracts
//! only; no code reads it. Beside it stands a model of the process's memory,
//! [`stored`], over which the laws on breakpoints are proved.

use crate::debugger::Breakpoint;
use crate::tracing::{
    get_registers, peek_word, poke_word, resume, set_registers, single_step, wait_for, WaitEvent,
};
use crate::tracing::Registers;
use crate::word::{
    align_addr_to_word, byte_at, byte_offset, extract_byte, lemma_written_restores, patched,
    replace_byte, word_base, word_bytes, written, TRAP_BYTE,
};
use std::collections::HashMap;
use vstd::prelude::*;
use vstd::std_specs::hash::spec_keys_iter;
use vstd::std_specs::iter::IteratorSpec;

verus! {

broadcast use vstd::std_specs::hash::group_hash_axioms;

/// Why a request to the traced process came to nothing.
#[derive(Clone, Copy, Debug, PartialEq, Eq, Structural)]
pub enum TraceError {
    /// The tracing facility refused the request, with this errno.
    Os(i32),
    /// A wait reported something that is neither a stop, an exit nor a death
    /// by signal.
    UnexpectedStatus,
    /// There is no process to ask.
    NoInferior,
    /// A frame pointer so high that the slot above it has no address.
    AddressOverflow,
}

/// How a process was found after it had been resumed. Signals are given by
/// number.
#[derive(Clone, Copy, Debug, PartialEq, Eq, Structural)]
pub enum Status {
    /// The process is stopped, by this signal, at this instruction pointer. It
    /// is alive and can be resumed.
    Stopped(i32, usize),
    /// The process ended by itself, with this exit code.
    Exited(i32),
    /// This signal killed the process.
    Signaled(i32),
}

impl Status {
    /// Whether the process is gone: every status but a stop.
    pub open spec fn is_terminal(self) -> bool {
        !(self is Stopped)
    }

    /// Whether the process is gone.
    pub fn terminal(&self) -> (gone: bool)
        ensures
            gone == self.is_terminal(),
    {
        match self {
            Status::Stopped(_, _) => false,
            Status::Exited(_) => true,
            Status::Signaled(_) => true,
        }
    }

    /// The status that a wait report stands for, where `rip` is the
    /// instruction pointer read after a stop.
    pub open spec fn of_event(event: WaitEvent, rip: u64) -> Option<Status> {
        match event {
            WaitEvent::Exited(code) => Some(Status::Exited(code)),
            WaitEvent::Signaled(signal) => Some(Status::Signaled(signal)),
            WaitEvent::Stopped(signal) => Some(Status::Stopped(signal, rip as usize)),
            WaitEvent::Other => None,
        }
    }

    /// Says what a wait comes to, from the two answers of the tracing
    /// facility: see [`wait_outcome`].
    pub fn after_wait(waited: Result<WaitEvent, i32>, rip: Result<u64, i32>) -> (result: Result<
        Status,
        TraceError,
    >)
        ensures
            result == wait_outcome(waited, rip),
    {
        let event = match waited {
            Ok(event) => event,
            Err(errno) => return Err(TraceError::Os(errno)),
        };
        let rip: u64 = match event {
            WaitEvent::Stopped(_) => match rip {
                Ok(rip) => rip,
                Err(errno) => return Err(TraceError::Os(errno)),
            },
            _ => 0,
        };
        match Status::from_event(event, rip) {
            Some(status) => Ok(status),
            None => Err(TraceError::UnexpectedStatus),
        }
    }

    /// Turns a wait report into a status. A stop carries `rip`, the instruction
    /// pointer read after it; the other reports ignore it. A report of any
    /// other kind is no status.
    pub fn from_event(event: WaitEvent, rip: u64) -> (status: Option<Status>)
        ensures
            status == Status::of_event(event, rip),
    {
        match event {
            WaitEvent::Exited(code) => Some(Status::Exited(code)),
            WaitEvent::Signaled(signal) => Some(Status::Signaled(signal)),
            WaitEvent::Stopped(signal) => Some(Status::Stopped(signal, #[verifier::truncate] (rip as usize))),
            WaitEvent::Other => None,
        }
    }
}

/// What a wait comes to, from the answer to the wait and the answer to the
/// read of the instruction pointer that follows a stop.
///
/// A wait that is refused fails with its errno. An exit and a death by
/// signal are the status of that kind. A stop carries the instruction
/// pointer, and fails with the errno of the read if that is refused. Any
/// other report is an unexpected status. The second answer counts after a
/// stop only: in every other case no registers are read.
pub open spec fn wait_outcome(waited: Result<WaitEvent, i32>, rip: Result<u64, i32>) -> Result<
    Status,
    TraceError,
> {
    match waited {
        Err(errno) => Err(TraceError::Os(errno)),
        Ok(WaitEvent::Exited(code)) => Ok(Status::Exited(code)),
        Ok(WaitEvent::Signaled(signal)) => Ok(Status::Signaled(signal)),
        Ok(WaitEvent::Stopped(signal)) => match rip {
            Ok(rip) => Ok(Status::Stopped(signal, rip as usize)),
            Err(errno) => Err(TraceError::Os(errno)),
        },
        Ok(WaitEvent::Other) => Err(TraceError::UnexpectedStatus),
    }
}

/// The installed breakpoint that a process stopped at `rip` has just run into,
/// if there is one. A trap is reported one byte past the trap byte, so the
/// address in question is `rip - 1`. A pending entry is no breakpoint yet.
pub open spec fn breakpoint_hit(rip: u64, table: Map<usize, Option<Breakpoint>>) -> Option<
    Breakpoint,
> {
    let candidate = rip - 1;
    if 0 <= candidate <= usize::MAX && table.contains_key(candidate as usize) && table[candidate as usize] is Some {
        Some(Breakpoint { addr: candidate as usize, orig_byte: table[candidate as usize]->0.orig_byte })
    } else {
        None
    }
}

/// Looks up the installed breakpoint one byte behind `rip`. The result names
/// the address to rewind to and the byte to put back there.
pub fn breakpoint_behind(rip: u64, breakpoints: &HashMap<usize, Option<Breakpoint>>) -> (hit: Option<
    Breakpoint,
>)
    ensures
        hit == breakpoint_hit(rip, breakpoints@),
{
    if rip == 0 {
        return None;
    }
    let behind: u64 = rip - 1;
    if behind > usize::MAX as u64 {
        return None;
    }
    let candidate: usize = behind as usize;
    match breakpoints.get(&candidate) {
        Some(Some(breakpoint)) => Some(Breakpoint { addr: candidate, orig_byte: breakpoint.orig_byte }),
        _ => None,
    }
}

/// The addresses of a breakpoint table, each once, in no particular order.
pub fn addresses(breakpoints: &HashMap<usize, Option<Breakpoint>>) -> (addrs: Vec<usize>)
    ensures
        addrs@.to_set() == breakpoints@.dom(),
        addrs@.no_duplicates(),
{
    let mut addrs: Vec<usize> = Vec::new();
    let ghost all: Seq<usize> = spec_keys_iter(breakpoints).remaining().unref();
    for addr in it: breakpoints.keys()
        invariant
            addrs@ == it.seq().take(it.index()).unref(),
            it.seq().unref().to_set() == breakpoints@.dom(),
            it.seq().no_duplicates(),
            all == it.seq().unref(),
    {
        addrs.push(*addr);
    }
    assert(addrs@ =~= all);
    addrs
}

/// One request to the traced process, with what it was answered. An errno
/// stands for a request that was refused.
#[allow(inconsistent_fields)]
pub enum Exchange {
    /// The word at `addr` was asked for.
    Peek { addr: usize, answer: Result<u64, i32> },
    /// `word` was to be stored at `addr`.
    Poke { addr: usize, word: u64, answer: Result<(), i32> },
    /// The registers were asked for.
    Registers { answer: Result<Registers, i32> },
    /// These registers were to be loaded.
    Rewind { regs: Registers, answer: Result<(), i32> },
    /// The process was to run one instruction.
    Step { answer: Result<(), i32> },
    /// The process was to run on.
    Resume { answer: Result<(), i32> },
    /// The process was waited for, with these option bits.
    Wait { options: Option<i32>, answer: Result<WaitEvent, i32> },
}

/// What the traced process answered in the course of one resume. A request
/// that was not made has no answer: its field is then not looked at.
pub struct Answers {
    /// The registers, read first.
    pub registers: Result<Registers, i32>,
    /// The word read to put the saved byte back.
    pub restore_peek: Result<u64, i32>,
    /// The answer to writing that word back.
    pub restore_poke: Result<(), i32>,
    /// The answer to rewinding the instruction pointer.
    pub rewind: Result<(), i32>,
    /// The answer to the single step.
    pub step: Result<(), i32>,
    /// The answer to the wait after the single step.
    pub stepped: Result<WaitEvent, i32>,
    /// The registers read after that wait, if it reported a stop.
    pub stepped_registers: Result<Registers, i32>,
    /// The word read to write the trap byte again.
    pub rearm_peek: Result<u64, i32>,
    /// The answer to writing that word back.
    pub rearm_poke: Result<(), i32>,
    /// The answer to letting the process run on.
    pub resume: Result<(), i32>,
    /// The answer to the last wait.
    pub waited: Result<WaitEvent, i32>,
    /// The registers read after that wait, if it reported a stop.
    pub waited_registers: Result<Registers, i32>,
}

/// The instruction pointer that an answer to a read of the registers shows.
pub open spec fn shown_rip(answer: Result<Registers, i32>) -> Result<u64, i32> {
    match answer {
        Ok(regs) => Ok(regs.rip),
        Err(errno) => Err(errno),
    }
}

/// The record after a wait: the wait itself and, if it reported a stop, the
/// read of the registers.
pub open spec fn after_wait(
    record: Seq<Exchange>,
    options: Option<i32>,
    waited: Result<WaitEvent, i32>,
    registers: Result<Registers, i32>,
) -> Seq<Exchange> {
    let asked = record.push(Exchange::Wait { options, answer: waited });
    match waited {
        Ok(WaitEvent::Stopped(_)) => asked.push(Exchange::Registers { answer: registers }),
        _ => asked,
    }
}

/// What a patch of the byte at `addr` returns, from the answers to its read
/// and its write: the byte that the word read holds at the place of `addr`,
/// or the errno of the first request that was refused.
pub open spec fn patch_result(addr: usize, peeked: Result<u64, i32>, poked: Result<(), i32>) -> Result<
    u8,
    TraceError,
> {
    match peeked {
        Err(errno) => Err(TraceError::Os(errno)),
        Ok(word) => match poked {
            Err(errno) => Err(TraceError::Os(errno)),
            Ok(_) => Ok(word_bytes(word)[byte_offset(addr)]),
        },
    }
}

/// The record after a patch of the byte at `addr` to `val`: the word around
/// `addr` is read, and if that is answered, the same word with the one byte
/// changed is written to the same place.
pub open spec fn after_patch(
    record: Seq<Exchange>,
    addr: usize,
    val: u8,
    peeked: Result<u64, i32>,
    poked: Result<(), i32>,
) -> Seq<Exchange> {
    let read = record.push(Exchange::Peek { addr: word_base(addr), answer: peeked });
    match peeked {
        Err(_) => read,
        Ok(word) => read.push(
            Exchange::Poke {
                addr: word_base(addr),
                word: patched(word, byte_offset(addr), val),
                answer: poked,
            },
        ),
    }
}

/// The step over a breakpoint: the record after it, and the result with which
/// the resume ends there, if it does.
///
/// The saved byte is put back; the registers are loaded as they were read,
/// but for the instruction pointer, which is rewound to the breakpoint; the
/// process runs one instruction and is waited for; if it is still alive, the
/// trap byte is written again. A request that is refused
/// ends the resume with its error, and a process that is gone after the step
/// ends it with that status. Only after the trap byte is back does the
/// resume go on, which is the result `None`.
pub open spec fn after_step_over(
    record: Seq<Exchange>,
    hit: Breakpoint,
    read: Registers,
    answers: Answers,
) -> (Seq<Exchange>, Option<Result<Status, TraceError>>) {
    let restored = after_patch(
        record,
        hit.addr,
        hit.orig_byte,
        answers.restore_peek,
        answers.restore_poke,
    );
    let rewound = restored.push(
        Exchange::Rewind { regs: Registers { rip: hit.addr as u64, ..read }, answer: answers.rewind },
    );
    let stepped = rewound.push(Exchange::Step { answer: answers.step });
    let waited = after_wait(stepped, None, answers.stepped, answers.stepped_registers);
    let rearmed = after_patch(waited, hit.addr, TRAP_BYTE, answers.rearm_peek, answers.rearm_poke);
    match patch_result(hit.addr, answers.restore_peek, answers.restore_poke) {
        Err(error) => (restored, Some(Err(error))),
        Ok(_) => match answers.rewind {
            Err(errno) => (rewound, Some(Err(TraceError::Os(errno)))),
            Ok(_) => match answers.step {
                Err(errno) => (stepped, Some(Err(TraceError::Os(errno)))),
                Ok(_) => match wait_outcome(
                    answers.stepped,
                    shown_rip(answers.stepped_registers),
                ) {
                    Err(error) => (waited, Some(Err(error))),
                    Ok(status) => if status.is_terminal() {
                        (waited, Some(Ok(status)))
                    } else {
                        match patch_result(hit.addr, answers.rearm_peek, answers.rearm_poke) {
                            Err(error) => (rearmed, Some(Err(error))),
                            Ok(_) => (rearmed, None),
                        }
                    },
                },
            },
        },
    }
}

/// Letting the process run on: the record after it, and the result. The
/// process is resumed and, if that is answered, waited for.
pub open spec fn after_run_on(record: Seq<Exchange>, answers: Answers) -> (
    Seq<Exchange>,
    Result<Status, TraceError>,
) {
    let resumed = record.push(Exchange::Resume { answer: answers.resume });
    match answers.resume {
        Err(errno) => (resumed, Err(TraceError::Os(errno))),
        Ok(_) => (
            after_wait(resumed, None, answers.waited, answers.waited_registers),
            wait_outcome(answers.waited, shown_rip(answers.waited_registers)),
        ),
    }
}

/// One resume with the breakpoints of `table`: the record after it, and its
/// result. The registers are read; a breakpoint one byte behind the
/// instruction pointer is stepped over; then the process runs on.
pub open spec fn after_resume(
    record: Seq<Exchange>,
    table: Map<usize, Option<Breakpoint>>,
    answers: Answers,
) -> (Seq<Exchange>, Result<Status, TraceError>) {
    let read = record.push(Exchange::Registers { answer: answers.registers });
    match answers.registers {
        Err(errno) => (read, Err(TraceError::Os(errno))),
        Ok(regs) => match breakpoint_hit(regs.rip, table) {
            None => after_run_on(read, answers),
            Some(hit) => match after_step_over(read, hit, regs, answers).1 {
                Some(result) => (after_step_over(read, hit, regs, answers).0, result),
                None => after_run_on(after_step_over(read, hit, regs, answers).0, answers),
            },
        },
    }
}

/// The memory after the requests of a record, as far as the record shows it:
/// every write that was answered has stored its word. What the process
/// itself wrote while it ran is not in the record.
pub open spec fn stored(memory: Map<usize, u64>, record: Seq<Exchange>) -> Map<usize, u64>
    decreases record.len(),
{
    if record.len() == 0 {
        memory
    } else {
        let before = stored(memory, record.drop_last());
        match record.last() {
            Exchange::Poke { addr, word, answer: Ok(_) } => before.insert(addr, word),
            _ => before,
        }
    }
}

/// One more request changes the memory as the record shows it only if it is
/// a write that was answered.
pub proof fn lemma_stored_push(memory: Map<usize, u64>, record: Seq<Exchange>, last: Exchange)
    ensures
        stored(memory, record.push(last)) == (match last {
            Exchange::Poke { addr, word, answer: Ok(_) } => stored(memory, record).insert(addr, word),
            _ => stored(memory, record),
        }),
{
    assert(record.push(last).drop_last() =~= record);
}

/// A wait stores nothing.
pub proof fn lemma_wait_stores(
    memory: Map<usize, u64>,
    record: Seq<Exchange>,
    options: Option<i32>,
    waited: Result<WaitEvent, i32>,
    registers: Result<Registers, i32>,
)
    ensures
        stored(memory, after_wait(record, options, waited, registers)) == stored(memory, record),
{
    let asked = record.push(Exchange::Wait { options, answer: waited });
    lemma_stored_push(memory, record, Exchange::Wait { options, answer: waited });
    lemma_stored_push(memory, asked, Exchange::Registers { answer: registers });
}

/// A patch that is answered from the memory, and whose write goes through,
/// changes the byte at `addr` to `val` and nothing else, and returns the byte
/// that stood there. A patch that is refused changes nothing.
pub proof fn lemma_patch_stores(
    memory: Map<usize, u64>,
    record: Seq<Exchange>,
    addr: usize,
    val: u8,
    peeked: Result<u64, i32>,
    poked: Result<(), i32>,
)
    requires
        peeked is Ok ==> peeked->Ok_0 == stored(memory, record)[word_base(addr)],
    ensures
        patch_result(addr, peeked, poked) is Ok ==> stored(
            memory,
            after_patch(record, addr, val, peeked, poked),
        ) == written(stored(memory, record), addr, val) && patch_result(addr, peeked, poked) == Ok::<
            u8,
            TraceError,
        >(byte_at(stored(memory, record), addr)),
        patch_result(addr, peeked, poked) is Err ==> stored(
            memory,
            after_patch(record, addr, val, peeked, poked),
        ) == stored(memory, record),
{
    let read = record.push(Exchange::Peek { addr: word_base(addr), answer: peeked });
    lemma_stored_push(memory, record, Exchange::Peek { addr: word_base(addr), answer: peeked });
    if let Ok(word) = peeked {
        lemma_stored_push(
            memory,
            read,
            Exchange::Poke {
                addr: word_base(addr),
                word: patched(word, byte_offset(addr), val),
                answer: poked,
            },
        );
    }
}

/// A step over a breakpoint leaves the breakpoint armed.
///
/// Let the trap byte stand at the breakpoint's address, and let both reads of
/// the step be answered from the memory as the record shows it. If the step
/// is carried through, so that the resume goes on, then the instruction was
/// run with the saved byte in its place, and the memory is afterwards what it
/// was before: the trap byte is back, and no other byte has changed.
pub proof fn lemma_step_over_rearms(
    memory: Map<usize, u64>,
    record: Seq<Exchange>,
    hit: Breakpoint,
    read: Registers,
    answers: Answers,
)
    requires
        stored(memory, record).contains_key(word_base(hit.addr)),
        byte_at(stored(memory, record), hit.addr) == TRAP_BYTE,
        answers.restore_peek == Ok::<u64, i32>(stored(memory, record)[word_base(hit.addr)]),
        answers.rearm_peek == Ok::<u64, i32>(
            written(stored(memory, record), hit.addr, hit.orig_byte)[word_base(hit.addr)],
        ),
        after_step_over(record, hit, read, answers).1 is None,
    ensures
        byte_at(written(stored(memory, record), hit.addr, hit.orig_byte), hit.addr)
            == hit.orig_byte,
        stored(memory, after_step_over(record, hit, read, answers).0) == stored(memory, record),
{
    let before = stored(memory, record);
    let restored = after_patch(
        record,
        hit.addr,
        hit.orig_byte,
        answers.restore_peek,
        answers.restore_poke,
    );
    lemma_patch_stores(
        memory,
        record,
        hit.addr,
        hit.orig_byte,
        answers.restore_peek,
        answers.restore_poke,
    );
    let rewinding = Exchange::Rewind {
        regs: Registers { rip: hit.addr as u64, ..read },
        answer: answers.rewind,
    };
    let rewound = restored.push(rewinding);
    lemma_stored_push(memory, restored, rewinding);
    let stepped = rewound.push(Exchange::Step { answer: answers.step });
    lemma_stored_push(memory, rewound, Exchange::Step { answer: answers.step });
    let waited = after_wait(stepped, None, answers.stepped, answers.stepped_registers);
    lemma_wait_stores(memory, stepped, None, answers.stepped, answers.stepped_registers);
    assert(stored(memory, waited) == written(before, hit.addr, hit.orig_byte));
    lemma_patch_stores(
        memory,
        waited,
        hit.addr,
        TRAP_BYTE,
        answers.rearm_peek,
        answers.rearm_poke,
    );
    lemma_written_restores(before, hit.addr, hit.orig_byte);
    crate::word::lemma_written_changes_one_byte(before, hit.addr, hit.orig_byte);
}

/// A breakpoint that could not be written into a fresh process.
#[derive(Clone, Copy, Debug, PartialEq, Eq, Structural)]
pub struct InstallFailure {
    /// The address that was to be patched.
    pub addr: usize,
    /// What the tracing facility answered.
    pub error: TraceError,
}

/// Whether the list of failures names `addr`.
pub open spec fn failed_at(failures: Seq<InstallFailure>, addr: usize) -> bool {
    exists|i: int| 0 <= i < failures.len() && (#[trigger] failures[i]).addr == addr
}

/// What holds of a breakpoint table once every entry has been tried in a fresh
/// process: an entry is installed, under its own address, or it is pending
/// and among the failures; never both.
pub open spec fn all_tried(
    table: Map<usize, Option<Breakpoint>>,
    failures: Seq<InstallFailure>,
) -> bool {
    forall|addr: usize| #[trigger]
        table.contains_key(addr) ==> match table[addr] {
            Some(breakpoint) => breakpoint.addr == addr && !failed_at(failures, addr),
            None => failed_at(failures, addr),
        }
}

/// The table entry that a start-up leaves at `addr`: the breakpoint with the
/// byte that the patch returned, or a pending entry if the patch was refused.
pub open spec fn entry_after(addr: usize, outcome: Result<u8, TraceError>) -> Option<Breakpoint> {
    match outcome {
        Ok(orig_byte) => Some(Breakpoint { addr, orig_byte }),
        Err(_) => None,
    }
}

/// The record after the trap byte was patched in at each address of `order`,
/// one after the other, with these answers to the read and the write of each
/// patch.
pub open spec fn after_installs(
    record: Seq<Exchange>,
    order: Seq<usize>,
    answers: Seq<(Result<u64, i32>, Result<(), i32>)>,
) -> Seq<Exchange>
    decreases order.len(),
{
    if order.len() == 0 {
        record
    } else {
        after_patch(
            after_installs(record, order.drop_last(), answers.drop_last()),
            order.last(),
            TRAP_BYTE,
            answers.last().0,
            answers.last().1,
        )
    }
}

/// The patches among those that were refused, in their order, each with the
/// address and the errno.
pub open spec fn install_failures(
    order: Seq<usize>,
    answers: Seq<(Result<u64, i32>, Result<(), i32>)>,
) -> Seq<InstallFailure>
    decreases order.len(),
{
    if order.len() == 0 {
        Seq::empty()
    } else {
        let earlier = install_failures(order.drop_last(), answers.drop_last());
        match patch_result(order.last(), answers.last().0, answers.last().1) {
            Ok(_) => earlier,
            Err(error) => earlier.push(InstallFailure { addr: order.last(), error }),
        }
    }
}

/// What a start-up makes of a breakpoint table: `order` holds every address
/// of the table once, each was patched with the answers at its place, and
/// each entry is what its patch came to.
pub open spec fn installed(
    before: Map<usize, Option<Breakpoint>>,
    order: Seq<usize>,
    answers: Seq<(Result<u64, i32>, Result<(), i32>)>,
    after: Map<usize, Option<Breakpoint>>,
) -> bool {
    &&& order.no_duplicates()
    &&& order.to_set() == before.dom()
    &&& answers.len() == order.len()
    &&& after.dom() == before.dom()
    &&& forall|k: int|
        0 <= k < order.len() ==> after[#[trigger] order[k]] == entry_after(
            order[k],
            patch_result(order[k], answers[k].0, answers[k].1),
        )
}

/// Whether every read of a start-up was answered from the memory as the
/// record shows it at that time.
pub open spec fn answered_from(
    memory: Map<usize, u64>,
    record: Seq<Exchange>,
    order: Seq<usize>,
    answers: Seq<(Result<u64, i32>, Result<(), i32>)>,
) -> bool
    decreases order.len(),
{
    if order.len() == 0 {
        true
    } else {
        let earlier = after_installs(record, order.drop_last(), answers.drop_last());
        &&& answered_from(memory, record, order.drop_last(), answers.drop_last())
        &&& (answers.last().0 matches Ok(word) ==> word == stored(memory, earlier)[word_base(
            order.last(),
        )])
    }
}

/// Whether a start-up patched the trap byte in at `addr`.
pub open spec fn patched_at(
    order: Seq<usize>,
    answers: Seq<(Result<u64, i32>, Result<(), i32>)>,
    addr: usize,
) -> bool {
    exists|k: int|
        0 <= k < order.len() && #[trigger] order[k] == addr && patch_result(
            order[k],
            answers[k].0,
            answers[k].1,
        ) is Ok
}

/// A start-up whose reads are answered from the memory leaves the trap byte
/// at every address whose patch went through, saves for each the byte that
/// stood there before the start-up, and changes no other byte. This holds
/// also where several addresses lie in one word.
pub proof fn lemma_installs_store(
    memory: Map<usize, u64>,
    record: Seq<Exchange>,
    order: Seq<usize>,
    answers: Seq<(Result<u64, i32>, Result<(), i32>)>,
)
    requires
        order.no_duplicates(),
        answers.len() == order.len(),
        answered_from(memory, record, order, answers),
    ensures
        forall|addr: usize| #[trigger]
            patched_at(order, answers, addr) ==> byte_at(
                stored(memory, after_installs(record, order, answers)),
                addr,
            ) == TRAP_BYTE,
        forall|addr: usize|
            !patched_at(order, answers, addr) ==> #[trigger] byte_at(
                stored(memory, after_installs(record, order, answers)),
                addr,
            ) == byte_at(stored(memory, record), addr),
        forall|k: int|
            0 <= k < order.len() && patch_result(order[k], answers[k].0, answers[k].1) is Ok
                ==> entry_after(
                #[trigger] order[k],
                patch_result(order[k], answers[k].0, answers[k].1),
            ) == Some(
                Breakpoint { addr: order[k], orig_byte: byte_at(stored(memory, record), order[k]) },
            ),
    decreases order.len(),
{
    if order.len() > 0 {
        let shorter = order.drop_last();
        let fewer = answers.drop_last();
        let last = order.last();
        let (peeked, poked) = answers.last();
        let earlier = after_installs(record, shorter, fewer);
        let before = stored(memory, record);
        let middle = stored(memory, earlier);
        let after = stored(memory, after_installs(record, order, answers));
        lemma_installs_store(memory, record, shorter, fewer);
        lemma_patch_stores(memory, earlier, last, TRAP_BYTE, peeked, poked);
        crate::word::lemma_written_changes_one_byte(middle, last, TRAP_BYTE);
        assert(!patched_at(shorter, fewer, last)) by {
            if patched_at(shorter, fewer, last) {
                let k = choose|k: int|
                    0 <= k < shorter.len() && #[trigger] shorter[k] == last && patch_result(
                        shorter[k],
                        fewer[k].0,
                        fewer[k].1,
                    ) is Ok;
                assert(order[k] == order[order.len() - 1]);
            }
        }
        assert(byte_at(middle, last) == byte_at(before, last));
        assert forall|addr: usize| #[trigger] patched_at(shorter, fewer, addr) implies patched_at(
            order,
            answers,
            addr,
        ) by {
            let k = choose|k: int|
                0 <= k < shorter.len() && #[trigger] shorter[k] == addr && patch_result(
                    shorter[k],
                    fewer[k].0,
                    fewer[k].1,
                ) is Ok;
            assert(order[k] == addr && answers[k] == fewer[k]);
        }
        assert forall|addr: usize| #[trigger] patched_at(order, answers, addr) implies byte_at(
            after,
            addr,
        ) == TRAP_BYTE by {
            let k = choose|k: int|
                0 <= k < order.len() && #[trigger] order[k] == addr && patch_result(
                    order[k],
                    answers[k].0,
                    answers[k].1,
                ) is Ok;
            if k < shorter.len() {
                assert(shorter[k] == addr && fewer[k] == answers[k]);
                assert(patched_at(shorter, fewer, addr));
                assert(addr != last);
            }
        }
        assert forall|addr: usize| !patched_at(order, answers, addr) implies #[trigger] byte_at(
            after,
            addr,
        ) == byte_at(before, addr) by {
            assert(!patched_at(shorter, fewer, addr));
            if addr == last {
                assert(order[order.len() - 1] == addr);
                assert(patch_result(last, peeked, poked) is Err);
            }
        }
        assert forall|k: int|
            0 <= k < order.len() && patch_result(
                order[k],
                answers[k].0,
                answers[k].1,
            ) is Ok implies entry_after(
            #[trigger] order[k],
            patch_result(order[k], answers[k].0, answers[k].1),
        ) == Some(Breakpoint { addr: order[k], orig_byte: byte_at(before, order[k]) }) by {
            if k < shorter.len() {
                assert(shorter[k] == order[k] && fewer[k] == answers[k]);
            }
        }
    }
}

/// A breakpoint that is patched in stands in memory. If the read of the
/// patch is answered from the memory and the write goes through, the byte at
/// `addr` is the trap byte afterwards, every other byte is what it was, and
/// the byte returned, which the breakpoint saves, is the one that stood at
/// `addr`.
pub proof fn lemma_breakpoint_stands(
    memory: Map<usize, u64>,
    record: Seq<Exchange>,
    addr: usize,
    peeked: Result<u64, i32>,
    poked: Result<(), i32>,
)
    requires
        peeked == Ok::<u64, i32>(stored(memory, record)[word_base(addr)]),
        poked is Ok,
    ensures
        patch_result(addr, peeked, poked) == Ok::<u8, TraceError>(
            byte_at(stored(memory, record), addr),
        ),
        byte_at(stored(memory, after_patch(record, addr, TRAP_BYTE, peeked, poked)), addr)
            == TRAP_BYTE,
        forall|other: usize|
            other != addr ==> #[trigger] byte_at(
                stored(memory, after_patch(record, addr, TRAP_BYTE, peeked, poked)),
                other,
            ) == byte_at(stored(memory, record), other),
{
    lemma_patch_stores(memory, record, addr, TRAP_BYTE, peeked, poked);
    crate::word::lemma_written_changes_one_byte(stored(memory, record), addr, TRAP_BYTE);
}

/// A process under trace, known by its process id.
pub struct Inferior {
    pid: i32,
    asked: Ghost<Seq<Exchange>>,
}

impl Inferior {
    /// The process id, for contracts.
    pub closed spec fn id(&self) -> i32 {
        self.pid
    }

    /// The record of this inferior: what has been asked of the process
    /// through it so far, in order, with the answers. It exists for contracts
    /// only.
    pub closed spec fn record(&self) -> Seq<Exchange> {
        self.asked@
    }

    /// Asks for the word at `addr`, and records it.
    pub fn read_word(&mut self, addr: usize) -> (answer: Result<u64, i32>)
        ensures
            final(self).id() == old(self).id(),
            final(self).record() == old(self).record().push(Exchange::Peek { addr, answer }),
    {
        let answer = peek_word(self.pid, addr);
        self.asked = Ghost(self.asked@.push(Exchange::Peek { addr, answer }));
        answer
    }

    /// Asks to store `word` at `addr`, and records it.
    fn poke(&mut self, addr: usize, word: u64) -> (answer: Result<(), i32>)
        ensures
            final(self).id() == old(self).id(),
            final(self).record() == old(self).record().push(Exchange::Poke { addr, word, answer }),
    {
        let answer = poke_word(self.pid, addr, word);
        self.asked = Ghost(self.asked@.push(Exchange::Poke { addr, word, answer }));
        answer
    }

    /// Asks for the registers, and records it.
    pub fn registers(&mut self) -> (answer: Result<Registers, i32>)
        ensures
            final(self).id() == old(self).id(),
            final(self).record() == old(self).record().push(Exchange::Registers { answer }),
    {
        let answer = get_registers(self.pid);
        self.asked = Ghost(self.asked@.push(Exchange::Registers { answer }));
        answer
    }

    /// Asks to load `regs`, and records it.
    fn rewind(&mut self, regs: &Registers) -> (answer: Result<(), i32>)
        ensures
            final(self).id() == old(self).id(),
            final(self).record() == old(self).record().push(
                Exchange::Rewind { regs: *regs, answer },
            ),
    {
        let answer = set_registers(self.pid, regs);
        self.asked = Ghost(self.asked@.push(Exchange::Rewind { regs: *regs, answer }));
        answer
    }

    /// Asks for one instruction to be run, and records it.
    fn step(&mut self) -> (answer: Result<(), i32>)
        ensures
            final(self).id() == old(self).id(),
            final(self).record() == old(self).record().push(Exchange::Step { answer }),
    {
        let answer = single_step(self.pid);
        self.asked = Ghost(self.asked@.push(Exchange::Step { answer }));
        answer
    }

    /// Asks for the process to run on, and records it.
    fn resume(&mut self) -> (answer: Result<(), i32>)
        ensures
            final(self).id() == old(self).id(),
            final(self).record() == old(self).record().push(Exchange::Resume { answer }),
    {
        let answer = resume(self.pid);
        self.asked = Ghost(self.asked@.push(Exchange::Resume { answer }));
        answer
    }

    /// Returns the pid of this inferior.
    pub fn pid(&self) -> (pid: i32)
        ensures
            pid == self.id(),
    {
        self.pid
    }

    /// Takes charge of a process that was started under trace, and writes
    /// every breakpoint of the table into its memory.
    ///
    /// `spawned` is the id of the new process, or `None` if the target could
    /// not be started: then there is no inferior, and the table is left as it
    /// was. Otherwise each address of the table is patched with the trap byte.
    /// Where that works the entry becomes an installed breakpoint holding the
    /// byte that was replaced; where it does not, the entry becomes pending
    /// and the failure is listed. A failure does not stop the others.
    pub fn new(spawned: Option<i32>, breakpoints: &mut HashMap<usize, Option<Breakpoint>>) -> (started: (
        Option<Inferior>,
        Vec<InstallFailure>,
    ))
        ensures
            spawned is None ==> started.0 is None && started.1@.len() == 0 && final(breakpoints)@
                == old(breakpoints)@,
            spawned is Some ==> started.0 is Some && started.0->0.id() == spawned->0,
            final(breakpoints)@.dom() == old(breakpoints)@.dom(),
            spawned is Some ==> all_tried(final(breakpoints)@, started.1@),
            forall|i: int|
                0 <= i < started.1@.len() ==> old(breakpoints)@.contains_key(
                    (#[trigger] started.1@[i]).addr,
                ) && started.1@[i].error is Os,
            spawned is Some ==> exists|
                order: Seq<usize>,
                answers: Seq<(Result<u64, i32>, Result<(), i32>)>,
            |
                started.0->0.record() == #[trigger] after_installs(Seq::empty(), order, answers)
                    && installed(old(breakpoints)@, order, answers, final(breakpoints)@)
                    && started.1@ == install_failures(order, answers),
    {
        let mut failures: Vec<InstallFailure> = Vec::new();
        let pid = match spawned {
            Some(pid) => pid,
            None => return (None, failures),
        };
        let mut inferior = Inferior { pid, asked: Ghost(Seq::empty()) };
        let addrs = addresses(breakpoints);
        let ghost before = breakpoints@;
        let ghost mut answers: Seq<(Result<u64, i32>, Result<(), i32>)> = Seq::empty();
        let mut n: usize = 0;
        assert(addrs@.take(0) =~= Seq::<usize>::empty());
        while n < addrs.len()
            invariant
                n <= addrs.len(),
                inferior.pid == pid,
                answers.len() == n,
                inferior.record() == after_installs(Seq::empty(), addrs@.take(n as int), answers),
                failures@ == install_failures(addrs@.take(n as int), answers),
                forall|j: int|
                    0 <= j < n ==> breakpoints@[#[trigger] addrs@[j]] == entry_after(
                        addrs@[j],
                        patch_result(addrs@[j], answers[j].0, answers[j].1),
                    ),
                addrs@.to_set() == before.dom(),
                addrs@.no_duplicates(),
                breakpoints@.dom() == before.dom(),
                forall|j: int|
                    0 <= j < n ==> match breakpoints@[#[trigger] addrs@[j]] {
                        Some(breakpoint) => breakpoint.addr == addrs@[j] && !failed_at(
                            failures@,
                            addrs@[j],
                        ),
                        None => failed_at(failures@, addrs@[j]),
                    },
                forall|i: int|
                    0 <= i < failures@.len() ==> (exists|j: int|
                        0 <= j < n && addrs@[j] == (#[trigger] failures@[i]).addr)
                        && failures@[i].error is Os,
            decreases addrs.len() - n,
        {
            let addr = addrs[n];
            let ghost earlier = failures@;
            assert(addrs@.to_set().contains(addr));
            assert(!failed_at(earlier, addr)) by {
                if failed_at(earlier, addr) {
                    let i = choose|i: int| 0 <= i < earlier.len() && (#[trigger] earlier[i]).addr == addr;
                    let j = choose|j: int| 0 <= j < n && addrs@[j] == earlier[i].addr;
                    assert(addrs@[j] == addrs@[n as int]);
                }
            }
            let ghost asked = inferior.record();
            let ghost answered = answers;
            let ghost tried = addrs@.take(n as int);
            let patched_in = inferior.write_byte(addr, TRAP_BYTE);
            proof {
                let (peeked, poked) = choose|peeked: Result<u64, i32>, poked: Result<(), i32>|
                    inferior.record() == #[trigger] after_patch(
                        asked,
                        addr,
                        TRAP_BYTE,
                        peeked,
                        poked,
                    ) && patched_in == patch_result(addr, peeked, poked);
                answers = answered.push((peeked, poked));
                assert(answers.drop_last() =~= answered);
                assert(addrs@.take(n + 1).drop_last() =~= tried);
                assert(addrs@.take(n + 1).last() == addr);
            }
            match patched_in {
                Ok(orig_byte) => {
                    breakpoints.insert(addr, Some(Breakpoint { addr, orig_byte }));
                },
                Err(error) => {
                    breakpoints.insert(addr, None);
                    failures.push(InstallFailure { addr, error });
                    assert(failures@[earlier.len() as int].addr == addr);
                },
            }
            assert(breakpoints@.dom() =~= before.dom());
            assert forall|j: int| 0 <= j < n + 1 implies breakpoints@[#[trigger] addrs@[j]]
                == entry_after(addrs@[j], patch_result(addrs@[j], answers[j].0, answers[j].1)) by {
                if j < n {
                    assert(addrs@[j] != addr);
                    assert(answers[j] == answered[j]);
                }
            }
            assert forall|j: int| 0 <= j < n + 1 implies match breakpoints@[#[trigger] addrs@[j]] {
                Some(breakpoint) => breakpoint.addr == addrs@[j] && !failed_at(failures@, addrs@[j]),
                None => failed_at(failures@, addrs@[j]),
            } by {
                if j < n {
                    assert(addrs@[j] != addr);
                    if failed_at(earlier, addrs@[j]) {
                        let i = choose|i: int| 0 <= i < earlier.len() && (#[trigger] earlier[i]).addr == addrs@[j];
                        assert(failures@[i].addr == addrs@[j]);
                    }
                    if failed_at(failures@, addrs@[j]) {
                        let i = choose|i: int| 0 <= i < failures@.len() && (#[trigger] failures@[i]).addr == addrs@[j];
                        assert(i < earlier.len());
                        assert(earlier[i].addr == addrs@[j]);
                    }
                } else {
                    if failed_at(failures@, addr) {
                        let i = choose|i: int| 0 <= i < failures@.len() && (#[trigger] failures@[i]).addr == addr;
                        if i < earlier.len() {
                            assert(earlier[i].addr == addr);
                        }
                    }
                }
            }
            assert forall|i: int| 0 <= i < failures@.len() implies (exists|j: int|
                0 <= j < n + 1 && addrs@[j] == (#[trigger] failures@[i]).addr)
                && failures@[i].error is Os by {
                if i < earlier.len() {
                    assert(failures@[i] == earlier[i]);
                    let j = choose|j: int| 0 <= j < n && addrs@[j] == earlier[i].addr;
                    assert(0 <= j < n + 1 && addrs@[j] == failures@[i].addr);
                } else {
                    assert(addrs@[n as int] == failures@[i].addr);
                }
            }
            n += 1;
        }
        proof {
            assert(addrs@.take(n as int) =~= addrs@);
            assert(installed(before, addrs@, answers, breakpoints@));
            assert forall|addr: usize| #[trigger] breakpoints@.contains_key(addr) implies match breakpoints@[addr] {
                Some(breakpoint) => breakpoint.addr == addr && !failed_at(failures@, addr),
                None => failed_at(failures@, addr),
            } by {
                assert(addrs@.to_set().contains(addr));
                let j = choose|j: int| 0 <= j < addrs@.len() && addrs@[j] == addr;
                assert(addrs@[j] == addr);
            }
            assert forall|i: int| 0 <= i < failures@.len() implies before.contains_key(
                (#[trigger] failures@[i]).addr,
            ) by {
                let j = choose|j: int| 0 <= j < n && addrs@[j] == failures@[i].addr;
                assert(addrs@.to_set().contains(addrs@[j]));
            }
        }
        (Some(inferior), failures)
    }

    /// Resumes the stopped process and waits until it stops again or is gone.
    ///
    /// A process that has run into a breakpoint stands one byte past the trap
    /// byte, with the instruction under the trap not yet run. It is first
    /// stepped over: the byte that the trap replaced is put back, the
    /// instruction pointer is rewound by one, and the process runs that single
    /// instruction. If it is gone after the step, that status is the answer.
    /// If not, the trap byte is written again, so that the breakpoint fires on
    /// the next pass, and the process runs on.
    ///
    /// Every request may be refused: the first refusal ends the call with its
    /// error. What the process answers is not known beforehand; for every
    /// course of answers, [`after_resume`] gives the requests made, in order,
    /// and the result.
    pub fn continue_exec(&mut self, breakpoints: &HashMap<usize, Option<Breakpoint>>) -> (result:
        Result<Status, TraceError>)
        ensures
            final(self).id() == old(self).id(),
            result is Err ==> !(result->Err_0 is NoInferior) && !(result->Err_0 is AddressOverflow),
            exists|answers: Answers|
                (#[trigger] after_resume(old(self).record(), breakpoints@, answers)) == (
                    final(self).record(),
                    result,
                ),
    {
        let ghost begun = self.record();
        let ghost table = breakpoints@;
        let ghost mut answers: Answers = arbitrary();
        let registers = self.registers();
        proof {
            answers.registers = registers;
        }
        let mut regs = match registers {
            Ok(regs) => regs,
            Err(errno) => {
                assert(after_resume(begun, table, answers) == (self.record(), Err::<
                    Status,
                    TraceError,
                >(TraceError::Os(errno))));
                return Err(TraceError::Os(errno));
            },
        };
        let ghost read = self.record();
        if let Some(breakpoint) = breakpoint_behind(regs.rip, breakpoints) {
            let restored = self.write_byte(breakpoint.addr, breakpoint.orig_byte);
            proof {
                let (peeked, poked) = choose|peeked: Result<u64, i32>, poked: Result<(), i32>|
                    self.record() == #[trigger] after_patch(
                        read,
                        breakpoint.addr,
                        breakpoint.orig_byte,
                        peeked,
                        poked,
                    ) && restored == patch_result(breakpoint.addr, peeked, poked);
                answers.restore_peek = peeked;
                answers.restore_poke = poked;
            }
            if let Err(error) = restored {
                assert(after_resume(begun, table, answers) == (self.record(), Err::<
                    Status,
                    TraceError,
                >(error)));
                return Err(error);
            }
            regs.rip = regs.rip - 1;
            let rewound = self.rewind(&regs);
            proof {
                answers.rewind = rewound;
            }
            if let Err(errno) = rewound {
                assert(after_resume(begun, table, answers) == (self.record(), Err::<
                    Status,
                    TraceError,
                >(TraceError::Os(errno))));
                return Err(TraceError::Os(errno));
            }
            let stepped = self.step();
            proof {
                answers.step = stepped;
            }
            if let Err(errno) = stepped {
                assert(after_resume(begun, table, answers) == (self.record(), Err::<
                    Status,
                    TraceError,
                >(TraceError::Os(errno))));
                return Err(TraceError::Os(errno));
            }
            let ghost stepping = self.record();
            let found = self.wait(None);
            proof {
                let (waited, registers) = choose|
                    waited: Result<WaitEvent, i32>,
                    registers: Result<Registers, i32>,
                |
                    self.record() == #[trigger] after_wait(stepping, None, waited, registers)
                        && found == wait_outcome(waited, shown_rip(registers));
                answers.stepped = waited;
                answers.stepped_registers = registers;
            }
            let status = match found {
                Ok(status) => status,
                Err(error) => {
                    assert(after_resume(begun, table, answers) == (self.record(), Err::<
                        Status,
                        TraceError,
                    >(error)));
                    return Err(error);
                },
            };
            if status.terminal() {
                assert(after_resume(begun, table, answers) == (self.record(), Ok::<
                    Status,
                    TraceError,
                >(status)));
                return Ok(status);
            }
            let ghost waited = self.record();
            let rearmed = self.write_byte(breakpoint.addr, TRAP_BYTE);
            proof {
                let (peeked, poked) = choose|peeked: Result<u64, i32>, poked: Result<(), i32>|
                    self.record() == #[trigger] after_patch(
                        waited,
                        breakpoint.addr,
                        TRAP_BYTE,
                        peeked,
                        poked,
                    ) && rearmed == patch_result(breakpoint.addr, peeked, poked);
                answers.rearm_peek = peeked;
                answers.rearm_poke = poked;
            }
            if let Err(error) = rearmed {
                assert(after_resume(begun, table, answers) == (self.record(), Err::<
                    Status,
                    TraceError,
                >(error)));
                return Err(error);
            }
        }
        let resumed = self.resume();
        proof {
            answers.resume = resumed;
        }
        if let Err(errno) = resumed {
            assert(after_resume(begun, table, answers) == (self.record(), Err::<Status, TraceError>(
                TraceError::Os(errno),
            )));
            return Err(TraceError::Os(errno));
        }
        let ghost running = self.record();
        let result = self.wait(None);
        proof {
            let (waited, registers) = choose|
                waited: Result<WaitEvent, i32>,
                registers: Result<Registers, i32>,
            |
                self.record() == #[trigger] after_wait(running, None, waited, registers) && result
                    == wait_outcome(waited, shown_rip(registers));
            answers.waited = waited;
            answers.waited_registers = registers;
            assert(after_resume(begun, table, answers) == (self.record(), result));
        }
        result
    }

    /// Calls a wait on this inferior and says how the process was found. After
    /// a stop the registers are read as well, so that the status carries the
    /// instruction pointer; after anything else they are not.
    ///
    /// Whether the wait succeeds, and what it reports, is up to the process:
    /// for each pair of answers, [`after_wait`] gives the requests made and
    /// [`wait_outcome`] the result.
    pub fn wait(&mut self, options: Option<i32>) -> (result: Result<Status, TraceError>)
        ensures
            final(self).id() == old(self).id(),
            result is Err ==> !(result->Err_0 is NoInferior) && !(result->Err_0 is AddressOverflow),
            exists|waited: Result<WaitEvent, i32>, registers: Result<Registers, i32>|
                final(self).record() == #[trigger] after_wait(
                    old(self).record(),
                    options,
                    waited,
                    registers,
                ) && result == wait_outcome(waited, shown_rip(registers)),
    {
        let ghost begun = self.record();
        let waited = wait_for(self.pid, options);
        self.asked = Ghost(self.asked@.push(Exchange::Wait { options, answer: waited }));
        let rip: Result<u64, i32> = match waited {
            Ok(WaitEvent::Stopped(_)) => {
                let registers = self.registers();
                assert(self.record() == after_wait(begun, options, waited, registers));
                match registers {
                    Ok(regs) => Ok(regs.rip),
                    Err(errno) => Err(errno),
                }
            },
            _ => {
                assert(self.record() == after_wait(begun, options, waited, Err(0)));
                Ok(0)
            },
        };
        Status::after_wait(waited, rip)
    }

    /// Sets the byte at `addr` in the process's memory to `val` and returns the
    /// byte that stood there.
    ///
    /// The memory is reached a word at a time: the word around `addr` is read,
    /// one byte of it is changed, and the whole word is written back. The byte
    /// returned is the one that the word read holds at the place of `addr`.
    /// Fails with the facility's errno if the read or the write is refused.
    ///
    /// What the process answers is not known beforehand; for each pair of
    /// answers, [`after_patch`] gives the requests made and [`patch_result`]
    /// the result.
    pub fn write_byte(&mut self, addr: usize, val: u8) -> (result: Result<u8, TraceError>)
        ensures
            final(self).id() == old(self).id(),
            result is Err ==> result->Err_0 is Os,
            exists|peeked: Result<u64, i32>, poked: Result<(), i32>|
                final(self).record() == #[trigger] after_patch(
                    old(self).record(),
                    addr,
                    val,
                    peeked,
                    poked,
                ) && result == patch_result(addr, peeked, poked),
    {
        let ghost begun = self.record();
        let aligned_addr = align_addr_to_word(addr);
        let byte_offset = addr - aligned_addr;
        let peeked = self.read_word(aligned_addr);
        let word = match peeked {
            Ok(word) => word,
            Err(errno) => {
                assert(self.record() == after_patch(begun, addr, val, peeked, Ok(())));
                return Err(TraceError::Os(errno));
            },
        };
        let orig_byte = extract_byte(word, byte_offset);
        let updated_word = replace_byte(word, byte_offset, val);
        let poked = self.poke(aligned_addr, updated_word);
        assert(self.record() == after_patch(begun, addr, val, peeked, poked));
        match poked {
            Ok(()) => Ok(orig_byte),
            Err(errno) => Err(TraceError::Os(errno)),
        }
    }
}

} // verus!
