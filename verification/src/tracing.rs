//! The calls into the kernel's tracing facility.
//!
//! Every function here makes one request about another process. What comes
//! back depends on that process and on the kernel, so none of them promises
//! anything about its result: the callers are proved for every answer.

use nix::sys::ptrace;
use nix::sys::wait::{waitpid, WaitPidFlag, WaitStatus};
use nix::unistd::Pid;
use vstd::prelude::*;

verus! {

/// The register file of a stopped process, as `libc` lays it out. Opaque here:
/// it is only carried from a read of the registers to a write of them.
#[verifier::external_type_specification]
#[verifier::external_body]
pub struct ExUserRegs(nix::libc::user_regs_struct);

/// The registers of a stopped process. The two that the debugger reads stand
/// as plain numbers; the others travel along untouched.
#[derive(Clone, Copy)]
pub struct Registers {
    /// The instruction pointer.
    pub rip: u64,
    /// The frame pointer.
    pub rbp: u64,
    /// The whole register file as it was read. Its own instruction pointer
    /// and frame pointer give way to the two fields above when the registers
    /// are written back.
    pub others: nix::libc::user_regs_struct,
}

/// A change of state of a child process, as a wait reports it. Signals are
/// given by number.
#[derive(Clone, Copy, Debug, PartialEq, Eq, Structural)]
pub enum WaitEvent {
    /// The process ended by itself, with this exit code.
    Exited(i32),
    /// This signal killed the process.
    Signaled(i32),
    /// This signal stopped the process, which is still alive.
    Stopped(i32),
    /// Any other report: a continued process, a tracing event, no change.
    Other,
}

/// Calls `nix::sys::ptrace::read`: asks for the word at `addr` in the memory of
/// process `pid`. Nothing is claimed of the answer. An error is given by its
/// errno.
#[verifier::external_body]
pub(crate) fn peek_word(pid: i32, addr: usize) -> (r: Result<u64, i32>) {
    match ptrace::read(Pid::from_raw(pid), addr as ptrace::AddressType) {
        Ok(word) => Ok(word as u64),
        Err(errno) => Err(errno as i32),
    }
}

/// Calls `nix::sys::ptrace::write`: asks to store `word` at `addr` in the
/// memory of process `pid`. Nothing is claimed of the answer.
#[verifier::external_body]
pub(crate) fn poke_word(pid: i32, addr: usize, word: u64) -> (r: Result<(), i32>) {
    match ptrace::write(Pid::from_raw(pid), addr as ptrace::AddressType, word as i64) {
        Ok(()) => Ok(()),
        Err(errno) => Err(errno as i32),
    }
}

/// Calls `nix::sys::ptrace::getregs`: asks for the registers of process `pid`.
/// Nothing is claimed of the answer.
#[verifier::external_body]
pub(crate) fn get_registers(pid: i32) -> (r: Result<Registers, i32>) {
    match ptrace::getregs(Pid::from_raw(pid)) {
        Ok(regs) => Ok(Registers { rip: regs.rip, rbp: regs.rbp, others: regs }),
        Err(errno) => Err(errno as i32),
    }
}

/// Calls `nix::sys::ptrace::setregs`: asks to load `regs` into process `pid`,
/// with the instruction pointer and the frame pointer that `regs` shows.
/// Nothing is claimed of the answer.
#[verifier::external_body]
pub(crate) fn set_registers(pid: i32, regs: &Registers) -> (r: Result<(), i32>) {
    let mut raw = regs.others;
    raw.rip = regs.rip;
    raw.rbp = regs.rbp;
    match ptrace::setregs(Pid::from_raw(pid), raw) {
        Ok(()) => Ok(()),
        Err(errno) => Err(errno as i32),
    }
}

/// Calls `nix::sys::ptrace::step`: asks process `pid` to run one instruction,
/// with no signal delivered. Nothing is claimed of the answer.
#[verifier::external_body]
pub(crate) fn single_step(pid: i32) -> (r: Result<(), i32>) {
    match ptrace::step(Pid::from_raw(pid), None) {
        Ok(()) => Ok(()),
        Err(errno) => Err(errno as i32),
    }
}

/// Calls `nix::sys::ptrace::cont`: asks process `pid` to run on, with no signal
/// delivered. Nothing is claimed of the answer.
#[verifier::external_body]
pub(crate) fn resume(pid: i32) -> (r: Result<(), i32>) {
    match ptrace::cont(Pid::from_raw(pid), None) {
        Ok(()) => Ok(()),
        Err(errno) => Err(errno as i32),
    }
}

/// Calls `nix::sys::wait::waitpid` for process `pid`, with the option bits
/// given, and sorts the report into the four kinds of [`WaitEvent`]. Nothing is
/// claimed of the answer.
#[verifier::external_body]
pub(crate) fn wait_for(pid: i32, options: Option<i32>) -> (r: Result<WaitEvent, i32>) {
    match waitpid(Pid::from_raw(pid), options.map(WaitPidFlag::from_bits_retain)) {
        Ok(WaitStatus::Exited(_, code)) => Ok(WaitEvent::Exited(code)),
        Ok(WaitStatus::Signaled(_, signal, _)) => Ok(WaitEvent::Signaled(signal as i32)),
        Ok(WaitStatus::Stopped(_, signal)) => Ok(WaitEvent::Stopped(signal as i32)),
        Ok(_) => Ok(WaitEvent::Other),
        Err(errno) => Err(errno as i32),
    }
}

} // verus!
