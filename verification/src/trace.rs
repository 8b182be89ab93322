//! The tracing requests that the controller sends to the operating system.
//!
//! The functions of this file are not verified: the verifier takes their
//! contracts on trust. Each is a direct call of one function of `nix`, with
//! arguments and results converted to plain values. Nothing is promised about
//! what the operating system answers, since that depends on the state of the
//! debuggee. The process id that each takes has to be positive, since zero
//! and negative numbers stand for groups of processes.

use libc::user_regs_struct;
use nix::errno::Errno;
use nix::sys::ptrace;
use nix::sys::signal::Signal;
use nix::sys::wait::WaitStatus;
use nix::unistd::Pid;
use vstd::prelude::*;

verus! {

/// `nix::errno::Errno`, the error of every tracing request. Opaque here; its
/// number is read with [`errno_code`].
#[verifier::external_type_specification]
#[verifier::external_body]
pub struct ExErrno(Errno);

/// `libc::user_regs_struct`, the register file that `ptrace::getregs` hands
/// out. Opaque here; the two registers the controller needs are read with
/// [`instruction_pointer`] and [`frame_pointer`].
#[verifier::external_type_specification]
#[verifier::external_body]
pub struct ExUserRegs(user_regs_struct);

/// What a wait on the debuggee reported, with the fields that the controller
/// reads as plain values. One variant for each variant of
/// `nix::sys::wait::WaitStatus`.
#[derive(Clone, Copy, Debug, PartialEq, Eq, Structural)]
pub enum WaitEvent {
    /// The process exited normally with this exit code.
    Exited(i32),
    /// The process was killed by the signal with this number.
    Signaled(i32),
    /// The process is alive and was stopped by the signal with this number.
    Stopped(i32),
    /// The process was stopped by a tracing event.
    PtraceEvent,
    /// The process was stopped at a system call.
    PtraceSyscall,
    /// The process resumed after a stop.
    Continued,
    /// No state change to report.
    StillAlive,
}

/// Calls `nix::sys::wait::waitpid` on one process with no options, which
/// blocks until that process changes state. The variant of the answer is kept
/// and the process id in it dropped; a signal is given by its number. Nothing
/// is claimed about which event arrives. With no options the operating system
/// reports exits, kills and stops only, which `waitpid` decodes without
/// reaching its assertion about continued processes.
#[verifier::external_body]
pub(crate) fn wait_for(pid: i32) -> (r: Result<WaitEvent, Errno>)
    requires
        pid > 0,
{
    match nix::sys::wait::waitpid(Pid::from_raw(pid), None) {
        Ok(WaitStatus::Exited(_, code)) => Ok(WaitEvent::Exited(code)),
        Ok(WaitStatus::Signaled(_, signal, _)) => Ok(WaitEvent::Signaled(signal as i32)),
        Ok(WaitStatus::Stopped(_, signal)) => Ok(WaitEvent::Stopped(signal as i32)),
        Ok(WaitStatus::PtraceEvent(..)) => Ok(WaitEvent::PtraceEvent),
        Ok(WaitStatus::PtraceSyscall(_)) => Ok(WaitEvent::PtraceSyscall),
        Ok(WaitStatus::Continued(_)) => Ok(WaitEvent::Continued),
        Ok(WaitStatus::StillAlive) => Ok(WaitEvent::StillAlive),
        Err(e) => Err(e),
    }
}

/// Calls `nix::sys::ptrace::getregs`. Nothing is claimed about the registers.
#[verifier::external_body]
pub(crate) fn get_regs(pid: i32) -> (r: Result<user_regs_struct, Errno>)
    requires
        pid > 0,
{
    ptrace::getregs(Pid::from_raw(pid))
}

/// Reads the field `rip` of a `libc::user_regs_struct`. Nothing is claimed
/// about the value.
#[verifier::external_body]
pub(crate) fn instruction_pointer(regs: &user_regs_struct) -> (rip: u64) {
    regs.rip
}

/// Reads the field `rbp` of a `libc::user_regs_struct`. Nothing is claimed
/// about the value.
#[verifier::external_body]
pub(crate) fn frame_pointer(regs: &user_regs_struct) -> (rbp: u64) {
    regs.rbp
}

/// Calls `nix::sys::ptrace::setregs` with `regs` in which the field `rip` has
/// been set to the given value. Nothing is claimed about the outcome.
#[verifier::external_body]
pub(crate) fn set_regs_at(pid: i32, regs: user_regs_struct, rip: u64) -> (r: Result<(), Errno>)
    requires
        pid > 0,
{
    let mut regs = regs;
    regs.rip = rip;
    ptrace::setregs(Pid::from_raw(pid), regs)
}

/// Calls `nix::sys::ptrace::read`, which reads one word of the debuggee's
/// memory. Nothing is claimed about the word.
#[verifier::external_body]
pub(crate) fn peek_word(pid: i32, addr: usize) -> (r: Result<u64, Errno>)
    requires
        pid > 0,
{
    match ptrace::read(Pid::from_raw(pid), addr as ptrace::AddressType) {
        Ok(word) => Ok(word as u64),
        Err(e) => Err(e),
    }
}

/// Calls `nix::sys::ptrace::write`, which writes one word of the debuggee's
/// memory. Nothing is claimed about the outcome.
#[verifier::external_body]
pub(crate) fn poke_word(pid: i32, addr: usize, word: u64) -> (r: Result<(), Errno>)
    requires
        pid > 0,
{
    ptrace::write(Pid::from_raw(pid), addr as ptrace::AddressType, word as libc::c_long)
}

/// Calls `nix::sys::ptrace::step` with no signal: the debuggee runs one
/// instruction. Nothing is claimed about the outcome.
#[verifier::external_body]
pub(crate) fn single_step(pid: i32) -> (r: Result<(), Errno>)
    requires
        pid > 0,
{
    ptrace::step(Pid::from_raw(pid), None)
}

/// Calls `nix::sys::ptrace::cont` with no signal: the debuggee runs freely.
/// Nothing is claimed about the outcome.
#[verifier::external_body]
pub(crate) fn resume(pid: i32) -> (r: Result<(), Errno>)
    requires
        pid > 0,
{
    ptrace::cont(Pid::from_raw(pid), None)
}

/// Calls `nix::sys::signal::kill` with `SIGKILL` for one process. Nothing is
/// claimed about the outcome.
#[verifier::external_body]
pub(crate) fn send_kill(pid: i32) -> (r: Result<(), Errno>)
    requires
        pid > 0,
{
    nix::sys::signal::kill(Pid::from_raw(pid), Signal::SIGKILL)
}

/// The number of a `nix::errno::Errno`, which is an enum with `repr(i32)`: the
/// value of the cast `as i32`. Nothing is claimed about the number.
#[verifier::external_body]
pub(crate) fn errno_code(e: Errno) -> (code: i32) {
    e as i32
}

} // verus!
