//! The line to the operating system about one traced process.
//!
//! A [`Tracee`] is a process id together with the record of every exchange
//! about that process. The record is ghost, and only the functions of this
//! file add to it: each makes one request and writes down that request with
//! the answer it got. So whatever is said about the record of a tracee
//! elsewhere in the library is said about requests that were made.

use crate::protocol::{
    continue_at, event_at, kill_at, read_word_at, registers_at, rewind_at, step_at,
    write_word_at, Exchange,
};
use crate::status::TraceError;
use crate::trace::{
    errno_code, frame_pointer, get_regs, instruction_pointer, peek_word, poke_word, resume,
    send_kill, set_regs_at, single_step, wait_for, WaitEvent,
};
use libc::user_regs_struct;
use vstd::prelude::*;

verus! {

/// The register file as it was read, with the two registers that the
/// controller works with.
pub(crate) struct Registers {
    /// The instruction pointer.
    pub(crate) rip: u64,
    /// The frame pointer.
    pub(crate) rbp: u64,
    /// The whole register file, to be written back.
    pub(crate) raw: user_regs_struct,
}

/// A traced process and the record of what was exchanged about it.
pub(crate) struct Tracee {
    pid: i32,
    history: Ghost<Seq<Exchange>>,
}

impl Tracee {
    /// The process id is that of a single process.
    pub(crate) closed spec fn wf(&self) -> bool {
        self.pid > 0
    }

    /// The process id.
    pub(crate) closed spec fn id(&self) -> i32 {
        self.pid
    }

    /// Every exchange about this process so far, oldest first.
    pub(crate) closed spec fn history(&self) -> Seq<Exchange> {
        self.history@
    }

    /// The same process after more exchanges.
    pub(crate) open spec fn continues(&self, before: &Tracee) -> bool {
        &&& self.wf()
        &&& self.id() == before.id()
        &&& before.history().is_prefix_of(self.history())
    }

    /// The line to the process `pid`, about which nothing has been exchanged
    /// yet. Nothing is sent. A `pid` that is not positive names no single
    /// process and is refused.
    pub(crate) fn new(pid: i32) -> (r: Result<Tracee, TraceError>)
        ensures
            pid <= 0 ==> r == Err::<Tracee, TraceError>(TraceError::InvalidProcess(pid)),
            pid > 0 ==> ({
                &&& r matches Ok(tracee)
                &&& tracee.wf()
                &&& tracee.id() == pid
                &&& tracee.history() == Seq::<Exchange>::empty()
            }),
    {
        if pid <= 0 {
            Err(TraceError::InvalidProcess(pid))
        } else {
            Ok(Tracee { pid, history: Ghost(Seq::empty()) })
        }
    }

    /// The process id.
    pub(crate) fn pid(&self) -> (pid: i32)
        ensures
            pid == self.id(),
    {
        self.pid
    }

    /// Waits for the process to change state, and records the wait.
    pub(crate) fn wait_event(&mut self) -> (r: Result<WaitEvent, TraceError>)
        requires
            old(self).wf(),
        ensures
            final(self).continues(old(self)),
            final(self).history().len() == old(self).history().len() + 1,
            event_at(final(self).history(), old(self).history().len() as int) == Some(
                (final(self).history().len() as int, r),
            ),
    {
        match wait_for(self.pid) {
            Ok(event) => {
                self.history = Ghost(self.history@.push(Exchange::Wait(Ok(event))));
                Ok(event)
            },
            Err(e) => {
                let code = errno_code(e);
                self.history = Ghost(self.history@.push(Exchange::Wait(Err(code))));
                Err(TraceError::Wait(code))
            },
        }
    }

    /// Reads the registers, and records the read.
    pub(crate) fn read_registers(&mut self) -> (r: Result<Registers, TraceError>)
        requires
            old(self).wf(),
        ensures
            final(self).continues(old(self)),
            final(self).history().len() == old(self).history().len() + 1,
            registers_at(final(self).history(), old(self).history().len() as int) == Some(
                (
                    final(self).history().len() as int,
                    match r {
                        Ok(regs) => Ok::<(u64, u64), TraceError>((regs.rip, regs.rbp)),
                        Err(e) => Err(e),
                    },
                ),
            ),
    {
        match get_regs(self.pid) {
            Ok(raw) => {
                let rip = instruction_pointer(&raw);
                let rbp = frame_pointer(&raw);
                self.history = Ghost(self.history@.push(Exchange::ReadRegisters(Ok((rip, rbp)))));
                Ok(Registers { rip, rbp, raw })
            },
            Err(e) => {
                let code = errno_code(e);
                self.history = Ghost(self.history@.push(Exchange::ReadRegisters(Err(code))));
                Err(TraceError::Registers(code))
            },
        }
    }

    /// Reads the word at `addr` of the process's memory, and records the
    /// read.
    pub(crate) fn read_word(&mut self, addr: usize) -> (r: Result<u64, TraceError>)
        requires
            old(self).wf(),
        ensures
            final(self).continues(old(self)),
            final(self).history().len() == old(self).history().len() + 1,
            read_word_at(final(self).history(), old(self).history().len() as int, addr) == Some(
                (final(self).history().len() as int, r),
            ),
    {
        match peek_word(self.pid, addr) {
            Ok(word) => {
                self.history = Ghost(self.history@.push(Exchange::ReadWord(addr, Ok(word))));
                Ok(word)
            },
            Err(e) => {
                let code = errno_code(e);
                self.history = Ghost(self.history@.push(Exchange::ReadWord(addr, Err(code))));
                Err(TraceError::Memory(addr, code))
            },
        }
    }

    /// Writes `word` at `addr` of the process's memory, and records the
    /// write.
    pub(crate) fn write_word(&mut self, addr: usize, word: u64) -> (r: Result<(), TraceError>)
        requires
            old(self).wf(),
        ensures
            final(self).continues(old(self)),
            final(self).history().len() == old(self).history().len() + 1,
            write_word_at(final(self).history(), old(self).history().len() as int, addr, word)
                == Some((final(self).history().len() as int, r)),
    {
        match poke_word(self.pid, addr, word) {
            Ok(_) => {
                self.history = Ghost(self.history@.push(Exchange::WriteWord(addr, word, Ok(()))));
                Ok(())
            },
            Err(e) => {
                let code = errno_code(e);
                self.history = Ghost(
                    self.history@.push(Exchange::WriteWord(addr, word, Err(code))),
                );
                Err(TraceError::Memory(addr, code))
            },
        }
    }

    /// Writes the registers back as `regs` holds them, with the instruction
    /// pointer set to `rip`, and records the write.
    pub(crate) fn write_instruction_pointer(&mut self, regs: Registers, rip: u64) -> (r: Result<
        (),
        TraceError,
    >)
        requires
            old(self).wf(),
        ensures
            final(self).continues(old(self)),
            final(self).history().len() == old(self).history().len() + 1,
            rewind_at(final(self).history(), old(self).history().len() as int, rip) == Some(
                (final(self).history().len() as int, r),
            ),
    {
        match set_regs_at(self.pid, regs.raw, rip) {
            Ok(_) => {
                self.history = Ghost(
                    self.history@.push(Exchange::WriteInstructionPointer(rip, Ok(()))),
                );
                Ok(())
            },
            Err(e) => {
                let code = errno_code(e);
                self.history = Ghost(
                    self.history@.push(Exchange::WriteInstructionPointer(rip, Err(code))),
                );
                Err(TraceError::Registers(code))
            },
        }
    }

    /// Tells the process to run one instruction, and records the request.
    pub(crate) fn step(&mut self) -> (r: Result<(), TraceError>)
        requires
            old(self).wf(),
        ensures
            final(self).continues(old(self)),
            final(self).history().len() == old(self).history().len() + 1,
            step_at(final(self).history(), old(self).history().len() as int) == Some(
                (final(self).history().len() as int, r),
            ),
    {
        match single_step(self.pid) {
            Ok(_) => {
                self.history = Ghost(self.history@.push(Exchange::Step(Ok(()))));
                Ok(())
            },
            Err(e) => {
                let code = errno_code(e);
                self.history = Ghost(self.history@.push(Exchange::Step(Err(code))));
                Err(TraceError::Resume(code))
            },
        }
    }

    /// Tells the process to run freely, and records the request.
    pub(crate) fn cont(&mut self) -> (r: Result<(), TraceError>)
        requires
            old(self).wf(),
        ensures
            final(self).continues(old(self)),
            final(self).history().len() == old(self).history().len() + 1,
            continue_at(final(self).history(), old(self).history().len() as int) == Some(
                (final(self).history().len() as int, r),
            ),
    {
        match resume(self.pid) {
            Ok(_) => {
                self.history = Ghost(self.history@.push(Exchange::Continue(Ok(()))));
                Ok(())
            },
            Err(e) => {
                let code = errno_code(e);
                self.history = Ghost(self.history@.push(Exchange::Continue(Err(code))));
                Err(TraceError::Resume(code))
            },
        }
    }

    /// Sends the kill signal to the process, and records the request.
    pub(crate) fn signal_kill(&mut self) -> (r: Result<(), TraceError>)
        requires
            old(self).wf(),
        ensures
            final(self).continues(old(self)),
            final(self).history().len() == old(self).history().len() + 1,
            kill_at(final(self).history(), old(self).history().len() as int) == Some(
                (final(self).history().len() as int, r),
            ),
    {
        match send_kill(self.pid) {
            Ok(_) => {
                self.history = Ghost(self.history@.push(Exchange::Kill(Ok(()))));
                Ok(())
            },
            Err(e) => {
                let code = errno_code(e);
                self.history = Ghost(self.history@.push(Exchange::Kill(Err(code))));
                Err(TraceError::Kill(code))
            },
        }
    }
}

} // verus!
