//! The tracing protocol: which requests the controller sends to the operating
//! system, in which order, and what it makes of the answers.
//!
//! An [`Exchange`] is one request together with its answer. The controller
//! keeps the sequence of its exchanges as a ghost history. Each operation is
//! described by a script: a function that reads a history from a position on
//! and, where the exchanges found there are those of the operation, gives the
//! position after them and the operation's result. Nothing is assumed about
//! the answers: a script says what is sent and what is returned for every
//! answer that may come.

use crate::breakpoints::{after_install, breakpoint_behind, disarmed, Breakpoint};
use crate::status::{decoded, needs_location, Status, TraceError};
use crate::symbols::SymbolTable;
use crate::trace::WaitEvent;
use crate::word::{byte_at, with_byte, word_base, word_offset, TRAP_BYTE};
use vstd::prelude::*;

verus! {

/// One request to the operating system and its answer. An answer that is an
/// error holds the error number.
pub enum Exchange {
    /// The registers were read. The answer holds the instruction pointer and
    /// the frame pointer.
    ReadRegisters(Result<(u64, u64), i32>),
    /// The registers were written back as they were last read, but for the
    /// instruction pointer, which was set to this value.
    WriteInstructionPointer(u64, Result<(), i32>),
    /// The word at this address was read.
    ReadWord(usize, Result<u64, i32>),
    /// This word was written at this address.
    WriteWord(usize, u64, Result<(), i32>),
    /// The debuggee was told to run one instruction.
    Step(Result<(), i32>),
    /// The debuggee was told to run freely.
    Continue(Result<(), i32>),
    /// The controller waited for the debuggee to change state.
    Wait(Result<WaitEvent, i32>),
    /// The kill signal was sent to the debuggee.
    Kill(Result<(), i32>),
}

/// The exchange at position `pos` of `h`, if `h` is that long.
pub open spec fn exchange_at(h: Seq<Exchange>, pos: int) -> Option<Exchange> {
    if 0 <= pos < h.len() {
        Some(h[pos])
    } else {
        None
    }
}

/// The address that a register value names, where it names one.
pub open spec fn address_of(value: u64) -> Result<usize, TraceError> {
    if value <= usize::MAX {
        Ok(value as usize)
    } else {
        Err(TraceError::AddressRange(value))
    }
}

/// Reading the registers: one exchange. The result is the instruction pointer
/// and the frame pointer.
pub open spec fn registers_at(h: Seq<Exchange>, pos: int) -> Option<
    (int, Result<(u64, u64), TraceError>),
> {
    match exchange_at(h, pos) {
        Some(Exchange::ReadRegisters(Ok(regs))) => Some((pos + 1, Ok(regs))),
        Some(Exchange::ReadRegisters(Err(code))) => Some(
            (pos + 1, Err(TraceError::Registers(code))),
        ),
        _ => None,
    }
}

/// Setting the instruction pointer to `rip`: one exchange.
pub open spec fn rewind_at(h: Seq<Exchange>, pos: int, rip: u64) -> Option<
    (int, Result<(), TraceError>),
> {
    match exchange_at(h, pos) {
        Some(Exchange::WriteInstructionPointer(to, answer)) => if to == rip {
            Some(
                (
                    pos + 1,
                    match answer {
                        Ok(_) => Ok(()),
                        Err(code) => Err(TraceError::Registers(code)),
                    },
                ),
            )
        } else {
            None
        },
        _ => None,
    }
}

/// Reading the word at `addr`: one exchange.
pub open spec fn read_word_at(h: Seq<Exchange>, pos: int, addr: usize) -> Option<
    (int, Result<u64, TraceError>),
> {
    match exchange_at(h, pos) {
        Some(Exchange::ReadWord(at, answer)) => if at == addr {
            Some(
                (
                    pos + 1,
                    match answer {
                        Ok(word) => Ok(word),
                        Err(code) => Err(TraceError::Memory(addr, code)),
                    },
                ),
            )
        } else {
            None
        },
        _ => None,
    }
}

/// Writing `word` at `addr`: one exchange.
pub open spec fn write_word_at(h: Seq<Exchange>, pos: int, addr: usize, word: u64) -> Option<
    (int, Result<(), TraceError>),
> {
    match exchange_at(h, pos) {
        Some(Exchange::WriteWord(at, written, answer)) => if at == addr && written == word {
            Some(
                (
                    pos + 1,
                    match answer {
                        Ok(_) => Ok(()),
                        Err(code) => Err(TraceError::Memory(addr, code)),
                    },
                ),
            )
        } else {
            None
        },
        _ => None,
    }
}

/// Running one instruction: one exchange.
pub open spec fn step_at(h: Seq<Exchange>, pos: int) -> Option<(int, Result<(), TraceError>)> {
    match exchange_at(h, pos) {
        Some(Exchange::Step(Ok(_))) => Some((pos + 1, Ok(()))),
        Some(Exchange::Step(Err(code))) => Some((pos + 1, Err(TraceError::Resume(code)))),
        _ => None,
    }
}

/// Running freely: one exchange.
pub open spec fn continue_at(h: Seq<Exchange>, pos: int) -> Option<(int, Result<(), TraceError>)> {
    match exchange_at(h, pos) {
        Some(Exchange::Continue(Ok(_))) => Some((pos + 1, Ok(()))),
        Some(Exchange::Continue(Err(code))) => Some((pos + 1, Err(TraceError::Resume(code)))),
        _ => None,
    }
}

/// Sending the kill signal: one exchange.
pub open spec fn kill_at(h: Seq<Exchange>, pos: int) -> Option<(int, Result<(), TraceError>)> {
    match exchange_at(h, pos) {
        Some(Exchange::Kill(Ok(_))) => Some((pos + 1, Ok(()))),
        Some(Exchange::Kill(Err(code))) => Some((pos + 1, Err(TraceError::Kill(code)))),
        _ => None,
    }
}

/// The status for a wait event and the instruction pointer read after it.
pub open spec fn status_of(event: WaitEvent, rip: usize) -> Result<Status, TraceError> {
    match decoded(event, rip) {
        Some(status) => Ok(status),
        None => Err(TraceError::UnexpectedEvent(event)),
    }
}

/// Patching the byte at `addr` to `val`: the word that holds `addr` is read,
/// and written back with the one byte replaced and the other seven as they
/// were read. Nothing is written where the read fails. The result is the byte
/// that was displaced.
pub open spec fn patch_at(h: Seq<Exchange>, pos: int, addr: usize, val: u8) -> Option<
    (int, Result<u8, TraceError>),
> {
    let base = word_base(addr as int) as usize;
    let offset = word_offset(addr as int) as u64;
    match read_word_at(h, pos, base) {
        Some((next, Ok(word))) => match write_word_at(
            h,
            next,
            base,
            with_byte(word, offset, val),
        ) {
            Some((end, Ok(_))) => Some((end, Ok(byte_at(word, offset)))),
            Some((end, Err(e))) => Some((end, Err(e))),
            None => None,
        },
        Some((next, Err(e))) => Some((next, Err(e))),
        None => None,
    }
}

/// Waiting for an event of the debuggee: one exchange.
pub open spec fn event_at(h: Seq<Exchange>, pos: int) -> Option<
    (int, Result<WaitEvent, TraceError>),
> {
    match exchange_at(h, pos) {
        Some(Exchange::Wait(Ok(event))) => Some((pos + 1, Ok(event))),
        Some(Exchange::Wait(Err(code))) => Some((pos + 1, Err(TraceError::Wait(code)))),
        _ => None,
    }
}

/// Waiting for the debuggee: one wait, and after a stop one read of the
/// registers for the instruction pointer. The result is the decoded status.
pub open spec fn wait_at(h: Seq<Exchange>, pos: int) -> Option<(int, Result<Status, TraceError>)> {
    match event_at(h, pos) {
        Some((next, Ok(event))) => if needs_location(event) {
            match registers_at(h, next) {
                Some((end, Ok(regs))) => Some(
                    (
                        end,
                        match address_of(regs.0) {
                            Ok(rip) => status_of(event, rip),
                            Err(e) => Err(e),
                        },
                    ),
                ),
                Some((end, Err(e))) => Some((end, Err(e))),
                None => None,
            }
        } else {
            Some((next, status_of(event, 0)))
        },
        Some((next, Err(e))) => Some((next, Err(e))),
        None => None,
    }
}

/// Running freely until the next event: the debuggee is told to continue, and
/// then waited for. Where it cannot be told to continue nothing more is sent.
pub open spec fn run_at(h: Seq<Exchange>, pos: int) -> Option<(int, Result<Status, TraceError>)> {
    match continue_at(h, pos) {
        Some((next, Ok(_))) => wait_at(h, next),
        Some((next, Err(e))) => Some((next, Err(e))),
        None => None,
    }
}

/// Running the instruction under a breakpoint: the displaced byte is put back
/// at `addr`, the instruction pointer is set to `addr`, the debuggee is told
/// to run one instruction, and then waited for. The first request that fails
/// ends the sequence. The result is the status after the one instruction.
pub open spec fn step_over_at(h: Seq<Exchange>, pos: int, addr: usize, original: u8) -> Option<
    (int, Result<Status, TraceError>),
> {
    match patch_at(h, pos, addr, original) {
        Some((restored, Ok(_))) => match rewind_at(h, restored, addr as u64) {
            Some((rewound, Ok(_))) => match step_at(h, rewound) {
                Some((stepped, Ok(_))) => wait_at(h, stepped),
                Some((stepped, Err(e))) => Some((stepped, Err(e))),
                None => None,
            },
            Some((rewound, Err(e))) => Some((rewound, Err(e))),
            None => None,
        },
        Some((restored, Err(e))) => Some((restored, Err(e))),
        None => None,
    }
}

/// Passing a breakpoint: the instruction under it is run, and unless that
/// ended the debuggee the trap is written back at `addr`. The result is the
/// final status where the debuggee ended, and `None` where it stands behind
/// the breakpoint with the trap in place again.
pub open spec fn pass_at(h: Seq<Exchange>, pos: int, addr: usize, original: u8) -> Option<
    (int, Result<Option<Status>, TraceError>),
> {
    match step_over_at(h, pos, addr, original) {
        Some((stepped, Ok(status))) => if status.terminal() {
            Some((stepped, Ok(Some(status))))
        } else {
            match patch_at(h, stepped, addr, TRAP_BYTE) {
                Some((armed, Ok(_))) => Some((armed, Ok(None))),
                Some((armed, Err(e))) => Some((armed, Err(e))),
                None => None,
            }
        },
        Some((stepped, Err(e))) => Some((stepped, Err(e))),
        None => None,
    }
}

/// Resuming the debuggee: the registers are read; where the instruction
/// pointer stands right behind an armed breakpoint of `entries`, that
/// breakpoint is passed; then, unless passing it ended the debuggee, the
/// debuggee runs freely until its next event. The result is the status at
/// that event.
pub open spec fn resume_at(h: Seq<Exchange>, pos: int, entries: Seq<Breakpoint>) -> Option<
    (int, Result<Status, TraceError>),
> {
    match registers_at(h, pos) {
        Some((read, Ok(regs))) => match address_of(regs.0) {
            Ok(rip) => match breakpoint_behind(entries, rip) {
                Some((addr, original)) => match pass_at(h, read, addr, original) {
                    Some((passed, Ok(None))) => run_at(h, passed),
                    Some((passed, Ok(Some(status)))) => Some((passed, Ok(status))),
                    Some((passed, Err(e))) => Some((passed, Err(e))),
                    None => None,
                },
                None => run_at(h, read),
            },
            Err(e) => Some((read, Err(e))),
        },
        Some((read, Err(e))) => Some((read, Err(e))),
        None => None,
    }
}

/// Ending the debuggee: the kill signal is sent, and the debuggee is waited
/// for once. The result is the status at that wait.
pub open spec fn terminate_at(h: Seq<Exchange>, pos: int) -> Option<
    (int, Result<Status, TraceError>),
> {
    match kill_at(h, pos) {
        Some((sent, Ok(_))) => wait_at(h, sent),
        Some((sent, Err(e))) => Some((sent, Err(e))),
        None => None,
    }
}

/// Installing the first `count` breakpoints of `entries`, in table order: at
/// each address the trap byte is patched in. A patch that succeeds arms its
/// entry with the displaced byte; one that fails leaves its entry as it is
/// and puts the address on the list of failures, and the next address
/// follows all the same. The result is the position after the last exchange,
/// the entries, and the failures.
pub open spec fn install_upto(
    h: Seq<Exchange>,
    pos: int,
    entries: Seq<Breakpoint>,
    count: nat,
) -> Option<(int, Seq<Breakpoint>, Seq<usize>)>
    decreases count,
{
    if count == 0 {
        Some((pos, entries, Seq::empty()))
    } else {
        let i = count - 1;
        match install_upto(h, pos, entries, i as nat) {
            Some((next, done, failed)) => if i < done.len() {
                match patch_at(h, next, done[i].address, TRAP_BYTE) {
                    Some((end, Ok(displaced))) => Some(
                        (end, done.update(i, after_install(done[i], displaced)), failed),
                    ),
                    Some((end, Err(_))) => Some((end, done, failed.push(done[i].address))),
                    None => None,
                }
            } else {
                None
            },
            None => None,
        }
    }
}

/// Installing the breakpoints of `entries` in a debuggee that has just been
/// created: whatever an earlier debuggee left in the table is forgotten, and
/// the trap is patched in at every address.
pub open spec fn install_at(h: Seq<Exchange>, pos: int, entries: Seq<Breakpoint>) -> Option<
    (int, Seq<Breakpoint>, Seq<usize>),
> {
    install_upto(h, pos, disarmed(entries), entries.len())
}

/// A launch that ended at position `end` with the breakpoints installed.
pub open spec fn launched(end: int, entries: Seq<Breakpoint>, failed: Seq<usize>) -> Option<
    (int, Result<(Seq<Breakpoint>, Seq<usize>), TraceError>),
> {
    Some((end, Ok((entries, failed))))
}

/// A launch that ended at position `end` with an error.
pub open spec fn launch_failed(end: int, error: TraceError) -> Option<
    (int, Result<(Seq<Breakpoint>, Seq<usize>), TraceError>),
> {
    Some((end, Err(error)))
}

/// Taking over a debuggee that has just been created: it is waited for, and
/// once it reports its first stop the breakpoints of `entries` are installed.
/// A debuggee that has already ended is an error, and nothing is installed.
/// The result is the table's entries and the addresses that could not be
/// patched.
pub open spec fn launch_at(h: Seq<Exchange>, pos: int, entries: Seq<Breakpoint>) -> Option<
    (int, Result<(Seq<Breakpoint>, Seq<usize>), TraceError>),
> {
    match wait_at(h, pos) {
        Some((stopped, Ok(status))) => if status.terminal() {
            Some((stopped, Err(TraceError::Ended(status))))
        } else {
            match install_at(h, stopped, entries) {
                Some((end, installed, failed)) => Some((end, Ok((installed, failed)))),
                None => None,
            }
        },
        Some((stopped, Err(e))) => Some((stopped, Err(e))),
        None => None,
    }
}

/// The name of the function at which a stack walk ends.
pub open spec fn entry_name() -> Seq<char> {
    "main"@
}

/// Whether `addr` lies in the program's entry function.
pub open spec fn in_entry(symbols: &SymbolTable, addr: usize) -> bool {
    symbols.function_at(addr) == Some(entry_name())
}

/// Walking the stack from the frame with instruction pointer `rip` and frame
/// pointer `rbp`, with at most `budget` frames to go. The frame of `rip` is
/// emitted. In the entry function the walk ends. Otherwise the return address
/// is read from the word above the frame pointer and the caller's frame
/// pointer from the word at it, and the walk goes on from there. It stops
/// with an error where a word cannot be read, where a value read is no
/// address, and where the budget is used up. The result is the addresses of
/// the frames emitted, innermost first, and the error that stopped the walk,
/// if one did.
pub open spec fn unwind_at(
    h: Seq<Exchange>,
    pos: int,
    symbols: &SymbolTable,
    rip: usize,
    rbp: usize,
    budget: nat,
) -> Option<(int, Seq<usize>, Option<TraceError>)>
    decreases budget,
{
    if budget == 0 {
        Some((pos, Seq::empty(), Some(TraceError::TooManyFrames)))
    } else if in_entry(symbols, rip) {
        Some((pos, seq![rip], None))
    } else if rbp + 8 > usize::MAX {
        Some((pos, seq![rip], Some(TraceError::AddressRange(rbp as u64))))
    } else {
        match read_word_at(h, pos, (rbp + 8) as usize) {
            Some((first, Ok(ret))) => match read_word_at(h, first, rbp) {
                Some((second, Ok(saved))) => match address_of(ret) {
                    Ok(caller) => match address_of(saved) {
                        Ok(frame) => match unwind_at(
                            h,
                            second,
                            symbols,
                            caller,
                            frame,
                            (budget - 1) as nat,
                        ) {
                            Some((end, outer, error)) => Some((end, seq![rip] + outer, error)),
                            None => None,
                        },
                        Err(e) => Some((second, seq![rip], Some(e))),
                    },
                    Err(e) => Some((second, seq![rip], Some(e))),
                },
                Some((second, Err(e))) => Some((second, seq![rip], Some(e))),
                None => None,
            },
            Some((first, Err(e))) => Some((first, seq![rip], Some(e))),
            None => None,
        }
    }
}

/// A backtrace: the registers are read, and the stack is walked from the
/// instruction pointer and the frame pointer found there.
pub open spec fn backtrace_at(
    h: Seq<Exchange>,
    pos: int,
    symbols: &SymbolTable,
    limit: nat,
) -> Option<(int, Seq<usize>, Option<TraceError>)> {
    match registers_at(h, pos) {
        Some((read, Ok(regs))) => match address_of(regs.0) {
            Ok(rip) => match address_of(regs.1) {
                Ok(rbp) => unwind_at(h, read, symbols, rip, rbp, limit),
                Err(e) => Some((read, Seq::empty(), Some(e))),
            },
            Err(e) => Some((read, Seq::empty(), Some(e))),
        },
        Some((read, Err(e))) => Some((read, Seq::empty(), Some(e))),
        None => None,
    }
}

/// A script that has found its exchanges in a history finds the same ones in
/// every longer history.
pub proof fn lemma_patch_stable(
    h: Seq<Exchange>,
    longer: Seq<Exchange>,
    pos: int,
    addr: usize,
    val: u8,
)
    requires
        h.is_prefix_of(longer),
        patch_at(h, pos, addr, val) is Some,
    ensures
        patch_at(longer, pos, addr, val) == patch_at(h, pos, addr, val),
        pos < patch_at(h, pos, addr, val).unwrap().0 <= h.len(),
{
    assert(forall|i: int| 0 <= i < h.len() ==> h[i] == longer[i]);
}

/// A wait that is found in a history is found in every longer history.
pub proof fn lemma_wait_stable(h: Seq<Exchange>, longer: Seq<Exchange>, pos: int)
    requires
        h.is_prefix_of(longer),
        wait_at(h, pos) is Some,
    ensures
        wait_at(longer, pos) == wait_at(h, pos),
        pos < wait_at(h, pos).unwrap().0 <= h.len(),
{
    assert(forall|i: int| 0 <= i < h.len() ==> h[i] == longer[i]);
}

} // verus!

verus! {

/// An installation that is found in a history is found in every longer
/// history, and it keeps the table's length and addresses.
pub proof fn lemma_install_stable(
    h: Seq<Exchange>,
    longer: Seq<Exchange>,
    pos: int,
    entries: Seq<Breakpoint>,
    count: nat,
)
    requires
        h.is_prefix_of(longer),
        0 <= pos <= h.len(),
        install_upto(h, pos, entries, count) is Some,
    ensures
        install_upto(longer, pos, entries, count) == install_upto(h, pos, entries, count),
        pos <= install_upto(h, pos, entries, count).unwrap().0 <= h.len(),
        install_upto(h, pos, entries, count).unwrap().1.len() == entries.len(),
        forall|k: int|
            0 <= k < entries.len() ==> (#[trigger] install_upto(
                h,
                pos,
                entries,
                count,
            ).unwrap().1[k]).address == entries[k].address,
    decreases count,
{
    if count > 0 {
        let i = (count - 1) as nat;
        lemma_install_stable(h, longer, pos, entries, i);
        let (next, done, failed) = install_upto(h, pos, entries, i).unwrap();
        lemma_patch_stable(h, longer, next, done[i as int].address, TRAP_BYTE);
    }
}

/// A launch that is found in a history is found in every longer history.
pub proof fn lemma_launch_stable(
    h: Seq<Exchange>,
    longer: Seq<Exchange>,
    pos: int,
    entries: Seq<Breakpoint>,
)
    requires
        h.is_prefix_of(longer),
        0 <= pos <= h.len(),
        launch_at(h, pos, entries) is Some,
    ensures
        launch_at(longer, pos, entries) == launch_at(h, pos, entries),
        pos < launch_at(h, pos, entries).unwrap().0 <= h.len(),
{
    lemma_wait_stable(h, longer, pos);
    let (stopped, waited) = wait_at(h, pos).unwrap();
    if waited matches Ok(status) && !status.terminal() {
        lemma_install_stable(h, longer, stopped, disarmed(entries), entries.len());
    }
}

} // verus!
