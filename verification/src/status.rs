//! The state of the debuggee after a wait, and how a wait event is decoded
//! into it.

use crate::trace::WaitEvent;
use vstd::prelude::*;

verus! {

/// The number of the signal that a trap instruction raises.
pub const SIGTRAP: i32 = 5;

/// What became of the debuggee after it was resumed.
#[derive(Clone, Copy, Debug, PartialEq, Eq, Structural)]
pub enum Status {
    /// The debuggee is paused. Holds the number of the signal that stopped it
    /// and the instruction pointer at which it stands.
    Stopped(i32, usize),
    /// The debuggee exited normally. Holds the exit code.
    Exited(i32),
    /// The debuggee was killed by a signal. Holds the signal's number.
    Signaled(i32),
}

/// Why a request to the debuggee failed.
#[derive(Clone, Copy, Debug, PartialEq, Eq, Structural)]
pub enum TraceError {
    /// A process id that is not positive names no single process.
    InvalidProcess(i32),
    /// A word of the debuggee's memory at this address could not be read or
    /// written. Holds the address and the error number.
    Memory(usize, i32),
    /// The registers could not be read or written. Holds the error number.
    Registers(i32),
    /// The debuggee could not be resumed or stepped. Holds the error number.
    Resume(i32),
    /// Waiting for the debuggee failed. Holds the error number.
    Wait(i32),
    /// The kill signal could not be sent. Holds the error number.
    Kill(i32),
    /// A wait reported an event that is none of exit, kill or stop. The
    /// tracing protocol is broken and the session cannot go on.
    UnexpectedEvent(WaitEvent),
    /// A register held a value that is no address on this machine.
    AddressRange(u64),
    /// The chain of saved frame pointers went on past the limit.
    TooManyFrames,
    /// The debuggee ended, with this status, before its first stop.
    Ended(Status),
}

impl Status {
    /// Whether the debuggee is gone: it exited or was killed.
    pub open spec fn terminal(self) -> bool {
        self is Exited || self is Signaled
    }

    /// Whether the debuggee is gone.
    pub fn is_terminal(&self) -> (gone: bool)
        ensures
            gone == self.terminal(),
    {
        match self {
            Status::Stopped(_, _) => false,
            Status::Exited(_) => true,
            Status::Signaled(_) => true,
        }
    }
}

/// Whether `event` is a stop, for which the instruction pointer has to be read
/// before it can be decoded.
pub open spec fn needs_location(event: WaitEvent) -> bool {
    event is Stopped
}

/// The status that `event` decodes to, `rip` being the instruction pointer
/// read at a stop. `None` for the events that are none of exit, kill or stop.
pub open spec fn decoded(event: WaitEvent, rip: usize) -> Option<Status> {
    match event {
        WaitEvent::Exited(code) => Some(Status::Exited(code)),
        WaitEvent::Signaled(signal) => Some(Status::Signaled(signal)),
        WaitEvent::Stopped(signal) => Some(Status::Stopped(signal, rip)),
        _ => None,
    }
}

/// Whether the instruction pointer has to be read to decode `event`.
pub fn is_stop(event: &WaitEvent) -> (stop: bool)
    ensures
        stop == needs_location(*event),
{
    match event {
        WaitEvent::Stopped(_) => true,
        _ => false,
    }
}

/// Decodes a wait event into a status. `rip` is the instruction pointer of the
/// debuggee and is used for a stop only. An event of any other kind than
/// exit, kill or stop is an error of its own.
pub fn decode(event: WaitEvent, rip: usize) -> (status: Result<Status, TraceError>)
    ensures
        status == match decoded(event, rip) {
            Some(s) => Ok::<Status, TraceError>(s),
            None => Err(TraceError::UnexpectedEvent(event)),
        },
{
    match event {
        WaitEvent::Exited(code) => Ok(Status::Exited(code)),
        WaitEvent::Signaled(signal) => Ok(Status::Signaled(signal)),
        WaitEvent::Stopped(signal) => Ok(Status::Stopped(signal, rip)),
        other => Err(TraceError::UnexpectedEvent(other)),
    }
}

/// A decoded status is a stop exactly for a stop event, and then it holds the
/// event's signal and the instruction pointer that was read.
pub proof fn lemma_decoded_stop(event: WaitEvent, rip: usize)
    ensures
        decoded(event, rip) is Some <==> (event is Exited || event is Signaled
            || event is Stopped),
        (decoded(event, rip) matches Some(s) && s is Stopped) <==> event is Stopped,
        event matches WaitEvent::Stopped(signal) ==> decoded(event, rip) == Some(
            Status::Stopped(signal, rip),
        ),
{
}

} // verus!
