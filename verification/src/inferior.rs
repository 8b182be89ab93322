//! The process controller: the one debuggee of a session, and the operations
//! on it.

use crate::breakpoints::BreakpointTable;
use crate::protocol::{
    address_of, backtrace_at, in_entry, install_at, install_upto, launch_at, launch_failed,
    launched, lemma_install_stable, lemma_wait_stable, pass_at, patch_at, resume_at, run_at,
    step_over_at, terminate_at, unwind_at, wait_at, Exchange,
};
use crate::status::{decode, is_stop, Status, TraceError};
use crate::symbols::{Line, SymbolTable};
use crate::text::same_text;
use crate::tracee::{Registers, Tracee};
use crate::word::{align_addr_to_word, patch_word, TRAP_BYTE};
use vstd::prelude::*;

verus! {

/// The debuggee: a traced child process.
pub struct Inferior {
    tracee: Tracee,
}

impl Inferior {
    /// The process id is that of a single process.
    pub closed spec fn wf(&self) -> bool {
        self.tracee.wf()
    }

    /// The process id.
    pub closed spec fn id(&self) -> i32 {
        self.tracee.id()
    }

    /// Every exchange with the operating system about this debuggee so far,
    /// oldest first.
    pub closed spec fn history(&self) -> Seq<Exchange> {
        self.tracee.history()
    }

    /// The same debuggee after more exchanges.
    pub open spec fn continues(&self, before: &Inferior) -> bool {
        &&& self.wf()
        &&& self.id() == before.id()
        &&& before.history().is_prefix_of(self.history())
    }

    /// Returns the pid of this inferior.
    pub fn pid(&self) -> (pid: i32)
        ensures
            pid == self.id(),
    {
        self.tracee.pid()
    }

    /// Replaces the byte at `addr` in the debuggee's memory by `val` and
    /// returns the byte that was there. The word that holds `addr` is read and
    /// written back with that one byte changed.
    pub fn write_byte(&mut self, addr: usize, val: u8) -> (r: Result<u8, TraceError>)
        requires
            old(self).wf(),
        ensures
            final(self).continues(old(self)),
            patch_at(final(self).history(), old(self).history().len() as int, addr, val) == Some(
                (final(self).history().len() as int, r),
            ),
    {
        let base = align_addr_to_word(addr);
        let offset = addr - base;
        let word = match self.tracee.read_word(base) {
            Ok(word) => word,
            Err(e) => {
                return Err(e);
            },
        };
        let (displaced, updated) = patch_word(word, offset, val);
        match self.tracee.write_word(base, updated) {
            Ok(_) => Ok(displaced),
            Err(e) => Err(e),
        }
    }

    /// Waits until the debuggee changes state and returns its status. After a
    /// stop the instruction pointer is read for the status.
    pub fn wait(&mut self) -> (r: Result<Status, TraceError>)
        requires
            old(self).wf(),
        ensures
            final(self).continues(old(self)),
            wait_at(final(self).history(), old(self).history().len() as int) == Some(
                (final(self).history().len() as int, r),
            ),
    {
        let event = match self.tracee.wait_event() {
            Ok(event) => event,
            Err(e) => {
                return Err(e);
            },
        };
        if !is_stop(&event) {
            return decode(event, 0);
        }
        let regs = match self.tracee.read_registers() {
            Ok(regs) => regs,
            Err(e) => {
                return Err(e);
            },
        };
        match to_address(regs.rip) {
            Ok(rip) => decode(event, rip),
            Err(e) => Err(e),
        }
    }
}

impl Inferior {
    /// Lets the debuggee run freely and waits for its next event.
    fn run(&mut self) -> (r: Result<Status, TraceError>)
        requires
            old(self).wf(),
        ensures
            final(self).continues(old(self)),
            run_at(final(self).history(), old(self).history().len() as int) == Some(
                (final(self).history().len() as int, r),
            ),
    {
        match self.tracee.cont() {
            Ok(_) => {},
            Err(e) => {
                return Err(e);
            },
        }
        self.wait()
    }

    /// Runs the one instruction under the breakpoint at `addr`, with the
    /// displaced byte `original` back in its place.
    fn step_over(&mut self, regs: Registers, addr: usize, original: u8) -> (r: Result<
        Status,
        TraceError,
    >)
        requires
            old(self).wf(),
        ensures
            final(self).continues(old(self)),
            step_over_at(final(self).history(), old(self).history().len() as int, addr, original)
                == Some((final(self).history().len() as int, r)),
    {
        match self.write_byte(addr, original) {
            Ok(_) => {},
            Err(e) => {
                return Err(e);
            },
        }
        match self.tracee.write_instruction_pointer(regs, addr as u64) {
            Ok(_) => {},
            Err(e) => {
                return Err(e);
            },
        }
        match self.tracee.step() {
            Ok(_) => {},
            Err(e) => {
                return Err(e);
            },
        }
        self.wait()
    }

    /// Gets the debuggee past the breakpoint at `addr` and leaves the trap in
    /// place behind it. Returns the final status where the one instruction
    /// ended the debuggee.
    fn pass_breakpoint(&mut self, regs: Registers, addr: usize, original: u8) -> (r: Result<
        Option<Status>,
        TraceError,
    >)
        requires
            old(self).wf(),
        ensures
            final(self).continues(old(self)),
            pass_at(final(self).history(), old(self).history().len() as int, addr, original)
                == Some((final(self).history().len() as int, r)),
    {
        let status = match self.step_over(regs, addr, original) {
            Ok(status) => status,
            Err(e) => {
                return Err(e);
            },
        };
        if status.is_terminal() {
            return Ok(Some(status));
        }
        match self.write_byte(addr, TRAP_BYTE) {
            Ok(_) => Ok(None),
            Err(e) => Err(e),
        }
    }

    /// Resumes the debuggee and waits for its next event. A debuggee that
    /// stands right behind an armed breakpoint first runs the instruction
    /// under it, with the trap taken out for that one step and put back after
    /// it.
    pub fn continue_run(&mut self, breakpoints: &BreakpointTable) -> (r: Result<
        Status,
        TraceError,
    >)
        requires
            old(self).wf(),
            breakpoints.wf(),
        ensures
            final(self).continues(old(self)),
            resume_at(final(self).history(), old(self).history().len() as int, breakpoints@)
                == Some((final(self).history().len() as int, r)),
    {
        let regs = match self.tracee.read_registers() {
            Ok(regs) => regs,
            Err(e) => {
                return Err(e);
            },
        };
        let rip = match to_address(regs.rip) {
            Ok(rip) => rip,
            Err(e) => {
                return Err(e);
            },
        };
        match breakpoints.hit_at(rip) {
            Some((addr, original)) => {
                match self.pass_breakpoint(regs, addr, original) {
                    Ok(None) => {},
                    Ok(Some(status)) => {
                        return Ok(status);
                    },
                    Err(e) => {
                        return Err(e);
                    },
                }
            },
            None => {},
        }
        self.run()
    }

    /// Kills the debuggee and waits for it once, so that no zombie is left.
    /// Returns the status at that wait.
    pub fn kill(&mut self) -> (r: Result<Status, TraceError>)
        requires
            old(self).wf(),
        ensures
            final(self).continues(old(self)),
            terminate_at(final(self).history(), old(self).history().len() as int) == Some(
                (final(self).history().len() as int, r),
            ),
    {
        match self.tracee.signal_kill() {
            Ok(_) => {},
            Err(e) => {
                return Err(e);
            },
        }
        self.wait()
    }
}

impl Inferior {
    /// Installs every breakpoint of the table in this debuggee, which has
    /// just been created: the trap byte is patched in at each address, in
    /// table order, and each entry is armed with the byte displaced there.
    /// An address that cannot be patched does not stop the others. Returns
    /// the addresses that could not be patched.
    pub fn install_breakpoints(&mut self, breakpoints: &mut BreakpointTable) -> (failed: Vec<usize>)
        requires
            old(self).wf(),
            old(breakpoints).wf(),
        ensures
            final(self).continues(old(self)),
            final(breakpoints).wf(),
            install_at(
                final(self).history(),
                old(self).history().len() as int,
                old(breakpoints)@,
            ) == Some((final(self).history().len() as int, final(breakpoints)@, failed@)),
    {
        let ghost start = self.history().len() as int;
        let ghost first = *self;
        breakpoints.disarm_all();
        let ghost entries = breakpoints@;
        let n = breakpoints.len();
        let mut failed: Vec<usize> = Vec::new();
        let mut i: usize = 0;
        while i < n
            invariant
                i <= n,
                n == entries.len(),
                self.continues(&first),
                start == first.history().len(),
                breakpoints.wf(),
                breakpoints@.len() == n,
                install_upto(self.history(), start, entries, i as nat) == Some(
                    (self.history().len() as int, breakpoints@, failed@),
                ),
            decreases n - i,
        {
            let ghost before = self.history();
            let address = breakpoints.get(i).address;
            let patched = self.write_byte(address, TRAP_BYTE);
            proof {
                lemma_install_stable(before, self.history(), start, entries, i as nat);
            }
            match patched {
                Ok(displaced) => {
                    breakpoints.record_install(i, displaced);
                },
                Err(_) => {
                    failed.push(address);
                },
            }
            i += 1;
        }
        failed
    }

    /// The handle for the child process `pid`, about which nothing has been
    /// exchanged yet. Nothing is sent. A `pid` that is not positive is
    /// refused.
    pub fn adopt(pid: i32) -> (r: Result<Inferior, TraceError>)
        ensures
            pid <= 0 ==> r == Err::<Inferior, TraceError>(TraceError::InvalidProcess(pid)),
            pid > 0 ==> ({
                &&& r matches Ok(inferior)
                &&& inferior.wf()
                &&& inferior.id() == pid
                &&& inferior.history() == Seq::<Exchange>::empty()
            }),
    {
        match Tracee::new(pid) {
            Ok(tracee) => Ok(Inferior { tracee }),
            Err(e) => Err(e),
        }
    }

    /// What follows the first wait for a child that has just been created:
    /// `waited` is what that wait came to. After a stop every breakpoint of
    /// the table is installed, and the addresses that could not be patched
    /// are returned; an address that cannot be patched is no failure of the
    /// launch. A wait that failed is handed on as it is, and a child that has
    /// ended is an error; in both cases nothing is sent and the table is left
    /// as it was.
    pub fn first_stop(
        &mut self,
        waited: Result<Status, TraceError>,
        breakpoints: &mut BreakpointTable,
    ) -> (r: Result<Vec<usize>, TraceError>)
        requires
            old(self).wf(),
            old(breakpoints).wf(),
        ensures
            final(self).continues(old(self)),
            final(breakpoints).wf(),
            match waited {
                Err(e) => {
                    &&& r == Err::<Vec<usize>, TraceError>(e)
                    &&& final(self).history() == old(self).history()
                    &&& final(breakpoints)@ == old(breakpoints)@
                },
                Ok(status) => if status.terminal() {
                    &&& r == Err::<Vec<usize>, TraceError>(TraceError::Ended(status))
                    &&& final(self).history() == old(self).history()
                    &&& final(breakpoints)@ == old(breakpoints)@
                } else {
                    &&& r matches Ok(failed)
                    &&& install_at(
                        final(self).history(),
                        old(self).history().len() as int,
                        old(breakpoints)@,
                    ) == Some((final(self).history().len() as int, final(breakpoints)@, failed@))
                },
            },
    {
        match waited {
            Err(e) => Err(e),
            Ok(status) => {
                if status.is_terminal() {
                    Err(TraceError::Ended(status))
                } else {
                    Ok(self.install_breakpoints(breakpoints))
                }
            },
        }
    }

    /// Takes over the child process `pid`, which has just been created with
    /// tracing requested: waits for its first stop and then installs every
    /// breakpoint of the table in it.
    ///
    /// A `pid` that is not positive is refused before anything is sent. For
    /// every other `pid` the handle comes back, with what taking the child
    /// over came to: the addresses at which no breakpoint could be installed,
    /// or the reason why the child is no debuggee, which is a wait that
    /// failed or a child that has ended before its first stop. The table is
    /// then left as it was.
    pub fn new(pid: i32, breakpoints: &mut BreakpointTable) -> (r: Result<Launch, TraceError>)
        requires
            old(breakpoints).wf(),
        ensures
            final(breakpoints).wf(),
            pid <= 0 ==> {
                &&& r matches Err(e)
                &&& e == TraceError::InvalidProcess(pid)
                &&& final(breakpoints)@ == old(breakpoints)@
            },
            pid > 0 ==> {
                &&& r matches Ok(launch)
                &&& launch.inferior.wf()
                &&& launch.inferior.id() == pid
                &&& launch_at(launch.inferior.history(), 0, old(breakpoints)@) == (match launch
                    .outcome {
                    Ok(failed) => launched(
                        launch.inferior.history().len() as int,
                        final(breakpoints)@,
                        failed@,
                    ),
                    Err(e) => launch_failed(launch.inferior.history().len() as int, e),
                })
                &&& launch.outcome is Err ==> final(breakpoints)@ == old(breakpoints)@
            },
    {
        let mut inferior = match Inferior::adopt(pid) {
            Ok(inferior) => inferior,
            Err(e) => {
                return Err(e);
            },
        };
        let waited = inferior.wait();
        let ghost after_wait = inferior.history();
        let outcome = inferior.first_stop(waited, breakpoints);
        proof {
            lemma_wait_stable(after_wait, inferior.history(), 0);
        }
        Ok(Launch { inferior, outcome })
    }
}

/// A child process that was taken over, and what taking it over came to.
pub struct Launch {
    /// The handle of the process, with the record of what was exchanged about
    /// it. The process is a stopped debuggee where the outcome is `Ok`.
    pub inferior: Inferior,
    /// The addresses at which no breakpoint could be installed, or the reason
    /// why the process is no debuggee.
    pub outcome: Result<Vec<usize>, TraceError>,
}

/// The most frames that a backtrace follows before it gives up on a chain of
/// frame pointers.
pub const MAX_FRAMES: usize = 1024;

/// One frame of the call stack.
#[derive(Debug)]
pub struct Frame {
    /// The instruction pointer of the frame: for the innermost frame where
    /// the debuggee stands, for every other the address it will return to.
    pub address: usize,
    /// The name of the function that holds the address, where the symbol
    /// table knows one.
    pub function: Option<String>,
    /// The source line that the address belongs to, where the symbol table
    /// knows one.
    pub line: Option<Line>,
}

/// The call stack of a stopped debuggee, as far as it could be followed.
#[derive(Debug)]
pub struct Backtrace {
    /// The frames, innermost first.
    pub frames: Vec<Frame>,
    /// Why the walk stopped before it reached the entry function, if it did.
    pub error: Option<TraceError>,
}

/// The addresses of `frames`, in order.
pub open spec fn frame_addresses(frames: Seq<Frame>) -> Seq<usize> {
    Seq::new(frames.len(), |i: int| frames[i].address)
}

/// `frame` holds what the symbol table knows of its address.
pub open spec fn resolved(symbols: &SymbolTable, frame: Frame) -> bool {
    &&& frame.function is Some <==> symbols.function_at(frame.address) is Some
    &&& frame.function matches Some(name) ==> name@ == symbols.function_at(frame.address).unwrap()
    &&& frame.line is Some <==> symbols.line_index_at(frame.address) is Some
    &&& frame.line matches Some(line) ==> {
        let entry = symbols.lines@[symbols.line_index_at(frame.address).unwrap()];
        line.file@ == entry.file@ && line.number == entry.number && line.address == entry.address
    }
}

/// The frame for `addr`, and whether it lies in the entry function. An
/// address that the symbol table does not know still gets its frame, without
/// a name.
pub fn frame_for(symbols: &SymbolTable, addr: usize) -> (r: (Frame, bool))
    ensures
        r.0.address == addr,
        resolved(symbols, r.0),
        r.1 == in_entry(symbols, addr),
{
    let function = symbols.resolve_function(addr);
    let line = symbols.resolve_line(addr);
    let at_entry = match &function {
        Some(name) => same_text(name.as_str(), "main"),
        None => false,
    };
    (Frame { address: addr, function, line }, at_entry)
}

impl Inferior {
    /// Walks the stack from the frame with instruction pointer `rip` and
    /// frame pointer `rbp` and adds its frames to `frames`, at most `budget`
    /// of them. Returns the error that stopped the walk, if one did.
    fn walk(
        &mut self,
        symbols: &SymbolTable,
        rip: usize,
        rbp: usize,
        budget: usize,
        frames: &mut Vec<Frame>,
    ) -> (error: Option<TraceError>)
        requires
            old(self).wf(),
        ensures
            final(self).continues(old(self)),
            final(frames)@.len() >= old(frames)@.len(),
            final(frames)@.take(old(frames)@.len() as int) == old(frames)@,
            forall|i: int|
                old(frames)@.len() <= i < final(frames)@.len() ==> resolved(
                    symbols,
                    #[trigger] final(frames)@[i],
                ),
            unwind_at(
                final(self).history(),
                old(self).history().len() as int,
                symbols,
                rip,
                rbp,
                budget as nat,
            ) == Some(
                (
                    final(self).history().len() as int,
                    frame_addresses(final(frames)@.skip(old(frames)@.len() as int)),
                    error,
                ),
            ),
        decreases budget,
    {
        let ghost start = self.history().len() as int;
        let ghost given = frames@;
        if budget == 0 {
            assert(frame_addresses(frames@.skip(given.len() as int)) =~= Seq::<usize>::empty());
            return Some(TraceError::TooManyFrames);
        }
        let (frame, at_entry) = frame_for(symbols, rip);
        frames.push(frame);
        let ghost here = frames@;
        assert(here.take(given.len() as int) =~= given);
        assert(frame_addresses(here.skip(given.len() as int)) =~= seq![rip]);
        if at_entry {
            return None;
        }
        if rbp > usize::MAX - 8 {
            return Some(TraceError::AddressRange(rbp as u64));
        }
        let ret = match self.tracee.read_word(rbp + 8) {
            Ok(word) => word,
            Err(e) => {
                return Some(e);
            },
        };
        let saved = match self.tracee.read_word(rbp) {
            Ok(word) => word,
            Err(e) => {
                return Some(e);
            },
        };
        let ghost second = self.history();
        let caller = match to_address(ret) {
            Ok(addr) => addr,
            Err(e) => {
                return Some(e);
            },
        };
        let outer = match to_address(saved) {
            Ok(addr) => addr,
            Err(e) => {
                return Some(e);
            },
        };
        let error = self.walk(symbols, caller, outer, budget - 1, frames);
        proof {
            let h = self.history();
            assert(second.is_prefix_of(h));
            assert(h[start] == second[start]);
            assert(h[start + 1] == second[start + 1]);
            assert(frames@.take(given.len() as int) =~= given) by {
                assert(frames@.take(here.len() as int) == here);
                assert forall|i: int| 0 <= i < given.len() implies frames@[i] == given[i] by {
                    assert(frames@.take(here.len() as int)[i] == here[i]);
                }
            }
            assert(frames@[given.len() as int] == here[given.len() as int]) by {
                assert(frames@.take(here.len() as int)[given.len() as int]
                    == here[given.len() as int]);
            }
            assert(frame_addresses(frames@.skip(given.len() as int)) =~= seq![rip]
                + frame_addresses(frames@.skip(here.len() as int)));
        }
        error
    }

    /// Reconstructs the call stack of the stopped debuggee: the frame at the
    /// instruction pointer first, then its callers in turn, as the chain of
    /// saved frame pointers gives them, down to the entry function. Every
    /// frame carries what the symbol table knows of its address.
    ///
    /// The walk gives up after `MAX_FRAMES` frames, and where the registers
    /// or a word of the stack cannot be read; the frames found up to there
    /// are returned with the error.
    pub fn print_backtrace(&mut self, debug_data: &SymbolTable) -> (trace: Backtrace)
        requires
            old(self).wf(),
        ensures
            final(self).continues(old(self)),
            forall|i: int|
                0 <= i < trace.frames@.len() ==> resolved(debug_data, #[trigger] trace.frames@[i]),
            backtrace_at(
                final(self).history(),
                old(self).history().len() as int,
                debug_data,
                MAX_FRAMES as nat,
            ) == Some(
                (final(self).history().len() as int, frame_addresses(trace.frames@), trace.error),
            ),
    {
        let mut frames: Vec<Frame> = Vec::new();
        assert(frame_addresses(frames@) =~= Seq::<usize>::empty());
        let regs = match self.tracee.read_registers() {
            Ok(regs) => regs,
            Err(e) => {
                return Backtrace { frames, error: Some(e) };
            },
        };
        let rip = match to_address(regs.rip) {
            Ok(addr) => addr,
            Err(e) => {
                return Backtrace { frames, error: Some(e) };
            },
        };
        let rbp = match to_address(regs.rbp) {
            Ok(addr) => addr,
            Err(e) => {
                return Backtrace { frames, error: Some(e) };
            },
        };
        let ghost read = self.history();
        let error = self.walk(debug_data, rip, rbp, MAX_FRAMES, &mut frames);
        proof {
            assert(frames@.skip(0) =~= frames@);
            assert(self.history()[read.len() - 1] == read[read.len() - 1]);
        }
        Backtrace { frames, error }
    }
}

/// The address that a register value names.
pub fn to_address(value: u64) -> (addr: Result<usize, TraceError>)
    ensures
        addr == address_of(value),
{
    if value <= usize::MAX as u64 {
        Ok(value as usize)
    } else {
        Err(TraceError::AddressRange(value))
    }
}

} // verus!
