//! The session: the one debuggee there may be, the breakpoint table and the
//! symbol table, and what each command does to them.
//!
//! Between two commands a session is in one of two states: it has no
//! debuggee, or it has one that is stopped. A debuggee runs only inside a
//! command, between a resume and the wait that follows it.

use crate::breakpoints::{
    distinct_addresses, installed, is_entry_for, requested, Breakpoint, BreakpointTable,
};
use crate::debugger_command::{has_hex_prefix, hex_prefix_at, texts, Command, DebuggerCommand};
use crate::inferior::{frame_addresses, resolved, Backtrace, Inferior, MAX_FRAMES};
use crate::protocol::{
    backtrace_at, launch_at, lemma_launch_stable, patch_at, resume_at, terminate_at, Exchange,
};
use crate::status::{Status, TraceError};
use crate::symbols::{Line, SymbolTable};
use crate::text::{parse_number, parsed};
use crate::word::TRAP_BYTE;
use vstd::prelude::*;
use vstd::string::*;

verus! {

/// A status together with the source line at which the debuggee stands, where
/// it is stopped and the symbol table knows the line.
#[derive(Debug)]
pub struct Stop {
    /// The status.
    pub status: Status,
    /// The source line of the instruction pointer of a stopped debuggee.
    pub line: Option<Line>,
}

/// What a request for a breakpoint came to.
#[derive(Clone, Copy, Debug, PartialEq, Eq)]
pub enum BreakpointReport {
    /// The breakpoint is in the table. Holds the index of its entry and its
    /// address.
    Placed(usize, usize),
    /// The debuggee's memory could not be patched at this address. The table
    /// is as it was.
    Invalid(usize),
    /// The target names no address.
    Unresolved,
}

/// What resuming the debuggee came to.
#[derive(Debug)]
pub enum ContinueReport {
    /// There is no debuggee. Nothing was done.
    NoDebuggee,
    /// The debuggee ran until its next event.
    Status(Stop),
    /// A request failed.
    Failed(TraceError),
}

/// What taking over a new debuggee came to.
#[derive(Debug)]
pub enum LaunchReport {
    /// The debuggee could not be taken over. There is no debuggee.
    Failed(TraceError),
    /// The debuggee was taken over and resumed. Holds the addresses at which
    /// no breakpoint could be installed, and what resuming came to.
    Started(Vec<usize>, ContinueReport),
}

/// A debuggee that was killed.
#[derive(Clone, Copy, Debug, PartialEq, Eq)]
pub struct Killed {
    /// Its process id.
    pub pid: i32,
    /// Its status at the wait that followed the kill.
    pub outcome: Result<Status, TraceError>,
}

/// What a command came to.
#[derive(Debug)]
pub enum Reply {
    /// The session is over. Holds the debuggee that was killed, if there was
    /// one.
    Quit(Option<Killed>),
    /// The target program is to be started now, with the arguments of the
    /// command; its process id then goes to `launch`. Holds the debuggee that
    /// was killed to make room, if there was one.
    Spawn(Option<Killed>),
    /// What resuming came to.
    Continued(ContinueReport),
    /// The call stack, or `None` without a debuggee.
    Backtrace(Option<Backtrace>),
    /// What each breakpoint request came to, in the order of the targets.
    Breakpoints(Vec<BreakpointReport>),
}

/// The address that the breakpoint target `s` names: behind a `*`, an
/// address in hexadecimal with or without `0x`; with `0x` in front, an
/// address in hexadecimal; a decimal number is a line number, and names the
/// address where that line starts; any other text is a function's name, and
/// names the address where that function starts.
pub open spec fn resolve_target(symbols: &SymbolTable, s: Seq<char>) -> Option<usize> {
    if s.len() > 0 && s[0] == '*' {
        if has_hex_prefix(s.skip(1)) {
            parsed(s.skip(3), 16)
        } else {
            parsed(s.skip(1), 16)
        }
    } else if has_hex_prefix(s) {
        parsed(s.skip(2), 16)
    } else {
        match parsed(s, 10) {
            Some(number) => symbols.line_address(number),
            None => symbols.function_address(s),
        }
    }
}

/// `stop` holds `status` and the line that the symbol table gives for it.
pub open spec fn located(symbols: &SymbolTable, status: Status, stop: Stop) -> bool {
    &&& stop.status == status
    &&& match status {
        Status::Stopped(_, rip) => {
            &&& stop.line is Some <==> symbols.line_index_at(rip) is Some
            &&& stop.line matches Some(line) ==> {
                let entry = symbols.lines@[symbols.line_index_at(rip).unwrap()];
                line.file@ == entry.file@ && line.number == entry.number && line.address
                    == entry.address
            }
        },
        _ => stop.line is None,
    }
}

/// The session of one target program.
pub struct Debugger {
    target: String,
    inferior: Option<Inferior>,
    debug_data: SymbolTable,
    break_list: BreakpointTable,
    past: Ghost<Seq<Exchange>>,
}

impl Debugger {
    /// The invariant of a session.
    pub closed spec fn wf(&self) -> bool {
        &&& self.break_list.wf()
        &&& self.inferior matches Some(inferior) ==> inferior.wf()
    }

    /// Whether the session has a debuggee. It is stopped if there is one.
    pub open spec fn alive(&self) -> bool {
        self.process() is Some
    }

    /// The process id of the debuggee, if there is one.
    pub closed spec fn process(&self) -> Option<i32> {
        match self.inferior {
            Some(inferior) => Some(inferior.id()),
            None => None,
        }
    }

    /// The exchanges with the operating system about the debuggee: about the
    /// one there is, or else about the last one there was.
    pub closed spec fn exchanges(&self) -> Seq<Exchange> {
        match self.inferior {
            Some(inferior) => inferior.history(),
            None => self.past@,
        }
    }

    /// The entries of the breakpoint table.
    pub closed spec fn breakpoints(&self) -> Seq<Breakpoint> {
        self.break_list@
    }

    /// The symbol table.
    pub closed spec fn symbols(&self) -> &SymbolTable {
        &self.debug_data
    }

    /// The path of the target program.
    pub closed spec fn program(&self) -> Seq<char> {
        self.target@
    }

    /// Nothing of the session but the debuggee's exchanges has changed.
    pub open spec fn same_session(&self, before: &Debugger) -> bool {
        &&& self.wf()
        &&& self.symbols() == before.symbols()
        &&& self.program() == before.program()
    }

    /// What `set_breakpoint` makes of the session `before` for the target
    /// `target`. A target that names no address changes nothing. Without a
    /// debuggee the address is requested in the table. With one, the trap is
    /// patched in at the address, and the address goes into the table, armed
    /// with the displaced byte, only if the patch succeeds.
    pub open spec fn placed_from(
        &self,
        before: &Debugger,
        target: Seq<char>,
        report: BreakpointReport,
    ) -> bool {
        &&& self.same_session(before)
        &&& self.process() == before.process()
        &&& self.alive() == before.alive()
        &&& match resolve_target(before.symbols(), target) {
            None => {
                &&& report == BreakpointReport::Unresolved
                &&& self.breakpoints() == before.breakpoints()
                &&& self.exchanges() == before.exchanges()
            },
            Some(addr) => if !before.alive() {
                &&& self.breakpoints() == requested(before.breakpoints(), addr)
                &&& self.exchanges() == before.exchanges()
                &&& report matches BreakpointReport::Placed(id, at)
                &&& at == addr
                &&& is_entry_for(self.breakpoints(), id as int, addr)
            } else {
                &&& before.exchanges().is_prefix_of(self.exchanges())
                &&& patch_at(self.exchanges(), before.exchanges().len() as int, addr, TRAP_BYTE)
                    matches Some((end, patched))
                &&& end == self.exchanges().len()
                &&& match patched {
                    Ok(displaced) => {
                        &&& self.breakpoints() == installed(
                            requested(before.breakpoints(), addr),
                            addr,
                            displaced,
                        )
                        &&& report matches BreakpointReport::Placed(id, at)
                        &&& at == addr
                        &&& is_entry_for(self.breakpoints(), id as int, addr)
                    },
                    Err(_) => {
                        &&& self.breakpoints() == before.breakpoints()
                        &&& report == BreakpointReport::Invalid(addr)
                    },
                }
            },
        }
    }

    /// What `cont` makes of the session `before`. Without a debuggee nothing
    /// changes. With one, it is resumed; it stays in the session unless it
    /// has exited or was killed.
    pub open spec fn resumed_from(&self, before: &Debugger, report: ContinueReport) -> bool {
        &&& self.same_session(before)
        &&& self.breakpoints() == before.breakpoints()
        &&& !before.alive() ==> {
            &&& report is NoDebuggee
            &&& !self.alive()
            &&& self.process() == before.process()
            &&& self.exchanges() == before.exchanges()
        }
        &&& before.alive() ==> {
            &&& before.exchanges().is_prefix_of(self.exchanges())
            &&& resume_at(
                self.exchanges(),
                before.exchanges().len() as int,
                before.breakpoints(),
            ) matches Some((end, resumed))
            &&& end == self.exchanges().len()
            &&& match resumed {
                Ok(status) => {
                    &&& report matches ContinueReport::Status(stop)
                    &&& located(self.symbols(), status, stop)
                    &&& self.alive() == !status.terminal()
                },
                Err(e) => {
                    &&& report matches ContinueReport::Failed(error)
                    &&& error == e
                    &&& self.alive()
                },
            }
            &&& self.alive() ==> self.process() == before.process()
        }
    }

    /// What `backtrace` makes of the session `before`: nothing without a
    /// debuggee, and else the walk of its stack.
    pub open spec fn traced_from(&self, before: &Debugger, trace: Option<Backtrace>) -> bool {
        &&& self.same_session(before)
        &&& self.breakpoints() == before.breakpoints()
        &&& self.process() == before.process()
        &&& self.alive() == before.alive()
        &&& trace is Some <==> before.alive()
        &&& !before.alive() ==> self.exchanges() == before.exchanges()
        &&& trace matches Some(found) ==> {
            &&& before.exchanges().is_prefix_of(self.exchanges())
            &&& forall|i: int|
                0 <= i < found.frames@.len() ==> resolved(
                    self.symbols(),
                    #[trigger] found.frames@[i],
                )
            &&& backtrace_at(
                self.exchanges(),
                before.exchanges().len() as int,
                self.symbols(),
                MAX_FRAMES as nat,
            ) == Some(
                (self.exchanges().len() as int, frame_addresses(found.frames@), found.error),
            )
        }
    }

    /// What `terminate` makes of the session `before`: it has no debuggee
    /// afterwards, and the one there was has been killed and waited for.
    pub open spec fn terminated_from(&self, before: &Debugger, killed: Option<Killed>) -> bool {
        &&& self.same_session(before)
        &&& self.breakpoints() == before.breakpoints()
        &&& !self.alive()
        &&& killed is Some <==> before.alive()
        &&& !before.alive() ==> self.exchanges() == before.exchanges()
        &&& killed matches Some(k) ==> {
            &&& before.process() == Some(k.pid)
            &&& before.exchanges().is_prefix_of(self.exchanges())
            &&& terminate_at(self.exchanges(), before.exchanges().len() as int) == Some(
                (self.exchanges().len() as int, k.outcome),
            )
        }
    }

    /// What `launch` makes of the session `before`, which has no debuggee,
    /// for the child process `pid`. A `pid` that is not positive changes
    /// nothing. For every other the child is waited for, and what follows
    /// goes by what was exchanged: once the child has reported its first
    /// stop, every breakpoint of the table has been installed and the child
    /// has been resumed, whatever became of the single patches; after a wait
    /// that failed, and for a child that has ended, there is no debuggee and
    /// the table is as it was.
    pub open spec fn launched_from(
        &self,
        before: &Debugger,
        pid: i32,
        report: LaunchReport,
    ) -> bool {
        &&& self.same_session(before)
        &&& pid <= 0 ==> {
            &&& report matches LaunchReport::Failed(e)
            &&& e == TraceError::InvalidProcess(pid)
            &&& !self.alive()
            &&& self.breakpoints() == before.breakpoints()
            &&& self.exchanges() == before.exchanges()
        }
        &&& pid > 0 ==> match launch_at(self.exchanges(), 0, before.breakpoints()) {
            Some((taken, Ok(installation))) => {
                &&& report matches LaunchReport::Started(failed, outcome)
                &&& installation == (self.breakpoints(), failed@)
                &&& resume_at(self.exchanges(), taken, self.breakpoints()) matches Some(
                    (end, resumed),
                )
                &&& end == self.exchanges().len()
                &&& match resumed {
                    Ok(status) => {
                        &&& outcome matches ContinueReport::Status(stop)
                        &&& located(self.symbols(), status, stop)
                        &&& self.alive() == !status.terminal()
                    },
                    Err(e) => {
                        &&& outcome matches ContinueReport::Failed(error)
                        &&& error == e
                        &&& self.alive()
                    },
                }
                &&& self.alive() ==> self.process() == Some(pid)
            },
            Some((taken, Err(e))) => {
                &&& report matches LaunchReport::Failed(error)
                &&& error == e
                &&& taken == self.exchanges().len()
                &&& !self.alive()
                &&& self.breakpoints() == before.breakpoints()
            },
            None => false,
        }
    }

    /// What `set_breakpoints` makes of the session `before`: what
    /// `set_breakpoint` makes of it for each target in turn.
    pub open spec fn all_placed_from(
        &self,
        before: &Debugger,
        targets: Seq<Seq<char>>,
        reports: Seq<BreakpointReport>,
    ) -> bool {
        &&& reports.len() == targets.len()
        &&& exists|steps: Seq<Debugger>|
            {
                &&& #[trigger] steps.len() == targets.len() + 1
                &&& steps[0] == *before
                &&& steps[targets.len() as int] == *self
                &&& forall|i: int|
                    0 <= i < targets.len() ==> (#[trigger] steps[i + 1]).placed_from(
                        &steps[i],
                        targets[i],
                        reports[i],
                    )
            }
    }

    /// What `run` makes of the session `before` for the command `command`.
    pub open spec fn ran_from(&self, before: &Debugger, command: Command, reply: Reply) -> bool {
        match command {
            Command::Quit => reply matches Reply::Quit(killed) && self.terminated_from(
                before,
                killed,
            ),
            Command::Run(_) => reply matches Reply::Spawn(killed) && self.terminated_from(
                before,
                killed,
            ),
            Command::Cont => reply matches Reply::Continued(report) && self.resumed_from(
                before,
                report,
            ),
            Command::Back => reply matches Reply::Backtrace(trace) && self.traced_from(
                before,
                trace,
            ),
            Command::Break(targets) => reply matches Reply::Breakpoints(reports)
                && self.all_placed_from(before, targets, reports@),
        }
    }

    /// In a session that keeps its invariant no two breakpoints have the same
    /// address.
    pub proof fn lemma_breakpoints_distinct(&self)
        requires
            self.wf(),
        ensures
            distinct_addresses(self.breakpoints()),
    {
    }

    /// A session for the program at path `target`, with its symbol table. It
    /// has no debuggee and no breakpoints.
    pub fn new(target: &str, debug_data: SymbolTable) -> (debugger: Debugger)
        ensures
            debugger.wf(),
            !debugger.alive(),
            debugger.breakpoints() == Seq::<Breakpoint>::empty(),
            *debugger.symbols() == debug_data,
            debugger.program() == target@,
            debugger.exchanges() == Seq::<Exchange>::empty(),
    {
        Debugger {
            target: target.to_owned(),
            inferior: None,
            debug_data,
            break_list: BreakpointTable::new(),
            past: Ghost(Seq::empty()),
        }
    }

    /// The path of the target program.
    pub fn target(&self) -> (path: &String)
        ensures
            path@ == self.program(),
    {
        &self.target
    }

    /// Whether the session has a debuggee.
    pub fn has_debuggee(&self) -> (alive: bool)
        ensures
            alive == self.alive(),
    {
        self.inferior.is_some()
    }

    /// The number of breakpoints in the table.
    pub fn breakpoint_count(&self) -> (n: usize)
        ensures
            n == self.breakpoints().len(),
    {
        self.break_list.len()
    }

    /// The address that a breakpoint target names, if it names one.
    pub fn parse_address(&self, addr: &str) -> (address: Option<usize>)
        ensures
            address == resolve_target(self.symbols(), addr@),
    {
        let n = addr.unicode_len();
        if n > 0 && addr.get_char(0) == '*' {
            if hex_prefix_at(addr, 1) {
                assert(addr@.skip(1).skip(2) =~= addr@.skip(3));
                parse_number(addr, 3, 16)
            } else {
                parse_number(addr, 1, 16)
            }
        } else if hex_prefix_at(addr, 0) {
            assert(addr@.skip(0) =~= addr@);
            parse_number(addr, 2, 16)
        } else {
            assert(addr@.skip(0) =~= addr@);
            match parse_number(addr, 0, 10) {
                Some(number) => self.debug_data.address_for_line(number),
                None => self.debug_data.address_for_function(addr),
            }
        }
    }

    /// Sets a breakpoint at the address that `target` names. Without a
    /// debuggee the address goes into the table, to be installed at the next
    /// launch. With one, the trap is patched into its memory at once, and the
    /// address goes into the table only if that succeeds.
    pub fn set_breakpoint(&mut self, target: &str) -> (report: BreakpointReport)
        requires
            old(self).wf(),
        ensures
            final(self).placed_from(old(self), target@, report),
    {
        let addr = match self.parse_address(target) {
            Some(addr) => addr,
            None => {
                return BreakpointReport::Unresolved;
            },
        };
        match self.inferior.take() {
            None => {
                let id = self.break_list.set(addr);
                BreakpointReport::Placed(id, addr)
            },
            Some(mut inferior) => {
                let patched = inferior.write_byte(addr, TRAP_BYTE);
                self.inferior = Some(inferior);
                match patched {
                    Ok(displaced) => {
                        let id = self.break_list.install(addr, displaced);
                        BreakpointReport::Placed(id, addr)
                    },
                    Err(_) => BreakpointReport::Invalid(addr),
                }
            },
        }
    }

    /// The status with the source line that belongs to it.
    fn locate(&self, status: Status) -> (stop: Stop)
        ensures
            located(self.symbols(), status, stop),
    {
        let line = match status {
            Status::Stopped(_, rip) => self.debug_data.resolve_line(rip),
            _ => None,
        };
        Stop { status, line }
    }

    /// Resumes the debuggee and waits for its next event. Without a
    /// debuggee nothing is done. A debuggee that has exited or was killed is
    /// gone from the session; one that has stopped stays.
    pub fn cont(&mut self) -> (report: ContinueReport)
        requires
            old(self).wf(),
        ensures
            final(self).resumed_from(old(self), report),
    {
        let mut inferior = match self.inferior.take() {
            Some(inferior) => inferior,
            None => {
                return ContinueReport::NoDebuggee;
            },
        };
        match inferior.continue_run(&self.break_list) {
            Ok(status) => {
                if status.is_terminal() {
                    self.past = Ghost(inferior.history());
                } else {
                    self.inferior = Some(inferior);
                }
                ContinueReport::Status(self.locate(status))
            },
            Err(e) => {
                self.inferior = Some(inferior);
                ContinueReport::Failed(e)
            },
        }
    }

    /// Takes over the child process `pid`, which has just been created from
    /// the target program with tracing requested: waits for its first stop,
    /// installs every breakpoint of the table, and resumes it. What was
    /// exchanged about a child that could not be taken over is kept as the
    /// session's last exchanges.
    pub fn launch(&mut self, pid: i32) -> (report: LaunchReport)
        requires
            old(self).wf(),
            !old(self).alive(),
        ensures
            final(self).launched_from(old(self), pid, report),
    {
        let launch = match Inferior::new(pid, &mut self.break_list) {
            Ok(launch) => launch,
            Err(e) => {
                return LaunchReport::Failed(e);
            },
        };
        let inferior = launch.inferior;
        match launch.outcome {
            Err(e) => {
                self.past = Ghost(inferior.history());
                LaunchReport::Failed(e)
            },
            Ok(failed) => {
                let ghost taken = inferior.history();
                self.inferior = Some(inferior);
                let outcome = self.cont();
                proof {
                    lemma_launch_stable(taken, self.exchanges(), 0, old(self).breakpoints());
                }
                LaunchReport::Started(failed, outcome)
            },
        }
    }

    /// The call stack of the debuggee. `None` without a debuggee.
    pub fn backtrace(&mut self) -> (trace: Option<Backtrace>)
        requires
            old(self).wf(),
        ensures
            final(self).traced_from(old(self), trace),
    {
        let mut inferior = match self.inferior.take() {
            Some(inferior) => inferior,
            None => {
                return None;
            },
        };
        let trace = inferior.print_backtrace(&self.debug_data);
        self.inferior = Some(inferior);
        Some(trace)
    }

    /// Kills the debuggee, if there is one, and waits for it. The session has
    /// no debuggee afterwards, whatever the kill and the wait came to.
    pub fn terminate(&mut self) -> (killed: Option<Killed>)
        requires
            old(self).wf(),
        ensures
            final(self).terminated_from(old(self), killed),
    {
        let mut inferior = match self.inferior.take() {
            Some(inferior) => inferior,
            None => {
                return None;
            },
        };
        let pid = inferior.pid();
        let outcome = inferior.kill();
        self.past = Ghost(inferior.history());
        Some(Killed { pid, outcome })
    }

    /// Sets a breakpoint at each of `targets`, in order. A target that fails
    /// does not stop the others.
    pub fn set_breakpoints(&mut self, targets: &Vec<String>) -> (reports: Vec<BreakpointReport>)
        requires
            old(self).wf(),
        ensures
            final(self).wf(),
            final(self).all_placed_from(old(self), texts(targets@), reports@),
    {
        let ghost mut steps: Seq<Debugger> = seq![*self];
        let mut reports: Vec<BreakpointReport> = Vec::new();
        let mut i: usize = 0;
        while i < targets.len()
            invariant
                i <= targets@.len(),
                self.wf(),
                reports@.len() == i,
                steps.len() == i + 1,
                steps[0] == *old(self),
                steps[i as int] == *self,
                forall|j: int|
                    0 <= j < i ==> (#[trigger] steps[j + 1]).placed_from(
                        &steps[j],
                        texts(targets@)[j],
                        reports@[j],
                    ),
            decreases targets.len() - i,
        {
            let ghost before = *self;
            let ghost earlier = steps;
            let ghost reported = reports@;
            let report = self.set_breakpoint(targets[i].as_str());
            reports.push(report);
            proof {
                steps = steps.push(*self);
                assert(texts(targets@)[i as int] == targets@[i as int]@);
                assert forall|j: int| 0 <= j < i + 1 implies (#[trigger] steps[j + 1]).placed_from(
                    &steps[j],
                    texts(targets@)[j],
                    reports@[j],
                ) by {
                    if j < i {
                        assert(steps[j + 1] == earlier[j + 1]);
                        assert(steps[j] == earlier[j]);
                        assert(reports@[j] == reported[j]);
                    } else {
                        assert(steps[j] == before);
                    }
                }
            }
            i += 1;
        }
        reports
    }

    /// Carries out one command. Starting the target program is left to the
    /// caller: for `Run` the debuggee there may be is killed, and the reply
    /// asks for the program to be started.
    pub fn run(&mut self, command: &DebuggerCommand) -> (reply: Reply)
        requires
            old(self).wf(),
        ensures
            final(self).wf(),
            final(self).ran_from(old(self), command@, reply),
    {
        match command {
            DebuggerCommand::Quit => Reply::Quit(self.terminate()),
            DebuggerCommand::Run(_) => Reply::Spawn(self.terminate()),
            DebuggerCommand::Cont => Reply::Continued(self.cont()),
            DebuggerCommand::Back => Reply::Backtrace(self.backtrace()),
            DebuggerCommand::Break(targets) => Reply::Breakpoints(self.set_breakpoints(targets)),
        }
    }
}

} // verus!
