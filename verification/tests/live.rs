use deet::breakpoints::BreakpointTable;
use deet::debugger::{BreakpointReport, ContinueReport, Debugger, LaunchReport, Reply};
use deet::debugger_command::DebuggerCommand;
use deet::inferior::{Inferior, MAX_FRAMES};
use deet::status::{Status, TraceError, SIGTRAP};
use deet::symbols::{Function, SymbolTable};
use deet::word::TRAP_BYTE;
use nix::spawn::{posix_spawn, PosixSpawnAttr, PosixSpawnFileActions};
use nix::sys::ptrace;
use nix::sys::signal::{kill, Signal};
use nix::sys::wait::{waitid, waitpid, Id, WaitPidFlag, WaitStatus};

const SIGKILL: i32 = 9;
const SIGUSR1: i32 = 10;
const ECHILD: i32 = 10;
const ESRCH: i32 = 3;

/// Starts `/bin/sleep` for the given time under trace control and leaves it
/// with exactly one stop to report.
fn start_traced(seconds: &'static core::ffi::CStr) -> i32 {
    let actions = PosixSpawnFileActions::init().unwrap();
    let attr = PosixSpawnAttr::init().unwrap();
    let args = [c"sleep", seconds];
    let env: [&core::ffi::CStr; 0] = [];
    let pid = posix_spawn("/bin/sleep", &actions, &attr, &args, &env).unwrap();
    ptrace::attach(pid).unwrap();
    loop {
        match waitpid(pid, None).unwrap() {
            WaitStatus::Stopped(_, Signal::SIGSTOP) => break,
            WaitStatus::Stopped(_, _) => ptrace::cont(pid, None).unwrap(),
            other => panic!("{:?}", other),
        }
    }
    ptrace::cont(pid, Signal::SIGSTOP).unwrap();
    waitid(Id::Pid(pid), WaitPidFlag::WSTOPPED | WaitPidFlag::WNOWAIT).unwrap();
    pid.as_raw()
}

/// As `start_traced`, with a user signal waiting for the debuggee, so that it
/// stops once more as soon as it is resumed.
fn start_traced_with_signal(seconds: &'static core::ffi::CStr) -> i32 {
    let pid = start_traced(seconds);
    kill(nix::unistd::Pid::from_raw(pid), Signal::SIGUSR1).unwrap();
    pid
}

/// Takes over a child that `start_traced` has started.
fn take_over(pid: i32, table: &mut BreakpointTable) -> (Inferior, Vec<usize>) {
    match Inferior::new(pid, table) {
        Ok(launch) => (launch.inferior, launch.outcome.unwrap()),
        Err(e) => panic!("{:?}", e),
    }
}

fn no_symbols() -> SymbolTable {
    SymbolTable::new(Vec::new(), Vec::new())
}

fn everything_is(name: &str) -> SymbolTable {
    SymbolTable::new(
        vec![Function { name: name.to_string(), address: 0, length: usize::MAX }],
        Vec::new(),
    )
}

#[test]
fn refuses_a_process_id_that_is_not_positive() {
    let mut table = BreakpointTable::new();
    assert!(matches!(Inferior::new(0, &mut table), Err(TraceError::InvalidProcess(0))));
    assert!(matches!(Inferior::new(-7, &mut table), Err(TraceError::InvalidProcess(-7))));
}

#[test]
fn a_process_that_is_no_child_cannot_be_waited_for() {
    let mut table = BreakpointTable::new();
    table.set(0x1000);
    let launch = Inferior::new(1, &mut table).ok().unwrap();
    assert_eq!(launch.inferior.pid(), 1);
    assert_eq!(launch.outcome, Err(TraceError::Wait(ECHILD)));
    assert_eq!(table.len(), 1);
}

#[test]
fn runs_to_exit_without_breakpoints() {
    let mut table = BreakpointTable::new();
    let pid = start_traced(c"0.5");
    let (mut inferior, failed) = take_over(pid, &mut table);
    assert_eq!(inferior.pid(), pid);
    assert!(failed.is_empty());
    assert_eq!(inferior.continue_run(&table), Ok(Status::Exited(0)));
}

#[test]
fn resuming_does_not_hand_the_stopping_signal_on() {
    let mut table = BreakpointTable::new();
    let pid = start_traced_with_signal(c"0.5");
    let (mut inferior, _) = take_over(pid, &mut table);
    assert!(matches!(inferior.continue_run(&table), Ok(Status::Stopped(SIGUSR1, _))));
    assert_eq!(inferior.continue_run(&table), Ok(Status::Exited(0)));
}

#[test]
fn an_address_that_cannot_be_patched_does_not_stop_the_launch() {
    let mut table = BreakpointTable::new();
    table.install(0, 0x55);
    table.set(8);
    let pid = start_traced(c"0.5");
    let (mut inferior, failed) = take_over(pid, &mut table);
    assert_eq!(failed, vec![0, 8]);
    assert_eq!(table.len(), 2);
    assert_eq!(table.armed_at(0), None);
    assert_eq!(table.armed_at(8), None);
    assert_eq!(inferior.continue_run(&table), Ok(Status::Exited(0)));
}

#[test]
fn a_patch_displaces_a_byte_and_patching_back_restores_it() {
    let mut table = BreakpointTable::new();
    let pid = start_traced(c"30");
    let (mut inferior, _) = take_over(pid, &mut table);
    let rip = inferior.print_backtrace(&everything_is("main")).frames[0].address;
    let original = inferior.write_byte(rip, TRAP_BYTE).unwrap();
    assert_eq!(inferior.write_byte(rip, TRAP_BYTE), Ok(TRAP_BYTE));
    assert_eq!(inferior.write_byte(rip, original), Ok(TRAP_BYTE));
    assert_eq!(inferior.write_byte(rip, original), Ok(original));
    let neighbour = if rip % 8 == 7 { rip - 1 } else { rip + 1 };
    let beside = inferior.write_byte(neighbour, 0x00).unwrap();
    assert_eq!(inferior.write_byte(rip, original), Ok(original));
    assert_eq!(inferior.write_byte(neighbour, beside), Ok(0x00));
    assert!(matches!(inferior.write_byte(0, TRAP_BYTE), Err(TraceError::Memory(0, _))));
    assert!(matches!(inferior.write_byte(13, TRAP_BYTE), Err(TraceError::Memory(8, _))));
    assert_eq!(inferior.kill(), Ok(Status::Signaled(SIGKILL)));
}

#[test]
fn stops_at_a_breakpoint_once_and_then_runs_to_exit() {
    let mut table = BreakpointTable::new();
    let pid = start_traced(c"0.5");
    let (mut inferior, _) = take_over(pid, &mut table);
    let rip = inferior.print_backtrace(&everything_is("main")).frames[0].address;
    let original = inferior.write_byte(rip, TRAP_BYTE).unwrap();
    table.install(rip, original);
    assert_eq!(inferior.continue_run(&table), Ok(Status::Stopped(SIGTRAP, rip + 1)));
    assert_eq!(inferior.continue_run(&table), Ok(Status::Exited(0)));
    assert_eq!(table.armed_at(rip), Some(original));
}

#[test]
fn kill_ends_a_stopped_debuggee() {
    let mut table = BreakpointTable::new();
    let pid = start_traced(c"30");
    let (mut inferior, _) = take_over(pid, &mut table);
    assert_eq!(inferior.kill(), Ok(Status::Signaled(SIGKILL)));
    assert!(matches!(inferior.continue_run(&table), Err(TraceError::Registers(ESRCH))));
    assert!(matches!(inferior.wait(), Err(TraceError::Wait(ECHILD))));
    assert!(matches!(inferior.kill(), Err(TraceError::Kill(ESRCH))));
    assert!(matches!(
        inferior.write_byte(0x1000, TRAP_BYTE),
        Err(TraceError::Memory(0x1000, ESRCH))
    ));
}

#[test]
fn a_child_that_ends_before_it_stops_is_no_debuggee() {
    let actions = PosixSpawnFileActions::init().unwrap();
    let attr = PosixSpawnAttr::init().unwrap();
    let env: [&core::ffi::CStr; 0] = [];
    let pid = posix_spawn("/bin/true", &actions, &attr, &[c"true"], &env).unwrap();
    let mut table = BreakpointTable::new();
    table.install(0x1000, 0x55);
    let launch = Inferior::new(pid.as_raw(), &mut table).ok().unwrap();
    assert_eq!(launch.outcome, Err(TraceError::Ended(Status::Exited(0))));
    assert_eq!(table.armed_at(0x1000), Some(0x55));
    let mut debugger = Debugger::new("/bin/true", no_symbols());
    let pid = posix_spawn("/bin/true", &actions, &attr, &[c"true"], &env).unwrap();
    assert!(matches!(
        debugger.launch(pid.as_raw()),
        LaunchReport::Failed(TraceError::Ended(Status::Exited(0)))
    ));
    assert!(!debugger.has_debuggee());
}

#[test]
fn a_backtrace_ends_at_the_entry_function() {
    let mut table = BreakpointTable::new();
    let pid = start_traced(c"30");
    let (mut inferior, _) = take_over(pid, &mut table);
    let trace = inferior.print_backtrace(&everything_is("main"));
    assert_eq!(trace.error, None);
    assert_eq!(trace.frames.len(), 1);
    assert_eq!(trace.frames[0].function, Some("main".to_string()));
    assert!(trace.frames[0].address > 0);
    inferior.kill().unwrap();
}

#[test]
fn a_backtrace_that_finds_no_entry_function_stops_with_an_error() {
    let mut table = BreakpointTable::new();
    let pid = start_traced(c"30");
    let (mut inferior, _) = take_over(pid, &mut table);
    let named = inferior.print_backtrace(&everything_is("sleeper"));
    assert!(named.error.is_some());
    assert!(!named.frames.is_empty() && named.frames.len() <= MAX_FRAMES);
    assert_eq!(named.frames[0].function, Some("sleeper".to_string()));
    let bare = inferior.print_backtrace(&no_symbols());
    assert!(bare.error.is_some());
    assert_eq!(bare.frames.len(), named.frames.len());
    assert_eq!(bare.frames[0].address, named.frames[0].address);
    assert_eq!(bare.frames[0].function, None);
    inferior.kill().unwrap();
}

#[test]
fn a_session_launches_continues_and_forgets_the_debuggee_at_its_exit() {
    let mut debugger = Debugger::new("/bin/sleep", no_symbols());
    let pid = start_traced(c"0.5");
    match debugger.launch(pid) {
        LaunchReport::Started(failed, ContinueReport::Status(stop)) => {
            assert!(failed.is_empty());
            assert_eq!(stop.status, Status::Exited(0));
            assert!(stop.line.is_none());
        }
        other => panic!("{:?}", other),
    }
    assert!(!debugger.has_debuggee());
    assert!(matches!(debugger.cont(), ContinueReport::NoDebuggee));
    assert!(debugger.backtrace().is_none());
}

#[test]
fn a_session_stops_at_a_breakpoint_and_then_runs_to_exit() {
    let mut debugger = Debugger::new("/bin/sleep", no_symbols());
    assert_eq!(debugger.set_breakpoint("*0x0"), BreakpointReport::Placed(0, 0));
    let pid = start_traced_with_signal(c"0.5");
    let rip = match debugger.launch(pid) {
        LaunchReport::Started(failed, ContinueReport::Status(stop)) => {
            assert_eq!(failed, vec![0]);
            match stop.status {
                Status::Stopped(SIGUSR1, rip) => rip,
                other => panic!("{:?}", other),
            }
        }
        other => panic!("{:?}", other),
    };
    assert!(debugger.has_debuggee());
    assert_eq!(debugger.backtrace().unwrap().frames[0].address, rip);
    let target = format!("*{:#x}", rip);
    assert_eq!(debugger.set_breakpoint(&target), BreakpointReport::Placed(1, rip));
    assert_eq!(debugger.set_breakpoint(&target), BreakpointReport::Placed(1, rip));
    assert_eq!(debugger.set_breakpoint("*0x8"), BreakpointReport::Invalid(8));
    assert_eq!(debugger.breakpoint_count(), 2);
    match debugger.cont() {
        ContinueReport::Status(stop) => assert_eq!(stop.status, Status::Stopped(SIGTRAP, rip + 1)),
        other => panic!("{:?}", other),
    }
    match debugger.cont() {
        ContinueReport::Status(stop) => assert_eq!(stop.status, Status::Exited(0)),
        other => panic!("{:?}", other),
    }
    assert!(!debugger.has_debuggee());
    assert_eq!(debugger.breakpoint_count(), 2);
}

#[test]
fn a_session_terminates_its_debuggee() {
    let mut debugger = Debugger::new("/bin/sleep", no_symbols());
    let pid = start_traced_with_signal(c"30");
    assert!(matches!(debugger.launch(pid), LaunchReport::Started(_, ContinueReport::Status(_))));
    assert!(debugger.has_debuggee());
    let killed = debugger.terminate().unwrap();
    assert_eq!(killed.pid, pid);
    assert_eq!(killed.outcome, Ok(Status::Signaled(SIGKILL)));
    assert!(!debugger.has_debuggee());
    assert_eq!(debugger.terminate(), None);
}

#[test]
fn a_run_command_kills_the_debuggee_that_is_there() {
    let mut debugger = Debugger::new("/bin/sleep", no_symbols());
    let pid = start_traced_with_signal(c"30");
    assert!(matches!(debugger.launch(pid), LaunchReport::Started(_, ContinueReport::Status(_))));
    match debugger.run(&DebuggerCommand::Run(vec!["1".to_string()])) {
        Reply::Spawn(Some(killed)) => {
            assert_eq!(killed.pid, pid);
            assert_eq!(killed.outcome, Ok(Status::Signaled(SIGKILL)));
        }
        other => panic!("{:?}", other),
    }
    assert!(!debugger.has_debuggee());
    let next = start_traced(c"0.5");
    assert!(matches!(
        debugger.launch(next),
        LaunchReport::Started(_, ContinueReport::Status(_))
    ));
    assert!(matches!(debugger.run(&DebuggerCommand::Quit), Reply::Quit(None)));
}

#[test]
fn the_first_stop_is_followed_by_the_installation() {
    let mut table = BreakpointTable::new();
    table.set(0);
    let pid = start_traced(c"30");
    let mut inferior = Inferior::adopt(pid).ok().unwrap();
    assert_eq!(inferior.pid(), pid);
    let waited = inferior.wait();
    assert!(matches!(waited, Ok(Status::Stopped(_, _))));
    assert_eq!(inferior.first_stop(waited, &mut table), Ok(vec![0]));
    let rip = inferior.print_backtrace(&no_symbols()).frames[0].address;
    table.set(rip);
    assert_eq!(inferior.install_breakpoints(&mut table), vec![0]);
    assert!(table.armed_at(rip).is_some());
    assert_eq!(inferior.write_byte(rip, TRAP_BYTE), Ok(TRAP_BYTE));
    assert_eq!(inferior.kill(), Ok(Status::Signaled(SIGKILL)));
}
