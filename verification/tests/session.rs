use deet::debugger::{BreakpointReport, ContinueReport, Debugger, LaunchReport, Reply};
use deet::debugger_command::DebuggerCommand;
use deet::breakpoints::BreakpointTable;
use deet::inferior::{frame_for, to_address, Inferior};
use deet::status::{Status, TraceError};
use deet::symbols::{Function, Line, SymbolTable};

fn symbols() -> SymbolTable {
    SymbolTable::new(
        vec![
            Function { name: "foo".to_string(), address: 0x1000, length: 0x20 },
            Function { name: "main".to_string(), address: 0x1020, length: 0x40 },
        ],
        vec![
            Line { file: "a.c".to_string(), number: 3, address: 0x1000 },
            Line { file: "a.c".to_string(), number: 9, address: 0x1020 },
        ],
    )
}

#[test]
fn a_new_session_has_no_debuggee() {
    let debugger = Debugger::new("./target", symbols());
    assert_eq!(debugger.target(), "./target");
    assert!(!debugger.has_debuggee());
    assert_eq!(debugger.breakpoint_count(), 0);
}

#[test]
fn continue_without_a_debuggee_does_nothing() {
    let mut debugger = Debugger::new("./target", symbols());
    assert!(matches!(debugger.cont(), ContinueReport::NoDebuggee));
    assert!(!debugger.has_debuggee());
}

#[test]
fn backtrace_without_a_debuggee_gives_none() {
    let mut debugger = Debugger::new("./target", symbols());
    assert!(debugger.backtrace().is_none());
}

#[test]
fn terminate_without_a_debuggee_gives_none() {
    let mut debugger = Debugger::new("./target", symbols());
    assert_eq!(debugger.terminate(), None);
}

#[test]
fn resolves_each_kind_of_target() {
    let debugger = Debugger::new("./target", symbols());
    assert_eq!(debugger.parse_address("*0x4005b6"), Some(0x4005b6));
    assert_eq!(debugger.parse_address("*4005b6"), Some(0x4005b6));
    assert_eq!(debugger.parse_address("0x4005b6"), Some(0x4005b6));
    assert_eq!(debugger.parse_address("3"), Some(0x1000));
    assert_eq!(debugger.parse_address("4"), Some(0x1020));
    assert_eq!(debugger.parse_address("10"), None);
    assert_eq!(debugger.parse_address("main"), Some(0x1020));
    assert_eq!(debugger.parse_address("foo"), Some(0x1000));
    assert_eq!(debugger.parse_address("bar"), None);
    assert_eq!(debugger.parse_address("*"), None);
    assert_eq!(debugger.parse_address("*main"), None);
    assert_eq!(debugger.parse_address(""), None);
}

#[test]
fn breakpoints_set_before_a_launch_are_kept_in_order() {
    let mut debugger = Debugger::new("./target", symbols());
    assert_eq!(debugger.set_breakpoint("main"), BreakpointReport::Placed(0, 0x1020));
    assert_eq!(debugger.set_breakpoint("*0x1008"), BreakpointReport::Placed(1, 0x1008));
    assert_eq!(debugger.set_breakpoint("9"), BreakpointReport::Placed(0, 0x1020));
    assert_eq!(debugger.set_breakpoint("nowhere"), BreakpointReport::Unresolved);
    assert_eq!(debugger.breakpoint_count(), 2);
    assert!(!debugger.has_debuggee());
}

#[test]
fn a_launch_with_no_process_fails_and_keeps_the_table() {
    let mut debugger = Debugger::new("./target", symbols());
    debugger.set_breakpoint("main");
    assert!(matches!(
        debugger.launch(0),
        LaunchReport::Failed(TraceError::InvalidProcess(0))
    ));
    assert!(!debugger.has_debuggee());
    assert_eq!(debugger.breakpoint_count(), 1);
}

#[test]
fn a_frame_carries_what_the_table_knows() {
    let symbols = symbols();
    let (frame, at_entry) = frame_for(&symbols, 0x1004);
    assert_eq!(frame.address, 0x1004);
    assert_eq!(frame.function, Some("foo".to_string()));
    assert_eq!(frame.line.map(|l| l.number), Some(3));
    assert!(!at_entry);
    let (frame, at_entry) = frame_for(&symbols, 0x1030);
    assert_eq!(frame.function, Some("main".to_string()));
    assert!(at_entry);
    let (frame, at_entry) = frame_for(&symbols, 0x10);
    assert_eq!(frame.address, 0x10);
    assert_eq!(frame.function, None);
    assert!(frame.line.is_none());
    assert!(!at_entry);
}

#[test]
fn a_register_value_is_an_address() {
    assert_eq!(to_address(0), Ok(0));
    assert_eq!(to_address(0x7fff_ffff_f000), Ok(0x7fff_ffff_f000));
    assert_eq!(to_address(u64::MAX), Ok(usize::MAX));
}

#[test]
fn sets_several_breakpoints_in_order() {
    let mut debugger = Debugger::new("./target", symbols());
    let targets =
        vec!["main".to_string(), "nowhere".to_string(), "*0x1008".to_string(), "9".to_string()];
    assert_eq!(
        debugger.set_breakpoints(&targets),
        vec![
            BreakpointReport::Placed(0, 0x1020),
            BreakpointReport::Unresolved,
            BreakpointReport::Placed(1, 0x1008),
            BreakpointReport::Placed(0, 0x1020),
        ]
    );
    assert_eq!(debugger.breakpoint_count(), 2);
    assert_eq!(debugger.set_breakpoints(&Vec::new()), Vec::new());
}

#[test]
fn commands_without_a_debuggee_leave_the_session_without_one() {
    let mut debugger = Debugger::new("./target", symbols());
    assert!(matches!(
        debugger.run(&DebuggerCommand::Cont),
        Reply::Continued(ContinueReport::NoDebuggee)
    ));
    assert!(matches!(debugger.run(&DebuggerCommand::Back), Reply::Backtrace(None)));
    assert!(matches!(debugger.run(&DebuggerCommand::Run(Vec::new())), Reply::Spawn(None)));
    match debugger.run(&DebuggerCommand::Break(vec!["foo".to_string(), "?".to_string()])) {
        Reply::Breakpoints(reports) => assert_eq!(
            reports,
            vec![BreakpointReport::Placed(0, 0x1000), BreakpointReport::Unresolved]
        ),
        other => panic!("{:?}", other),
    }
    assert!(matches!(debugger.run(&DebuggerCommand::Quit), Reply::Quit(None)));
    assert!(!debugger.has_debuggee());
    assert_eq!(debugger.breakpoint_count(), 1);
}

#[test]
fn no_handle_for_a_process_id_that_is_not_positive() {
    assert!(matches!(Inferior::adopt(0), Err(TraceError::InvalidProcess(0))));
    assert!(matches!(Inferior::adopt(i32::MIN), Err(TraceError::InvalidProcess(i32::MIN))));
    assert_eq!(Inferior::adopt(4711).ok().unwrap().pid(), 4711);
}

#[test]
fn a_first_wait_that_found_no_stop_installs_nothing() {
    let mut table = BreakpointTable::new();
    table.install(0x1000, 0x55);
    let mut inferior = Inferior::adopt(4711).ok().unwrap();
    assert_eq!(
        inferior.first_stop(Err(TraceError::Wait(10)), &mut table),
        Err(TraceError::Wait(10))
    );
    assert_eq!(
        inferior.first_stop(Ok(Status::Exited(3)), &mut table),
        Err(TraceError::Ended(Status::Exited(3)))
    );
    assert_eq!(
        inferior.first_stop(Ok(Status::Signaled(9)), &mut table),
        Err(TraceError::Ended(Status::Signaled(9)))
    );
    assert_eq!(table.armed_at(0x1000), Some(0x55));
}
