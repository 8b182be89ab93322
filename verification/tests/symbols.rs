use deet::status::{decode, is_stop, Status, TraceError, SIGTRAP};
use deet::symbols::{Function, Line, SymbolTable};
use deet::trace::WaitEvent;

fn table() -> SymbolTable {
    SymbolTable::new(
        vec![
            Function { name: "foo".to_string(), address: 0x1000, length: 0x20 },
            Function { name: "main".to_string(), address: 0x1020, length: 0x40 },
            Function { name: "foo".to_string(), address: 0x2000, length: 0x10 },
        ],
        vec![
            Line { file: "a.c".to_string(), number: 3, address: 0x1000 },
            Line { file: "a.c".to_string(), number: 4, address: 0x1008 },
            Line { file: "a.c".to_string(), number: 9, address: 0x1020 },
            Line { file: "a.c".to_string(), number: 10, address: 0x1030 },
            Line { file: "b.c".to_string(), number: 10, address: 0x1030 },
        ],
    )
}

#[test]
fn resolves_an_address_to_its_function() {
    let symbols = table();
    assert_eq!(symbols.resolve_function(0x1000), Some("foo".to_string()));
    assert_eq!(symbols.resolve_function(0x101f), Some("foo".to_string()));
    assert_eq!(symbols.resolve_function(0x1020), Some("main".to_string()));
    assert_eq!(symbols.resolve_function(0x105f), Some("main".to_string()));
    assert_eq!(symbols.resolve_function(0x1060), None);
    assert_eq!(symbols.resolve_function(0xfff), None);
    assert_eq!(symbols.resolve_function(0x2008), Some("foo".to_string()));
}

#[test]
fn a_function_at_the_top_of_memory_does_not_wrap() {
    let symbols = SymbolTable::new(
        vec![Function { name: "top".to_string(), address: usize::MAX - 1, length: usize::MAX }],
        Vec::new(),
    );
    assert_eq!(symbols.resolve_function(usize::MAX), Some("top".to_string()));
    assert_eq!(symbols.resolve_function(0), None);
}

#[test]
fn resolves_an_address_to_the_nearest_line_below() {
    let symbols = table();
    let line = symbols.resolve_line(0x1007).unwrap();
    assert_eq!((line.file.as_str(), line.number, line.address), ("a.c", 3, 0x1000));
    let line = symbols.resolve_line(0x1008).unwrap();
    assert_eq!((line.file.as_str(), line.number, line.address), ("a.c", 4, 0x1008));
    let line = symbols.resolve_line(0x5000).unwrap();
    assert_eq!((line.file.as_str(), line.number, line.address), ("a.c", 10, 0x1030));
    assert!(symbols.resolve_line(0xfff).is_none());
}

#[test]
fn finds_where_a_function_starts() {
    let symbols = table();
    assert_eq!(symbols.address_for_function("foo"), Some(0x1000));
    assert_eq!(symbols.address_for_function("main"), Some(0x1020));
    assert_eq!(symbols.address_for_function("bar"), None);
    assert_eq!(symbols.address_for_function(""), None);
}

#[test]
fn finds_where_a_line_starts() {
    let symbols = table();
    assert_eq!(symbols.address_for_line(3), Some(0x1000));
    assert_eq!(symbols.address_for_line(5), Some(0x1020));
    assert_eq!(symbols.address_for_line(10), Some(0x1030));
    assert_eq!(symbols.address_for_line(11), None);
    assert_eq!(symbols.address_for_line(0), Some(0x1000));
}

#[test]
fn an_empty_table_resolves_nothing() {
    let symbols = SymbolTable::new(Vec::new(), Vec::new());
    assert_eq!(symbols.resolve_function(0x1000), None);
    assert!(symbols.resolve_line(0x1000).is_none());
    assert_eq!(symbols.address_for_function("main"), None);
    assert_eq!(symbols.address_for_line(1), None);
}

#[test]
fn decodes_the_three_kinds_of_status() {
    assert_eq!(decode(WaitEvent::Exited(0), 0x1234), Ok(Status::Exited(0)));
    assert_eq!(decode(WaitEvent::Exited(3), 0), Ok(Status::Exited(3)));
    assert_eq!(decode(WaitEvent::Signaled(9), 0x1234), Ok(Status::Signaled(9)));
    assert_eq!(
        decode(WaitEvent::Stopped(SIGTRAP), 0x4005b7),
        Ok(Status::Stopped(5, 0x4005b7))
    );
}

#[test]
fn any_other_event_is_an_error() {
    for event in [
        WaitEvent::PtraceEvent,
        WaitEvent::PtraceSyscall,
        WaitEvent::Continued,
        WaitEvent::StillAlive,
    ] {
        assert_eq!(decode(event, 0x1234), Err(TraceError::UnexpectedEvent(event)));
    }
}

#[test]
fn only_a_stop_needs_the_instruction_pointer() {
    assert!(is_stop(&WaitEvent::Stopped(19)));
    assert!(!is_stop(&WaitEvent::Exited(0)));
    assert!(!is_stop(&WaitEvent::Signaled(9)));
    assert!(!is_stop(&WaitEvent::Continued));
}

#[test]
fn exit_and_kill_are_terminal() {
    assert!(Status::Exited(0).is_terminal());
    assert!(Status::Signaled(11).is_terminal());
    assert!(!Status::Stopped(5, 0x1000).is_terminal());
}
