use deet::debugger_command::{hex_prefix_at, DebuggerCommand};
use deet::text::{digit_of, parse_number, same_text};

#[test]
fn reads_hexadecimal_addresses() {
    assert_eq!(DebuggerCommand::parse_address("0x4005b6"), Some(0x4005b6));
    assert_eq!(DebuggerCommand::parse_address("0X4005B6"), Some(0x4005b6));
    assert_eq!(DebuggerCommand::parse_address("*0x4005b6"), Some(0x4005b6));
    assert_eq!(DebuggerCommand::parse_address("*0X10"), Some(16));
    assert_eq!(DebuggerCommand::parse_address("4005b6"), Some(0x4005b6));
    assert_eq!(DebuggerCommand::parse_address("0"), Some(0));
    assert_eq!(DebuggerCommand::parse_address("+ff"), Some(255));
    assert_eq!(DebuggerCommand::parse_address("ffffffffffffffff"), Some(usize::MAX));
}

#[test]
fn refuses_what_is_no_hexadecimal_address() {
    assert_eq!(DebuggerCommand::parse_address(""), None);
    assert_eq!(DebuggerCommand::parse_address("0x"), None);
    assert_eq!(DebuggerCommand::parse_address("*0x"), None);
    assert_eq!(DebuggerCommand::parse_address("*4005b6"), None);
    assert_eq!(DebuggerCommand::parse_address("main"), None);
    assert_eq!(DebuggerCommand::parse_address("12 "), None);
    assert_eq!(DebuggerCommand::parse_address("-1"), None);
    assert_eq!(DebuggerCommand::parse_address("+"), None);
    assert_eq!(DebuggerCommand::parse_address("1_000"), None);
    assert_eq!(DebuggerCommand::parse_address("10000000000000000"), None);
}

#[test]
fn reads_numbers_in_two_bases() {
    assert_eq!(parse_number("1234", 0, 10), Some(1234));
    assert_eq!(parse_number("1234", 0, 16), Some(0x1234));
    assert_eq!(parse_number("xx1234", 2, 10), Some(1234));
    assert_eq!(parse_number("18446744073709551615", 0, 10), Some(usize::MAX));
    assert_eq!(parse_number("18446744073709551616", 0, 10), None);
    assert_eq!(parse_number("12a", 0, 10), None);
    assert_eq!(parse_number("12", 2, 10), None);
    assert_eq!(parse_number("007", 0, 10), Some(7));
}

#[test]
fn tells_digits_by_base() {
    assert_eq!(digit_of('0', 10), Some(0));
    assert_eq!(digit_of('9', 10), Some(9));
    assert_eq!(digit_of('a', 10), None);
    assert_eq!(digit_of('a', 16), Some(10));
    assert_eq!(digit_of('F', 16), Some(15));
    assert_eq!(digit_of('g', 16), None);
    assert_eq!(digit_of('z', 36), Some(35));
    assert_eq!(digit_of(' ', 16), None);
}

#[test]
fn compares_texts() {
    assert!(same_text("main", "main"));
    assert!(same_text("", ""));
    assert!(!same_text("main", "Main"));
    assert!(!same_text("main", "mai"));
    assert!(same_text("gr\u{fc}n", "gr\u{fc}n"));
}

#[test]
fn finds_the_hex_prefix() {
    assert!(hex_prefix_at("0x10", 0));
    assert!(hex_prefix_at("*0X10", 1));
    assert!(!hex_prefix_at("*0x10", 0));
    assert!(!hex_prefix_at("0", 0));
    assert!(!hex_prefix_at("10x", 0));
}

#[test]
fn reads_commands_by_name_and_abbreviation() {
    assert!(matches!(DebuggerCommand::from_tokens(&vec!["q"]), Some(DebuggerCommand::Quit)));
    assert!(matches!(DebuggerCommand::from_tokens(&vec!["quit"]), Some(DebuggerCommand::Quit)));
    assert!(matches!(DebuggerCommand::from_tokens(&vec!["c"]), Some(DebuggerCommand::Cont)));
    assert!(matches!(DebuggerCommand::from_tokens(&vec!["cont"]), Some(DebuggerCommand::Cont)));
    assert!(matches!(
        DebuggerCommand::from_tokens(&vec!["continue"]),
        Some(DebuggerCommand::Cont)
    ));
    assert!(matches!(DebuggerCommand::from_tokens(&vec!["bt"]), Some(DebuggerCommand::Back)));
    assert!(matches!(DebuggerCommand::from_tokens(&vec!["back"]), Some(DebuggerCommand::Back)));
    assert!(matches!(
        DebuggerCommand::from_tokens(&vec!["backtrace"]),
        Some(DebuggerCommand::Back)
    ));
}

#[test]
fn run_and_break_carry_their_arguments() {
    match DebuggerCommand::from_tokens(&vec!["r", "hi", "there"]) {
        Some(DebuggerCommand::Run(args)) => {
            assert_eq!(args, vec!["hi".to_string(), "there".to_string()])
        }
        other => panic!("{:?}", other),
    }
    match DebuggerCommand::from_tokens(&vec!["run"]) {
        Some(DebuggerCommand::Run(args)) => assert!(args.is_empty()),
        other => panic!("{:?}", other),
    }
    match DebuggerCommand::from_tokens(&vec!["b", "*0x4005b6", "main", "12"]) {
        Some(DebuggerCommand::Break(targets)) => assert_eq!(
            targets,
            vec!["*0x4005b6".to_string(), "main".to_string(), "12".to_string()]
        ),
        other => panic!("{:?}", other),
    }
    match DebuggerCommand::from_tokens(&vec!["break", "foo"]) {
        Some(DebuggerCommand::Break(targets)) => assert_eq!(targets, vec!["foo".to_string()]),
        other => panic!("{:?}", other),
    }
}

#[test]
fn refuses_unknown_and_empty_input() {
    assert!(DebuggerCommand::from_tokens(&vec![]).is_none());
    assert!(DebuggerCommand::from_tokens(&vec!["step"]).is_none());
    assert!(DebuggerCommand::from_tokens(&vec!["Q"]).is_none());
    assert!(DebuggerCommand::from_tokens(&vec!["quit!"]).is_none());
    assert!(DebuggerCommand::from_tokens(&vec![""]).is_none());
}
