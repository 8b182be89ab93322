//! The commands of a debugging session, and how a line of input that has
//! been split into words is read as one.

use crate::text::{parse_number, parsed, same_text};
use vstd::prelude::*;
use vstd::string::*;

verus! {

/// A command of the session.
#[derive(Debug)]
pub enum DebuggerCommand {
    /// End the session.
    Quit,
    /// Start the target program with these arguments.
    Run(Vec<String>),
    /// Resume the debuggee.
    Cont,
    /// Show the call stack of the debuggee.
    Back,
    /// Set a breakpoint at each of these targets. A target is a raw address,
    /// a raw address behind a `*`, a line number or a function name.
    Break(Vec<String>),
}

/// A command, with its texts as sequences of characters.
pub enum Command {
    /// End the session.
    Quit,
    /// Start the target program with these arguments.
    Run(Seq<Seq<char>>),
    /// Resume the debuggee.
    Cont,
    /// Show the call stack of the debuggee.
    Back,
    /// Set a breakpoint at each of these targets.
    Break(Seq<Seq<char>>),
}

/// The texts of `words` as sequences of characters.
pub open spec fn texts(words: Seq<String>) -> Seq<Seq<char>> {
    Seq::new(words.len(), |i: int| words[i]@)
}

/// The texts of `tokens` as sequences of characters.
pub open spec fn token_texts(tokens: Seq<&str>) -> Seq<Seq<char>> {
    Seq::new(tokens.len(), |i: int| tokens[i]@)
}

impl View for DebuggerCommand {
    type V = Command;

    open spec fn view(&self) -> Command {
        match self {
            DebuggerCommand::Quit => Command::Quit,
            DebuggerCommand::Run(args) => Command::Run(texts(args@)),
            DebuggerCommand::Cont => Command::Cont,
            DebuggerCommand::Back => Command::Back,
            DebuggerCommand::Break(targets) => Command::Break(texts(targets@)),
        }
    }
}

/// Whether `s` begins with `0x` or `0X`.
pub open spec fn has_hex_prefix(s: Seq<char>) -> bool {
    s.len() >= 2 && s[0] == '0' && (s[1] == 'x' || s[1] == 'X')
}

/// Whether `s` begins with `*0x` or `*0X`.
pub open spec fn has_starred_hex_prefix(s: Seq<char>) -> bool {
    s.len() >= 3 && s[0] == '*' && s[1] == '0' && (s[2] == 'x' || s[2] == 'X')
}

/// The address that the text `s` gives in hexadecimal: after a leading `*0x`
/// or `0x`, if there is one, an optional plus sign and hexadecimal digits of
/// either case. `None` for any other text, and for a number that does not fit
/// an address.
pub open spec fn address_text(s: Seq<char>) -> Option<usize> {
    if has_starred_hex_prefix(s) {
        parsed(s.skip(3), 16)
    } else if has_hex_prefix(s) {
        parsed(s.skip(2), 16)
    } else {
        parsed(s, 16)
    }
}

/// The command that the words `tokens` give: the first word names it, by its
/// full name or an abbreviation, and the others are its arguments. `None`
/// where there is no word or the first is no command's name.
pub open spec fn command_of(tokens: Seq<Seq<char>>) -> Option<Command> {
    if tokens.len() == 0 {
        None
    } else if tokens[0] == "q"@ || tokens[0] == "quit"@ {
        Some(Command::Quit)
    } else if tokens[0] == "r"@ || tokens[0] == "run"@ {
        Some(Command::Run(tokens.skip(1)))
    } else if tokens[0] == "c"@ || tokens[0] == "cont"@ || tokens[0] == "continue"@ {
        Some(Command::Cont)
    } else if tokens[0] == "bt"@ || tokens[0] == "back"@ || tokens[0] == "backtrace"@ {
        Some(Command::Back)
    } else if tokens[0] == "b"@ || tokens[0] == "break"@ {
        Some(Command::Break(tokens.skip(1)))
    } else {
        None
    }
}

/// Whether `s` begins with `0x` or `0X` from position `from` on.
pub fn hex_prefix_at(s: &str, from: usize) -> (found: bool)
    requires
        from <= s@.len(),
    ensures
        found == has_hex_prefix(s@.skip(from as int)),
{
    let n = s.unicode_len();
    if n - from < 2 {
        return false;
    }
    let second = s.get_char(from + 1);
    s.get_char(from) == '0' && (second == 'x' || second == 'X')
}

/// The words of `tokens` from the second on, each as a string of its own.
fn arguments(tokens: &Vec<&str>) -> (args: Vec<String>)
    requires
        tokens@.len() > 0,
    ensures
        texts(args@) == token_texts(tokens@).skip(1),
{
    let mut args: Vec<String> = Vec::new();
    let mut i: usize = 1;
    while i < tokens.len()
        invariant
            1 <= i <= tokens@.len(),
            args@.len() == i - 1,
            forall|j: int| 0 <= j < args@.len() ==> (#[trigger] args@[j])@ == tokens@[j + 1]@,
        decreases tokens.len() - i,
    {
        args.push(tokens[i].to_owned());
        i += 1;
    }
    assert(texts(args@) =~= token_texts(tokens@).skip(1));
    args
}

impl DebuggerCommand {
    /// Reads an address in hexadecimal, with or without a leading `0x` or
    /// `*0x`.
    pub fn parse_address(addr: &str) -> (address: Option<usize>)
        ensures
            address == address_text(addr@),
    {
        let n = addr.unicode_len();
        if n >= 3 && addr.get_char(0) == '*' && hex_prefix_at(addr, 1) {
            assert(addr@.skip(1).skip(2) =~= addr@.skip(3));
            parse_number(addr, 3, 16)
        } else if hex_prefix_at(addr, 0) {
            assert(addr@.skip(0) =~= addr@);
            parse_number(addr, 2, 16)
        } else {
            assert(addr@.skip(0) =~= addr@);
            parse_number(addr, 0, 16)
        }
    }

    /// Reads the words of an input line as a command. Returns `None` for an
    /// empty line and for a first word that names no command.
    pub fn from_tokens(tokens: &Vec<&str>) -> (command: Option<DebuggerCommand>)
        ensures
            match command {
                Some(c) => command_of(token_texts(tokens@)) == Some(c@),
                None => command_of(token_texts(tokens@)) is None,
            },
    {
        if tokens.len() == 0 {
            return None;
        }
        let name = tokens[0];
        assert(token_texts(tokens@)[0] == name@);
        if same_text(name, "q") || same_text(name, "quit") {
            Some(DebuggerCommand::Quit)
        } else if same_text(name, "r") || same_text(name, "run") {
            Some(DebuggerCommand::Run(arguments(tokens)))
        } else if same_text(name, "c") || same_text(name, "cont") || same_text(name, "continue") {
            Some(DebuggerCommand::Cont)
        } else if same_text(name, "bt") || same_text(name, "back") || same_text(
            name,
            "backtrace",
        ) {
            Some(DebuggerCommand::Back)
        } else if same_text(name, "b") || same_text(name, "break") {
            Some(DebuggerCommand::Break(arguments(tokens)))
        } else {
            None
        }
    }
}

} // verus!
