//! The symbol table of the target program: which function and which source
//! line an address belongs to, and where a line or a function starts.
//!
//! The table is plain data. Whoever reads the program's debug information
//! fills it in; the lookups here are what the controller asks of it.

use crate::text::same_text;
use vstd::prelude::*;

verus! {

/// A function of the target program.
#[derive(Debug)]
pub struct Function {
    /// The function's name.
    pub name: String,
    /// The address of its first instruction.
    pub address: usize,
    /// The length of its code in bytes.
    pub length: usize,
}

/// A source line of the target program.
#[derive(Debug)]
pub struct Line {
    /// The source file.
    pub file: String,
    /// The line's number in that file.
    pub number: usize,
    /// The address of the first instruction compiled from the line.
    pub address: usize,
}

/// The functions and source lines of the target program.
#[derive(Debug)]
pub struct SymbolTable {
    /// The functions, in the order of the debug information.
    pub functions: Vec<Function>,
    /// The line entries, in the order of the debug information.
    pub lines: Vec<Line>,
}

/// Whether `addr` lies in the code of `f`.
pub open spec fn covers(f: Function, addr: usize) -> bool {
    f.address <= addr < f.address + f.length
}

/// The index of the first function from position `from` on whose code holds
/// `addr`.
pub open spec fn first_covering(fs: Seq<Function>, addr: usize, from: int) -> Option<int>
    decreases fs.len() - from,
{
    if from < 0 || from >= fs.len() {
        None
    } else if covers(fs[from], addr) {
        Some(from)
    } else {
        first_covering(fs, addr, from + 1)
    }
}

/// The index of the first function from position `from` on that is called
/// `name`.
pub open spec fn first_named(fs: Seq<Function>, name: Seq<char>, from: int) -> Option<int>
    decreases fs.len() - from,
{
    if from < 0 || from >= fs.len() {
        None
    } else if fs[from].name@ == name {
        Some(from)
    } else {
        first_named(fs, name, from + 1)
    }
}

/// The index of the first line entry from position `from` on whose number is
/// `number` or more.
pub open spec fn first_line_from(ls: Seq<Line>, number: usize, from: int) -> Option<int>
    decreases ls.len() - from,
{
    if from < 0 || from >= ls.len() {
        None
    } else if ls[from].number >= number {
        Some(from)
    } else {
        first_line_from(ls, number, from + 1)
    }
}

/// Among the first `upto` line entries, the index of the one that starts
/// nearest below or at `addr`; of several at the same address, the first.
pub open spec fn nearest_line(ls: Seq<Line>, addr: usize, upto: int) -> Option<int>
    decreases upto,
{
    if upto <= 0 || upto > ls.len() {
        None
    } else {
        let before = nearest_line(ls, addr, upto - 1);
        let entry = ls[upto - 1];
        if entry.address <= addr && (match before {
            Some(b) => ls[b].address < entry.address,
            None => true,
        }) {
            Some(upto - 1)
        } else {
            before
        }
    }
}

impl SymbolTable {
    /// The name of the function whose code holds `addr`.
    pub open spec fn function_at(&self, addr: usize) -> Option<Seq<char>> {
        match first_covering(self.functions@, addr, 0) {
            Some(i) => Some(self.functions@[i].name@),
            None => None,
        }
    }

    /// The index of the line entry that `addr` belongs to.
    pub open spec fn line_index_at(&self, addr: usize) -> Option<int> {
        nearest_line(self.lines@, addr, self.lines@.len() as int)
    }

    /// The address at which the function called `name` starts.
    pub open spec fn function_address(&self, name: Seq<char>) -> Option<usize> {
        match first_named(self.functions@, name, 0) {
            Some(i) => Some(self.functions@[i].address),
            None => None,
        }
    }

    /// The address at which line `number`, or the next line after it that has
    /// code, starts.
    pub open spec fn line_address(&self, number: usize) -> Option<usize> {
        match first_line_from(self.lines@, number, 0) {
            Some(i) => Some(self.lines@[i].address),
            None => None,
        }
    }

    /// A table of the given functions and lines.
    pub fn new(functions: Vec<Function>, lines: Vec<Line>) -> (table: SymbolTable)
        ensures
            table.functions == functions,
            table.lines == lines,
    {
        SymbolTable { functions, lines }
    }

    /// The name of the function whose code holds `addr`: of the first such
    /// function in the table. `None` where no function of the table holds it.
    pub fn resolve_function(&self, addr: usize) -> (name: Option<String>)
        ensures
            name is Some <==> self.function_at(addr) is Some,
            name is Some ==> name.unwrap()@ == self.function_at(addr).unwrap(),
    {
        let mut i: usize = 0;
        while i < self.functions.len()
            invariant
                i <= self.functions@.len(),
                first_covering(self.functions@, addr, 0) == first_covering(
                    self.functions@,
                    addr,
                    i as int,
                ),
            decreases self.functions.len() - i,
        {
            let f = &self.functions[i];
            if f.address <= addr && addr - f.address < f.length {
                return Some(f.name.clone());
            }
            i += 1;
        }
        None
    }

    /// The line entry that `addr` belongs to: the one that starts nearest
    /// below or at `addr`, and of several at the same address the first.
    /// `None` where every entry starts above `addr`.
    pub fn resolve_line(&self, addr: usize) -> (line: Option<Line>)
        ensures
            line is Some <==> self.line_index_at(addr) is Some,
            line matches Some(l) ==> {
                let entry = self.lines@[self.line_index_at(addr).unwrap()];
                l.file@ == entry.file@ && l.number == entry.number && l.address == entry.address
            },
    {
        let mut best: Option<usize> = None;
        let mut i: usize = 0;
        while i < self.lines.len()
            invariant
                i <= self.lines@.len(),
                best is Some ==> best.unwrap() < i,
                (match best {
                    Some(b) => Some(b as int),
                    None => None,
                }) == nearest_line(self.lines@, addr, i as int),
            decreases self.lines.len() - i,
        {
            let entry = &self.lines[i];
            let closer = match best {
                Some(b) => self.lines[b].address < entry.address,
                None => true,
            };
            if entry.address <= addr && closer {
                best = Some(i);
            }
            i += 1;
        }
        match best {
            Some(b) => {
                let entry = &self.lines[b];
                Some(
                    Line {
                        file: entry.file.clone(),
                        number: entry.number,
                        address: entry.address,
                    },
                )
            },
            None => None,
        }
    }

    /// The address at which the function called `name` starts: of the first
    /// function of that name in the table.
    pub fn address_for_function(&self, name: &str) -> (addr: Option<usize>)
        ensures
            addr == self.function_address(name@),
    {
        let mut i: usize = 0;
        while i < self.functions.len()
            invariant
                i <= self.functions@.len(),
                first_named(self.functions@, name@, 0) == first_named(
                    self.functions@,
                    name@,
                    i as int,
                ),
            decreases self.functions.len() - i,
        {
            let f = &self.functions[i];
            if same_text(f.name.as_str(), name) {
                return Some(f.address);
            }
            i += 1;
        }
        None
    }

    /// The address at which line `number` starts: of the first line entry in
    /// the table whose number is `number` or more.
    pub fn address_for_line(&self, number: usize) -> (addr: Option<usize>)
        ensures
            addr == self.line_address(number),
    {
        let mut i: usize = 0;
        while i < self.lines.len()
            invariant
                i <= self.lines@.len(),
                first_line_from(self.lines@, number, 0) == first_line_from(
                    self.lines@,
                    number,
                    i as int,
                ),
            decreases self.lines.len() - i,
        {
            if self.lines[i].number >= number {
                return Some(self.lines[i].address);
            }
            i += 1;
        }
        None
    }
}

/// The function that a lookup by address finds holds the address, and no
/// function before it in the table does.
pub proof fn lemma_first_covering(fs: Seq<Function>, addr: usize, from: int)
    requires
        0 <= from,
    ensures
        first_covering(fs, addr, from) matches Some(i) ==> from <= i < fs.len() && covers(
            fs[i],
            addr,
        ) && forall|j: int| from <= j < i ==> !covers(#[trigger] fs[j], addr),
        first_covering(fs, addr, from) is None ==> forall|j: int|
            from <= j < fs.len() ==> !covers(#[trigger] fs[j], addr),
    decreases fs.len() - from,
{
    if from < fs.len() && !covers(fs[from], addr) {
        lemma_first_covering(fs, addr, from + 1);
    }
}

/// The line entry that a lookup by address finds starts at or below the
/// address, and no entry of the table starts nearer to it from below.
pub proof fn lemma_nearest_line(ls: Seq<Line>, addr: usize, upto: int)
    requires
        0 <= upto <= ls.len(),
    ensures
        nearest_line(ls, addr, upto) matches Some(i) ==> 0 <= i < upto && ls[i].address <= addr
            && forall|j: int|
            0 <= j < upto && (#[trigger] ls[j]).address <= addr ==> ls[j].address
                <= ls[i].address,
        nearest_line(ls, addr, upto) is None ==> forall|j: int|
            0 <= j < upto ==> (#[trigger] ls[j]).address > addr,
    decreases upto,
{
    if upto > 0 {
        lemma_nearest_line(ls, addr, upto - 1);
    }
}

} // verus!
