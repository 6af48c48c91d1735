//! Symbol information of the target: which function and which source line
//! an address belongs to, and where a function or a line begins.
//!
//! The table is plain data. It describes a single compilation unit: a line
//! number or a function name is looked up among all its entries, without
//! regard to the file that an entry names.

use crate::text::same_text;
use vstd::prelude::*;

verus! {

/// A function of the target and the addresses of its code, from `low` up
/// to but not including `high`.
#[derive(Clone, Debug, PartialEq, Eq)]
pub struct FunctionSymbol {
    pub name: String,
    pub low: usize,
    pub high: usize,
}

/// A line of the source text.
#[derive(Clone, Debug, PartialEq, Eq)]
pub struct SourceLine {
    pub file: String,
    pub number: usize,
}

/// A source line and the addresses of the code made from it, from `low` up
/// to but not including `high`.
#[derive(Clone, Debug, PartialEq, Eq)]
pub struct LineSymbol {
    pub line: SourceLine,
    pub low: usize,
    pub high: usize,
}

/// The symbol information of one target.
pub struct SymbolTable {
    entry: String,
    functions: Vec<FunctionSymbol>,
    lines: Vec<LineSymbol>,
}

/// What a [`SymbolTable`] holds.
pub struct Symbols {
    /// The name of the function at which the program is entered.
    pub entry: String,
    /// The functions, in the order in which they were added.
    pub functions: Seq<FunctionSymbol>,
    /// The lines, in the order in which they were added.
    pub lines: Seq<LineSymbol>,
}

impl FunctionSymbol {
    /// Whether the code of this function holds `addr`.
    pub open spec fn covers(self, addr: usize) -> bool {
        self.low <= addr < self.high
    }
}

impl LineSymbol {
    /// Whether the code of this line holds `addr`.
    pub open spec fn covers(self, addr: usize) -> bool {
        self.low <= addr < self.high
    }
}

impl Symbols {
    /// Whether `index` is the first function whose code holds `addr`.
    pub open spec fn function_at(self, addr: usize, index: int) -> bool {
        &&& 0 <= index < self.functions.len()
        &&& self.functions[index].covers(addr)
        &&& forall|k: int| 0 <= k < index ==> !(#[trigger] self.functions[k]).covers(addr)
    }

    /// Whether `index` is the first line whose code holds `addr`.
    pub open spec fn line_at(self, addr: usize, index: int) -> bool {
        &&& 0 <= index < self.lines.len()
        &&& self.lines[index].covers(addr)
        &&& forall|k: int| 0 <= k < index ==> !(#[trigger] self.lines[k]).covers(addr)
    }

    /// Whether `index` is the first function with the name `name`.
    pub open spec fn function_named(self, name: Seq<char>, index: int) -> bool {
        &&& 0 <= index < self.functions.len()
        &&& self.functions[index].name@ == name
        &&& forall|k: int| 0 <= k < index ==> (#[trigger] self.functions[k]).name@ != name
    }

    /// Whether `index` is the first line with the number `number`.
    pub open spec fn line_numbered(self, number: usize, index: int) -> bool {
        &&& 0 <= index < self.lines.len()
        &&& self.lines[index].line.number == number
        &&& forall|k: int| 0 <= k < index ==> (#[trigger] self.lines[k]).line.number != number
    }

    /// The name of the first function whose code holds `addr`.
    pub open spec fn resolve_function(self, addr: usize) -> Option<String> {
        if exists|i: int| self.function_at(addr, i) {
            Some(self.functions[choose|i: int| self.function_at(addr, i)].name)
        } else {
            None
        }
    }

    /// The first line whose code holds `addr`.
    pub open spec fn resolve_line(self, addr: usize) -> Option<SourceLine> {
        if exists|i: int| self.line_at(addr, i) {
            Some(self.lines[choose|i: int| self.line_at(addr, i)].line)
        } else {
            None
        }
    }

    /// Where the code of the first line with the number `number` begins.
    pub open spec fn address_for_line(self, number: usize) -> Option<usize> {
        if exists|i: int| self.line_numbered(number, i) {
            Some(self.lines[choose|i: int| self.line_numbered(number, i)].low)
        } else {
            None
        }
    }

    /// Where the code of the first function with the name `name` begins.
    pub open spec fn address_for_function(self, name: Seq<char>) -> Option<usize> {
        if exists|i: int| self.function_named(name, i) {
            Some(self.functions[choose|i: int| self.function_named(name, i)].low)
        } else {
            None
        }
    }

    /// Whether `name` names the function at which the program is entered.
    pub open spec fn is_entry(self, name: Seq<char>) -> bool {
        name == self.entry@
    }
}

/// At most one position is the first that covers an address.
pub proof fn lemma_function_at_unique(symbols: Symbols, addr: usize, i: int, j: int)
    requires
        symbols.function_at(addr, i),
        symbols.function_at(addr, j),
    ensures
        i == j,
{
    if i < j {
        assert(!symbols.functions[i].covers(addr));
    } else if j < i {
        assert(!symbols.functions[j].covers(addr));
    }
}

/// At most one position is the first line that covers an address.
pub proof fn lemma_line_at_unique(symbols: Symbols, addr: usize, i: int, j: int)
    requires
        symbols.line_at(addr, i),
        symbols.line_at(addr, j),
    ensures
        i == j,
{
    if i < j {
        assert(!symbols.lines[i].covers(addr));
    } else if j < i {
        assert(!symbols.lines[j].covers(addr));
    }
}

/// At most one position is the first function of a name.
pub proof fn lemma_function_named_unique(symbols: Symbols, name: Seq<char>, i: int, j: int)
    requires
        symbols.function_named(name, i),
        symbols.function_named(name, j),
    ensures
        i == j,
{
    if i < j {
        assert(symbols.functions[i].name@ != name);
    } else if j < i {
        assert(symbols.functions[j].name@ != name);
    }
}

/// At most one position is the first line of a number.
pub proof fn lemma_line_numbered_unique(symbols: Symbols, number: usize, i: int, j: int)
    requires
        symbols.line_numbered(number, i),
        symbols.line_numbered(number, j),
    ensures
        i == j,
{
    if i < j {
        assert(symbols.lines[i].line.number != number);
    } else if j < i {
        assert(symbols.lines[j].line.number != number);
    }
}

impl View for SymbolTable {
    type V = Symbols;

    closed spec fn view(&self) -> Symbols {
        Symbols { entry: self.entry, functions: self.functions@, lines: self.lines@ }
    }
}

impl SymbolTable {
    /// A table without functions or lines, for a program that is entered
    /// at the function `entry`.
    pub fn new(entry: &str) -> (table: SymbolTable)
        ensures
            table@.entry@ == entry@,
            table@.functions == Seq::<FunctionSymbol>::empty(),
            table@.lines == Seq::<LineSymbol>::empty(),
    {
        SymbolTable { entry: entry.to_owned(), functions: Vec::new(), lines: Vec::new() }
    }

    /// Adds a function after those already in the table.
    pub fn add_function(&mut self, name: &str, low: usize, high: usize)
        ensures
            final(self)@.entry == old(self)@.entry,
            final(self)@.lines == old(self)@.lines,
            final(self)@.functions.len() == old(self)@.functions.len() + 1,
            final(self)@.functions.drop_last() == old(self)@.functions,
            final(self)@.functions.last().name@ == name@,
            final(self)@.functions.last().low == low,
            final(self)@.functions.last().high == high,
    {
        self.functions.push(FunctionSymbol { name: name.to_owned(), low, high });
        assert(self.functions@.drop_last() =~= old(self).functions@);
    }

    /// Adds a line after those already in the table.
    pub fn add_line(&mut self, file: &str, number: usize, low: usize, high: usize)
        ensures
            final(self)@.entry == old(self)@.entry,
            final(self)@.functions == old(self)@.functions,
            final(self)@.lines.len() == old(self)@.lines.len() + 1,
            final(self)@.lines.drop_last() == old(self)@.lines,
            final(self)@.lines.last().line.file@ == file@,
            final(self)@.lines.last().line.number == number,
            final(self)@.lines.last().low == low,
            final(self)@.lines.last().high == high,
    {
        let line = SourceLine { file: file.to_owned(), number };
        self.lines.push(LineSymbol { line, low, high });
        assert(self.lines@.drop_last() =~= old(self).lines@);
    }

    /// The name of the function whose code holds `addr`.
    pub fn resolve_function(&self, addr: usize) -> (name: Option<String>)
        ensures
            name == self@.resolve_function(addr),
    {
        let mut i: usize = 0;
        while i < self.functions.len()
            invariant
                i <= self.functions@.len(),
                forall|k: int| 0 <= k < i ==> !(#[trigger] self.functions@[k]).covers(addr),
            decreases self.functions@.len() - i,
        {
            let function = &self.functions[i];
            if function.low <= addr && addr < function.high {
                proof {
                    assert(self@.function_at(addr, i as int));
                    let chosen = choose|k: int| self@.function_at(addr, k);
                    lemma_function_at_unique(self@, addr, i as int, chosen);
                }
                return Some(function.name.clone());
            }
            i += 1;
        }
        None
    }

    /// The source line whose code holds `addr`.
    pub fn resolve_line(&self, addr: usize) -> (line: Option<SourceLine>)
        ensures
            line == self@.resolve_line(addr),
    {
        let mut i: usize = 0;
        while i < self.lines.len()
            invariant
                i <= self.lines@.len(),
                forall|k: int| 0 <= k < i ==> !(#[trigger] self.lines@[k]).covers(addr),
            decreases self.lines@.len() - i,
        {
            let entry = &self.lines[i];
            if entry.low <= addr && addr < entry.high {
                proof {
                    assert(self@.line_at(addr, i as int));
                    let chosen = choose|k: int| self@.line_at(addr, k);
                    lemma_line_at_unique(self@, addr, i as int, chosen);
                }
                return Some(SourceLine { file: entry.line.file.clone(), number: entry.line.number });
            }
            i += 1;
        }
        None
    }

    /// The address at which the code of line `number` begins.
    pub fn address_for_line(&self, number: usize) -> (address: Option<usize>)
        ensures
            address == self@.address_for_line(number),
    {
        let mut i: usize = 0;
        while i < self.lines.len()
            invariant
                i <= self.lines@.len(),
                forall|k: int| 0 <= k < i ==> (#[trigger] self.lines@[k]).line.number != number,
            decreases self.lines@.len() - i,
        {
            let entry = &self.lines[i];
            if entry.line.number == number {
                proof {
                    assert(self@.line_numbered(number, i as int));
                    let chosen = choose|k: int| self@.line_numbered(number, k);
                    lemma_line_numbered_unique(self@, number, i as int, chosen);
                }
                return Some(entry.low);
            }
            i += 1;
        }
        None
    }

    /// The address at which the code of the function `name` begins.
    pub fn address_for_function(&self, name: &str) -> (address: Option<usize>)
        ensures
            address == self@.address_for_function(name@),
    {
        let mut i: usize = 0;
        while i < self.functions.len()
            invariant
                i <= self.functions@.len(),
                forall|k: int| 0 <= k < i ==> (#[trigger] self.functions@[k]).name@ != name@,
            decreases self.functions@.len() - i,
        {
            let function = &self.functions[i];
            if same_text(function.name.as_str(), name) {
                proof {
                    assert(self@.function_named(name@, i as int));
                    let chosen = choose|k: int| self@.function_named(name@, k);
                    lemma_function_named_unique(self@, name@, i as int, chosen);
                }
                return Some(function.low);
            }
            i += 1;
        }
        None
    }

    /// Whether `name` names the function at which the program is entered.
    pub fn is_entry(&self, name: &str) -> (entry: bool)
        ensures
            entry == self@.is_entry(name@),
    {
        same_text(self.entry.as_str(), name)
    }
}

} // verus!
