//! The operator's command language.
//!
//! A command line is split into tokens at white space; the first token
//! selects the command and the rest are its arguments.

use crate::text::{chars_of, parse_unsigned, read_unsigned, same_text, split_words, words};
use vstd::prelude::*;

verus! {

/// A command of the debugger.
#[derive(Clone, Debug, PartialEq, Eq)]
pub enum DebuggerCommand {
    /// End the session.
    Quit,
    /// Start the target afresh with the given arguments.
    Run(Vec<String>),
    /// Resume a stopped target.
    Continue,
    /// Show the call stack of a stopped target.
    Backtrace,
    /// Add a breakpoint at the given location.
    Break(String),
}

/// What a [`DebuggerCommand`] says, with its texts as character sequences.
pub enum CommandModel {
    Quit,
    Run(Seq<Seq<char>>),
    Continue,
    Backtrace,
    Break(Seq<char>),
}

/// Where a breakpoint is asked for.
#[derive(Clone, Debug, PartialEq, Eq)]
pub enum BreakLocation {
    /// An address of the target, given in hexadecimal after a `*`.
    Address(usize),
    /// A line of the source text.
    Line(usize),
    /// The entry of the function with this name.
    Function(String),
}

/// What a [`BreakLocation`] says, with its text as a character sequence.
pub enum LocationModel {
    Address(usize),
    Line(usize),
    Function(Seq<char>),
}

impl View for DebuggerCommand {
    type V = CommandModel;

    open spec fn view(&self) -> CommandModel {
        match self {
            DebuggerCommand::Quit => CommandModel::Quit,
            DebuggerCommand::Run(args) => CommandModel::Run(args@.map_values(|a: String| a@)),
            DebuggerCommand::Continue => CommandModel::Continue,
            DebuggerCommand::Backtrace => CommandModel::Backtrace,
            DebuggerCommand::Break(target) => CommandModel::Break(target@),
        }
    }
}

impl View for BreakLocation {
    type V = LocationModel;

    open spec fn view(&self) -> LocationModel {
        match self {
            BreakLocation::Address(addr) => LocationModel::Address(*addr),
            BreakLocation::Line(number) => LocationModel::Line(*number),
            BreakLocation::Function(name) => LocationModel::Function(name@),
        }
    }
}

/// The character sequences of a list of tokens.
pub open spec fn token_texts(tokens: Seq<&str>) -> Seq<Seq<char>> {
    tokens.map_values(|t: &str| t@)
}

/// The command that a list of tokens selects, if any.
///
/// `q`/`quit`, `r`/`run`, `c`/`cont`/`continue`, `bt`/`back`/`backtrace` and
/// `b`/`break` are the command words. `run` takes every further token as an
/// argument of the target; `break` takes the next token as its location and
/// is no command without one. No tokens, or any other first token, select
/// nothing.
pub open spec fn command_of(tokens: Seq<Seq<char>>) -> Option<CommandModel> {
    if tokens.len() == 0 {
        None
    } else {
        let head = tokens[0];
        if head == "q"@ || head == "quit"@ {
            Some(CommandModel::Quit)
        } else if head == "r"@ || head == "run"@ {
            Some(CommandModel::Run(tokens.skip(1)))
        } else if head == "c"@ || head == "cont"@ || head == "continue"@ {
            Some(CommandModel::Continue)
        } else if head == "bt"@ || head == "back"@ || head == "backtrace"@ {
            Some(CommandModel::Backtrace)
        } else if (head == "b"@ || head == "break"@) && tokens.len() > 1 {
            Some(CommandModel::Break(tokens[1]))
        } else {
            None
        }
    }
}

/// The text of an address once an optional `0x` or `0X` is set aside.
pub open spec fn hex_digits(s: Seq<char>) -> Seq<char> {
    if s.len() >= 2 && s[0] == '0' && (s[1] == 'x' || s[1] == 'X') {
        s.skip(2)
    } else {
        s
    }
}

/// The address that `s` writes in hexadecimal, with or without a leading
/// `0x`.
pub open spec fn address_of(s: Seq<char>) -> Option<usize> {
    parse_unsigned(hex_digits(s), 16)
}

/// The location that the argument of `break` names: `*` and a hexadecimal
/// address, or a decimal line number, or else a function name. `None` when
/// what follows `*` is no address.
pub open spec fn location_of(s: Seq<char>) -> Option<LocationModel> {
    if s.len() > 0 && s[0] == '*' {
        match address_of(s.skip(1)) {
            Some(addr) => Some(LocationModel::Address(addr)),
            None => None,
        }
    } else {
        match parse_unsigned(s, 10) {
            Some(number) => Some(LocationModel::Line(number)),
            None => Some(LocationModel::Function(s)),
        }
    }
}

impl DebuggerCommand {
    /// Reads a command from one input line. A line without any token, such
    /// as an empty line, holds no command.
    pub fn from_line(line: &str) -> (command: Option<DebuggerCommand>)
        ensures
            match command_of(words(line@)) {
                Some(model) => command matches Some(c) && c@ == model,
                None => command is None,
            },
    {
        let owned = split_words(line);
        let mut tokens: Vec<&str> = Vec::new();
        let mut i: usize = 0;
        while i < owned.len()
            invariant
                i <= owned@.len(),
                tokens@.len() == i,
                forall|k: int| 0 <= k < i ==> (#[trigger] tokens@[k])@ == owned@[k]@,
            decreases owned@.len() - i,
        {
            tokens.push(owned[i].as_str());
            i += 1;
        }
        assert(token_texts(tokens@) =~= words(line@));
        DebuggerCommand::from_tokens(tokens.as_slice())
    }

    /// Reads a command from the tokens of one input line.
    pub fn from_tokens(tokens: &[&str]) -> (command: Option<DebuggerCommand>)
        ensures
            match command_of(token_texts(tokens@)) {
                Some(model) => command matches Some(c) && c@ == model,
                None => command is None,
            },
    {
        if tokens.len() == 0 {
            return None;
        }
        let ghost texts = token_texts(tokens@);
        let head: &str = tokens[0];
        assert(texts[0] == head@);
        if same_text(head, "q") || same_text(head, "quit") {
            Some(DebuggerCommand::Quit)
        } else if same_text(head, "r") || same_text(head, "run") {
            let mut args: Vec<String> = Vec::new();
            let mut i: usize = 1;
            while i < tokens.len()
                invariant
                    1 <= i <= tokens@.len(),
                    texts == token_texts(tokens@),
                    args@.len() == i - 1,
                    forall|k: int| 0 <= k < args@.len() ==> (#[trigger] args@[k])@ == texts[k + 1],
                decreases tokens@.len() - i,
            {
                let token: &str = tokens[i];
                assert(texts[i as int] == token@);
                args.push(token.to_owned());
                i += 1;
            }
            assert(args@.map_values(|a: String| a@) =~= texts.skip(1));
            Some(DebuggerCommand::Run(args))
        } else if same_text(head, "c") || same_text(head, "cont") || same_text(head, "continue") {
            Some(DebuggerCommand::Continue)
        } else if same_text(head, "bt") || same_text(head, "back") || same_text(head, "backtrace") {
            Some(DebuggerCommand::Backtrace)
        } else if (same_text(head, "b") || same_text(head, "break")) && tokens.len() > 1 {
            let target: &str = tokens[1];
            assert(texts[1] == target@);
            Some(DebuggerCommand::Break(target.to_owned()))
        } else {
            None
        }
    }
}

/// Reads a hexadecimal address, with or without a leading `0x`.
pub fn parse_address(addr: &str) -> (address: Option<usize>)
    ensures
        address == address_of(addr@),
{
    let chars = chars_of(addr);
    assert(chars@.skip(0) =~= addr@);
    read_address(&chars, 0)
}

/// Reads the hexadecimal address that `chars` holds from position `from` on.
fn read_address(chars: &Vec<char>, from: usize) -> (address: Option<usize>)
    requires
        from <= chars@.len(),
    ensures
        address == address_of(chars@.skip(from as int)),
{
    let ghost text = chars@.skip(from as int);
    let n = chars.len();
    let prefixed = n - from >= 2 && chars[from] == '0' && (chars[from + 1] == 'x' || chars[from + 1]
        == 'X');
    let start: usize = if prefixed {
        from + 2
    } else {
        from
    };
    let mut digits: Vec<char> = Vec::new();
    let mut i: usize = start;
    while i < n
        invariant
            n == chars@.len(),
            start <= i <= n,
            digits@ == chars@.subrange(start as int, i as int),
        decreases n - i,
    {
        digits.push(chars[i]);
        assert(digits@ =~= chars@.subrange(start as int, i + 1));
        i += 1;
    }
    assert(digits@ =~= hex_digits(text));
    read_unsigned(&digits, 16)
}

/// Reads the location argument of a `break` command.
pub fn parse_break_location(target: &str) -> (location: Option<BreakLocation>)
    ensures
        match location_of(target@) {
            Some(model) => location matches Some(l) && l@ == model,
            None => location is None,
        },
{
    let chars = chars_of(target);
    if chars.len() > 0 && chars[0] == '*' {
        match read_address(&chars, 1) {
            Some(addr) => Some(BreakLocation::Address(addr)),
            None => None,
        }
    } else {
        match read_unsigned(&chars, 10) {
            Some(number) => Some(BreakLocation::Line(number)),
            None => Some(BreakLocation::Function(target.to_owned())),
        }
    }
}

} // verus!
