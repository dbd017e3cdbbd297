//! The operator's commands, and how a line of words becomes one.

use crate::text::{chars_of, same_text, slice_texts, texts};
use vstd::prelude::*;
use vstd::string::StrSliceExecFns;

verus! {

/// One command of the operator.
#[derive(Debug, PartialEq, Eq)]
pub enum DebuggerCommand {
    /// End the session.
    Quit,
    /// Start the target with these arguments.
    Run(Vec<String>),
    /// Resume the stopped process.
    Continue,
    /// Show the call stack of the stopped process.
    Backtrace,
    /// Set a breakpoint at the address written here in hexadecimal, or, with
    /// `None`, a breakpoint command that named no usable address.
    Breakpoint(Option<String>),
}

/// A command as contracts see it: the same five cases over sequences of
/// characters.
pub enum Command {
    Quit,
    Run(Seq<Seq<char>>),
    Continue,
    Backtrace,
    Breakpoint(Option<Seq<char>>),
}

impl View for DebuggerCommand {
    type V = Command;

    open spec fn view(&self) -> Command {
        match self {
            DebuggerCommand::Quit => Command::Quit,
            DebuggerCommand::Run(args) => Command::Run(texts(args@)),
            DebuggerCommand::Continue => Command::Continue,
            DebuggerCommand::Backtrace => Command::Backtrace,
            DebuggerCommand::Breakpoint(Some(addr)) => Command::Breakpoint(Some(addr@)),
            DebuggerCommand::Breakpoint(None) => Command::Breakpoint(None),
        }
    }
}

/// Whether `word` is one of the three spellings of a command.
pub open spec fn names(word: Seq<char>, short: &str, middle: &str, long: &str) -> bool {
    word == short@ || word == middle@ || word == long@
}

/// The address that a breakpoint command names: its second word. A `*` in
/// front marks a raw address and is taken off; it may be left out. A command
/// with no second word, an empty one or a lone `*` names no address.
pub open spec fn breakpoint_operand(words: Seq<Seq<char>>) -> Option<Seq<char>> {
    if words.len() < 2 || words[1].len() == 0 {
        None
    } else if words[1][0] != '*' {
        Some(words[1])
    } else if words[1].len() >= 2 {
        Some(words[1].skip(1))
    } else {
        None
    }
}

/// The command that a line of words stands for, by its first word. `None`
/// where the first word is no command.
pub open spec fn command_of(words: Seq<Seq<char>>) -> Option<Command>
    recommends
        words.len() > 0,
{
    let head = words[0];
    if names(head, "q", "quit", "quit") {
        Some(Command::Quit)
    } else if names(head, "r", "run", "run") {
        Some(Command::Run(words.skip(1)))
    } else if names(head, "c", "cont", "continue") {
        Some(Command::Continue)
    } else if names(head, "bt", "back", "backtrace") {
        Some(Command::Backtrace)
    } else if names(head, "b", "break", "breakpoint") {
        Some(Command::Breakpoint(breakpoint_operand(words)))
    } else {
        None
    }
}

fn is_named(word: &str, short: &str, middle: &str, long: &str) -> (yes: bool)
    ensures
        yes == names(word@, short, middle, long),
{
    same_text(word, short) || same_text(word, middle) || same_text(word, long)
}

impl DebuggerCommand {
    /// Reads a command from the words of a line.
    ///
    /// The first word chooses the command; `run` takes the other words as the
    /// target's arguments, and `breakpoint` takes its address from the second
    /// word, with or without a `*` in front. A breakpoint command that names
    /// no address comes back as `Breakpoint(None)`, for the caller to explain
    /// the usage.
    pub fn from_tokens(tokens: &Vec<&str>) -> (command: Option<DebuggerCommand>)
        requires
            tokens@.len() > 0,
        ensures
            command is Some <==> command_of(slice_texts(tokens@)) is Some,
            command is Some ==> command->0@ == command_of(slice_texts(tokens@))->0,
    {
        let ghost words = slice_texts(tokens@);
        let head: &str = tokens[0];
        assert(words[0] == head@);
        if is_named(head, "q", "quit", "quit") {
            Some(DebuggerCommand::Quit)
        } else if is_named(head, "r", "run", "run") {
            let mut args: Vec<String> = Vec::new();
            let mut n: usize = 1;
            while n < tokens.len()
                invariant
                    1 <= n <= tokens.len(),
                    words == slice_texts(tokens@),
                    words.len() == tokens@.len(),
                    args@.len() == n - 1,
                    texts(args@) == words.subrange(1, n as int),
                decreases tokens.len() - n,
            {
                let word: &str = tokens[n];
                let owned: String = word.to_owned();
                let ghost earlier = args@;
                args.push(owned);
                assert(words[n as int] == word@);
                assert forall|i: int| 0 <= i < args@.len() implies texts(args@)[i] == words.subrange(
                    1,
                    n + 1,
                )[i] by {
                    if i < earlier.len() {
                        assert(texts(earlier)[i] == words.subrange(1, n as int)[i]);
                        assert(args@[i] == earlier[i]);
                    }
                }
                assert(texts(args@) =~= words.subrange(1, n + 1));
                n += 1;
            }
            assert(words.subrange(1, n as int) =~= words.skip(1));
            Some(DebuggerCommand::Run(args))
        } else if is_named(head, "c", "cont", "continue") {
            Some(DebuggerCommand::Continue)
        } else if is_named(head, "bt", "back", "backtrace") {
            Some(DebuggerCommand::Backtrace)
        } else if is_named(head, "b", "break", "breakpoint") {
            if tokens.len() >= 2 {
                let addr: &str = tokens[1];
                assert(words[1] == addr@);
                let length = addr.unicode_len();
                if length >= 1 && addr.get_char(0) != '*' {
                    return Some(DebuggerCommand::Breakpoint(Some(addr.to_owned())));
                }
                if length >= 2 {
                    let rest: &str = addr.substring_char(1, length);
                    assert(rest@ =~= addr@.skip(1));
                    return Some(DebuggerCommand::Breakpoint(Some(rest.to_owned())));
                }
            }
            Some(DebuggerCommand::Breakpoint(None))
        } else {
            None
        }
    }
}

} // verus!
