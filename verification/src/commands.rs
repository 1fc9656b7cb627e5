//! What to do for a given command line.

use vstd::prelude::*;
use vstd::string::*;
use crate::text::same_text;

verus! {

/// What the program is asked to do.
#[derive(Clone, Debug, PartialEq)]
pub enum Command {
    /// Read lines, evaluate each and show its value.
    Repl,
    /// Read lines and show the syntax tree of each.
    AstRepl,
    /// Show how the program is used.
    Help,
    /// Parse and run a file.
    RunFile { path: String },
    /// Parse a file and show its syntax tree.
    AstFile { path: String },
}

/// The mathematical value of a `Command`.
pub enum CommandView {
    Repl,
    AstRepl,
    Help,
    RunFile { path: Seq<char> },
    AstFile { path: Seq<char> },
}

impl View for Command {
    type V = CommandView;

    open spec fn view(&self) -> CommandView {
        match self {
            Command::Repl => CommandView::Repl,
            Command::AstRepl => CommandView::AstRepl,
            Command::Help => CommandView::Help,
            Command::RunFile { path } => CommandView::RunFile { path: path@ },
            Command::AstFile { path } => CommandView::AstFile { path: path@ },
        }
    }
}

/// The text in lower case, as the Unicode character tables give it.
pub uninterp spec fn lowercase(text: Seq<char>) -> Seq<char>;

/// `str::to_lowercase` of the standard library: the result is a function of
/// the text alone, which `lowercase` names.
#[verifier::external_body]
fn to_lowercase(text: &str) -> (lower: String)
    ensures
        lower@ == lowercase(text@),
{
    text.to_lowercase()
}

/// Whether the word asks for syntax trees.
pub open spec fn asks_for_ast(word: Seq<char>) -> bool {
    word == "ast"@ || word == "a"@
}

/// Whether the word asks for help.
pub open spec fn asks_for_help(word: Seq<char>) -> bool {
    word == "help"@ || word == "h"@
}

/// The command for one argument, given the argument and its lower case.
pub open spec fn command_of_one(word: Seq<char>, argument: Seq<char>) -> CommandView {
    if asks_for_ast(word) {
        CommandView::AstRepl
    } else if asks_for_help(word) {
        CommandView::Help
    } else {
        CommandView::RunFile { path: argument }
    }
}

/// The command for two arguments, given the first in lower case and the second.
pub open spec fn command_of_two(word: Seq<char>, path: Seq<char>) -> Option<CommandView> {
    if asks_for_ast(word) {
        Some(CommandView::AstFile { path })
    } else {
        None
    }
}

/// Picks the command for one argument: `word` is the argument in lower
/// case. `ast` or `a` asks for trees, `help` or `h` for help; anything else
/// is the path of a file to run.
pub fn select_one(word: &str, argument: String) -> (command: Command)
    ensures
        command@ == command_of_one(word@, argument@),
{
    if same_text(word, "ast") || same_text(word, "a") {
        Command::AstRepl
    } else if same_text(word, "help") || same_text(word, "h") {
        Command::Help
    } else {
        Command::RunFile { path: argument }
    }
}

/// Picks the command for two arguments: `word` is the first in lower case,
/// which must be `ast` or `a`; `path` is the second.
pub fn select_two(word: &str, path: String) -> (command: Option<Command>)
    ensures
        match command_of_two(word@, path@) {
            Some(expected) => command is Some && command->0@ == expected,
            None => command is None,
        },
{
    if same_text(word, "ast") || same_text(word, "a") {
        Some(Command::AstFile { path })
    } else {
        None
    }
}

/// The command for a command line of the program's name and one argument:
/// what stands behind the argument is not looked at.
pub fn len2(args: Vec<String>) -> (command: Command)
    requires
        args.len() >= 2,
    ensures
        command@ == command_of_one(lowercase(args[1]@), args[1]@),
{
    let word = to_lowercase(args[1].as_str());
    select_one(word.as_str(), args[1].clone())
}

/// The command for a command line of the program's name and two
/// arguments, or `None` where the first is not `ast` or `a`. What stands
/// behind the two arguments is not looked at.
pub fn len3(args: Vec<String>) -> (command: Option<Command>)
    requires
        args.len() >= 3,
    ensures
        match command_of_two(lowercase(args[1]@), args[2]@) {
            Some(expected) => command is Some && command->0@ == expected,
            None => command is None,
        },
{
    let word = to_lowercase(args[1].as_str());
    select_two(word.as_str(), args[2].clone())
}

/// The command for a whole command line, the program's name first, or
/// `None` where the line asks for nothing that the program does.
pub fn dispatch(args: Vec<String>) -> (command: Option<Command>)
    ensures
        args.len() <= 1 ==> command is Some && command->0@ == CommandView::Repl,
        args.len() == 2 ==> command is Some && command->0@ == command_of_one(
            lowercase(args[1]@),
            args[1]@,
        ),
        args.len() == 3 ==> match command_of_two(lowercase(args[1]@), args[2]@) {
            Some(expected) => command is Some && command->0@ == expected,
            None => command is None,
        },
        args.len() > 3 ==> command is None,
{
    if args.len() <= 1 {
        Some(Command::Repl)
    } else if args.len() == 2 {
        Some(len2(args))
    } else if args.len() == 3 {
        len3(args)
    } else {
        None
    }
}

} // verus!
