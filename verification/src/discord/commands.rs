//! Commands.

use crate::text;
use vstd::prelude::*;
use vstd::string::*;

verus! {

/// What a user may ask of the bot itself.
#[derive(Clone, Copy, Debug, PartialEq, Eq, Structural)]
pub enum Command {
    /// A fresh session.
    Reset,
    /// An end to the current response.
    Abort,
}

/// The command that a text is.
pub open spec fn given_command(s: Seq<char>) -> Option<Command> {
    let word = text::trimmed(s);
    if word == "/reset"@ || word == "/new"@ {
        Some(Command::Reset)
    } else if word == "/abort"@ || word == "/stop"@ {
        Some(Command::Abort)
    } else {
        None
    }
}

/// The command that a text is.
pub fn parse(text: &str) -> (r: Option<Command>)
    ensures
        r == given_command(text@),
{
    let chars = text::to_chars(text);
    let word = text::from_chars(text::trim(chars.as_slice()));
    if text::str_eq(word.as_str(), "/reset") || text::str_eq(word.as_str(), "/new") {
        Some(Command::Reset)
    } else if text::str_eq(word.as_str(), "/abort") || text::str_eq(word.as_str(), "/stop") {
        Some(Command::Abort)
    } else {
        None
    }
}

/// What is said to a command.
pub fn reply(command: Command) -> (text: &'static str)
    ensures
        text@ == (match command {
            Command::Reset => "Context cleared, new session started."@,
            Command::Abort => "Stopped current response."@,
        }),
{
    match command {
        Command::Reset => "Context cleared, new session started.",
        Command::Abort => "Stopped current response.",
    }
}

} // verus!
