//! Commands.

use crate::text;
use vstd::prelude::*;
use vstd::string::*;

verus! {

/// What a user may ask of the bot itself.
#[derive(Clone, Copy, Debug, PartialEq, Eq, Structural)]
pub enum Command {
    /// A new conversation.
    New,
    /// An end to the current response.
    Stop,
    Help,
    Ping,
}

/// `s` without the slashes and exclamation marks at its beginning.
pub open spec fn unmarked(s: Seq<char>) -> Seq<char>
    decreases s.len(),
{
    if s.len() > 0 && (s[0] == '/' || s[0] == '!') {
        unmarked(s.skip(1))
    } else {
        s
    }
}

/// The command of a name.
pub open spec fn named_command(name: Seq<char>) -> Option<Command> {
    if name == "new"@ {
        Some(Command::New)
    } else if name == "stop"@ {
        Some(Command::Stop)
    } else if name == "help"@ {
        Some(Command::Help)
    } else if name == "ping"@ {
        Some(Command::Ping)
    } else {
        None
    }
}

fn strip_marks<'a>(s: &'a [char]) -> (r: &'a [char])
    ensures
        r@ == unmarked(s@),
{
    let mut i: usize = 0;
    assert(s@.skip(0) =~= s@);
    while i < s.len() && (s[i] == '/' || s[i] == '!')
        invariant
            i <= s@.len(),
            unmarked(s@) == unmarked(s@.skip(i as int)),
        decreases s@.len() - i,
    {
        assert(s@.skip(i as int).skip(1) =~= s@.skip(i + 1));
        i = i + 1;
    }
    text::skip(s, i)
}

/// The command that a text begins with, marked or not.
pub fn parse(text: &str) -> (r: Option<Command>)
    ensures
        r == named_command(unmarked(text::first_word(text@))),
{
    let chars = text::to_chars(text);
    let name = text::from_chars(strip_marks(text::find_first_word(chars.as_slice())));
    if text::str_eq(name.as_str(), "new") {
        Some(Command::New)
    } else if text::str_eq(name.as_str(), "stop") {
        Some(Command::Stop)
    } else if text::str_eq(name.as_str(), "help") {
        Some(Command::Help)
    } else if text::str_eq(name.as_str(), "ping") {
        Some(Command::Ping)
    } else {
        None
    }
}

/// What is said to a command.
pub fn reply(command: Command) -> (text: &'static str)
    ensures
        text@ == (match command {
            Command::New => "Started a new conversation."@,
            Command::Stop => "Stopped current response."@,
            Command::Help => {
                "Commands: /new, /stop, /help, /ping. In a thread, use !new or !stop."@
            },
            Command::Ping => "pong"@,
        }),
{
    match command {
        Command::New => "Started a new conversation.",
        Command::Stop => "Stopped current response.",
        Command::Help => "Commands: /new, /stop, /help, /ping. In a thread, use !new or !stop.",
        Command::Ping => "pong",
    }
}

} // verus!
