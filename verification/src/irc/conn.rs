//! The life of a connection: registration, keepalive and nick changes, as steps
//! from one line to the next.

use crate::irc::config::IrcConfig;
use crate::irc::proto;
use crate::irc::proto::Message;
use crate::text;
use vstd::prelude::*;
use vstd::string::*;

verus! {

/// How many nicks are tried after the first one before registration gives up.
pub const MAX_NICK_ATTEMPTS: u32 = 6;

/// The pause, in milliseconds, between two lines of one reply.
pub const SEND_PACING_MS: u64 = 300;

/// The seconds without any line after which a link counts as dead.
pub const READ_TIMEOUT_SECS: u64 = 300;

// ---- Lines that are sent ----------------------------------------------------

/// The line that sends `text` to `target`.
pub fn privmsg_line(target: &str, text: &str) -> (line: String)
    ensures
        line@ == "PRIVMSG "@ + target@ + " :"@ + text@,
{
    let mut out = text::to_chars("PRIVMSG ");
    text::push_str(&mut out, target);
    text::push_str(&mut out, " :");
    text::push_str(&mut out, text);
    text::from_chars(out.as_slice())
}

/// A word and its argument.
fn line_of(word: &str, argument: &str) -> (line: String)
    ensures
        line@ == word@ + argument@,
{
    let mut out = text::to_chars(word);
    text::push_str(&mut out, argument);
    text::from_chars(out.as_slice())
}

/// Why a connection cannot even be tried.
#[derive(Clone, Copy, Debug, PartialEq, Eq, Structural)]
pub enum MissingSetting {
    Server,
    Nick,
}

/// Whether a password is set and not empty.
pub open spec fn has_password(password: Option<String>) -> bool {
    password is Some && password->0@.len() > 0
}

/// The name that is announced: the setting, else the nick, else nothing.
pub open spec fn announced(name: Option<String>, nick: Option<String>) -> Seq<char> {
    match name {
        Some(s) => s@,
        None => match nick {
            Some(s) => s@,
            None => Seq::empty(),
        },
    }
}

/// The lines that open a registration.
pub open spec fn handshake_lines(cfg: IrcConfig) -> Seq<Seq<char>> {
    (if has_password(cfg.server_password) {
        seq!["PASS "@ + cfg.server_password->0@]
    } else {
        Seq::empty()
    }) + seq![
        "NICK "@ + cfg.nick->0@,
        "USER "@ + announced(cfg.username, cfg.nick) + " 0 * :"@ + announced(
            cfg.realname,
            cfg.nick,
        ),
    ]
}

/// The lines that open a registration: a password where one is set, the nick and
/// the user. Without a server or a nick there is nothing to connect to or as.
pub fn handshake(cfg: &IrcConfig) -> (r: Result<Vec<String>, MissingSetting>)
    ensures
        match r {
            Ok(lines) => cfg.server is Some && cfg.nick is Some && text::views(lines@)
                == handshake_lines(*cfg),
            Err(MissingSetting::Server) => cfg.server is None,
            Err(MissingSetting::Nick) => cfg.server is Some && cfg.nick is None,
        },
{
    if cfg.server.is_none() {
        return Err(MissingSetting::Server);
    }
    match &cfg.nick {
        None => Err(MissingSetting::Nick),
        Some(nick) => {
            let mut lines: Vec<String> = Vec::new();
            if let Some(password) = &cfg.server_password {
                if !password.as_str().is_empty() {
                    lines.push(line_of("PASS ", password.as_str()));
                }
            }
            lines.push(line_of("NICK ", nick.as_str()));
            let mut user = text::to_chars("USER ");
            text::push_str(&mut user, cfg.effective_username().as_str());
            text::push_str(&mut user, " 0 * :");
            text::push_str(&mut user, cfg.effective_realname().as_str());
            lines.push(text::from_chars(user.as_slice()));
            assert(text::views(lines@) =~= handshake_lines(*cfg));
            Ok(lines)
        },
    }
}

/// The lines that join the channels from `k` on.
pub open spec fn join_lines(names: Seq<Seq<char>>) -> Seq<Seq<char>> {
    Seq::new(names.len(), |i: int| "JOIN "@ + names[i])
}

/// The lines that follow a successful registration: the NickServ password where
/// one is set, and a join for every channel.
pub fn after_welcome(cfg: &IrcConfig) -> (lines: Vec<String>)
    ensures
        text::views(lines@) == (if has_password(cfg.nickserv_password) {
            seq!["PRIVMSG NickServ :IDENTIFY "@ + cfg.nickserv_password->0@]
        } else {
            Seq::empty()
        }) + join_lines(crate::irc::config::entry_names(cfg.channels@)),
{
    let mut lines: Vec<String> = Vec::new();
    if let Some(password) = &cfg.nickserv_password {
        if !password.as_str().is_empty() {
            lines.push(line_of("PRIVMSG NickServ :IDENTIFY ", password.as_str()));
        }
    }
    let ghost first = text::views(lines@);
    let names = cfg.channel_names();
    let ghost all = text::views(names@);
    let mut i: usize = 0;
    while i < names.len()
        invariant
            all == text::views(names@),
            i <= names@.len(),
            text::views(lines@) =~= first + join_lines(all).take(i as int),
        decreases names@.len() - i,
    {
        let ghost before = text::views(lines@);
        lines.push(line_of("JOIN ", names[i].as_str()));
        assert(text::views(lines@) =~= before.push("JOIN "@ + all[i as int]));
        i = i + 1;
    }
    assert(join_lines(all).take(all.len() as int) =~= join_lines(all));
    assert(first =~= (if has_password(cfg.nickserv_password) {
        seq!["PRIVMSG NickServ :IDENTIFY "@ + cfg.nickserv_password->0@]
    } else {
        Seq::empty()
    }));
    lines
}

// ---- Registration -----------------------------------------------------------

/// The suffix of the nick that is tried after `attempt` collisions: one to three
/// underscores, then the number itself.
pub open spec fn collision_suffix(attempt: nat) -> Seq<char> {
    if attempt <= 3 {
        Seq::new(attempt, |i: int| '_')
    } else {
        text::decimal(attempt)
    }
}

/// The suffix of the nick that is tried after `attempt` collisions.
pub fn suffix_for(attempt: u32) -> (s: String)
    ensures
        s@ == collision_suffix(attempt as nat),
{
    if attempt <= 3 {
        let mut out: Vec<char> = Vec::new();
        let mut i: u32 = 0;
        while i < attempt
            invariant
                i <= attempt,
                out@ =~= Seq::new(i as nat, |k: int| '_'),
            decreases attempt - i,
        {
            out.push('_');
            i = i + 1;
        }
        text::from_chars(out.as_slice())
    } else {
        let out = text::decimal_chars(attempt as u64);
        text::from_chars(out.as_slice())
    }
}

/// A registration under way.
#[derive(Clone, Debug)]
pub struct Registration {
    base: String,
    nick: String,
    attempt: u32,
}

/// What a registration does on a line of the server.
#[derive(Clone, Debug, PartialEq, Eq)]
pub enum RegistrationStep {
    /// Nothing.
    Wait,
    /// Send this line.
    Send(String),
    /// The server has accepted the nick.
    Welcomed,
    /// No nick could be had.
    NickUnavailable,
    /// The server refuses the client, with these words.
    Rejected(String),
}

/// What a message means for a registration.
pub enum Reply {
    Ping,
    Welcome,
    Collision,
    Refusal,
    Other,
}

/// What a message means for a registration, by its command.
pub open spec fn reply_of(command: Seq<char>) -> Reply {
    if command == "PING"@ {
        Reply::Ping
    } else if command == "001"@ {
        Reply::Welcome
    } else if command == "433"@ || command == "436"@ || command == "437"@ {
        Reply::Collision
    } else if command == "464"@ || command == "465"@ {
        Reply::Refusal
    } else {
        Reply::Other
    }
}

/// The first parameter of a message, or nothing.
pub open spec fn first_param(m: proto::MessageView) -> Seq<char> {
    if m.params.len() > 0 {
        m.params[0]
    } else {
        Seq::empty()
    }
}

/// The first parameter of a message, or nothing.
fn first_of(message: &Message) -> (s: String)
    ensures
        s@ == first_param(message@),
{
    if message.params.len() > 0 {
        message.params[0].clone()
    } else {
        String::new()
    }
}

/// What a message means for a registration, by its command.
fn read_reply(command: &str) -> (r: Reply)
    ensures
        r == reply_of(command@),
{
    if text::str_eq(command, "PING") {
        Reply::Ping
    } else if text::str_eq(command, "001") {
        Reply::Welcome
    } else if text::str_eq(command, "433") || text::str_eq(command, "436") || text::str_eq(
        command,
        "437",
    ) {
        Reply::Collision
    } else if text::str_eq(command, "464") || text::str_eq(command, "465") {
        Reply::Refusal
    } else {
        Reply::Other
    }
}

/// Parameters with a space between two neighbours.
pub fn join_params(params: &Vec<String>) -> (s: String)
    ensures
        s@ == text::joined(text::views(params@), " "@),
{
    let mut parts: Vec<Vec<char>> = Vec::new();
    let mut i: usize = 0;
    while i < params.len()
        invariant
            i <= params@.len(),
            parts@.len() == i,
            forall|j: int| 0 <= j < i ==> (#[trigger] parts@[j])@ == params@[j]@,
        decreases params@.len() - i,
    {
        parts.push(text::to_chars(params[i].as_str()));
        i = i + 1;
    }
    assert(text::vec_views(parts@) =~= text::views(params@));
    let out = text::join(&parts, " ");
    text::from_chars(out.as_slice())
}

impl Registration {
    /// The nick that was asked for first.
    pub closed spec fn wanted(&self) -> Seq<char> {
        self.base@
    }

    /// The nick that was asked for last.
    pub closed spec fn asked(&self) -> Seq<char> {
        self.nick@
    }

    /// How many collisions there were.
    pub closed spec fn collisions(&self) -> nat {
        self.attempt as nat
    }

    /// A registration that has asked for `nick`.
    pub fn new(nick: &str) -> (r: Registration)
        ensures
            r.wanted() == nick@,
            r.asked() == nick@,
            r.collisions() == 0,
    {
        Registration { base: nick.to_owned(), nick: nick.to_owned(), attempt: 0 }
    }

    /// The nick that was asked for last.
    pub fn nick(&self) -> (s: &str)
        ensures
            s@ == self.asked(),
    {
        self.nick.as_str()
    }

    /// What is done on a line of the server: a ping is answered, a collision is
    /// followed by the next nick until the attempts are used up, and a refusal
    /// ends the registration.
    pub fn step(&mut self, line: &str) -> (step: RegistrationStep)
        ensures
            final(self).wanted() == old(self).wanted(),
            match proto::message_on(line@) {
                None => step is Wait && *final(self) == *old(self),
                Some(m) => match reply_of(m.command) {
                    Reply::Ping => *final(self) == *old(self) && (step matches RegistrationStep::Send(
                        s,
                    ) && s@ == "PONG :"@ + first_param(m)),
                    Reply::Welcome => *final(self) == *old(self) && step is Welcomed,
                    Reply::Collision => if old(self).collisions() < MAX_NICK_ATTEMPTS {
                        &&& final(self).collisions() == old(self).collisions() + 1
                        &&& final(self).asked() == old(self).wanted() + collision_suffix(
                            old(self).collisions() + 1,
                        )
                        &&& step matches RegistrationStep::Send(s)
                        &&& s@ == "NICK "@ + final(self).asked()
                    } else {
                        *final(self) == *old(self) && step is NickUnavailable
                    },
                    Reply::Refusal => *final(self) == *old(self) && (
                    step matches RegistrationStep::Rejected(s) && s@ == text::joined(
                        m.params,
                        " "@,
                    )),
                    Reply::Other => *final(self) == *old(self) && step is Wait,
                },
            },
    {
        let message = match Message::parse(line) {
            Some(message) => message,
            None => {
                return RegistrationStep::Wait;
            },
        };
        match read_reply(message.command.as_str()) {
            Reply::Ping => RegistrationStep::Send(line_of("PONG :", first_of(&message).as_str())),
            Reply::Welcome => RegistrationStep::Welcomed,
            Reply::Collision => {
                if self.attempt >= MAX_NICK_ATTEMPTS {
                    return RegistrationStep::NickUnavailable;
                }
                let attempt: u32 = self.attempt + 1;
                let suffix = suffix_for(attempt);
                self.attempt = attempt;
                self.nick = line_of(self.base.as_str(), suffix.as_str());
                RegistrationStep::Send(line_of("NICK ", self.nick.as_str()))
            },
            Reply::Refusal => RegistrationStep::Rejected(join_params(&message.params)),
            Reply::Other => RegistrationStep::Wait,
        }
    }
}

// ---- A registered link ------------------------------------------------------

/// What is done with a line on a registered link.
#[derive(Clone, Debug, PartialEq, Eq)]
pub enum LinkStep {
    /// The line holds no message.
    Skip,
    /// Answer a ping with this line.
    Pong(String),
    /// Hand this message on.
    Deliver(Message),
}

/// The nick after a message, when it is `nick` before: a `NICK` message of the bot
/// itself names the new one.
pub open spec fn nick_after(nick: Seq<char>, m: proto::MessageView) -> Seq<char> {
    if text::same_ignoring_case(m.command, "NICK"@) {
        renamed(nick, m)
    } else {
        nick
    }
}

/// The nick after a nick change, when it is `nick` before.
pub open spec fn renamed(nick: Seq<char>, m: proto::MessageView) -> Seq<char> {
    if m.prefix is Some && text::same_ignoring_case(proto::nick_of(m.prefix->0), nick)
        && first_param(m).len() > 0 {
        first_param(m)
    } else {
        nick
    }
}

/// The nick after a nick change, when it is `nick` before.
pub fn apply_nick_change(nick: &str, message: &Message) -> (r: String)
    ensures
        r@ == renamed(nick@, message@),
{
    if let Some(old_nick) = message.sender_nick() {
        if text::str_eq_ignore_case(old_nick, nick) {
            let new = first_of(message);
            if !new.as_str().is_empty() {
                return new;
            }
        }
    }
    nick.to_owned()
}

/// What is done with a line on a registered link of the bot `nick`, and the nick
/// after it.
pub fn link_step(nick: &str, line: &str) -> (r: (LinkStep, String))
    ensures
        match proto::message_on(line@) {
            None => r.0 is Skip && r.1@ == nick@,
            Some(m) => if text::same_ignoring_case(m.command, "PING"@) {
                r.1@ == nick@ && (r.0 matches LinkStep::Pong(s) && s@ == "PONG :"@ + first_param(m))
            } else {
                r.1@ == nick_after(nick@, m) && (r.0 matches LinkStep::Deliver(d) && d@ == m)
            },
        },
{
    match Message::parse(line) {
        None => (LinkStep::Skip, nick.to_owned()),
        Some(message) => {
            if text::str_eq_ignore_case(message.command.as_str(), "PING") {
                let pong = line_of("PONG :", first_of(&message).as_str());
                return (LinkStep::Pong(pong), nick.to_owned());
            }
            let next = if text::str_eq_ignore_case(message.command.as_str(), "NICK") {
                apply_nick_change(nick, &message)
            } else {
                nick.to_owned()
            };
            (LinkStep::Deliver(message), next)
        },
    }
}

/// A registration asks for at most `MAX_NICK_ATTEMPTS` further nicks, and no two of
/// them are the same.
pub proof fn collision_suffixes_differ(a: nat, b: nat)
    requires
        1 <= a < b <= MAX_NICK_ATTEMPTS,
    ensures
        collision_suffix(a) != collision_suffix(b),
{
    reveal_with_fuel(text::decimal, 2);
    if a > 3 {
        assert(collision_suffix(a)[0] == text::digit_char(a));
        assert(collision_suffix(b)[0] == text::digit_char(b));
        assert(collision_suffix(a)[0] != collision_suffix(b)[0]);
    } else if b > 3 {
        assert(collision_suffix(a)[0] == '_');
        assert(collision_suffix(b)[0] == text::digit_char(b));
        assert(collision_suffix(a)[0] != collision_suffix(b)[0]);
    } else {
        assert(collision_suffix(a).len() != collision_suffix(b).len());
    }
}

} // verus!
