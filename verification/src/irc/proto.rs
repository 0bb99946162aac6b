//! The IRC wire protocol: one raw line as a structured message, and a `PRIVMSG`
//! as sender, target and text.

use crate::text;
use vstd::prelude::*;
use vstd::string::*;

verus! {

/// A parsed IRC line. A trailing `:` parameter is the last of `params`.
#[derive(Clone, Debug, PartialEq, Eq)]
pub struct Message {
    pub prefix: Option<String>,
    pub command: String,
    pub params: Vec<String>,
}

/// What a message holds.
pub struct MessageView {
    pub prefix: Option<Seq<char>>,
    pub command: Seq<char>,
    pub params: Seq<Seq<char>>,
}

impl View for Message {
    type V = MessageView;

    open spec fn view(&self) -> MessageView {
        MessageView {
            prefix: text::opt_view(self.prefix),
            command: self.command@,
            params: text::views(self.params@),
        }
    }
}

/// A parsed `PRIVMSG`: who sent it, where it went, and its text.
#[derive(Clone, Debug, PartialEq, Eq)]
pub struct PrivMsg {
    pub sender: String,
    pub target: String,
    pub text: String,
}

/// What a `PRIVMSG` holds.
pub struct PrivMsgView {
    pub sender: Seq<char>,
    pub target: Seq<char>,
    pub text: Seq<char>,
}

impl View for PrivMsg {
    type V = PrivMsgView;

    open spec fn view(&self) -> PrivMsgView {
        PrivMsgView { sender: self.sender@, target: self.target@, text: self.text@ }
    }
}

// ---- Lines ------------------------------------------------------------------

/// `s` without the carriage returns and line feeds at its end.
pub open spec fn unterminated(s: Seq<char>) -> Seq<char>
    decreases s.len(),
{
    if s.len() > 0 && (s.last() == '\r' || s.last() == '\n') {
        unterminated(s.drop_last())
    } else {
        s
    }
}

/// `s` up to its first space.
pub open spec fn head(s: Seq<char>) -> Seq<char> {
    s.take(text::next_at(s, ' ', 0))
}

/// `s` after its first space; nothing where it has none.
pub open spec fn tail(s: Seq<char>) -> Seq<char> {
    let end = text::next_at(s, ' ', 0);
    if end < s.len() {
        s.skip(end + 1)
    } else {
        Seq::empty()
    }
}

/// The parameters in what follows a command: words, and at the end everything
/// after a word that begins with `:`.
pub open spec fn params_of(s: Seq<char>) -> Seq<Seq<char>>
    decreases s.len(),
    via params_of_decreases
{
    let t = text::trimmed_start(s);
    if t.len() == 0 {
        Seq::empty()
    } else if t[0] == ':' {
        seq![t.skip(1)]
    } else {
        seq![head(t)] + params_of(tail(t))
    }
}

#[via_fn]
proof fn params_of_decreases(s: Seq<char>) {
    let t = text::trimmed_start(s);
    lemma_trim_shrinks(s);
    text::lemma_next_at(t, ' ', 0);
}

proof fn lemma_trim_shrinks(s: Seq<char>)
    ensures
        text::trimmed_start(s).len() <= s.len(),
        text::trimmed_start(s).len() > 0 ==> !text::is_white(text::trimmed_start(s)[0]),
    decreases s.len(),
{
    if s.len() > 0 && text::is_white(s[0]) {
        lemma_trim_shrinks(s.skip(1));
    }
}

/// A command and its parameters.
pub open spec fn command_of(prefix: Option<Seq<char>>, s: Seq<char>) -> Option<MessageView> {
    if s.len() == 0 {
        None
    } else {
        Some(MessageView { prefix, command: head(s), params: params_of(tail(s)) })
    }
}

/// The message on a raw line: an optional `:prefix`, a command and parameters.
/// There is none on a line that is blank or ends after its prefix.
pub open spec fn message_on(line: Seq<char>) -> Option<MessageView> {
    let s = text::trimmed_start(unterminated(line));
    if s.len() > 0 && s[0] == ':' {
        command_of(Some(head(s.skip(1))), text::trimmed_start(tail(s.skip(1))))
    } else {
        command_of(None, s)
    }
}

/// `s` cut at its first space.
fn cut<'a>(s: &'a [char]) -> (r: (&'a [char], &'a [char]))
    ensures
        r.0@ == head(s@),
        r.1@ == tail(s@),
        s@.len() > 0 ==> r.1@.len() < s@.len(),
{
    let end: usize = text::find_char(s, ' ', 0);
    if end < s.len() {
        (text::take(s, end), text::skip(s, end + 1))
    } else {
        let none = text::skip(s, end);
        assert(none@ =~= Seq::empty());
        (text::take(s, end), none)
    }
}

/// The parameters in what follows a command.
fn parse_params(s: &[char]) -> (params: Vec<String>)
    ensures
        text::views(params@) == params_of(s@),
{
    let mut params: Vec<String> = Vec::new();
    let mut after = s;
    assert(text::views(params@) + params_of(s@) =~= params_of(s@));
    loop
        invariant_except_break
            text::views(params@) + params_of(after@) == params_of(s@),
        ensures
            text::views(params@) == params_of(s@),
        decreases after@.len(),
    {
        let ghost before = text::views(params@);
        let t = text::trim_start(after);
        if t.len() == 0 {
            assert(before + Seq::<Seq<char>>::empty() =~= before);
            break;
        }
        if t[0] == ':' {
            params.push(text::from_chars(text::skip(t, 1)));
            assert(text::views(params@) =~= before + seq![t@.skip(1)]);
            break;
        }
        let (first, rest) = cut(t);
        params.push(text::from_chars(first));
        proof {
            assert(text::views(params@) =~= before + seq![head(t@)]);
            vstd::seq_lib::lemma_concat_associative(before, seq![head(t@)], params_of(tail(t@)));
        }
        after = rest;
    }
    params
}

/// The index after the nick of a prefix: that of its first `!` or `@`.
pub open spec fn nick_end(s: Seq<char>, i: int) -> int
    decreases s.len() - i,
{
    if i >= s.len() {
        s.len() as int
    } else if s[i] == '!' || s[i] == '@' {
        i
    } else {
        nick_end(s, i + 1)
    }
}

/// The nick of a prefix `nick!user@host`.
pub open spec fn nick_of(prefix: Seq<char>) -> Seq<char> {
    prefix.take(nick_end(prefix, 0))
}

impl Message {
    /// The message on a raw line, with or without its CRLF.
    pub fn parse(line: &str) -> (r: Option<Message>)
        ensures
            match r {
                Some(m) => message_on(line@) == Some(m@),
                None => message_on(line@) == None::<MessageView>,
            },
    {
        let chars = text::to_chars(line);
        let mut n: usize = chars.len();
        assert(chars@.take(n as int) =~= chars@);
        while n > 0 && (chars[n - 1] == '\r' || chars[n - 1] == '\n')
            invariant
                n <= chars@.len(),
                unterminated(chars@) == unterminated(chars@.take(n as int)),
            decreases n,
        {
            assert(chars@.take(n as int).drop_last() =~= chars@.take(n - 1));
            n = n - 1;
        }
        let s = text::trim_start(text::take(chars.as_slice(), n));
        let mut prefix: Option<String> = None;
        let mut rest = s;
        if s.len() > 0 && s[0] == ':' {
            let (first, after) = cut(text::skip(s, 1));
            prefix = Some(text::from_chars(first));
            rest = text::trim_start(after);
        }
        if rest.len() == 0 {
            return None;
        }
        let (command, after) = cut(rest);
        Some(
            Message {
                prefix,
                command: text::from_chars(command),
                params: parse_params(after),
            },
        )
    }

    /// The nick of the prefix, if there is a prefix.
    pub fn sender_nick(&self) -> (r: Option<&str>)
        ensures
            match r {
                Some(nick) => self.prefix is Some && nick@ == nick_of(self.prefix->0@),
                None => self.prefix is None,
            },
    {
        match &self.prefix {
            None => None,
            Some(prefix) => {
                let chars = text::to_chars(prefix.as_str());
                let mut i: usize = 0;
                while i < chars.len() && chars[i] != '!' && chars[i] != '@'
                    invariant
                        i <= chars@.len(),
                        nick_end(chars@, 0) == nick_end(chars@, i as int),
                    decreases chars@.len() - i,
                {
                    i = i + 1;
                }
                let nick = prefix.as_str().substring_char(0, i);
                assert(prefix@.subrange(0, i as int) =~= prefix@.take(i as int));
                Some(nick)
            },
        }
    }
}

// ---- PRIVMSG ----------------------------------------------------------------

/// The CTCP delimiter.
pub const CTCP: char = '\u{1}';

/// `s` without the CTCP delimiters at its start.
pub open spec fn undelimited_start(s: Seq<char>) -> Seq<char>
    decreases s.len(),
{
    if s.len() > 0 && s[0] == CTCP {
        undelimited_start(s.skip(1))
    } else {
        s
    }
}

/// `s` without the CTCP delimiters at its end.
pub open spec fn undelimited_end(s: Seq<char>) -> Seq<char>
    decreases s.len(),
{
    if s.len() > 0 && s.last() == CTCP {
        undelimited_end(s.drop_last())
    } else {
        s
    }
}

/// The text of a message: a CTCP `ACTION` reads `* nick does thing`, any other CTCP
/// loses its delimiters, and plain text is kept.
pub open spec fn readable(sender: Seq<char>, raw: Seq<char>) -> Seq<char> {
    let inner = undelimited_end(undelimited_start(raw));
    if inner.len() == raw.len() {
        raw
    } else if text::begins_with(inner, "ACTION"@) {
        text::trimmed_end("* "@ + sender + " "@ + text::trimmed_start(inner.skip("ACTION"@.len() as int)))
    } else {
        inner
    }
}

/// The `PRIVMSG` in a message, if it is one and has a sender, a target and a text.
pub open spec fn privmsg_in(m: MessageView) -> Option<PrivMsgView> {
    if text::same_ignoring_case(m.command, "PRIVMSG"@) && m.prefix is Some && nick_of(
        m.prefix->0,
    ).len() > 0 && m.params.len() >= 2 {
        let sender = nick_of(m.prefix->0);
        Some(PrivMsgView { sender, target: m.params[0], text: readable(sender, m.params[1]) })
    } else {
        None
    }
}

/// The text of a message.
fn normalize_ctcp(sender: &str, raw: &str) -> (out: String)
    ensures
        out@ == readable(sender@, raw@),
{
    let chars = text::to_chars(raw);
    let mut from: usize = 0;
    assert(chars@.skip(0) =~= chars@);
    while from < chars.len() && chars[from] == CTCP
        invariant
            from <= chars@.len(),
            undelimited_start(chars@) == undelimited_start(chars@.skip(from as int)),
        decreases chars@.len() - from,
    {
        assert(chars@.skip(from as int).skip(1) =~= chars@.skip(from + 1));
        from = from + 1;
    }
    let start = text::skip(chars.as_slice(), from);
    let mut n: usize = start.len();
    assert(start@.take(n as int) =~= start@);
    while n > 0 && start[n - 1] == CTCP
        invariant
            n <= start@.len(),
            undelimited_end(start@) == undelimited_end(start@.take(n as int)),
        decreases n,
    {
        assert(start@.take(n as int).drop_last() =~= start@.take(n - 1));
        n = n - 1;
    }
    let inner = text::take(start, n);
    if inner.len() == chars.len() {
        return text::from_chars(chars.as_slice());
    }
    if text::starts_with(inner, "ACTION") {
        proof {
            reveal_strlit("ACTION");
        }
        let mut out = text::to_chars("* ");
        text::push_str(&mut out, sender);
        text::push_str(&mut out, " ");
        text::push_all(&mut out, text::trim_start(text::skip(inner, 6)));
        return text::from_chars(text::trim_end(out.as_slice()));
    }
    text::from_chars(inner)
}

impl PrivMsg {
    /// The `PRIVMSG` in a message, if it is one and has a sender, a target and a text.
    pub fn from_message(msg: &Message) -> (r: Option<PrivMsg>)
        ensures
            match r {
                Some(pm) => privmsg_in(msg@) == Some(pm@),
                None => privmsg_in(msg@) == None::<PrivMsgView>,
            },
    {
        if !text::str_eq_ignore_case(msg.command.as_str(), "PRIVMSG") {
            return None;
        }
        match msg.sender_nick() {
            None => None,
            Some(nick) => {
                if nick.is_empty() || msg.params.len() < 2 {
                    return None;
                }
                Some(
                    PrivMsg {
                        sender: nick.to_owned(),
                        target: msg.params[0].clone(),
                        text: normalize_ctcp(nick, msg.params[1].as_str()),
                    },
                )
            },
        }
    }
}

} // verus!
