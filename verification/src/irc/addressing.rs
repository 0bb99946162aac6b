//! Addressing: given a `PRIVMSG` and the nick of the bot, decide whether to
//! answer, to take the message in as context, or to ignore it.

use crate::irc::proto::PrivMsg;
use crate::text;
use vstd::prelude::*;
use vstd::string::*;

verus! {

/// What is done with a `PRIVMSG`.
#[derive(Clone, Copy, Debug, PartialEq, Eq, Structural)]
pub enum Verdict {
    /// It addresses the bot: answer it.
    Reply,
    /// It does not, but stands in a watched channel: take it in as context.
    ContextOnly,
    /// It is the bot's own: drop it.
    Ignore,
}

/// The conversation that a message belongs to: a channel by its name, or a direct
/// message by the nick of its sender.
#[derive(Clone, Debug, PartialEq, Eq, Hash)]
pub enum Conversation {
    Channel(String),
    Dm(String),
}

/// What a conversation is.
pub enum ConversationView {
    Channel(Seq<char>),
    Dm(Seq<char>),
}

impl View for Conversation {
    type V = ConversationView;

    open spec fn view(&self) -> ConversationView {
        match self {
            Conversation::Channel(name) => ConversationView::Channel(name@),
            Conversation::Dm(nick) => ConversationView::Dm(nick@),
        }
    }
}

/// `s` with every character that is no ASCII letter or digit turned into `_`.
pub open spec fn sanitized(s: Seq<char>) -> Seq<char> {
    s.map_values(
        |c: char|
            if text::is_ascii_alnum(c) {
                c
            } else {
                '_'
            },
    )
}

/// The session directory of a conversation.
pub open spec fn session_key(c: ConversationView) -> Seq<char> {
    match c {
        ConversationView::Channel(name) => "chan_"@ + sanitized(name),
        ConversationView::Dm(nick) => "dm_"@ + sanitized(nick),
    }
}

/// The key under which the loop guard counts a conversation.
pub open spec fn guard_key_of(c: ConversationView) -> Seq<char> {
    match c {
        ConversationView::Channel(name) => name,
        ConversationView::Dm(nick) => "dm:"@ + nick,
    }
}

/// `s` with every character that is no ASCII letter or digit turned into `_`.
fn push_sanitized(out: &mut Vec<char>, s: &str)
    ensures
        final(out)@ == old(out)@ + sanitized(s@),
{
    let chars = text::to_chars(s);
    let mut i: usize = 0;
    while i < chars.len()
        invariant
            chars@ == s@,
            i <= chars@.len(),
            out@ =~= old(out)@ + sanitized(s@).take(i as int),
        decreases chars@.len() - i,
    {
        let c = chars[i];
        out.push(
            if text::is_ascii_alphanumeric(c) {
                c
            } else {
                '_'
            },
        );
        i = i + 1;
    }
    assert(sanitized(s@).take(s@.len() as int) =~= sanitized(s@));
}

impl Conversation {
    /// A name for the session directory that is safe in a file system.
    pub fn key(&self) -> (key: String)
        ensures
            key@ == session_key(self@),
    {
        match self {
            Conversation::Channel(name) => {
                let mut out = text::to_chars("chan_");
                push_sanitized(&mut out, name.as_str());
                text::from_chars(out.as_slice())
            },
            Conversation::Dm(nick) => {
                let mut out = text::to_chars("dm_");
                push_sanitized(&mut out, nick.as_str());
                text::from_chars(out.as_slice())
            },
        }
    }

    /// The key under which the loop guard counts this conversation.
    pub fn guard_key(&self) -> (key: String)
        ensures
            key@ == guard_key_of(self@),
    {
        match self {
            Conversation::Channel(name) => name.clone(),
            Conversation::Dm(nick) => {
                let mut out = text::to_chars("dm:");
                text::push_str(&mut out, nick.as_str());
                text::from_chars(out.as_slice())
            },
        }
    }

    /// Where replies go: to the channel, or back to the sender.
    pub fn reply_target(&self, sender: &str) -> (target: String)
        ensures
            target@ == (match self@ {
                ConversationView::Channel(name) => name,
                ConversationView::Dm(_) => sender@,
            }),
    {
        match self {
            Conversation::Channel(name) => name.clone(),
            Conversation::Dm(_) => sender.to_owned(),
        }
    }
}

/// Whether `target` names a channel.
pub open spec fn names_channel(target: Seq<char>) -> bool {
    target.len() > 0 && (target[0] == '#' || target[0] == '&' || target[0] == '+' || target[0]
        == '!')
}

/// Whether `target` names a channel: it begins with `#`, `&`, `+` or `!`.
pub fn is_channel(target: &str) -> (b: bool)
    ensures
        b == names_channel(target@),
{
    if target.is_empty() {
        return false;
    }
    let c = target.get_char(0);
    c == '#' || c == '&' || c == '+' || c == '!'
}

/// Whether `s` begins with `prefix`, up to the case of ASCII letters.
pub open spec fn leads_with(s: Seq<char>, prefix: Seq<char>) -> bool {
    prefix.len() <= s.len() && text::same_ignoring_case(s.take(prefix.len() as int), prefix)
}

/// Whether `s` begins with `prefix`, up to the case of ASCII letters.
pub fn starts_with_nick(s: &[char], nick: &[char]) -> (b: bool)
    ensures
        b == leads_with(s@, nick@),
{
    nick.len() <= s.len() && text::eq_ignore_ascii_case(text::take(s, nick.len()), nick)
}

/// Whether `s` begins with `:` or `,`.
pub open spec fn separator_first(s: Seq<char>) -> bool {
    s.len() > 0 && (s[0] == ':' || s[0] == ',')
}

/// `s` without a leading `@`.
pub open spec fn without_at(s: Seq<char>) -> Seq<char> {
    if s.len() > 0 && s[0] == '@' {
        s.skip(1)
    } else {
        s
    }
}

/// Whether `text` addresses `nick` at its start: `nick` and a `:` or `,`, or `@nick`
/// and a boundary.
pub open spec fn mentions(text: Seq<char>, nick: Seq<char>) -> bool {
    let t = text::trimmed_start(text);
    let rest = without_at(t);
    let after = rest.skip(nick.len() as int);
    &&& nick.len() > 0
    &&& leads_with(rest, nick)
    &&& if t.len() > 0 && t[0] == '@' {
        after.len() == 0 || text::is_white(after[0]) || separator_first(after)
    } else {
        separator_first(text::trimmed_start(after))
    }
}

/// What `text` asks of `nick`, without a leading address. A text that does not begin
/// with the nick is left as it is.
pub open spec fn request_in(text: Seq<char>, nick: Seq<char>) -> Seq<char> {
    let t = text::trimmed_start(text);
    let rest = without_at(t);
    let after = rest.skip(nick.len() as int);
    if leads_with(rest, nick) && !(after.len() > 0 && text::is_ascii_alnum(after[0])) {
        text::trimmed_start(
            if separator_first(after) {
                after.skip(1)
            } else {
                after
            },
        )
    } else {
        text
    }
}

/// The conversation that a message from `sender` to `target` belongs to.
pub open spec fn conversation_of(sender: Seq<char>, target: Seq<char>) -> ConversationView {
    if names_channel(target) {
        ConversationView::Channel(target)
    } else {
        ConversationView::Dm(sender)
    }
}

/// The conversation that a message belongs to.
pub fn find_conversation(pm: &PrivMsg) -> (c: Conversation)
    ensures
        c@ == conversation_of(pm.sender@, pm.target@),
{
    if is_channel(pm.target.as_str()) {
        Conversation::Channel(pm.target.clone())
    } else {
        Conversation::Dm(pm.sender.clone())
    }
}

/// What is done with a message, where `addressed` says whether its text addresses
/// the bot: its own messages are ignored, direct messages are answered, and a
/// channel message is answered where it is addressed.
pub open spec fn verdict_of(
    sender: Seq<char>,
    target: Seq<char>,
    nick: Seq<char>,
    addressed: bool,
) -> Verdict {
    if text::same_ignoring_case(sender, nick) {
        Verdict::Ignore
    } else if names_channel(target) && !addressed {
        Verdict::ContextOnly
    } else {
        Verdict::Reply
    }
}

/// Whether `text` addresses `bot_nick` at its start.
pub fn is_mention(text: &str, bot_nick: &str) -> (b: bool)
    ensures
        b == mentions(text@, bot_nick@),
{
    if bot_nick.is_empty() {
        return false;
    }
    let chars = text::to_chars(text);
    let nick = text::to_chars(bot_nick);
    let t = text::trim_start(chars.as_slice());
    let has_at = t.len() > 0 && t[0] == '@';
    let rest = if has_at {
        text::skip(t, 1)
    } else {
        t
    };
    if !starts_with_nick(rest, nick.as_slice()) {
        return false;
    }
    let after = text::skip(rest, nick.len());
    if has_at {
        after.len() == 0 || text::is_whitespace(after[0]) || after[0] == ':' || after[0] == ','
    } else {
        let after = text::trim_start(after);
        after.len() > 0 && (after[0] == ':' || after[0] == ',')
    }
}

/// What is done with a message, and the conversation that it belongs to. Where
/// `mention_required` is false, every channel message is answered.
pub fn classify(pm: &PrivMsg, bot_nick: &str, mention_required: bool) -> (r: (
    Verdict,
    Conversation,
))
    ensures
        r.0 == verdict_of(
            pm.sender@,
            pm.target@,
            bot_nick@,
            !mention_required || mentions(pm.text@, bot_nick@),
        ),
        r.1@ == conversation_of(pm.sender@, pm.target@),
{
    let conversation = find_conversation(pm);
    if text::str_eq_ignore_case(pm.sender.as_str(), bot_nick) {
        return (Verdict::Ignore, conversation);
    }
    if is_channel(pm.target.as_str()) && mention_required && !is_mention(
        pm.text.as_str(),
        bot_nick,
    ) {
        (Verdict::ContextOnly, conversation)
    } else {
        (Verdict::Reply, conversation)
    }
}

/// What `text` asks of `bot_nick`, without a leading `nick:`, `nick,`, `@nick:` or
/// `@nick`. A text that does not begin with the nick is returned unchanged.
pub fn strip_mention<'a>(text: &'a str, bot_nick: &str) -> (r: &'a str)
    ensures
        r@ == request_in(text@, bot_nick@),
{
    let chars = text::to_chars(text);
    let nick = text::to_chars(bot_nick);
    let t = text::trim_start(chars.as_slice());
    let rest = if t.len() > 0 && t[0] == '@' {
        text::skip(t, 1)
    } else {
        t
    };
    let mut found = chars.as_slice();
    if starts_with_nick(rest, nick.as_slice()) {
        let after = text::skip(rest, nick.len());
        if !(after.len() > 0 && text::is_ascii_alphanumeric(after[0])) {
            let request = if after.len() > 0 && (after[0] == ':' || after[0] == ',') {
                text::skip(after, 1)
            } else {
                after
            };
            found = text::trim_start(request);
        }
    }
    let n: usize = chars.len();
    let from: usize = n - found.len();
    assert(found@ =~= text@.subrange(from as int, n as int));
    text.substring_char(from, n)
}

// ---- What holds of every conversation ---------------------------------------

/// A channel and a direct message never share a key of the loop guard.
pub proof fn guard_keys_of_channels_and_dms_differ(name: Seq<char>, nick: Seq<char>)
    requires
        names_channel(name),
    ensures
        guard_key_of(ConversationView::Channel(name)) != guard_key_of(ConversationView::Dm(nick)),
{
    reveal_strlit("dm:");
    assert(guard_key_of(ConversationView::Dm(nick))[0] == 'd');
}

/// A channel and a direct message never share a session directory, and the name of
/// a session directory holds nothing but ASCII letters, digits and underscores.
pub proof fn session_keys_are_distinct_and_safe(name: Seq<char>, nick: Seq<char>)
    ensures
        session_key(ConversationView::Channel(name)) != session_key(ConversationView::Dm(nick)),
        forall|c: ConversationView, i: int|
            0 <= i < session_key(c).len() ==> text::is_ascii_alnum(#[trigger] session_key(c)[i])
                || session_key(c)[i] == '_',
{
    reveal_strlit("chan_");
    reveal_strlit("dm_");
    assert(session_key(ConversationView::Channel(name))[0] == 'c');
    assert(session_key(ConversationView::Dm(nick))[0] == 'd');
}

/// The bot's own messages are ignored, whatever they say and wherever they go.
pub proof fn own_messages_are_ignored(
    sender: Seq<char>,
    target: Seq<char>,
    nick: Seq<char>,
    addressed: bool,
)
    requires
        text::same_ignoring_case(sender, nick),
    ensures
        verdict_of(sender, target, nick, addressed) is Ignore,
{
}

/// A nick that is only the beginning of a longer word is no mention: the character
/// right after it is never an ASCII letter or digit.
pub proof fn a_mention_ends_at_a_boundary(text: Seq<char>, nick: Seq<char>)
    requires
        mentions(text, nick),
    ensures
        ({
            let after = without_at(text::trimmed_start(text)).skip(nick.len() as int);
            after.len() == 0 || !text::is_ascii_alnum(after[0])
        }),
{
    let after = without_at(text::trimmed_start(text)).skip(nick.len() as int);
    if after.len() > 0 && text::is_ascii_alnum(after[0]) {
        assert(text::trimmed_start(after) == after);
    }
}

/// A direct message of anyone else is answered, whatever it says.
pub proof fn direct_messages_are_answered(
    sender: Seq<char>,
    target: Seq<char>,
    nick: Seq<char>,
    addressed: bool,
)
    requires
        !text::same_ignoring_case(sender, nick),
        !names_channel(target),
    ensures
        verdict_of(sender, target, nick, addressed) is Reply,
{
}

} // verus!
