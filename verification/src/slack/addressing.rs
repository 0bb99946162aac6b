//! Which messages are answered, with what text, and where.

use crate::lines;
use crate::slack::config::{ChannelConfig, SlackConfig, ThreadPolicy};
use crate::text;
use regex::Regex;
use vstd::prelude::*;
use vstd::string::*;

verus! {

/// The kind of a conversation.
#[derive(Clone, Copy, Debug, PartialEq, Eq, Structural)]
pub enum ConversationKind {
    DirectMessage,
    Channel,
}

/// A message that came in.
#[derive(Clone, Debug)]
pub struct InboundMessage<'a> {
    pub team_id: &'a str,
    pub channel_id: &'a str,
    pub sender_id: &'a str,
    pub text: &'a str,
    pub has_files: bool,
    pub bot_user_id: Option<&'a str>,
    pub thread_ts: Option<&'a str>,
    pub message_ts: &'a str,
    pub kind: ConversationKind,
}

/// What a message holds.
#[verifier::ext_equal]
pub struct MessageView {
    pub team_id: Seq<char>,
    pub channel_id: Seq<char>,
    pub sender_id: Seq<char>,
    pub text: Seq<char>,
    pub has_files: bool,
    pub bot_user_id: Option<Seq<char>>,
    pub thread_ts: Option<Seq<char>>,
    pub message_ts: Seq<char>,
    pub kind: ConversationKind,
}

impl<'a> View for InboundMessage<'a> {
    type V = MessageView;

    open spec fn view(&self) -> MessageView {
        MessageView {
            team_id: self.team_id@,
            channel_id: self.channel_id@,
            sender_id: self.sender_id@,
            text: self.text@,
            has_files: self.has_files,
            bot_user_id: text::opt_str_view(self.bot_user_id),
            thread_ts: text::opt_str_view(self.thread_ts),
            message_ts: self.message_ts@,
            kind: self.kind,
        }
    }
}

/// What becomes of a message.
#[derive(Clone, Debug, PartialEq, Eq)]
pub enum RouteDecision {
    Ignore,
    Dispatch {
        text: String,
        /// The thread that the reply goes into.
        reply_thread_ts: Option<String>,
    },
}

// ---- Patterns ---------------------------------------------------------------

/// The byte range of the leftmost match of a regular expression in a text, as
/// `regex::Regex::find` gives it; none where the pattern does not compile.
pub uninterp spec fn regex_match(pattern: Seq<char>, text: Seq<char>) -> Option<(nat, nat)>;

/// Whether `offset` bytes end with a whole character of `s`.
pub open spec fn on_boundary(s: Seq<char>, offset: nat) -> bool {
    text::utf8_units(s.take(lines::fitting(s, offset) as int)) == offset
}

/// `regex::Regex::new` and `regex::Regex::find`: the match depends on the pattern
/// and the text alone, begins before it ends, and lies between characters.
#[verifier::external_body]
fn find_pattern(pattern: &str, text: &str) -> (r: Option<(usize, usize)>)
    ensures
        match r {
            Some((start, end)) => regex_match(pattern@, text@) == Some((start as nat, end as nat))
                && start <= end && on_boundary(text@, start as nat) && on_boundary(
                text@,
                end as nat,
            ),
            None => regex_match(pattern@, text@) is None,
        },
{
    let found = Regex::new(pattern).ok()?.find(text)?;
    Some((found.start(), found.end()))
}

/// `s` without the characters of a byte range.
pub open spec fn without_bytes(s: Seq<char>, start: nat, end: nat) -> Seq<char> {
    s.take(lines::fitting(s, start) as int) + s.skip(lines::fitting(s, end) as int)
}

/// `text` without the characters of a byte range, trimmed.
pub fn cut_bytes(text: &str, start: usize, end: usize) -> (out: String)
    ensures
        out@ == text::trimmed(without_bytes(text@, start as nat, end as nat)),
{
    let chars = text::to_chars(text);
    let s = chars.as_slice();
    let first: usize = lines::count_fitting(s, start);
    let last: usize = lines::count_fitting(s, end);
    let mut rest = text::copy_chars(text::take(s, first));
    text::push_all(&mut rest, text::skip(s, last));
    assert(rest@ =~= without_bytes(text@, start as nat, end as nat));
    text::from_chars(text::trim(rest.as_slice()))
}

// ---- Mentions ---------------------------------------------------------------

/// How a user is mentioned.
pub open spec fn mention(user_id: Seq<char>) -> Seq<char> {
    "<@"@ + user_id + ">"@
}

/// `s` without its first match of one of `patterns`, trimmed, where there is one.
pub open spec fn without_pattern(s: Seq<char>, patterns: Seq<Seq<char>>) -> Option<Seq<char>>
    decreases patterns.len(),
{
    if patterns.len() == 0 {
        None
    } else {
        match regex_match(patterns[0], s) {
            Some((start, end)) => Some(text::trimmed(without_bytes(s, start, end))),
            None => without_pattern(s, patterns.skip(1)),
        }
    }
}

/// `s` without the first mention of the bot, trimmed, where it is mentioned.
pub open spec fn without_mention(s: Seq<char>, bot: Option<Seq<char>>) -> Option<Seq<char>> {
    match bot {
        Some(user_id) => {
            let at = text::next_match(s, mention(user_id), 0);
            if at < s.len() {
                Some(text::trimmed(s.take(at) + s.skip(at + mention(user_id).len())))
            } else {
                None
            }
        },
        None => None,
    }
}

/// `s` without what addresses the bot, where something does.
pub open spec fn addressed(s: Seq<char>, bot: Option<Seq<char>>, patterns: Seq<Seq<char>>) -> Option<
    Seq<char>,
> {
    match without_mention(s, bot) {
        Some(rest) => Some(rest),
        None => without_pattern(s, patterns),
    }
}

fn strip_name(s: &str, user_id: &str) -> (r: Option<String>)
    ensures
        text::opt_view(r) == without_mention(s@, Some(user_id@)),
{
    let chars = text::to_chars(s);
    let mut name = text::to_chars("<@");
    text::push_str(&mut name, user_id);
    text::push_str(&mut name, ">");
    proof {
        reveal_strlit("<@");
    }
    let at: usize = text::find_match(chars.as_slice(), name.as_slice(), 0);
    if at >= chars.len() {
        return None;
    }
    let mut rest = text::copy_chars(text::take(chars.as_slice(), at));
    text::push_all(&mut rest, text::skip(chars.as_slice(), at + name.len()));
    Some(text::from_chars(text::trim(rest.as_slice())))
}

/// Whether a text addresses the bot, and the text without what does: a mention
/// first of all, else a pattern.
pub fn strip_mention(text: &str, bot_user_id: Option<&str>, patterns: &[String]) -> (r: (
    bool,
    String,
))
    ensures
        ({
            let found = addressed(text@, text::opt_str_view(bot_user_id), text::views(patterns@));
            &&& r.0 == (found is Some)
            &&& r.1@ == (match found {
                Some(rest) => rest,
                None => text@,
            })
        }),
{
    if let Some(user_id) = bot_user_id {
        if let Some(rest) = strip_name(text, user_id) {
            return (true, rest);
        }
    }
    let ghost all = text::views(patterns@);
    let mut i: usize = 0;
    assert(all.skip(0) =~= all);
    while i < patterns.len()
        invariant
            all == text::views(patterns@),
            i <= patterns@.len(),
            without_mention(text@, text::opt_str_view(bot_user_id)) is None,
            without_pattern(text@, all) == without_pattern(text@, all.skip(i as int)),
        decreases patterns@.len() - i,
    {
        assert(all[i as int] == patterns@[i as int]@);
        assert(all.skip(i as int).skip(1) =~= all.skip(i + 1));
        if let Some((start, end)) = find_pattern(patterns[i].as_str(), text) {
            return (true, cut_bytes(text, start, end));
        }
        i = i + 1;
    }
    (false, text.to_owned())
}

// ---- Routing ----------------------------------------------------------------

/// The thread that a reply goes into.
pub open spec fn reply_thread(
    policy: ThreadPolicy,
    thread_ts: Option<Seq<char>>,
    message_ts: Seq<char>,
) -> Option<Seq<char>> {
    match policy {
        ThreadPolicy::Always => match thread_ts {
            Some(ts) => Some(ts),
            None => Some(message_ts),
        },
        ThreadPolicy::Never => None,
        ThreadPolicy::Follow => thread_ts,
    }
}

/// Whether a user may write: anyone where no user is listed.
pub open spec fn permits(users: Seq<Seq<char>>, user: Seq<char>) -> bool {
    users.len() == 0 || users.contains(user)
}

/// Whether a message says where it is from, and is not the bot's own.
pub open spec fn is_foreign(m: MessageView) -> bool {
    &&& m.team_id.len() > 0
    &&& m.channel_id.len() > 0
    &&& m.sender_id.len() > 0
    &&& m.bot_user_id != Some(m.sender_id)
}

/// The text and the thread with which a message to a channel is answered.
pub open spec fn channel_route(
    require_mention: bool,
    policy: ThreadPolicy,
    users: Seq<Seq<char>>,
    patterns: Seq<Seq<char>>,
    m: MessageView,
) -> Option<(Seq<char>, Option<Seq<char>>)> {
    let found = addressed(m.text, m.bot_user_id, patterns);
    let rest = match found {
        Some(rest) => rest,
        None => m.text,
    };
    if permits(users, m.sender_id) && (!require_mention || found is Some || (m.has_files
        && text::is_blank(m.text))) {
        Some((rest, reply_thread(policy, m.thread_ts, m.message_ts)))
    } else {
        None
    }
}

/// The text and the thread with which a message is answered, where it is.
pub open spec fn routed(config: SlackConfig, patterns: Seq<Seq<char>>, m: MessageView) -> Option<
    (Seq<char>, Option<Seq<char>>),
> {
    if !is_foreign(m) {
        None
    } else if m.kind == ConversationKind::DirectMessage {
        if config.dm.enabled && permits(text::views(config.dm.users@), m.sender_id) {
            Some(
                (
                    m.text,
                    reply_thread(
                        config.dm.thread_policy,
                        m.thread_ts,
                        m.message_ts,
                    ),
                ),
            )
        } else {
            None
        }
    } else if config.channels@.contains_key(m.channel_id) {
        let channel = config.channels@[m.channel_id];
        channel_route(
            channel.require_mention,
            channel.thread_policy,
            text::views(channel.users@),
            patterns,
            m,
        )
    } else if config.channels@ == Map::<Seq<char>, ChannelConfig>::empty() {
        channel_route(true, ThreadPolicy::Always, Seq::empty(), patterns, m)
    } else {
        None
    }
}

/// What a decision says.
pub open spec fn decision(r: RouteDecision) -> Option<(Seq<char>, Option<Seq<char>>)> {
    match r {
        RouteDecision::Ignore => None,
        RouteDecision::Dispatch { text, reply_thread_ts } => Some(
            (text@, text::opt_view(reply_thread_ts)),
        ),
    }
}

fn choose_thread(policy: ThreadPolicy, thread_ts: Option<&str>, message_ts: &str) -> (r: Option<
    String,
>)
    ensures
        text::opt_view(r) == reply_thread(policy, text::opt_str_view(thread_ts), message_ts@),
{
    match policy {
        ThreadPolicy::Always => match thread_ts {
            Some(ts) => Some(ts.to_owned()),
            None => Some(message_ts.to_owned()),
        },
        ThreadPolicy::Never => None,
        ThreadPolicy::Follow => match thread_ts {
            Some(ts) => Some(ts.to_owned()),
            None => None,
        },
    }
}

/// Whether a user may write.
pub fn allowed(users: &[String], user: &str) -> (b: bool)
    ensures
        b == permits(text::views(users@), user@),
{
    users.len() == 0 || text::contains_str(users, user)
}

fn route_channel(channel: &ChannelConfig, patterns: &[String], message: &InboundMessage<'_>) -> (r:
    RouteDecision)
    ensures
        decision(r) == channel_route(
            channel.require_mention,
            channel.thread_policy,
            text::views(channel.users@),
            text::views(patterns@),
            message@,
        ),
{
    if !allowed(channel.users.as_slice(), message.sender_id) {
        return RouteDecision::Ignore;
    }
    let (mentioned, rest) = strip_mention(message.text, message.bot_user_id, patterns);
    let chars = text::to_chars(message.text);
    let only_files = message.has_files && text::trim(chars.as_slice()).len() == 0;
    if channel.require_mention && !mentioned && !only_files {
        return RouteDecision::Ignore;
    }
    RouteDecision::Dispatch {
        text: rest,
        reply_thread_ts: choose_thread(
            channel.thread_policy,
            message.thread_ts,
            message.message_ts,
        ),
    }
}

/// What becomes of a message.
pub fn route(config: &SlackConfig, patterns: &[String], message: &InboundMessage<'_>) -> (r:
    RouteDecision)
    ensures
        decision(r) == routed(*config, text::views(patterns@), message@),
{
    if message.team_id.is_empty() || message.channel_id.is_empty() || message.sender_id.is_empty() {
        return RouteDecision::Ignore;
    }
    if let Some(bot) = message.bot_user_id {
        if text::str_eq(bot, message.sender_id) {
            return RouteDecision::Ignore;
        }
    }
    match message.kind {
        ConversationKind::DirectMessage => {
            if !config.dm.enabled || !allowed(config.dm.users.as_slice(), message.sender_id) {
                return RouteDecision::Ignore;
            }
            RouteDecision::Dispatch {
                text: message.text.to_owned(),
                reply_thread_ts: choose_thread(
                    config.dm.thread_policy,
                    message.thread_ts,
                    message.message_ts,
                ),
            }
        },
        ConversationKind::Channel => match config.channels.get(message.channel_id) {
            Some(channel) => route_channel(channel, patterns, message),
            None => {
                if config.channels.is_empty() {
                    let channel = ChannelConfig::default();
                    assert(text::views(channel.users@) =~= Seq::<Seq<char>>::empty());
                    route_channel(&channel, patterns, message)
                } else {
                    RouteDecision::Ignore
                }
            },
        },
    }
}

// ---- Laws -------------------------------------------------------------------

/// The bot never answers itself.
pub proof fn own_messages_are_ignored(
    config: SlackConfig,
    patterns: Seq<Seq<char>>,
    m: MessageView,
)
    requires
        m.bot_user_id == Some(m.sender_id),
    ensures
        routed(config, patterns, m) is None,
{
}

/// Where channels are listed, messages to others are ignored.
pub proof fn unlisted_channels_are_ignored(
    config: SlackConfig,
    patterns: Seq<Seq<char>>,
    m: MessageView,
    listed: Seq<char>,
)
    requires
        m.kind == ConversationKind::Channel,
        config.channels@.contains_key(listed),
        !config.channels@.contains_key(m.channel_id),
    ensures
        routed(config, patterns, m) is None,
{
}

/// Where direct messages are off, all are ignored.
pub proof fn disabled_direct_messages_are_ignored(
    config: SlackConfig,
    patterns: Seq<Seq<char>>,
    m: MessageView,
)
    requires
        m.kind == ConversationKind::DirectMessage,
        !config.dm.enabled,
    ensures
        routed(config, patterns, m) is None,
{
}

/// Where no channel is listed, all are served, but only where the bot is mentioned or
/// files come without a text.
pub proof fn unlisted_channels_ask_for_a_mention(
    config: SlackConfig,
    patterns: Seq<Seq<char>>,
    m: MessageView,
)
    requires
        m.kind == ConversationKind::Channel,
        config.channels@ == Map::<Seq<char>, ChannelConfig>::empty(),
        is_foreign(m),
    ensures
        routed(config, patterns, m) is Some <==> addressed(m.text, m.bot_user_id, patterns) is Some
            || (m.has_files && text::is_blank(m.text)),
{
}

/// A sender whom a list of users leaves out is never answered there.
pub proof fn unlisted_senders_are_ignored(
    config: SlackConfig,
    patterns: Seq<Seq<char>>,
    m: MessageView,
)
    requires
        m.kind == ConversationKind::DirectMessage ==> !permits(
            text::views(config.dm.users@),
            m.sender_id,
        ),
        m.kind == ConversationKind::Channel ==> config.channels@.contains_key(m.channel_id)
            && !permits(text::views(config.channels@[m.channel_id].users@), m.sender_id),
    ensures
        routed(config, patterns, m) is None,
{
}

} // verus!
