//! Which messages are answered, with what text, and in which session.

use crate::discord::config::DiscordConfig;
use crate::discord::session;
use crate::discord::session::SessionKey;
use crate::text;
use vstd::prelude::*;
use vstd::string::*;

verus! {

/// A message that came in.
#[derive(Debug)]
pub struct InboundMessage<'a> {
    pub guild_id: Option<&'a str>,
    pub channel_id: &'a str,
    /// The channel that a thread belongs to.
    pub parent_channel_id: Option<&'a str>,
    /// Whether the bot is in conversation in the thread.
    pub thread_engaged: bool,
    pub author_id: &'a str,
    pub author_is_bot: bool,
    pub webhook_id: Option<&'a str>,
    pub text: &'a str,
    pub has_attachments: bool,
}

/// What a message holds.
#[verifier::ext_equal]
pub struct MessageView {
    pub guild_id: Option<Seq<char>>,
    pub channel_id: Seq<char>,
    pub parent_channel_id: Option<Seq<char>>,
    pub thread_engaged: bool,
    pub author_id: Seq<char>,
    pub author_is_bot: bool,
    pub from_webhook: bool,
    pub text: Seq<char>,
    pub has_attachments: bool,
}

impl<'a> View for InboundMessage<'a> {
    type V = MessageView;

    open spec fn view(&self) -> MessageView {
        MessageView {
            guild_id: text::opt_str_view(self.guild_id),
            channel_id: self.channel_id@,
            parent_channel_id: text::opt_str_view(self.parent_channel_id),
            thread_engaged: self.thread_engaged,
            author_id: self.author_id@,
            author_is_bot: self.author_is_bot,
            from_webhook: self.webhook_id is Some,
            text: self.text@,
            has_attachments: self.has_attachments,
        }
    }
}

/// What becomes of a message.
#[derive(Debug, PartialEq, Eq)]
pub enum RouteDecision {
    Ignore,
    Dispatch { text: String, session_key: SessionKey },
}

/// What a decision says: the text and the key of the session.
pub open spec fn decision(r: RouteDecision) -> Option<(Seq<char>, Seq<char>)> {
    match r {
        RouteDecision::Ignore => None,
        RouteDecision::Dispatch { text, session_key } => Some((text@, session_key@)),
    }
}

// ---- Mentions ---------------------------------------------------------------

/// The two forms in which a user is mentioned.
pub open spec fn mention(id: Seq<char>) -> Seq<char> {
    "<@"@ + id + ">"@
}

/// The two forms in which a user is mentioned.
pub open spec fn nick_mention(id: Seq<char>) -> Seq<char> {
    "<@!"@ + id + ">"@
}

/// Whether `pattern` stands somewhere in `s`.
pub open spec fn holds(s: Seq<char>, pattern: Seq<char>) -> bool {
    text::next_match(s, pattern, 0) < s.len()
}

/// `s` without mentions of the bot, not trimmed yet.
pub open spec fn unmentioned(s: Seq<char>, id: Seq<char>) -> Seq<char> {
    let once = text::replaced(s, mention(id), Seq::empty());
    text::replaced(once, nick_mention(id), Seq::empty())
}

/// Whether a text mentions the bot.
pub open spec fn is_mentioned(s: Seq<char>, bot: Option<Seq<char>>) -> bool {
    match bot {
        Some(id) => holds(s, mention(id)) || holds(
            text::replaced(s, mention(id), Seq::empty()),
            nick_mention(id),
        ),
        None => false,
    }
}

/// A text without mentions of the bot, trimmed.
pub open spec fn stripped(s: Seq<char>, bot: Option<Seq<char>>) -> Seq<char> {
    match bot {
        Some(id) => text::trimmed(unmentioned(s, id)),
        None => text::trimmed(s),
    }
}

fn write_mention(open: &str, id: &str) -> (out: String)
    ensures
        out@ == open@ + id@ + ">"@,
{
    let mut out = open.to_owned();
    out.append(id);
    out.append(">");
    out
}

/// Whether a text mentions the bot, and the text without that, trimmed.
pub fn strip_mention(text: &str, bot_user_id: Option<&str>) -> (r: (bool, String))
    ensures
        r.0 == is_mentioned(text@, text::opt_str_view(bot_user_id)),
        r.1@ == stripped(text@, text::opt_str_view(bot_user_id)),
{
    let chars = text::to_chars(text);
    let id = match bot_user_id {
        Some(id) => id,
        None => {
            return (false, text::from_chars(text::trim(chars.as_slice())));
        },
    };
    proof {
        reveal_strlit("<@");
        reveal_strlit("<@!");
        reveal_strlit("");
        assert(""@ =~= Seq::<char>::empty());
    }
    let plain = write_mention("<@", id);
    let nick = write_mention("<@!", id);
    let plain_chars = text::to_chars(plain.as_str());
    let nick_chars = text::to_chars(nick.as_str());
    let by_name = text::find_match(chars.as_slice(), plain_chars.as_slice(), 0) < chars.len();
    let once = text::replace(chars.as_slice(), plain.as_str(), "");
    let by_nick = text::find_match(once.as_slice(), nick_chars.as_slice(), 0) < once.len();
    let twice = text::replace(once.as_slice(), nick.as_str(), "");
    (by_name || by_nick, text::from_chars(text::trim(twice.as_slice())))
}

// ---- Routing ----------------------------------------------------------------

/// Whether a user may write: anyone where no user is listed.
pub open spec fn permits(users: Seq<Seq<char>>, user: Seq<char>) -> bool {
    users.len() == 0 || users.contains(user)
}

/// Whether a message is of a person, and says where it is from.
pub open spec fn is_personal(m: MessageView) -> bool {
    !m.author_is_bot && !m.from_webhook && m.channel_id.len() > 0 && m.author_id.len() > 0
}

/// The channel whose settings apply to a message: that of a thread is its parent.
pub open spec fn settings_channel(m: MessageView) -> Seq<char> {
    match m.parent_channel_id {
        Some(parent) => parent,
        None => m.channel_id,
    }
}

/// The key of the session that a message to a guild belongs to.
pub open spec fn guild_session(guild_id: Seq<char>, m: MessageView) -> Seq<char> {
    match m.parent_channel_id {
        Some(_) => session::thread_key(guild_id, m.channel_id),
        None => session::channel_key(guild_id, m.channel_id),
    }
}

/// Whether a message to a guild is for the bot.
pub open spec fn is_for_bot(require_mention: bool, bot: Option<Seq<char>>, m: MessageView) -> bool {
    !require_mention || is_mentioned(m.text, bot) || m.thread_engaged || (text::is_blank(m.text)
        && m.has_attachments)
}

/// The text and the session key with which a message is answered, where it is.
pub open spec fn routed(config: DiscordConfig, bot: Option<Seq<char>>, m: MessageView) -> Option<
    (Seq<char>, Seq<char>),
> {
    if !is_personal(m) {
        None
    } else {
        match m.guild_id {
            None => Some((text::trimmed(m.text), session::dm_key(m.author_id))),
            Some(guild_id) => {
                let guild = config.guilds@[guild_id];
                let channel = guild.channels@[settings_channel(m)];
                if config.guilds@.contains_key(guild_id) && guild.channels@.contains_key(
                    settings_channel(m),
                ) && guild.enabled && channel.enabled && permits(
                    text::views(guild.users@),
                    m.author_id,
                ) && permits(text::views(channel.users@), m.author_id) && is_for_bot(
                    channel.require_mention,
                    bot,
                    m,
                ) {
                    Some((stripped(m.text, bot), guild_session(guild_id, m)))
                } else {
                    None
                }
            },
        }
    }
}

/// Whether a user may write.
pub fn allowed(users: &[String], user: &str) -> (b: bool)
    ensures
        b == permits(text::views(users@), user@),
{
    users.len() == 0 || text::contains_str(users, user)
}

/// What becomes of a message.
pub fn route(config: &DiscordConfig, bot_user_id: Option<&str>, message: &InboundMessage<'_>) -> (r:
    RouteDecision)
    ensures
        decision(r) == routed(*config, text::opt_str_view(bot_user_id), message@),
{
    if message.author_is_bot || message.webhook_id.is_some() || message.channel_id.is_empty()
        || message.author_id.is_empty() {
        return RouteDecision::Ignore;
    }
    let guild_id = match message.guild_id {
        Some(id) => id,
        None => {
            let chars = text::to_chars(message.text);
            return RouteDecision::Dispatch {
                text: text::from_chars(text::trim(chars.as_slice())),
                session_key: SessionKey::dm(message.author_id),
            };
        },
    };
    let guild = match config.guilds.get(guild_id) {
        Some(guild) => guild,
        None => {
            return RouteDecision::Ignore;
        },
    };
    let settings = match message.parent_channel_id {
        Some(parent) => parent,
        None => message.channel_id,
    };
    let channel = match guild.channels.get(settings) {
        Some(channel) => channel,
        None => {
            return RouteDecision::Ignore;
        },
    };
    if !guild.enabled || !channel.enabled || !allowed(guild.users.as_slice(), message.author_id)
        || !allowed(channel.users.as_slice(), message.author_id) {
        return RouteDecision::Ignore;
    }
    let (mentioned, text) = strip_mention(message.text, bot_user_id);
    let chars = text::to_chars(message.text);
    let only_files = text::trim(chars.as_slice()).len() == 0 && message.has_attachments;
    if channel.require_mention && !mentioned && !message.thread_engaged && !only_files {
        return RouteDecision::Ignore;
    }
    let session_key = match message.parent_channel_id {
        Some(_) => SessionKey::guild_thread(guild_id, message.channel_id),
        None => SessionKey::guild_channel(guild_id, message.channel_id),
    };
    RouteDecision::Dispatch { text, session_key }
}

// ---- Laws -------------------------------------------------------------------

/// Messages of bots and webhooks are never answered.
pub proof fn bots_are_ignored(config: DiscordConfig, bot: Option<Seq<char>>, m: MessageView)
    requires
        m.author_is_bot || m.from_webhook,
    ensures
        routed(config, bot, m) is None,
{
}

/// A guild or a channel that is not listed is never answered.
pub proof fn guilds_and_channels_are_denied_by_default(
    config: DiscordConfig,
    bot: Option<Seq<char>>,
    m: MessageView,
    guild_id: Seq<char>,
)
    requires
        m.guild_id == Some(guild_id),
        !config.guilds@.contains_key(guild_id)
            || !config.guilds@[guild_id].channels@.contains_key(settings_channel(m)),
    ensures
        routed(config, bot, m) is None,
{
}

/// Direct messages of persons are always answered.
pub proof fn direct_messages_are_accepted(
    config: DiscordConfig,
    bot: Option<Seq<char>>,
    m: MessageView,
)
    requires
        is_personal(m),
        m.guild_id is None,
    ensures
        routed(config, bot, m) == Some((text::trimmed(m.text), session::dm_key(m.author_id))),
{
}

/// A sender whom the list of a guild or of a channel leaves out is never answered
/// there.
pub proof fn unlisted_senders_are_ignored(
    config: DiscordConfig,
    bot: Option<Seq<char>>,
    m: MessageView,
    guild_id: Seq<char>,
)
    requires
        m.guild_id == Some(guild_id),
        ({
            let guild = config.guilds@[guild_id];
            let channel = guild.channels@[settings_channel(m)];
            !permits(text::views(guild.users@), m.author_id) || !permits(
                text::views(channel.users@),
                m.author_id,
            )
        }),
    ensures
        routed(config, bot, m) is None,
{
}

} // verus!
