//! Settings of the Discord channel.

use crate::keyed::Keyed;
use crate::text;
use vstd::prelude::*;
use vstd::string::*;

verus! {

/// The default time, in minutes, after which a silent session expires.
pub const DEFAULT_IDLE_MINUTES: u64 = 360;

/// Settings of sessions.
#[derive(Clone, Debug)]
pub struct SessionsConfig {
    /// Minutes of silence after which a session expires; zero means never.
    pub idle_minutes: u64,
}

impl Default for SessionsConfig {
    fn default() -> (cfg: SessionsConfig)
        ensures
            cfg.idle_minutes == DEFAULT_IDLE_MINUTES,
    {
        SessionsConfig { idle_minutes: DEFAULT_IDLE_MINUTES }
    }
}

/// Settings of one channel.
#[derive(Clone, Debug)]
pub struct ChannelConfig {
    pub enabled: bool,
    pub require_mention: bool,
    /// The users that may write; empty permits anyone.
    pub users: Vec<String>,
}

impl Default for ChannelConfig {
    fn default() -> (cfg: ChannelConfig)
        ensures
            cfg.enabled,
            cfg.require_mention,
            cfg.users@ == Seq::<String>::empty(),
    {
        ChannelConfig { enabled: true, require_mention: true, users: Vec::new() }
    }
}

/// Settings of one guild.
#[derive(Debug)]
pub struct GuildConfig {
    pub enabled: bool,
    /// The users that may write; empty permits anyone.
    pub users: Vec<String>,
    /// The channels to listen to, by id.
    pub channels: Keyed<ChannelConfig>,
}

impl Default for GuildConfig {
    fn default() -> (cfg: GuildConfig)
        ensures
            cfg.enabled,
            cfg.users@ == Seq::<String>::empty(),
            cfg.channels@ == Map::<Seq<char>, ChannelConfig>::empty(),
    {
        GuildConfig { enabled: true, users: Vec::new(), channels: Keyed::new() }
    }
}

/// Settings of the Discord channel.
#[derive(Debug)]
pub struct DiscordConfig {
    pub bot_token: Option<String>,
    pub backend: Option<String>,
    /// The reaction that acknowledges a message.
    pub ack_emoji: String,
    /// How many earlier messages go into a prompt; zero means all that are kept.
    pub history_limit: usize,
    /// Whether the earlier messages are forgotten after a reply.
    pub clear_history_after_reply: bool,
    pub sessions: SessionsConfig,
    /// The guilds to listen to, by id.
    pub guilds: Keyed<GuildConfig>,
}

impl Default for DiscordConfig {
    fn default() -> (cfg: DiscordConfig)
        ensures
            cfg.bot_token is None,
            cfg.backend is None,
            cfg.ack_emoji@ == "👀"@,
            cfg.history_limit == 20,
            !cfg.clear_history_after_reply,
            cfg.sessions.idle_minutes == DEFAULT_IDLE_MINUTES,
            cfg.guilds@ == Map::<Seq<char>, GuildConfig>::empty(),
    {
        DiscordConfig {
            bot_token: None,
            backend: None,
            ack_emoji: "👀".to_owned(),
            history_limit: 20,
            clear_history_after_reply: false,
            sessions: SessionsConfig::default(),
            guilds: Keyed::new(),
        }
    }
}

/// No token is set.
#[derive(Clone, Copy, Debug, PartialEq, Eq, Structural)]
pub struct MissingToken;

impl MissingToken {
    /// What is wrong.
    pub fn message(&self) -> (text: &'static str)
        ensures
            text@
                == "discord.bot_token is required: set extensions.discord.bot_token in agent.yaml or the DISCORD_BOT_TOKEN environment variable"@,
    {
        "discord.bot_token is required: set extensions.discord.bot_token in agent.yaml or the DISCORD_BOT_TOKEN environment variable"
    }
}

/// The token of the settings, else that of the environment.
pub fn token(config: &DiscordConfig, env: Option<&str>) -> (r: Result<String, MissingToken>)
    ensures
        ({
            let set = text::when_filled(text::opt_view(config.bot_token));
            let other = text::when_filled(text::opt_str_view(env));
            match r {
                Ok(token) => if set is Some {
                    set == Some(token@)
                } else {
                    other == Some(token@)
                },
                Err(_) => set is None && other is None,
            }
        }),
{
    match text::filled(text::as_text(&config.bot_token)) {
        Some(token) => Ok(token),
        None => match text::filled(env) {
            Some(token) => Ok(token),
            None => Err(MissingToken),
        },
    }
}

} // verus!
