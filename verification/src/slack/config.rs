//! Settings of the Slack channel.

use crate::keyed::Keyed;
use crate::text;
use regex::Regex;
use vstd::prelude::*;
use vstd::string::*;

verus! {

/// The most bytes of a mention pattern.
pub const MAX_PATTERN_BYTES: usize = 512;

/// Where a reply to a message goes.
#[derive(Clone, Copy, Debug, PartialEq, Eq, Structural)]
pub enum ThreadPolicy {
    /// Into the thread, or into a new one under the message.
    Always,
    /// Into the conversation itself.
    Never,
    /// Into the thread, where the message is in one.
    Follow,
}

impl Default for ThreadPolicy {
    fn default() -> (p: ThreadPolicy)
        ensures
            p == ThreadPolicy::Always,
    {
        ThreadPolicy::Always
    }
}

/// Settings of one channel.
#[derive(Clone, Debug)]
pub struct ChannelConfig {
    pub require_mention: bool,
    pub thread_policy: ThreadPolicy,
    /// The users that may write; empty permits anyone.
    pub users: Vec<String>,
}

impl Default for ChannelConfig {
    fn default() -> (cfg: ChannelConfig)
        ensures
            cfg.require_mention,
            cfg.thread_policy == ThreadPolicy::Always,
            cfg.users@ == Seq::<String>::empty(),
    {
        ChannelConfig {
            require_mention: true,
            thread_policy: ThreadPolicy::Always,
            users: Vec::new(),
        }
    }
}

/// Settings of direct messages.
#[derive(Clone, Debug)]
pub struct DirectMessageConfig {
    pub enabled: bool,
    /// The users that may write; empty permits anyone.
    pub users: Vec<String>,
    pub thread_policy: ThreadPolicy,
}

impl Default for DirectMessageConfig {
    fn default() -> (cfg: DirectMessageConfig)
        ensures
            !cfg.enabled,
            cfg.users@ == Seq::<String>::empty(),
            cfg.thread_policy == ThreadPolicy::Follow,
    {
        DirectMessageConfig {
            enabled: false,
            users: Vec::new(),
            thread_policy: ThreadPolicy::Follow,
        }
    }
}

/// Settings of the Slack channel.
pub struct SlackConfig {
    pub token: Option<String>,
    /// Another name for `token`.
    pub bot_token: Option<String>,
    pub app_token: Option<String>,
    /// The channels to listen to, by id; empty permits every channel.
    pub channels: Keyed<ChannelConfig>,
    pub dm: DirectMessageConfig,
    /// Regular expressions that count as a mention.
    pub mention_patterns: Vec<String>,
    pub show_thinking: bool,
    pub delete_thinking_on_complete: bool,
    /// How many earlier messages go into a prompt; zero means all that are kept.
    pub history_limit: usize,
    /// Whether the earlier messages are forgotten after a reply.
    pub clear_history_after_reply: bool,
}

impl Default for SlackConfig {
    fn default() -> (cfg: SlackConfig)
        ensures
            cfg.token is None,
            cfg.bot_token is None,
            cfg.app_token is None,
            cfg.channels@ == Map::<Seq<char>, ChannelConfig>::empty(),
            !cfg.dm.enabled,
            cfg.dm.users@ == Seq::<String>::empty(),
            cfg.dm.thread_policy == ThreadPolicy::Follow,
            cfg.mention_patterns@ == Seq::<String>::empty(),
            !cfg.show_thinking,
            cfg.delete_thinking_on_complete,
            cfg.history_limit == 20,
            !cfg.clear_history_after_reply,
    {
        SlackConfig {
            token: None,
            bot_token: None,
            app_token: None,
            channels: Keyed::new(),
            dm: DirectMessageConfig::default(),
            mention_patterns: Vec::new(),
            show_thinking: false,
            delete_thinking_on_complete: true,
            history_limit: 20,
            clear_history_after_reply: false,
        }
    }
}

/// The tokens that a connection needs.
#[derive(Clone, PartialEq, Eq)]
pub struct ResolvedTokens {
    pub bot: String,
    pub app: String,
}

/// What is wrong with the settings.
#[derive(Clone, Copy, Debug, PartialEq, Eq, Structural)]
pub enum ConfigError {
    PatternTooLong,
    InvalidPattern,
    NoTokens,
    NoBotToken,
    NoAppToken,
}

impl ConfigError {
    /// What is wrong.
    pub fn message(&self) -> (text: String)
        ensures
            text@ == (match *self {
                ConfigError::PatternTooLong => {
                    "slack.mentionPatterns entries must be at most 512 bytes"@
                },
                ConfigError::InvalidPattern => {
                    "slack.mentionPatterns entries must be regular expressions"@
                },
                ConfigError::NoTokens => {
                    "slack token and appToken are required: set extensions.slack.token and extensions.slack.appToken, or SLACK_BOT_TOKEN and SLACK_APP_TOKEN"@
                },
                ConfigError::NoBotToken => {
                    "slack token is required (set slack.token or SLACK_BOT_TOKEN)"@
                },
                ConfigError::NoAppToken => {
                    "slack appToken is required (set slack.appToken or SLACK_APP_TOKEN)"@
                },
            }),
    {
        match self {
            ConfigError::PatternTooLong => {
                "slack.mentionPatterns entries must be at most 512 bytes".to_owned()
            },
            ConfigError::InvalidPattern => {
                "slack.mentionPatterns entries must be regular expressions".to_owned()
            },
            ConfigError::NoTokens => {
                "slack token and appToken are required: set extensions.slack.token and extensions.slack.appToken, or SLACK_BOT_TOKEN and SLACK_APP_TOKEN".to_owned()
            },
            ConfigError::NoBotToken => {
                "slack token is required (set slack.token or SLACK_BOT_TOKEN)".to_owned()
            },
            ConfigError::NoAppToken => {
                "slack appToken is required (set slack.appToken or SLACK_APP_TOKEN)".to_owned()
            },
        }
    }
}

/// Whether a text is a regular expression that `regex::Regex::new` compiles.
pub uninterp spec fn regex_compiles(pattern: Seq<char>) -> bool;

/// `regex::Regex::new`: whether a pattern compiles depends on its text alone.
#[verifier::external_body]
fn compiles(pattern: &str) -> (b: bool)
    ensures
        b == regex_compiles(pattern@),
{
    Regex::new(pattern).is_ok()
}

/// The first of two texts that is there.
pub open spec fn first_of(a: Option<Seq<char>>, b: Option<Seq<char>>) -> Option<Seq<char>> {
    match a {
        Some(s) => Some(s),
        None => b,
    }
}

impl SlackConfig {
    /// The bot token: that of the settings, under either name, else that of the
    /// environment.
    pub open spec fn bot(&self, env: Option<Seq<char>>) -> Option<Seq<char>> {
        first_of(
            text::when_filled(text::opt_view(self.token)),
            first_of(text::when_filled(text::opt_view(self.bot_token)), text::when_filled(env)),
        )
    }

    /// The app token: that of the settings, else that of the environment.
    pub open spec fn app(&self, env: Option<Seq<char>>) -> Option<Seq<char>> {
        first_of(text::when_filled(text::opt_view(self.app_token)), text::when_filled(env))
    }

    /// The mention patterns, where each of them compiles.
    pub fn compiled_mention_patterns(&self) -> (r: Result<Vec<String>, ConfigError>)
        ensures
            match r {
                Ok(list) => text::views(list@) == text::views(self.mention_patterns@) && forall|
                    i: int,
                |
                    0 <= i < self.mention_patterns@.len() ==> regex_compiles(
                        #[trigger] text::views(self.mention_patterns@)[i],
                    ),
                Err(e) => e == ConfigError::InvalidPattern && exists|i: int|
                    0 <= i < self.mention_patterns@.len() && !regex_compiles(
                        #[trigger] text::views(self.mention_patterns@)[i],
                    ),
            },
    {
        let ghost all = text::views(self.mention_patterns@);
        let mut list: Vec<String> = Vec::new();
        let mut i: usize = 0;
        while i < self.mention_patterns.len()
            invariant
                all == text::views(self.mention_patterns@),
                i <= self.mention_patterns@.len(),
                text::views(list@) =~= all.take(i as int),
                forall|k: int| 0 <= k < i ==> regex_compiles(#[trigger] all[k]),
            decreases self.mention_patterns@.len() - i,
        {
            assert(all[i as int] == self.mention_patterns@[i as int]@);
            if !compiles(self.mention_patterns[i].as_str()) {
                return Err(ConfigError::InvalidPattern);
            }
            let ghost before = list@;
            list.push(self.mention_patterns[i].as_str().to_owned());
            assert(text::views(list@) =~= text::views(before).push(all[i as int]));
            i = i + 1;
        }
        assert(all.take(i as int) =~= all);
        Ok(list)
    }

    /// Whether the settings can be used: no pattern is too long, and each compiles.
    pub fn validate(&self) -> (r: Result<(), ConfigError>)
        ensures
            ({
                let patterns = text::views(self.mention_patterns@);
                let short = forall|i: int|
                    0 <= i < patterns.len() ==> text::utf8_units(#[trigger] patterns[i])
                        <= MAX_PATTERN_BYTES;
                let valid = forall|i: int|
                    0 <= i < patterns.len() ==> regex_compiles(#[trigger] patterns[i]);
                r == if !short {
                    Err::<(), ConfigError>(ConfigError::PatternTooLong)
                } else if !valid {
                    Err::<(), ConfigError>(ConfigError::InvalidPattern)
                } else {
                    Ok::<(), ConfigError>(())
                }
            }),
    {
        let ghost all = text::views(self.mention_patterns@);
        let mut i: usize = 0;
        while i < self.mention_patterns.len()
            invariant
                all == text::views(self.mention_patterns@),
                i <= self.mention_patterns@.len(),
                forall|k: int|
                    0 <= k < i ==> text::utf8_units(#[trigger] all[k]) <= MAX_PATTERN_BYTES,
            decreases self.mention_patterns@.len() - i,
        {
            assert(all[i as int] == self.mention_patterns@[i as int]@);
            if text::byte_len(self.mention_patterns[i].as_str()) > MAX_PATTERN_BYTES {
                return Err(ConfigError::PatternTooLong);
            }
            i = i + 1;
        }
        match self.compiled_mention_patterns() {
            Ok(_) => Ok(()),
            Err(e) => Err(e),
        }
    }

    /// The tokens, with those of the environment where the settings have none.
    pub fn tokens(&self, env_bot: Option<&str>, env_app: Option<&str>) -> (r: Result<
        ResolvedTokens,
        ConfigError,
    >)
        ensures
            ({
                let bot = self.bot(text::opt_str_view(env_bot));
                let app = self.app(text::opt_str_view(env_app));
                match r {
                    Ok(tokens) => bot == Some(tokens.bot@) && app == Some(tokens.app@),
                    Err(ConfigError::NoTokens) => bot is None && app is None,
                    Err(ConfigError::NoBotToken) => bot is None && app is Some,
                    Err(ConfigError::NoAppToken) => bot is Some && app is None,
                    Err(_) => false,
                }
            }),
    {
        let bot = match text::filled(text::as_text(&self.token)) {
            Some(s) => Some(s),
            None => match text::filled(text::as_text(&self.bot_token)) {
                Some(s) => Some(s),
                None => text::filled(env_bot),
            },
        };
        let app = match text::filled(text::as_text(&self.app_token)) {
            Some(s) => Some(s),
            None => text::filled(env_app),
        };
        match (bot, app) {
            (Some(bot), Some(app)) => Ok(ResolvedTokens { bot, app }),
            (None, None) => Err(ConfigError::NoTokens),
            (None, Some(_)) => Err(ConfigError::NoBotToken),
            (Some(_), None) => Err(ConfigError::NoAppToken),
        }
    }
}

} // verus!
