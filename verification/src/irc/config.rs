//! Settings of the IRC channel, with the `IRC_*` environment as a fallback for
//! each field that is not set.

use crate::irc::session;
use crate::irc::session::SessionsConfig;
use crate::text;
use vstd::prelude::*;
use vstd::string::*;

verus! {

/// The default port.
pub const DEFAULT_PORT: u16 = 6697;

/// The default cap on consecutive bot turns without a human message.
pub const DEFAULT_MAX_BOT_TURNS: u32 = 4;

/// The default number of ambient messages that are kept per conversation.
pub const DEFAULT_CONTEXT_WINDOW: usize = 30;

/// The default time, in milliseconds, in which further lines of a burst are
/// awaited.
pub const DEFAULT_DEBOUNCE_MS: u64 = 1500;

/// A channel to join, and whether it asks for a mention; the global setting
/// applies where it does not say.
#[derive(Clone, Debug)]
pub struct ChannelEntry {
    pub name: String,
    pub mention_required: Option<bool>,
}

/// Settings of the IRC channel. A field that is `None` or empty is not set.
#[derive(Clone, Debug)]
pub struct IrcConfig {
    pub server: Option<String>,
    pub port: Option<u16>,
    pub tls: Option<bool>,
    pub nick: Option<String>,
    pub username: Option<String>,
    pub realname: Option<String>,
    /// The password for `PASS`.
    pub server_password: Option<String>,
    /// The password for NickServ's `IDENTIFY`.
    pub nickserv_password: Option<String>,
    pub channels: Vec<ChannelEntry>,
    /// Whether a channel message has to address the bot to be answered.
    pub mention_required: Option<bool>,
    /// The nicks that may send direct messages; empty permits anyone.
    pub allowed_users: Vec<String>,
    /// The nicks of humans. Every other sender counts as a bot.
    pub humans: Vec<String>,
    pub backend: Option<String>,
    pub max_bot_turns: Option<u32>,
    pub context_window: Option<usize>,
    /// Whether a message that is picked up is acknowledged at once.
    pub ack: Option<bool>,
    /// The time in which further lines of a burst are awaited; zero awaits none.
    pub debounce_ms: Option<u64>,
    pub sessions: SessionsConfig,
}

/// The values of the `IRC_*` environment variables that are set.
#[derive(Clone, Debug)]
pub struct IrcEnv {
    pub server: Option<String>,
    pub port: Option<String>,
    pub tls: Option<String>,
    pub nick: Option<String>,
    pub username: Option<String>,
    pub realname: Option<String>,
    pub server_password: Option<String>,
    pub nickserv_password: Option<String>,
    pub channels: Option<String>,
    pub mention_required: Option<String>,
    pub allowed_users: Option<String>,
    pub humans: Option<String>,
    pub backend: Option<String>,
    pub max_bot_turns: Option<String>,
    pub context_window: Option<String>,
    pub ack: Option<String>,
    pub debounce_ms: Option<String>,
}

// ---- Environment values -----------------------------------------------------

/// The value of a variable; an empty one counts as not set.
pub open spec fn env_value(value: Option<String>) -> Option<Seq<char>> {
    match value {
        Some(s) => if s@.len() > 0 {
            Some(s@)
        } else {
            None
        },
        None => None,
    }
}

/// The number in a variable, where it holds one that is at most `max`.
pub open spec fn env_number(value: Option<String>, max: nat) -> Option<nat> {
    match env_value(value) {
        Some(s) => match text::numeral(s) {
            Some(n) => if n <= max {
                Some(n)
            } else {
                None
            },
            None => None,
        },
        None => None,
    }
}

/// The truth value in a variable, where it holds one.
pub open spec fn env_bool(value: Option<String>) -> Option<bool> {
    match env_value(value) {
        Some(s) => if s == "true"@ {
            Some(true)
        } else if s == "false"@ {
            Some(false)
        } else {
            None
        },
        None => None,
    }
}

/// The entries of a comma-separated list, trimmed, without the empty ones.
pub open spec fn list_items(parts: Seq<Seq<char>>) -> Seq<Seq<char>>
    decreases parts.len(),
{
    if parts.len() == 0 {
        Seq::empty()
    } else {
        let front = list_items(parts.drop_last());
        let item = text::trimmed(parts.last());
        if item.len() > 0 {
            front.push(item)
        } else {
            front
        }
    }
}

/// The list in a variable.
pub open spec fn env_list(value: Option<String>) -> Seq<Seq<char>> {
    match env_value(value) {
        Some(s) => list_items(text::split_on(s, ',')),
        None => Seq::empty(),
    }
}

/// The value of a variable; an empty one counts as not set.
fn read_value(value: &Option<String>) -> (r: Option<String>)
    ensures
        text::opt_view(r) == env_value(*value),
{
    match value {
        Some(s) => if s.as_str().is_empty() {
            None
        } else {
            Some(s.clone())
        },
        None => None,
    }
}

/// The number in a variable, where it holds one that is at most `max`.
fn read_number(value: &Option<String>, max: u64) -> (r: Option<u64>)
    ensures
        match r {
            Some(n) => n <= max && env_number(*value, max as nat) == Some(n as nat),
            None => env_number(*value, max as nat) is None,
        },
{
    match value {
        Some(s) => {
            if s.as_str().is_empty() {
                return None;
            }
            let chars = text::to_chars(s.as_str());
            text::parse_number(chars.as_slice(), max)
        },
        None => None,
    }
}

/// The truth value in a variable, where it holds one.
fn read_bool(value: &Option<String>) -> (r: Option<bool>)
    ensures
        r == env_bool(*value),
{
    match value {
        Some(s) => {
            if s.as_str().is_empty() {
                None
            } else if text::str_eq(s.as_str(), "true") {
                Some(true)
            } else if text::str_eq(s.as_str(), "false") {
                Some(false)
            } else {
                None
            }
        },
        None => None,
    }
}

/// The list in a variable.
fn read_list(value: &Option<String>) -> (r: Vec<String>)
    ensures
        text::views(r@) == env_list(*value),
{
    let mut items: Vec<String> = Vec::new();
    assert(text::views(items@) =~= Seq::empty());
    match value {
        Some(s) => {
            if s.as_str().is_empty() {
                return items;
            }
            let chars = text::to_chars(s.as_str());
            let parts = text::split_char(chars.as_slice(), ',');
            let ghost all = text::slice_views(parts@);
            let mut i: usize = 0;
            assert(all.take(0) =~= Seq::empty());
            while i < parts.len()
                invariant
                    all == text::slice_views(parts@),
                    i <= parts@.len(),
                    text::views(items@) == list_items(all.take(i as int)),
                decreases parts@.len() - i,
            {
                assert(all.take(i + 1).drop_last() =~= all.take(i as int));
                assert(all[i as int] == parts@[i as int]@);
                let item = text::trim(parts[i]);
                if item.len() > 0 {
                    let ghost before = text::views(items@);
                    items.push(text::from_chars(item));
                    assert(text::views(items@) =~= before.push(item@));
                }
                i = i + 1;
            }
            assert(all.take(all.len() as int) =~= all);
            items
        },
        None => items,
    }
}

// ---- Resolution -------------------------------------------------------------

/// A setting, else its fallback.
pub open spec fn or_else<T>(value: Option<T>, fallback: Option<T>) -> Option<T> {
    match value {
        Some(v) => Some(v),
        None => fallback,
    }
}

/// The names of channels.
pub open spec fn entry_names(entries: Seq<ChannelEntry>) -> Seq<Seq<char>> {
    Seq::new(entries.len(), |i: int| entries[i].name@)
}

/// A string setting, else its variable.
fn pick_string(value: Option<String>, variable: &Option<String>) -> (r: Option<String>)
    ensures
        text::opt_view(r) == or_else(text::opt_view(value), env_value(*variable)),
{
    match value {
        Some(s) => Some(s),
        None => read_value(variable),
    }
}

/// A list setting, else its variable.
fn pick_list(value: Vec<String>, variable: &Option<String>) -> (r: Vec<String>)
    ensures
        text::views(r@) == (if value@.len() > 0 {
            text::views(value@)
        } else {
            env_list(*variable)
        }),
{
    if value.len() > 0 {
        value
    } else {
        read_list(variable)
    }
}

/// A truth setting, else its variable.
fn pick_bool(value: Option<bool>, variable: &Option<String>) -> (r: Option<bool>)
    ensures
        r == or_else(value, env_bool(*variable)),
{
    match value {
        Some(b) => Some(b),
        None => read_bool(variable),
    }
}

/// The channels of the list in a variable, without settings of their own.
fn channels_in(variable: &Option<String>) -> (entries: Vec<ChannelEntry>)
    ensures
        entry_names(entries@) == env_list(*variable),
        forall|i: int| 0 <= i < entries@.len() ==> (#[trigger] entries@[i]).mention_required is None,
{
    let names = read_list(variable);
    let ghost all = text::views(names@);
    let mut entries: Vec<ChannelEntry> = Vec::new();
    let mut i: usize = 0;
    while i < names.len()
        invariant
            all == text::views(names@),
            i <= names@.len(),
            entries@.len() == i,
            forall|j: int|
                0 <= j < i ==> (#[trigger] entries@[j]).name@ == all[j]
                    && entries@[j].mention_required is None,
        decreases names@.len() - i,
    {
        entries.push(ChannelEntry { name: names[i].clone(), mention_required: None });
        i = i + 1;
    }
    assert(entry_names(entries@) =~= all);
    entries
}

impl Default for IrcConfig {
    fn default() -> (cfg: IrcConfig)
        ensures
            cfg.server is None,
            cfg.port is None,
            cfg.tls is None,
            cfg.nick is None,
            cfg.username is None,
            cfg.realname is None,
            cfg.server_password is None,
            cfg.nickserv_password is None,
            cfg.channels@.len() == 0,
            cfg.mention_required is None,
            cfg.allowed_users@.len() == 0,
            cfg.humans@.len() == 0,
            cfg.backend is None,
            cfg.max_bot_turns is None,
            cfg.context_window is None,
            cfg.ack is None,
            cfg.debounce_ms is None,
            cfg.sessions.idle_minutes == session::DEFAULT_IDLE_MINUTES,
            cfg.sessions.reset_users@.len() == 0,
    {
        IrcConfig {
            server: None,
            port: None,
            tls: None,
            nick: None,
            username: None,
            realname: None,
            server_password: None,
            nickserv_password: None,
            channels: Vec::new(),
            mention_required: None,
            allowed_users: Vec::new(),
            humans: Vec::new(),
            backend: None,
            max_bot_turns: None,
            context_window: None,
            ack: None,
            debounce_ms: None,
            sessions: SessionsConfig::default(),
        }
    }
}

impl Default for IrcEnv {
    fn default() -> (env: IrcEnv)
        ensures
            env.server is None,
            env.port is None,
            env.tls is None,
            env.nick is None,
            env.username is None,
            env.realname is None,
            env.server_password is None,
            env.nickserv_password is None,
            env.channels is None,
            env.mention_required is None,
            env.allowed_users is None,
            env.humans is None,
            env.backend is None,
            env.max_bot_turns is None,
            env.context_window is None,
            env.ack is None,
            env.debounce_ms is None,
    {
        IrcEnv {
            server: None,
            port: None,
            tls: None,
            nick: None,
            username: None,
            realname: None,
            server_password: None,
            nickserv_password: None,
            channels: None,
            mention_required: None,
            allowed_users: None,
            humans: None,
            backend: None,
            max_bot_turns: None,
            context_window: None,
            ack: None,
            debounce_ms: None,
        }
    }
}

/// The mention setting of the first entry for `channel`, names compared without
/// regard to ASCII case.
pub open spec fn channel_setting(entries: Seq<ChannelEntry>, channel: Seq<char>) -> Option<bool>
    decreases entries.len(),
{
    if entries.len() == 0 {
        None
    } else if text::same_ignoring_case(entries[0].name@, channel) {
        entries[0].mention_required
    } else {
        channel_setting(entries.skip(1), channel)
    }
}

impl IrcConfig {
    /// Fills every field that is not set from the environment. A field that is set
    /// keeps its value, whatever the environment holds.
    pub fn with_env_fallbacks(self, env: &IrcEnv) -> (cfg: IrcConfig)
        ensures
            text::opt_view(cfg.server) == or_else(text::opt_view(self.server), env_value(env.server)),
            self.port is Some ==> cfg.port == self.port,
            self.port is None ==> (match cfg.port {
                Some(n) => env_number(env.port, u16::MAX as nat) == Some(n as nat),
                None => env_number(env.port, u16::MAX as nat) is None,
            }),
            cfg.tls == or_else(self.tls, env_bool(env.tls)),
            text::opt_view(cfg.nick) == or_else(text::opt_view(self.nick), env_value(env.nick)),
            text::opt_view(cfg.username) == or_else(
                text::opt_view(self.username),
                env_value(env.username),
            ),
            text::opt_view(cfg.realname) == or_else(
                text::opt_view(self.realname),
                env_value(env.realname),
            ),
            text::opt_view(cfg.server_password) == or_else(
                text::opt_view(self.server_password),
                env_value(env.server_password),
            ),
            text::opt_view(cfg.nickserv_password) == or_else(
                text::opt_view(self.nickserv_password),
                env_value(env.nickserv_password),
            ),
            self.channels@.len() > 0 ==> cfg.channels == self.channels,
            self.channels@.len() == 0 ==> entry_names(cfg.channels@) == env_list(env.channels)
                && forall|i: int|
                0 <= i < cfg.channels@.len() ==> (
                #[trigger] cfg.channels@[i]).mention_required is None,
            cfg.mention_required == or_else(self.mention_required, env_bool(env.mention_required)),
            text::views(cfg.allowed_users@) == (if self.allowed_users@.len() > 0 {
                text::views(self.allowed_users@)
            } else {
                env_list(env.allowed_users)
            }),
            text::views(cfg.humans@) == (if self.humans@.len() > 0 {
                text::views(self.humans@)
            } else {
                env_list(env.humans)
            }),
            text::opt_view(cfg.backend) == or_else(
                text::opt_view(self.backend),
                env_value(env.backend),
            ),
            self.max_bot_turns is Some ==> cfg.max_bot_turns == self.max_bot_turns,
            self.max_bot_turns is None ==> (match cfg.max_bot_turns {
                Some(n) => env_number(env.max_bot_turns, u32::MAX as nat) == Some(n as nat),
                None => env_number(env.max_bot_turns, u32::MAX as nat) is None,
            }),
            self.context_window is Some ==> cfg.context_window == self.context_window,
            self.context_window is None ==> (match cfg.context_window {
                Some(n) => env_number(env.context_window, usize::MAX as nat) == Some(n as nat),
                None => env_number(env.context_window, usize::MAX as nat) is None,
            }),
            cfg.ack == or_else(self.ack, env_bool(env.ack)),
            self.debounce_ms is Some ==> cfg.debounce_ms == self.debounce_ms,
            self.debounce_ms is None ==> (match cfg.debounce_ms {
                Some(n) => env_number(env.debounce_ms, u64::MAX as nat) == Some(n as nat),
                None => env_number(env.debounce_ms, u64::MAX as nat) is None,
            }),
            cfg.sessions == self.sessions,
    {
        let port = match self.port {
            Some(n) => Some(n),
            None => match read_number(&env.port, u16::MAX as u64) {
                Some(n) => Some(n as u16),
                None => None,
            },
        };
        let max_bot_turns = match self.max_bot_turns {
            Some(n) => Some(n),
            None => match read_number(&env.max_bot_turns, u32::MAX as u64) {
                Some(n) => Some(n as u32),
                None => None,
            },
        };
        let context_window = match self.context_window {
            Some(n) => Some(n),
            None => match read_number(&env.context_window, usize::MAX as u64) {
                Some(n) => Some(n as usize),
                None => None,
            },
        };
        let debounce_ms = match self.debounce_ms {
            Some(n) => Some(n),
            None => read_number(&env.debounce_ms, u64::MAX),
        };
        let channels = if self.channels.len() > 0 {
            self.channels
        } else {
            channels_in(&env.channels)
        };
        IrcConfig {
            server: pick_string(self.server, &env.server),
            port,
            tls: pick_bool(self.tls, &env.tls),
            nick: pick_string(self.nick, &env.nick),
            username: pick_string(self.username, &env.username),
            realname: pick_string(self.realname, &env.realname),
            server_password: pick_string(self.server_password, &env.server_password),
            nickserv_password: pick_string(self.nickserv_password, &env.nickserv_password),
            channels,
            mention_required: pick_bool(self.mention_required, &env.mention_required),
            allowed_users: pick_list(self.allowed_users, &env.allowed_users),
            humans: pick_list(self.humans, &env.humans),
            backend: pick_string(self.backend, &env.backend),
            max_bot_turns,
            context_window,
            ack: pick_bool(self.ack, &env.ack),
            debounce_ms,
            sessions: self.sessions,
        }
    }

    /// Whether to connect over TLS; true unless set.
    pub fn tls(&self) -> (b: bool)
        ensures
            b == (self.tls != Some(false)),
    {
        match self.tls {
            Some(b) => b,
            None => true,
        }
    }

    /// The port; `DEFAULT_PORT` unless set.
    pub fn effective_port(&self) -> (n: u16)
        ensures
            n == (match self.port {
                Some(n) => n,
                None => DEFAULT_PORT,
            }),
    {
        match self.port {
            Some(n) => n,
            None => DEFAULT_PORT,
        }
    }

    /// The cap on consecutive bot turns; `DEFAULT_MAX_BOT_TURNS` unless set.
    pub fn effective_max_bot_turns(&self) -> (n: u32)
        ensures
            n == (match self.max_bot_turns {
                Some(n) => n,
                None => DEFAULT_MAX_BOT_TURNS,
            }),
    {
        match self.max_bot_turns {
            Some(n) => n,
            None => DEFAULT_MAX_BOT_TURNS,
        }
    }

    /// The number of ambient messages that are kept; `DEFAULT_CONTEXT_WINDOW` unless set.
    pub fn effective_context_window(&self) -> (n: usize)
        ensures
            n == (match self.context_window {
                Some(n) => n,
                None => DEFAULT_CONTEXT_WINDOW,
            }),
    {
        match self.context_window {
            Some(n) => n,
            None => DEFAULT_CONTEXT_WINDOW,
        }
    }

    /// Whether a message that is picked up is acknowledged; true unless set.
    pub fn effective_ack(&self) -> (b: bool)
        ensures
            b == (self.ack != Some(false)),
    {
        match self.ack {
            Some(b) => b,
            None => true,
        }
    }

    /// The milliseconds in which further lines of a burst are awaited;
    /// `DEFAULT_DEBOUNCE_MS` unless set, and none at all where it is zero.
    pub fn effective_debounce(&self) -> (ms: u64)
        ensures
            ms == (match self.debounce_ms {
                Some(ms) => ms,
                None => DEFAULT_DEBOUNCE_MS,
            }),
    {
        match self.debounce_ms {
            Some(ms) => ms,
            None => DEFAULT_DEBOUNCE_MS,
        }
    }

    /// The user name, else the nick, else nothing.
    pub fn effective_username(&self) -> (s: String)
        ensures
            s@ == (match or_else(text::opt_view(self.username), text::opt_view(self.nick)) {
                Some(name) => name,
                None => Seq::empty(),
            }),
    {
        match &self.username {
            Some(name) => name.clone(),
            None => match &self.nick {
                Some(nick) => nick.clone(),
                None => String::new(),
            },
        }
    }

    /// The real name, else the nick, else nothing.
    pub fn effective_realname(&self) -> (s: String)
        ensures
            s@ == (match or_else(text::opt_view(self.realname), text::opt_view(self.nick)) {
                Some(name) => name,
                None => Seq::empty(),
            }),
    {
        match &self.realname {
            Some(name) => name.clone(),
            None => match &self.nick {
                Some(nick) => nick.clone(),
                None => String::new(),
            },
        }
    }

    /// Whether a message in `channel` has to address the bot: the channel's own
    /// setting, else the global one, else true.
    pub fn mention_required_for(&self, channel: &str) -> (b: bool)
        ensures
            b == (match or_else(
                channel_setting(self.channels@, channel@),
                self.mention_required,
            ) {
                Some(required) => required,
                None => true,
            }),
    {
        let mut i: usize = 0;
        let mut setting: Option<bool> = None;
        assert(self.channels@.skip(0) =~= self.channels@);
        while i < self.channels.len()
            invariant_except_break
                i <= self.channels@.len(),
                setting is None,
                channel_setting(self.channels@, channel@) == channel_setting(
                    self.channels@.skip(i as int),
                    channel@,
                ),
            ensures
                setting == channel_setting(self.channels@, channel@),
            decreases self.channels@.len() - i,
        {
            assert(self.channels@.skip(i as int).skip(1) =~= self.channels@.skip(i + 1));
            if text::str_eq_ignore_case(self.channels[i].name.as_str(), channel) {
                setting = self.channels[i].mention_required;
                break;
            }
            i = i + 1;
        }
        match setting {
            Some(required) => required,
            None => match self.mention_required {
                Some(required) => required,
                None => true,
            },
        }
    }

    /// The channels to join, in their order.
    pub fn channel_names(&self) -> (names: Vec<String>)
        ensures
            text::views(names@) == entry_names(self.channels@),
    {
        let mut names: Vec<String> = Vec::new();
        let mut i: usize = 0;
        while i < self.channels.len()
            invariant
                i <= self.channels@.len(),
                names@.len() == i,
                forall|j: int| 0 <= j < i ==> (#[trigger] names@[j])@ == self.channels@[j].name@,
            decreases self.channels@.len() - i,
        {
            names.push(self.channels[i].name.clone());
            i = i + 1;
        }
        assert(text::views(names@) =~= entry_names(self.channels@));
        names
    }
}

/// Whether `list` holds `nick`, up to the case of ASCII letters.
pub open spec fn lists_nick(list: Seq<String>, nick: Seq<char>) -> bool {
    exists|i: int| 0 <= i < list.len() && text::same_ignoring_case(#[trigger] list[i]@, nick)
}

/// Whether `list` holds `nick`, up to the case of ASCII letters.
pub fn contains_nick(list: &[String], nick: &str) -> (b: bool)
    ensures
        b == lists_nick(list@, nick@),
{
    let mut i: usize = 0;
    while i < list.len()
        invariant
            i <= list@.len(),
            forall|j: int| 0 <= j < i ==> !text::same_ignoring_case(#[trigger] list@[j]@, nick@),
        decreases list@.len() - i,
    {
        if text::str_eq_ignore_case(list[i].as_str(), nick) {
            return true;
        }
        i = i + 1;
    }
    false
}

/// Whether `nick` may send direct messages: an empty list permits anyone.
pub fn dm_authorized(nick: &str, allowed: &[String]) -> (b: bool)
    ensures
        b == (allowed@.len() == 0 || lists_nick(allowed@, nick@)),
{
    allowed.len() == 0 || contains_nick(allowed, nick)
}

} // verus!
