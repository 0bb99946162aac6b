//! The tool by which the agent sends messages.

use crate::discord::config::{DiscordConfig, GuildConfig};
use crate::json;
use crate::json::{Json, JsonView};
use crate::text;
use vstd::prelude::*;
use vstd::string::*;

verus! {

/// The most characters of a message that is sent on request.
pub const MAX_TEXT: usize = 2_000;

/// Whether a text has the form of an id.
pub open spec fn is_snowflake(s: Seq<char>) -> bool {
    0 < s.len() <= 20 && text::digits_only(s)
}

/// Whether a text has the form of an id.
pub fn snowflake(value: &str) -> (b: bool)
    ensures
        b == is_snowflake(value@),
{
    let chars = text::to_chars(value);
    chars.len() > 0 && chars.len() <= 20 && text::all_digits(chars.as_slice())
}

/// Whom a message is for.
#[derive(Clone, Debug, PartialEq, Eq)]
pub enum Target {
    /// A channel, by its id or its name.
    Channel(String),
    /// A user, by id.
    User(String),
}

/// Whom a message is for.
pub enum TargetView {
    Channel(Seq<char>),
    User(Seq<char>),
}

impl View for Target {
    type V = TargetView;

    open spec fn view(&self) -> TargetView {
        match self {
            Target::Channel(s) => TargetView::Channel(s@),
            Target::User(s) => TargetView::User(s@),
        }
    }
}

/// A message that is asked for.
#[derive(Clone, Debug, PartialEq, Eq)]
pub struct SendRequest {
    pub text: String,
    pub target: Target,
}

/// Why a message is not sent.
#[derive(Clone, Copy, Debug, PartialEq, Eq, Structural)]
pub enum SendError {
    InvalidText,
    /// Not exactly one target is named.
    NoSingleTarget,
    /// A user is not named by an id.
    InvalidUser,
}

impl SendError {
    /// The code of the error.
    pub fn code(&self) -> (code: &'static str)
        ensures
            code@ == (match *self {
                SendError::InvalidUser => "invalid_target"@,
                _ => "invalid_args"@,
            }),
    {
        match self {
            SendError::InvalidUser => "invalid_target",
            _ => "invalid_args",
        }
    }

    /// What is wrong.
    pub fn message(&self) -> (text: &'static str)
        ensures
            text@ == (match *self {
                SendError::InvalidText => {
                    "discord_send_message requires non-empty text up to 2000 characters"@
                },
                SendError::NoSingleTarget => {
                    "discord_send_message requires exactly one of channel or user"@
                },
                SendError::InvalidUser => {
                    "Discord target invalid: Discord user must be a numeric user ID"@
                },
            }),
    {
        match self {
            SendError::InvalidText => {
                "discord_send_message requires non-empty text up to 2000 characters"
            },
            SendError::NoSingleTarget => {
                "discord_send_message requires exactly one of channel or user"
            },
            SendError::InvalidUser => {
                "Discord target invalid: Discord user must be a numeric user ID"
            },
        }
    }
}

/// A field's text, trimmed, where something is left of it.
pub open spec fn trimmed_field(args: JsonView, name: Seq<char>) -> Option<Seq<char>> {
    match json::text_member(args, name) {
        Some(s) => if text::trimmed(s).len() > 0 {
            Some(text::trimmed(s))
        } else {
            None
        },
        None => None,
    }
}

/// What a request asks for, or why it is refused.
pub open spec fn requested(args: JsonView) -> Result<(Seq<char>, TargetView), SendError> {
    match trimmed_field(args, "text"@) {
        Some(body) => if body.len() > MAX_TEXT {
            Err(SendError::InvalidText)
        } else {
            match (trimmed_field(args, "channel"@), trimmed_field(args, "user"@)) {
                (Some(channel), None) => Ok((body, TargetView::Channel(channel))),
                (None, Some(user)) => if is_snowflake(user) {
                    Ok((body, TargetView::User(user)))
                } else {
                    Err(SendError::InvalidUser)
                },
                _ => Err(SendError::NoSingleTarget),
            }
        },
        None => Err(SendError::InvalidText),
    }
}

fn read_trimmed(args: &Json, name: &str) -> (r: Option<Vec<char>>)
    ensures
        match r {
            Some(s) => trimmed_field(args@, name@) == Some(s@),
            None => trimmed_field(args@, name@) is None,
        },
{
    match args.get_text(name) {
        Some(s) => {
            let chars = text::to_chars(s);
            let trimmed = text::trim(chars.as_slice());
            if trimmed.len() > 0 {
                Some(text::copy_chars(trimmed))
            } else {
                None
            }
        },
        None => None,
    }
}

/// What a request asks for, or why it is refused.
pub fn check_send(args: &Json) -> (r: Result<SendRequest, SendError>)
    ensures
        match r {
            Ok(request) => requested(args@) == Ok::<(Seq<char>, TargetView), SendError>(
                (request.text@, request.target@),
            ),
            Err(e) => requested(args@) == Err::<(Seq<char>, TargetView), SendError>(e),
        },
{
    let body = match read_trimmed(args, "text") {
        Some(body) => body,
        None => {
            return Err(SendError::InvalidText);
        },
    };
    if body.len() > MAX_TEXT {
        return Err(SendError::InvalidText);
    }
    let text = text::from_chars(body.as_slice());
    match (read_trimmed(args, "channel"), read_trimmed(args, "user")) {
        (Some(channel), None) => Ok(
            SendRequest { text, target: Target::Channel(text::from_chars(channel.as_slice())) },
        ),
        (None, Some(user)) => {
            let user = text::from_chars(user.as_slice());
            if snowflake(user.as_str()) {
                Ok(SendRequest { text, target: Target::User(user) })
            } else {
                Err(SendError::InvalidUser)
            }
        },
        _ => Err(SendError::NoSingleTarget),
    }
}

// ---- Channels ---------------------------------------------------------------

/// Whether a channel with this id is listed in some guild.
pub open spec fn is_listed(config: DiscordConfig, channel: Seq<char>) -> bool {
    exists|guild: Seq<char>|
        #[trigger] config.guilds@.contains_key(guild)
            && config.guilds@[guild].channels@.contains_key(channel)
}

/// Whether a channel with this id is listed in some guild.
pub fn channel_is_listed(config: &DiscordConfig, channel: &str) -> (b: bool)
    ensures
        b == is_listed(*config, channel@),
{
    let keys = config.guilds.keys();
    let ghost all = text::views(keys@);
    let mut i: usize = 0;
    while i < keys.len()
        invariant
            all == text::views(keys@),
            forall|k: Seq<char>|
                config.guilds@.contains_key(k) <==> #[trigger] all.contains(k),
            i <= keys@.len(),
            forall|j: int|
                0 <= j < i ==> !(config.guilds@.contains_key(#[trigger] all[j])
                    && config.guilds@[all[j]].channels@.contains_key(channel@)),
        decreases keys@.len() - i,
    {
        assert(all[i as int] == keys@[i as int]@);
        if let Some(guild) = config.guilds.get(keys[i].as_str()) {
            if guild.channels.contains(channel) {
                return true;
            }
        }
        i = i + 1;
    }
    proof {
        if is_listed(*config, channel@) {
            let guild = choose|guild: Seq<char>|
                #[trigger] config.guilds@.contains_key(guild)
                    && config.guilds@[guild].channels@.contains_key(channel@);
            assert(all.contains(guild));
            let j = choose|j: int| 0 <= j < all.len() && all[j] == guild;
            assert(!(config.guilds@.contains_key(all[j])
                && config.guilds@[all[j]].channels@.contains_key(channel@)));
        }
    }
    false
}

/// The value that the body of an answer holds; `None` where it is no JSON.
pub fn read_body(text: &str) -> (r: Option<Json>)
    ensures
        match r {
            Some(value) => json::text_value(text@) == Some(value@),
            None => json::text_value(text@) is None,
        },
{
    json::parse_text(text)
}

/// `s` without the hash signs at its beginning.
pub open spec fn unhashed(s: Seq<char>) -> Seq<char> {
    s.skip(text::run_of(s, '#', 0) as int)
}

/// The ids of the listed channels of a guild that have a name.
pub open spec fn named_channels(guild: GuildConfig, channels: Seq<JsonView>, name: Seq<char>) -> Seq<
    Seq<char>,
>
    decreases channels.len(),
{
    if channels.len() == 0 {
        Seq::empty()
    } else {
        let before = named_channels(guild, channels.drop_last(), name);
        let channel = channels.last();
        match json::text_member(channel, "id"@) {
            Some(id) => if json::text_member(channel, "name"@) == Some(name)
                && guild.channels@.contains_key(id) {
                before.push(id)
            } else {
                before
            },
            None => before,
        }
    }
}

/// Adds the ids of the listed channels of a guild that have the name that `target`
/// gives.
pub fn find_named(guild: &GuildConfig, channels: &Vec<Json>, target: &str, found: &mut Vec<String>)
    ensures
        text::views(final(found)@) == text::views(old(found)@) + named_channels(
            *guild,
            json::views(channels@),
            unhashed(target@),
        ),
{
    let chars = text::to_chars(target);
    let marks: usize = text::run_len(chars.as_slice(), '#', 0);
    proof {
        text::lemma_run_of(chars@, '#', 0);
    }
    let name = text::from_chars(text::skip(chars.as_slice(), marks));
    let ghost start = text::views(found@);
    let ghost all = json::views(channels@);
    let mut i: usize = 0;
    assert(all.take(0) =~= Seq::<JsonView>::empty());
    while i < channels.len()
        invariant
            all == json::views(channels@),
            name@ == unhashed(target@),
            i <= channels@.len(),
            text::views(found@) =~= start + named_channels(
                *guild,
                all.take(i as int),
                name@,
            ),
        decreases channels@.len() - i,
    {
        assert(all.take(i + 1).drop_last() =~= all.take(i as int));
        assert(all.take(i + 1).last() == channels@[i as int]@);
        let ghost before = found@;
        if let Some(id) = channels[i].get_text("id") {
            if json::text_is(channels[i].get_text("name"), name.as_str())
                && guild.channels.contains(id) {
                found.push(id.to_owned());
                assert(text::views(found@) =~= text::views(before).push(id@));
            }
        }
        i = i + 1;
    }
    assert(all.take(i as int) =~= all);
}

/// The one channel that was found, or what is wrong.
pub fn single_match(target: &str, found: &Vec<String>) -> (r: Result<String, String>)
    ensures
        match r {
            Ok(id) => found@.len() == 1 && id@ == found@[0]@,
            Err(e) => found@.len() != 1 && e@ == (if found@.len() == 0 {
                "channel '"@ + target@ + "' was not found among configured Discord channels"@
            } else {
                "channel name '"@ + target@ + "' is ambiguous; use its Discord channel ID"@
            }),
        },
{
    if found.len() == 1 {
        return Ok(found[0].as_str().to_owned());
    }
    if found.len() == 0 {
        let mut e = "channel '".to_owned();
        e.append(target);
        e.append("' was not found among configured Discord channels");
        return Err(e);
    }
    let mut e = "channel name '".to_owned();
    e.append(target);
    e.append("' is ambiguous; use its Discord channel ID");
    Err(e)
}

/// Only listed channels are found by name.
pub proof fn found_channels_are_listed(guild: GuildConfig, channels: Seq<JsonView>, name: Seq<char>)
    ensures
        forall|i: int|
            0 <= i < named_channels(guild, channels, name).len()
                ==> guild.channels@.contains_key(
                #[trigger] named_channels(guild, channels, name)[i],
            ),
    decreases channels.len(),
{
    if channels.len() > 0 {
        found_channels_are_listed(guild, channels.drop_last(), name);
        let before = named_channels(guild, channels.drop_last(), name);
        let all = named_channels(guild, channels, name);
        assert forall|i: int| 0 <= i < all.len() implies guild.channels@.contains_key(
            #[trigger] all[i],
        ) by {
            if i < before.len() {
                assert(all[i] == before[i]);
            }
        }
    }
}

} // verus!
