//! Where messages and reactions are sent, and how failures are told.

use vstd::prelude::*;
use vstd::string::*;

verus! {

/// The address of the API.
pub const API: &'static str = "https://discord.com/api/v10";

/// How often a request is made.
pub const ATTEMPTS: usize = 3;

/// The time, in milliseconds, between two attempts.
pub const RETRY_MS: u64 = 100;

/// What is said when a request could not be completed.
pub const FAILURE_TEXT: &'static str = "Sorry, I couldn't complete that request. Please try again.";

/// The reaction where not even that can be said.
pub const WARNING: &'static str = "⚠️";

/// Whether a request is made again, after the `attempt`th time, counted from zero.
pub fn tries_again(attempt: usize) -> (b: bool)
    ensures
        b == (attempt + 1 < ATTEMPTS),
{
    attempt < ATTEMPTS - 1
}

/// The address of a channel's messages.
pub fn messages_url(base: &str, channel: &str) -> (url: String)
    ensures
        url@ == base@ + "/channels/"@ + channel@ + "/messages"@,
{
    let mut url = base.to_owned();
    url.append("/channels/");
    url.append(channel);
    url.append("/messages");
    url
}

/// The address of a message.
pub fn message_url(base: &str, channel: &str, message: &str) -> (url: String)
    ensures
        url@ == base@ + "/channels/"@ + channel@ + "/messages/"@ + message@,
{
    let mut url = base.to_owned();
    url.append("/channels/");
    url.append(channel);
    url.append("/messages/");
    url.append(message);
    url
}

/// The address of the bot's own reaction to a message.
pub fn reaction_url(base: &str, channel: &str, message: &str, emoji: &str) -> (url: String)
    ensures
        url@ == base@ + "/channels/"@ + channel@ + "/messages/"@ + message@ + "/reactions/"@
            + emoji@ + "/@me"@,
{
    let mut url = message_url(base, channel, message);
    url.append("/reactions/");
    url.append(emoji);
    url.append("/@me");
    url
}

} // verus!
