//! Tools that the agent may use.

use crate::json;
use crate::json::{Json, JsonView};
use crate::slack::addressing;
use crate::slack::config::SlackConfig;
use crate::slack::mrkdwn;
use crate::text;
use vstd::prelude::*;
use vstd::string::*;

verus! {

/// The most bytes of a message that is sent on request.
pub const MAX_TEXT: usize = 40_000;

/// The most results of a listing.
pub const MAX_RESULTS: usize = 200;

/// The most bytes of one message.
pub const MESSAGE_BYTES: usize = 3_900;

/// The tools.
#[derive(Clone, Copy, Debug, PartialEq, Eq, Structural)]
pub enum ToolKind {
    Send,
    Users,
    Channels,
}

impl ToolKind {
    /// The name of the tool.
    pub fn name(&self) -> (name: &'static str)
        ensures
            name@ == (match *self {
                ToolKind::Send => "slack_send_message"@,
                ToolKind::Users => "slack_list_users"@,
                ToolKind::Channels => "slack_list_channels"@,
            }),
    {
        match self {
            ToolKind::Send => "slack_send_message",
            ToolKind::Users => "slack_list_users",
            ToolKind::Channels => "slack_list_channels",
        }
    }
}

/// How many results a listing is asked for.
pub fn limit(args: &Json) -> (n: usize)
    ensures
        n == (match json::unsigned_of(json::member(args@, "limit"@)) {
            Some(k) => if k < 1 {
                1
            } else if k > MAX_RESULTS {
                MAX_RESULTS as nat
            } else {
                k
            },
            None => 100,
        }),
{
    match args.get_unsigned("limit") {
        Some(n) => if n < 1 {
            1
        } else if n > 200 {
            MAX_RESULTS
        } else {
            n as usize
        },
        None => 100,
    }
}

/// The query of a listing: trimmed, and none where it is empty or too long.
pub open spec fn listing_query(args: JsonView) -> Option<Seq<char>> {
    match json::text_member(args, "query"@) {
        Some(s) => if 0 < text::utf8_units(text::trimmed(s)) <= 256 {
            Some(text::trimmed(s))
        } else {
            None
        },
        None => None,
    }
}

/// The query of a listing.
pub fn query(args: &Json) -> (r: Option<String>)
    ensures
        text::opt_view(r) == listing_query(args@),
{
    match args.get_text("query") {
        Some(s) => {
            let chars = text::to_chars(s);
            let trimmed = text::from_chars(text::trim(chars.as_slice()));
            let size: usize = text::byte_len(trimmed.as_str());
            if size > 0 && size <= 256 {
                Some(trimmed)
            } else {
                None
            }
        },
        None => None,
    }
}

/// Whether `s` consists of ASCII letters and digits.
pub open spec fn alphanumeric(s: Seq<char>) -> bool {
    forall|i: int| 0 <= i < s.len() ==> text::is_ascii_alnum(#[trigger] s[i])
}

/// Whether a text has the form of an id.
pub open spec fn is_id(s: Seq<char>) -> bool {
    text::utf8_units(s) <= 32 && alphanumeric(s)
}

fn all_alphanumeric(s: &[char]) -> (b: bool)
    ensures
        b == alphanumeric(s@),
{
    let mut i: usize = 0;
    while i < s.len()
        invariant
            i <= s@.len(),
            forall|j: int| 0 <= j < i ==> text::is_ascii_alnum(#[trigger] s@[j]),
        decreases s@.len() - i,
    {
        if !text::is_ascii_alphanumeric(s[i]) {
            return false;
        }
        i = i + 1;
    }
    true
}

/// Whether a text has the form of an id.
pub fn valid_id(value: &str) -> (b: bool)
    ensures
        b == is_id(value@),
{
    let chars = text::to_chars(value);
    text::byte_len(value) <= 32 && all_alphanumeric(chars.as_slice())
}

/// Whether a text has the form of a timestamp: digits, a point and digits.
pub open spec fn is_timestamp(s: Seq<char>) -> bool {
    let point = text::next_at(s, '.', 0);
    text::utf8_units(s) <= 32 && 0 < point < s.len() - 1 && text::digits_only(s.take(point))
        && text::digits_only(s.skip(point + 1))
}

/// Whether a text has the form of a timestamp.
pub fn valid_timestamp(value: &str) -> (b: bool)
    ensures
        b == is_timestamp(value@),
{
    let chars = text::to_chars(value);
    let s = chars.as_slice();
    let point: usize = text::find_char(s, '.', 0);
    text::byte_len(value) <= 32 && point > 0 && point < s.len() && point < s.len() - 1
        && text::all_digits(text::take(s, point)) && text::all_digits(text::skip(s, point + 1))
}

/// Whether `s` begins with `c`.
pub open spec fn begins(s: Seq<char>, c: char) -> bool {
    s.len() > 0 && s[0] == c
}

/// Whether messages may be sent to a channel or a direct conversation. Whose a
/// direct conversation is cannot be seen, so none is permitted where users are
/// listed.
pub open spec fn may_send(config: SlackConfig, channel: Seq<char>) -> bool {
    if begins(channel, 'D') {
        config.dm.enabled && config.dm.users@.len() == 0
    } else {
        config.channels@.contains_key(channel) || config.channels@ == Map::<
            Seq<char>,
            crate::slack::config::ChannelConfig,
        >::empty()
    }
}

/// Whether messages may be sent to a channel or a direct conversation.
pub fn outbound_allowed(config: &SlackConfig, channel: &str) -> (b: bool)
    ensures
        b == may_send(*config, channel@),
{
    let chars = text::to_chars(channel);
    if chars.len() > 0 && chars[0] == 'D' {
        config.dm.enabled && config.dm.users.len() == 0
    } else {
        config.channels.is_empty() || config.channels.contains(channel)
    }
}

/// Why a message is not sent.
#[derive(Clone, Copy, Debug, PartialEq, Eq, Structural)]
pub enum SendError {
    InvalidChannel,
    InvalidText,
    InvalidThread,
    UserNotAllowed,
    DestinationNotAllowed,
}

impl SendError {
    /// The code of the error.
    pub fn code(&self) -> (code: &'static str)
        ensures
            code@ == (match *self {
                SendError::UserNotAllowed => "not_allowed"@,
                SendError::DestinationNotAllowed => "not_allowed"@,
                _ => "invalid_args"@,
            }),
    {
        match self {
            SendError::UserNotAllowed => "not_allowed",
            SendError::DestinationNotAllowed => "not_allowed",
            _ => "invalid_args",
        }
    }

    /// What is wrong.
    pub fn message(&self) -> (text: &'static str)
        ensures
            text@ == (match *self {
                SendError::InvalidChannel => "slack_send_message requires Slack channel id"@,
                SendError::InvalidText => {
                    "slack_send_message requires non-empty text up to 40000 bytes"@
                },
                SendError::InvalidThread => "slack_send_message thread_ts must be Slack timestamp"@,
                SendError::UserNotAllowed => "Slack user is not allowed by extension config"@,
                SendError::DestinationNotAllowed => {
                    "Slack destination not allowed by extension config"@
                },
            }),
    {
        match self {
            SendError::InvalidChannel => "slack_send_message requires Slack channel id",
            SendError::InvalidText => {
                "slack_send_message requires non-empty text up to 40000 bytes"
            },
            SendError::InvalidThread => "slack_send_message thread_ts must be Slack timestamp",
            SendError::UserNotAllowed => "Slack user is not allowed by extension config",
            SendError::DestinationNotAllowed => {
                "Slack destination not allowed by extension config"
            },
        }
    }
}

/// A message that may be sent.
#[derive(Clone, Debug, PartialEq, Eq)]
pub struct SendPlan {
    /// A channel or a direct conversation, or a user to whom one has to be opened.
    pub channel: String,
    pub is_user: bool,
    /// The parts in which it is sent.
    pub parts: Vec<String>,
    pub thread_ts: Option<String>,
}

/// What a request to send asks for.
#[verifier::ext_equal]
pub struct SendView {
    pub channel: Seq<char>,
    pub is_user: bool,
    pub parts: Seq<Seq<char>>,
    pub thread_ts: Option<Seq<char>>,
}

impl View for SendPlan {
    type V = SendView;

    open spec fn view(&self) -> SendView {
        SendView {
            channel: self.channel@,
            is_user: self.is_user,
            parts: text::views(self.parts@),
            thread_ts: text::opt_view(self.thread_ts),
        }
    }
}

/// The thread that a request to send names: under one of two names, the first of
/// which counts.
pub open spec fn named_thread(args: JsonView) -> Option<Seq<char>> {
    match json::member(args, "threadTs"@) {
        Some(value) => json::text_of(Some(value)),
        None => json::text_member(args, "thread_ts"@),
    }
}

/// What a request to send asks for, or why it is refused.
pub open spec fn requested_send(config: SlackConfig, args: JsonView) -> Result<SendView, SendError> {
    let channel = json::text_member(args, "channel"@);
    let body = json::text_member(args, "text"@);
    let thread = named_thread(args);
    if channel is None || !is_id(channel->0) {
        Err(SendError::InvalidChannel)
    } else if body is None || !(0 < text::utf8_units(text::trimmed(body->0)) <= MAX_TEXT) {
        Err(SendError::InvalidText)
    } else if thread is Some && !is_timestamp(thread->0) {
        Err(SendError::InvalidThread)
    } else if begins(channel->0, 'U') && !(config.dm.enabled && addressing::permits(
        text::views(config.dm.users@),
        channel->0,
    )) {
        Err(SendError::UserNotAllowed)
    } else if !begins(channel->0, 'U') && !may_send(config, channel->0) {
        Err(SendError::DestinationNotAllowed)
    } else {
        Ok(
            SendView {
                channel: channel->0,
                is_user: begins(channel->0, 'U'),
                parts: mrkdwn::chunked(
                    mrkdwn::rendered(text::trimmed(body->0)),
                    MESSAGE_BYTES as nat,
                ),
                thread_ts: thread,
            },
        )
    }
}

fn find_named_thread(args: &Json) -> (r: Option<String>)
    ensures
        text::opt_view(r) == named_thread(args@),
{
    let value = match args.get("threadTs") {
        Some(value) => value,
        None => match args.get("thread_ts") {
            Some(value) => value,
            None => {
                return None;
            },
        },
    };
    match value {
        Json::Text(s) => Some(s.as_str().to_owned()),
        _ => None,
    }
}

/// What a request to send asks for, or why it is refused.
pub fn check_send(config: &SlackConfig, args: &Json) -> (r: Result<SendPlan, SendError>)
    ensures
        match r {
            Ok(plan) => requested_send(*config, args@) == Ok::<SendView, SendError>(plan@),
            Err(e) => requested_send(*config, args@) == Err::<SendView, SendError>(e),
        },
{
    let channel = match args.get_text("channel") {
        Some(channel) => channel,
        None => {
            return Err(SendError::InvalidChannel);
        },
    };
    if !valid_id(channel) {
        return Err(SendError::InvalidChannel);
    }
    let body = match args.get_text("text") {
        Some(body) => text::to_chars(body),
        None => {
            return Err(SendError::InvalidText);
        },
    };
    let trimmed = text::from_chars(text::trim(body.as_slice()));
    let size: usize = text::byte_len(trimmed.as_str());
    if size == 0 || size > MAX_TEXT {
        return Err(SendError::InvalidText);
    }
    let thread_ts = find_named_thread(args);
    if let Some(ts) = &thread_ts {
        if !valid_timestamp(ts.as_str()) {
            return Err(SendError::InvalidThread);
        }
    }
    let chars = text::to_chars(channel);
    let is_user = chars.len() > 0 && chars[0] == 'U';
    if is_user {
        if !config.dm.enabled || !addressing::allowed(config.dm.users.as_slice(), channel) {
            return Err(SendError::UserNotAllowed);
        }
    } else if !outbound_allowed(config, channel) {
        return Err(SendError::DestinationNotAllowed);
    }
    let parts = mrkdwn::chunk(mrkdwn::render(trimmed.as_str()).as_str(), MESSAGE_BYTES);
    Ok(SendPlan { channel: channel.to_owned(), is_user, parts, thread_ts })
}

/// What is said of a message that was sent.
pub fn sent_text(channel: &str, ts: &str) -> (text: String)
    ensures
        text@ == "sent Slack message to "@ + channel@ + " at "@ + ts@,
{
    let mut text = "sent Slack message to ".to_owned();
    text.append(channel);
    text.append(" at ");
    text.append(ts);
    text
}

/// A message that may be sent has at least one part, and each fits a message.
pub proof fn sends_have_fitting_parts(config: SlackConfig, args: JsonView)
    requires
        requested_send(config, args) is Ok,
    ensures
        ({
            let parts = requested_send(config, args)->Ok_0.parts;
            &&& parts.len() >= 1
            &&& forall|i: int|
                0 <= i < parts.len() ==> text::utf8_units(#[trigger] parts[i]) <= MESSAGE_BYTES
        }),
{
    let body = text::trimmed(json::text_member(args, "text"@)->0);
    let shown = mrkdwn::rendered(body);
    let parts = requested_send(config, args)->Ok_0.parts;
    mrkdwn::chunks_make_up_the_text(shown, MESSAGE_BYTES as nat);
    assert forall|i: int| 0 <= i < parts.len() implies text::utf8_units(#[trigger] parts[i])
        <= MESSAGE_BYTES by {
        mrkdwn::chunks_fit_a_wide_limit(shown, MESSAGE_BYTES as nat, i);
    }
}

} // verus!
