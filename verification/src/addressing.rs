//! Strict addressing on IRC: a channel message is answered only where it begins
//! with the nick of the bot and a `:` or `,`.

use crate::irc::addressing;
use crate::irc::proto::PrivMsg;
use crate::text;
use vstd::prelude::*;
use vstd::string::*;

pub use crate::irc::addressing::{is_channel, Conversation, Verdict};

verus! {

/// Whether `text` begins with `nick` and a `:` or `,`.
pub open spec fn addresses(text: Seq<char>, nick: Seq<char>) -> bool {
    let t = text::trimmed_start(text);
    addressing::leads_with(t, nick) && addressing::separator_first(t.skip(nick.len() as int))
}

/// `text` without a leading address.
pub open spec fn request_of(text: Seq<char>, nick: Seq<char>) -> Seq<char> {
    let t = text::trimmed_start(text);
    if addresses(text, nick) {
        text::trimmed_start(t.skip(nick.len() as int + 1))
    } else {
        t
    }
}

/// Whether `text` begins with `bot_nick` and a `:` or `,`.
pub fn is_mention(text: &str, bot_nick: &str) -> (b: bool)
    ensures
        b == addresses(text@, bot_nick@),
{
    let chars = text::to_chars(text);
    let nick = text::to_chars(bot_nick);
    let t = text::trim_start(chars.as_slice());
    if !addressing::starts_with_nick(t, nick.as_slice()) {
        return false;
    }
    let after = text::skip(t, nick.len());
    after.len() > 0 && (after[0] == ':' || after[0] == ',')
}

/// What is done with a message, and the conversation that it belongs to.
pub fn classify(pm: &PrivMsg, bot_nick: &str) -> (r: (Verdict, Conversation))
    ensures
        r.0 == addressing::verdict_of(
            pm.sender@,
            pm.target@,
            bot_nick@,
            addresses(pm.text@, bot_nick@),
        ),
        r.1@ == addressing::conversation_of(pm.sender@, pm.target@),
{
    let conversation = addressing::find_conversation(pm);
    if text::str_eq_ignore_case(pm.sender.as_str(), bot_nick) {
        return (Verdict::Ignore, conversation);
    }
    if is_channel(pm.target.as_str()) && !is_mention(pm.text.as_str(), bot_nick) {
        (Verdict::ContextOnly, conversation)
    } else {
        (Verdict::Reply, conversation)
    }
}

/// `text` without a leading address.
pub fn strip_mention<'a>(text: &'a str, bot_nick: &str) -> (r: &'a str)
    ensures
        r@ == request_of(text@, bot_nick@),
{
    let chars = text::to_chars(text);
    let nick = text::to_chars(bot_nick);
    let t = text::trim_start(chars.as_slice());
    let mut found = t;
    if is_mention(text, bot_nick) {
        found = text::trim_start(text::skip(t, nick.len() + 1));
    }
    let n: usize = chars.len();
    let from: usize = n - found.len();
    assert(found@ =~= text@.subrange(from as int, n as int));
    text.substring_char(from, n)
}

} // verus!
