//! Outbound messages.

use crate::lines;
use crate::text;
use vstd::prelude::*;
use vstd::string::*;

verus! {

/// The most characters of a message.
pub const MAX_CHARS: usize = 4096;

/// The messages that a text is sent as: pieces of the greatest size, and one empty
/// message for an empty text.
pub open spec fn message_parts(s: Seq<char>) -> Seq<Seq<char>> {
    if s.len() == 0 {
        seq![s]
    } else {
        lines::pieces(s, MAX_CHARS as nat)
    }
}

/// The messages that a text is sent as.
pub fn chunks(text: &str) -> (list: Vec<String>)
    ensures
        text::views(list@) == message_parts(text@),
{
    let chars = text::to_chars(text);
    if chars.len() == 0 {
        let mut list: Vec<String> = Vec::new();
        list.push(text.to_owned());
        assert(text::views(list@) =~= seq![text@]);
        return list;
    }
    lines::split_pieces(chars.as_slice(), MAX_CHARS)
}

/// Nothing of a text is lost or changed when it is sent in parts, and each part
/// fits a message.
pub proof fn message_parts_make_up_the_text(s: Seq<char>)
    ensures
        text::concatenated(message_parts(s)) == s,
        message_parts(s).len() >= 1,
        forall|i: int|
            0 <= i < message_parts(s).len() ==> (#[trigger] message_parts(s)[i]).len() <= MAX_CHARS,
{
    if s.len() == 0 {
        text::lemma_concatenated_one(s);
    } else {
        lines::pieces_make_up_the_text(s, MAX_CHARS as nat);
    }
}

/// The address to which messages of a number are posted.
pub fn messages_url(phone_number_id: &str, api_version: &str) -> (url: String)
    ensures
        url@ == "https://graph.facebook.com/"@ + api_version@ + "/"@ + phone_number_id@
            + "/messages"@,
{
    let mut url = "https://graph.facebook.com/".to_owned();
    url.append(api_version);
    url.append("/");
    url.append(phone_number_id);
    url.append("/messages");
    url
}

/// One message to send.
#[derive(Clone, Debug, PartialEq, Eq)]
pub struct Outbound {
    pub body: String,
    /// The message that it replies to.
    pub reply_to: Option<String>,
}

/// What a list of messages to send holds: bodies, and what they reply to.
pub open spec fn outbound_views(list: Seq<Outbound>) -> Seq<(Seq<char>, Option<Seq<char>>)> {
    Seq::new(list.len(), |i: int| (list[i].body@, text::opt_view(list[i].reply_to)))
}

/// The messages of a reply: only the first says what it replies to.
pub open spec fn reply_parts(body: Seq<char>, reply_to: Option<Seq<char>>) -> Seq<
    (Seq<char>, Option<Seq<char>>),
> {
    Seq::new(
        message_parts(body).len(),
        |i: int|
            (
                message_parts(body)[i],
                if i == 0 {
                    reply_to
                } else {
                    None
                },
            ),
    )
}

/// The messages of a reply.
pub fn plan_reply(body: &str, reply_to: Option<&str>) -> (list: Vec<Outbound>)
    ensures
        outbound_views(list@) == reply_parts(body@, text::opt_str_view(reply_to)),
{
    let parts = chunks(body);
    let ghost all = text::views(parts@);
    let mut list: Vec<Outbound> = Vec::new();
    let mut i: usize = 0;
    while i < parts.len()
        invariant
            all == text::views(parts@),
            all == message_parts(body@),
            i <= parts@.len(),
            outbound_views(list@) =~= reply_parts(body@, text::opt_str_view(reply_to)).take(
                i as int,
            ),
        decreases parts@.len() - i,
    {
        let first_reply = if i == 0 {
            match reply_to {
                Some(id) => Some(id.to_owned()),
                None => None,
            }
        } else {
            None
        };
        let ghost before = list@;
        let out = Outbound { body: parts[i].as_str().to_owned(), reply_to: first_reply };
        list.push(out);
        assert(all[i as int] == parts@[i as int]@);
        assert(outbound_views(list@) =~= outbound_views(before).push(
            (out.body@, text::opt_view(out.reply_to)),
        ));
        i = i + 1;
    }
    assert(reply_parts(body@, text::opt_str_view(reply_to)).take(i as int) =~= reply_parts(
        body@,
        text::opt_str_view(reply_to),
    ));
    list
}

/// What is said of a failure after `accepted` of `total` messages: that some were
/// accepted, where any were.
pub fn delivery_error(accepted: u64, total: u64, error: &str) -> (text: String)
    ensures
        text@ == if accepted > 0 {
            "partial delivery: "@ + text::decimal(accepted as nat) + " of "@ + text::decimal(
                total as nat,
            ) + " chunks accepted; "@ + error@
        } else {
            error@
        },
{
    if accepted == 0 {
        return error.to_owned();
    }
    let mut out = text::to_chars("partial delivery: ");
    text::push_all(&mut out, text::decimal_chars(accepted).as_slice());
    text::push_str(&mut out, " of ");
    text::push_all(&mut out, text::decimal_chars(total).as_slice());
    text::push_str(&mut out, " chunks accepted; ");
    text::push_str(&mut out, error);
    text::from_chars(out.as_slice())
}

/// The first message of a reply quotes what it replies to, and no other does.
pub proof fn only_the_first_message_quotes(body: Seq<char>, reply_to: Option<Seq<char>>)
    ensures
        reply_parts(body, reply_to).len() >= 1,
        reply_parts(body, reply_to)[0].1 == reply_to,
        forall|i: int|
            0 < i < reply_parts(body, reply_to).len() ==> (#[trigger] reply_parts(
                body,
                reply_to,
            )[i]).1 is None,
{
    message_parts_make_up_the_text(body);
}

} // verus!
