//! What the turn worker decides: which messages are answered, how a burst of
//! lines becomes one request, what the agent is asked, and what is said when a
//! turn ends.

use crate::irc::addressing;
use crate::irc::addressing::{Conversation, Verdict};
use crate::irc::config;
use crate::irc::config::IrcConfig;
use crate::irc::conn;
use crate::irc::loop_guard;
use crate::irc::loop_guard::LoopGuard;
use crate::irc::proto;
use crate::irc::proto::{Message, PrivMsg};
use crate::irc::session;
use crate::text;
use vstd::prelude::*;
use vstd::string::*;

verus! {

/// What acknowledges a message that is picked up.
pub const ACK_TEXT: &'static str = "👀";

/// The shortest wait, in seconds, before a connection is tried again.
pub const BACKOFF_MIN_SECS: u64 = 2;

/// The longest wait, in seconds, before a connection is tried again.
pub const BACKOFF_MAX_SECS: u64 = 60;

/// The wait after one of `seconds`: twice as long, up to the longest.
pub fn next_backoff(seconds: u64) -> (r: u64)
    ensures
        r == (if 2 * seconds < BACKOFF_MAX_SECS {
            2 * seconds
        } else {
            BACKOFF_MAX_SECS as int
        }),
{
    if seconds < BACKOFF_MAX_SECS / 2 {
        seconds * 2
    } else {
        BACKOFF_MAX_SECS
    }
}

// ---- Incoming messages ------------------------------------------------------

/// A message that has been classified.
#[derive(Clone, Debug)]
pub struct Incoming {
    pub pm: PrivMsg,
    pub conv: Conversation,
    pub verdict: Verdict,
    pub bot_nick: String,
}

/// What an incoming message holds.
pub struct IncomingView {
    pub pm: proto::PrivMsgView,
    pub conv: addressing::ConversationView,
    pub verdict: Verdict,
    pub bot_nick: Seq<char>,
}

impl View for Incoming {
    type V = IncomingView;

    open spec fn view(&self) -> IncomingView {
        IncomingView {
            pm: self.pm@,
            conv: self.conv@,
            verdict: self.verdict,
            bot_nick: self.bot_nick@,
        }
    }
}

/// Whether a message to `target` has to address the bot: in a channel as its
/// settings say, and always elsewhere.
pub open spec fn needs_mention(cfg: IrcConfig, target: Seq<char>) -> bool {
    if addressing::names_channel(target) {
        match config::or_else(
            config::channel_setting(cfg.channels@, target),
            cfg.mention_required,
        ) {
            Some(required) => required,
            None => true,
        }
    } else {
        true
    }
}

/// What a message of the server means to the bot: nothing unless it is a
/// `PRIVMSG` that the bot did not send itself.
pub open spec fn incoming_from(
    cfg: IrcConfig,
    m: proto::MessageView,
    bot_nick: Seq<char>,
) -> Option<IncomingView> {
    match proto::privmsg_in(m) {
        None => None,
        Some(pm) => {
            let verdict = addressing::verdict_of(
                pm.sender,
                pm.target,
                bot_nick,
                !needs_mention(cfg, pm.target) || addressing::mentions(pm.text, bot_nick),
            );
            if verdict is Ignore {
                None
            } else {
                Some(
                    IncomingView {
                        pm,
                        conv: addressing::conversation_of(pm.sender, pm.target),
                        verdict,
                        bot_nick,
                    },
                )
            }
        },
    }
}

/// What a message of the server means to the bot.
pub fn classify_line(cfg: &IrcConfig, message: &Message, bot_nick: &str) -> (r: Option<Incoming>)
    ensures
        match r {
            Some(incoming) => incoming_from(*cfg, message@, bot_nick@) == Some(incoming@),
            None => incoming_from(*cfg, message@, bot_nick@) is None,
        },
{
    match PrivMsg::from_message(message) {
        None => None,
        Some(pm) => {
            let required = if addressing::is_channel(pm.target.as_str()) {
                cfg.mention_required_for(pm.target.as_str())
            } else {
                true
            };
            let (verdict, conv) = addressing::classify(&pm, bot_nick, required);
            match verdict {
                Verdict::Ignore => None,
                _ => Some(Incoming { pm, conv, verdict, bot_nick: bot_nick.to_owned() }),
            }
        },
    }
}

/// Whether a message resets its conversation: it asks the bot for that and for nothing
/// else, and comes from someone who may.
pub open spec fn resets(cfg: IrcConfig, m: IncomingView) -> bool {
    let request = text::trimmed(addressing::request_in(m.pm.text, m.bot_nick));
    &&& m.verdict is Reply
    &&& request == "/new"@ || request == "/reset"@
    &&& cfg.sessions.reset_users@.len() == 0 || config::lists_nick(
        cfg.sessions.reset_users@,
        m.pm.sender,
    )
}

/// Whether a message resets its conversation.
pub fn wants_reset(cfg: &IrcConfig, incoming: &Incoming) -> (b: bool)
    ensures
        b == resets(*cfg, incoming@),
{
    let addressed = match incoming.verdict {
        Verdict::Reply => true,
        _ => false,
    };
    addressed && session::is_reset_command(
        addressing::strip_mention(incoming.pm.text.as_str(), incoming.bot_nick.as_str()),
    ) && session::reset_authorized(
        incoming.pm.sender.as_str(),
        cfg.sessions.reset_users.as_slice(),
    )
}

/// Whether a sender counts as a bot: everyone does who is not a known human.
pub fn sender_is_bot(sender: &str, humans: &[String]) -> (b: bool)
    ensures
        b == !config::lists_nick(humans@, sender@),
{
    !config::contains_nick(humans, sender)
}

/// Whether a message that is picked up is acknowledged.
pub fn should_ack(ack_enabled: bool) -> (b: bool)
    ensures
        b == ack_enabled,
{
    ack_enabled
}

/// What is done with a message that addresses the bot.
#[derive(Clone, Debug, PartialEq, Eq)]
pub enum Gate {
    /// Its sender may not send direct messages.
    Unauthorized,
    /// Bots have had their turns: take it in as context only.
    Silent,
    /// Answer it, to this target.
    Answer(String),
}

/// Whether the sender of a direct message may send it.
pub open spec fn authorized(cfg: IrcConfig, conv: addressing::ConversationView) -> bool {
    match conv {
        addressing::ConversationView::Dm(nick) => cfg.allowed_users@.len() == 0
            || config::lists_nick(cfg.allowed_users@, nick),
        addressing::ConversationView::Channel(_) => true,
    }
}

/// Decides what is done with a message that addresses the bot, and counts it in
/// `guard` unless its sender is not authorized.
pub fn gate(cfg: &IrcConfig, guard: &mut LoopGuard, incoming: &Incoming) -> (r: Gate)
    ensures
        final(guard).cap() == old(guard).cap(),
        !authorized(*cfg, incoming.conv@) ==> r is Unauthorized && *final(guard) == *old(guard),
        authorized(*cfg, incoming.conv@) ==> ({
            let key = addressing::guard_key_of(incoming.conv@);
            let from_bot = !config::lists_nick(cfg.humans@, incoming.pm.sender@);
            let cap = old(guard).cap();
            &&& final(guard).count_of(key) == loop_guard::counted(
                cap,
                old(guard).count_of(key),
                from_bot,
            )
            &&& forall|other: Seq<char>|
                other != key ==> #[trigger] final(guard).count_of(other) == old(guard).count_of(
                    other,
                )
            &&& if loop_guard::answered(cap, old(guard).count_of(key), from_bot) {
                r matches Gate::Answer(target) && target@ == (match incoming.conv@ {
                    addressing::ConversationView::Channel(name) => name,
                    addressing::ConversationView::Dm(_) => incoming.pm.sender@,
                })
            } else {
                r is Silent
            }
        }),
{
    if let Conversation::Dm(nick) = &incoming.conv {
        if !config::dm_authorized(nick.as_str(), cfg.allowed_users.as_slice()) {
            return Gate::Unauthorized;
        }
    }
    let from_bot = sender_is_bot(incoming.pm.sender.as_str(), cfg.humans.as_slice());
    let key = incoming.conv.guard_key();
    if guard.should_respond(from_bot, key.as_str()) {
        Gate::Answer(incoming.conv.reply_target(incoming.pm.sender.as_str()))
    } else {
        Gate::Silent
    }
}

/// Takes note of a channel message that is context only: a human resets the count
/// of the channel.
pub fn note_context(cfg: &IrcConfig, guard: &mut LoopGuard, incoming: &Incoming)
    ensures
        final(guard).cap() == old(guard).cap(),
        match incoming.conv@ {
            addressing::ConversationView::Channel(name) => {
                &&& final(guard).count_of(name) == (if config::lists_nick(
                    cfg.humans@,
                    incoming.pm.sender@,
                ) {
                    0
                } else {
                    old(guard).count_of(name)
                })
                &&& forall|other: Seq<char>|
                    other != name ==> #[trigger] final(guard).count_of(other) == old(
                        guard,
                    ).count_of(other)
            },
            addressing::ConversationView::Dm(_) => *final(guard) == *old(guard),
        },
{
    if let Conversation::Channel(name) = &incoming.conv {
        if !sender_is_bot(incoming.pm.sender.as_str(), cfg.humans.as_slice()) {
            guard.note_human(name.as_str());
        }
    }
}

// ---- Bursts -----------------------------------------------------------------

/// Whether a message belongs to the burst of `sender` in the conversation `conv`.
pub open spec fn same_burst(
    next: IncomingView,
    conv: addressing::ConversationView,
    sender: Seq<char>,
) -> bool {
    next.conv == conv && text::same_ignoring_case(next.pm.sender, sender)
        && next.verdict !is Ignore
}

/// Whether two conversations are the same.
fn same_conversation(a: &Conversation, b: &Conversation) -> (r: bool)
    ensures
        r == (a@ == b@),
{
    match (a, b) {
        (Conversation::Channel(x), Conversation::Channel(y)) => text::str_eq(
            x.as_str(),
            y.as_str(),
        ),
        (Conversation::Dm(x), Conversation::Dm(y)) => text::str_eq(x.as_str(), y.as_str()),
        _ => false,
    }
}

/// Folds a message into the lines of a burst, or hands it back where it belongs to
/// another conversation or another sender.
pub fn fold_line(
    lines: &mut Vec<String>,
    conv: &Conversation,
    burst_sender: &str,
    bot_nick: &str,
    next: Incoming,
) -> (carry: Option<Incoming>)
    ensures
        same_burst(next@, conv@, burst_sender@) ==> carry is None && text::views(final(lines)@)
            == text::views(old(lines)@).push(
            addressing::request_in(next@.pm.text, bot_nick@),
        ),
        !same_burst(next@, conv@, burst_sender@) ==> carry == Some(next) && final(lines)@ == old(
            lines,
        )@,
{
    let counts = match next.verdict {
        Verdict::Ignore => false,
        _ => true,
    };
    if counts && same_conversation(&next.conv, conv) && text::str_eq_ignore_case(
        next.pm.sender.as_str(),
        burst_sender,
    ) {
        let ghost before = text::views(lines@);
        let line = addressing::strip_mention(next.pm.text.as_str(), bot_nick);
        lines.push(line.to_owned());
        assert(text::views(lines@) =~= before.push(line@));
        None
    } else {
        Some(next)
    }
}

// ---- Prompts ----------------------------------------------------------------

/// A line of context: who said what.
pub open spec fn context_line(sender: Seq<char>, said: Seq<char>) -> Seq<char> {
    "<"@ + sender + "> "@ + said
}

/// A line of context: who said what.
fn format_line(sender: &str, said: &[char]) -> (out: Vec<char>)
    ensures
        out@ == context_line(sender@, said@),
{
    let mut out = text::to_chars("<");
    text::push_str(&mut out, sender);
    text::push_str(&mut out, "> ");
    text::push_all(&mut out, said);
    out
}

/// The last `window` entries.
pub open spec fn newest(entries: Seq<Seq<char>>, window: nat) -> Seq<Seq<char>> {
    if entries.len() <= window {
        entries
    } else {
        entries.skip(entries.len() - window)
    }
}

/// Adds a message to the context of a conversation, which keeps the newest
/// `window` messages. A window of zero keeps nothing and changes nothing.
pub fn buffer_ambient(ambient: &mut Vec<String>, pm: &PrivMsg, window: usize)
    ensures
        text::views(final(ambient)@) == (if window == 0 {
            text::views(old(ambient)@)
        } else {
            newest(
                text::views(old(ambient)@).push(context_line(pm.sender@, pm.text@)),
                window as nat,
            )
        }),
{
    if window == 0 {
        return ;
    }
    let said = text::to_chars(pm.text.as_str());
    let line = format_line(pm.sender.as_str(), said.as_slice());
    let ghost before = text::views(ambient@);
    ambient.push(text::from_chars(line.as_slice()));
    let ghost all = before.push(line@);
    assert(text::views(ambient@) =~= all);
    while ambient.len() > window
        invariant
            window > 0,
            ambient@.len() <= all.len(),
            ambient@.len() >= window || ambient@.len() == all.len(),
            text::views(ambient@) =~= all.skip(all.len() - ambient@.len()),
        decreases ambient@.len(),
    {
        let ghost longer = ambient@;
        ambient.remove(0);
        assert forall|i: int| 0 <= i < ambient@.len() implies text::views(ambient@)[i]
            == all[all.len() - ambient@.len() + i] by {
            assert(ambient@[i] == longer[i + 1]);
            assert(text::views(longer)[i + 1] == all.skip(all.len() - longer.len())[i + 1]);
        }
    }
    assert(text::views(ambient@) =~= newest(all, window as nat));
}

/// The lines of a request, trimmed, without the empty ones.
pub open spec fn request_lines(lines: Seq<Seq<char>>) -> Seq<Seq<char>>
    decreases lines.len(),
{
    if lines.len() == 0 {
        Seq::empty()
    } else {
        let front = request_lines(lines.drop_last());
        let line = text::trimmed(lines.last());
        if line.len() > 0 {
            front.push(line)
        } else {
            front
        }
    }
}

/// What the agent is asked: the request of `sender`, after the context where there
/// is any.
pub open spec fn prompt_text(
    ambient: Seq<Seq<char>>,
    sender: Seq<char>,
    lines: Seq<Seq<char>>,
) -> Seq<char> {
    let request = text::joined(request_lines(lines), "\n"@);
    if ambient.len() == 0 {
        context_line(sender, request)
    } else {
        "Recent channel context:\n"@ + text::joined(ambient, "\n"@) + "\n\nNow "@ + sender
            + " addresses you:\n"@ + request
    }
}

/// What the agent is asked. The context is used up.
pub fn build_prompt(ambient: &mut Vec<String>, sender: &str, lines: &Vec<String>) -> (prompt: String)
    ensures
        prompt@ == prompt_text(text::views(old(ambient)@), sender@, text::views(lines@)),
        final(ambient)@.len() == 0,
{
    let ghost all = text::views(lines@);
    let mut kept: Vec<Vec<char>> = Vec::new();
    let mut i: usize = 0;
    assert(all.take(0) =~= Seq::empty());
    assert(text::vec_views(kept@) =~= Seq::empty());
    while i < lines.len()
        invariant
            all == text::views(lines@),
            i <= lines@.len(),
            text::vec_views(kept@) == request_lines(all.take(i as int)),
        decreases lines@.len() - i,
    {
        assert(all.take(i + 1).drop_last() =~= all.take(i as int));
        let chars = text::to_chars(lines[i].as_str());
        let line = text::trim(chars.as_slice());
        if line.len() > 0 {
            let ghost before = text::vec_views(kept@);
            kept.push(text::copy_chars(line));
            assert(text::vec_views(kept@) =~= before.push(line@));
        }
        i = i + 1;
    }
    assert(all.take(all.len() as int) =~= all);
    let request = text::join(&kept, "\n");
    if ambient.len() == 0 {
        let out = format_line(sender, request.as_slice());
        return text::from_chars(out.as_slice());
    }
    let context = join_lines(ambient);
    ambient.clear();
    let mut out = text::to_chars("Recent channel context:\n");
    text::push_all(&mut out, context.as_slice());
    text::push_str(&mut out, "\n\nNow ");
    text::push_str(&mut out, sender);
    text::push_str(&mut out, " addresses you:\n");
    text::push_all(&mut out, request.as_slice());
    text::from_chars(out.as_slice())
}

/// Strings with a line break between two neighbours.
fn join_lines(list: &Vec<String>) -> (out: Vec<char>)
    ensures
        out@ == text::joined(text::views(list@), "\n"@),
{
    let mut parts: Vec<Vec<char>> = Vec::new();
    let mut i: usize = 0;
    while i < list.len()
        invariant
            i <= list@.len(),
            parts@.len() == i,
            forall|j: int| 0 <= j < i ==> (#[trigger] parts@[j])@ == list@[j]@,
        decreases list@.len() - i,
    {
        parts.push(text::to_chars(list[i].as_str()));
        i = i + 1;
    }
    assert(text::vec_views(parts@) =~= text::views(list@));
    text::join(&parts, "\n")
}

// ---- Turns ------------------------------------------------------------------

/// What an agent reports while it works on a turn.
#[derive(Clone, Debug)]
pub enum TurnEvent {
    /// More text of the answer.
    Text(String),
    /// The turn is over, and succeeded.
    Finished,
    /// The turn is over, and failed.
    Failed(Option<String>),
    /// The session has closed.
    Closed(Option<String>),
    /// The session is gone without a word.
    Gone,
    /// The channel is shutting down.
    Shutdown,
    /// Anything else.
    Other,
}

/// The answer of a turn as far as it has come.
#[derive(Clone, Debug)]
pub struct Turn {
    reply: String,
    done: bool,
    drop_session: bool,
}

/// What a turn is.
pub struct TurnView {
    pub reply: Seq<char>,
    pub done: bool,
    /// Whether the session cannot be used again.
    pub drop_session: bool,
}

impl View for Turn {
    type V = TurnView;

    closed spec fn view(&self) -> TurnView {
        TurnView { reply: self.reply@, done: self.done, drop_session: self.drop_session }
    }
}

/// A reason in words, or `otherwise`.
pub open spec fn reason(error: Option<String>, otherwise: Seq<char>) -> Seq<char> {
    match error {
        Some(s) => s@,
        None => otherwise,
    }
}

/// `reply`, or `otherwise` where it is empty.
pub open spec fn reply_or(reply: Seq<char>, otherwise: Seq<char>) -> Seq<char> {
    if reply.len() == 0 {
        otherwise
    } else {
        reply
    }
}

/// A turn after an event.
pub open spec fn turn_after(t: TurnView, event: TurnEvent) -> TurnView {
    match event {
        TurnEvent::Text(s) => TurnView { reply: t.reply + s@, ..t },
        TurnEvent::Finished => TurnView { done: true, ..t },
        TurnEvent::Failed(error) => TurnView {
            reply: reply_or(t.reply, "(turn failed: "@ + reason(error, "unknown"@) + ")"@),
            done: true,
            ..t
        },
        TurnEvent::Closed(error) => TurnView {
            reply: reply_or(t.reply, "(session closed: "@ + reason(error, Seq::empty()) + ")"@),
            done: true,
            drop_session: true,
        },
        TurnEvent::Gone => TurnView { done: true, drop_session: true, ..t },
        TurnEvent::Shutdown => TurnView { done: true, ..t },
        TurnEvent::Other => t,
    }
}

/// `before`, a reason, and a closing parenthesis.
fn parenthesised(before: &str, error: &Option<String>, otherwise: &str) -> (s: String)
    ensures
        s@ == before@ + reason(*error, otherwise@) + ")"@,
{
    let mut out = text::to_chars(before);
    match error {
        Some(e) => {
            text::push_str(&mut out, e.as_str());
        },
        None => {
            text::push_str(&mut out, otherwise);
        },
    }
    text::push_str(&mut out, ")");
    text::from_chars(out.as_slice())
}

impl Turn {
    /// A turn that has just begun.
    pub fn new() -> (t: Turn)
        ensures
            t@ == (TurnView { reply: Seq::empty(), done: false, drop_session: false }),
    {
        Turn { reply: String::new(), done: false, drop_session: false }
    }

    /// Takes an event in.
    pub fn on_event(&mut self, event: TurnEvent)
        ensures
            final(self)@ == turn_after(old(self)@, event),
    {
        match event {
            TurnEvent::Text(s) => {
                self.reply.append(s.as_str());
            },
            TurnEvent::Finished => {
                self.done = true;
            },
            TurnEvent::Failed(error) => {
                if self.reply.as_str().is_empty() {
                    self.reply = parenthesised("(turn failed: ", &error, "unknown");
                }
                self.done = true;
            },
            TurnEvent::Closed(error) => {
                if self.reply.as_str().is_empty() {
                    self.reply = parenthesised("(session closed: ", &error, "");
                    proof {
                        reveal_strlit("");
                        assert(""@ =~= Seq::empty());
                    }
                }
                self.done = true;
                self.drop_session = true;
            },
            TurnEvent::Gone => {
                self.done = true;
                self.drop_session = true;
            },
            TurnEvent::Shutdown => {
                self.done = true;
            },
            TurnEvent::Other => {},
        }
    }

    /// Whether the turn is over.
    pub fn is_done(&self) -> (b: bool)
        ensures
            b == self@.done,
    {
        self.done
    }

    /// Whether the session cannot be used again.
    pub fn drops_session(&self) -> (b: bool)
        ensures
            b == self@.drop_session,
    {
        self.drop_session
    }

    /// What is said at the end of the turn: never nothing.
    pub fn into_reply(self) -> (s: String)
        ensures
            s@ == (if text::is_blank(self@.reply) {
                "(no response)"@
            } else {
                self@.reply
            }),
    {
        let chars = text::to_chars(self.reply.as_str());
        if text::trim(chars.as_slice()).len() == 0 {
            "(no response)".to_owned()
        } else {
            self.reply
        }
    }
}

// ---- Delivery ---------------------------------------------------------------

/// A reply that waits for a link.
#[derive(Clone, Debug)]
pub struct PendingReply {
    pub target: String,
    pub text: String,
}

/// The replies that wait for a link, oldest first.
#[derive(Clone, Debug)]
pub struct Outbox {
    pending: Vec<PendingReply>,
}

impl View for Outbox {
    type V = Seq<PendingReply>;

    closed spec fn view(&self) -> Seq<PendingReply> {
        self.pending@
    }
}

/// The replies that wait once it is known what became of one: one that was not sent
/// waits behind the others.
pub open spec fn settled(waiting: Seq<PendingReply>, reply: PendingReply, sent: bool) -> Seq<
    PendingReply,
> {
    if sent {
        waiting
    } else {
        waiting.push(reply)
    }
}

impl Outbox {
    /// No reply waits.
    pub fn new() -> (b: Outbox)
        ensures
            b@.len() == 0,
    {
        Outbox { pending: Vec::new() }
    }

    /// The number of replies that wait.
    pub fn len(&self) -> (n: usize)
        ensures
            n == self@.len(),
    {
        self.pending.len()
    }

    /// Takes note of what became of a reply: one that was not sent waits behind the
    /// others.
    pub fn settle(&mut self, reply: PendingReply, sent: bool)
        ensures
            final(self)@ == settled(old(self)@, reply, sent),
    {
        if !sent {
            self.pending.push(reply);
        }
    }

    /// Takes all replies out to be sent again, oldest first.
    pub fn take_all(&mut self) -> (all: Vec<PendingReply>)
        ensures
            all@ == old(self)@,
            final(self)@ == Seq::<PendingReply>::empty(),
    {
        let mut all: Vec<PendingReply> = Vec::new();
        std::mem::swap(&mut all, &mut self.pending);
        all
    }
}

/// The replies that wait after all of `replies` were tried again, one after the other,
/// and taken note of; `sent` says for each whether it went out.
pub open spec fn settled_all(
    waiting: Seq<PendingReply>,
    replies: Seq<PendingReply>,
    sent: Seq<bool>,
) -> Seq<PendingReply>
    decreases replies.len(),
{
    if replies.len() == 0 {
        waiting
    } else {
        settled(
            settled_all(waiting, replies.drop_last(), sent.drop_last()),
            replies.last(),
            sent.last(),
        )
    }
}

/// How many of the first `n` replies did not go out.
pub open spec fn unsent_before(sent: Seq<bool>, n: int) -> nat
    decreases n,
{
    if n <= 0 {
        0
    } else {
        unsent_before(sent, n - 1) + if sent[n - 1] {
            0nat
        } else {
            1nat
        }
    }
}

proof fn lemma_unsent_before(sent: Seq<bool>, rest: Seq<bool>, n: int)
    requires
        0 <= n <= rest.len() <= sent.len(),
        forall|i: int| 0 <= i < rest.len() ==> rest[i] == sent[i],
    ensures
        unsent_before(rest, n) == unsent_before(sent, n),
    decreases n,
{
    if n > 0 {
        lemma_unsent_before(sent, rest, n - 1);
    }
}

/// Where all replies are taken out and tried again, those that did not go out wait
/// afterwards, in their order, and no others.
pub proof fn the_unsent_replies_wait_in_order(replies: Seq<PendingReply>, sent: Seq<bool>)
    requires
        replies.len() == sent.len(),
    ensures
        ({
            let waiting = settled_all(Seq::empty(), replies, sent);
            &&& waiting.len() == unsent_before(sent, sent.len() as int)
            &&& forall|i: int|
                0 <= i < replies.len() && !(#[trigger] sent[i]) ==> unsent_before(sent, i)
                    < waiting.len() && waiting[unsent_before(sent, i) as int] == replies[i]
        }),
    decreases replies.len(),
{
    if replies.len() > 0 {
        let n = replies.len() - 1;
        the_unsent_replies_wait_in_order(replies.drop_last(), sent.drop_last());
        lemma_unsent_before(sent, sent.drop_last(), n);
        let waiting = settled_all(Seq::empty(), replies, sent);
        let before = settled_all(Seq::empty(), replies.drop_last(), sent.drop_last());
        assert(before.len() == unsent_before(sent, n));
        assert(waiting == settled(before, replies[n], sent[n]));
        assert(unsent_before(sent, n + 1) == unsent_before(sent, n) + if sent[n] {
            0nat
        } else {
            1nat
        });
        assert forall|i: int|
            0 <= i < replies.len() && !(#[trigger] sent[i]) implies unsent_before(sent, i)
            < waiting.len() && waiting[unsent_before(sent, i) as int] == replies[i] by {
            if i < n {
                lemma_unsent_before(sent, sent.drop_last(), i);
                assert(!sent.drop_last()[i]);
                assert(waiting[unsent_before(sent, i) as int] == before[unsent_before(
                    sent,
                    i,
                ) as int]);
            }
        }
    }
}

/// While no reply goes out, none is lost and their order is kept.
pub proof fn replies_wait_in_order(replies: Seq<PendingReply>, sent: Seq<bool>)
    requires
        replies.len() == sent.len(),
        forall|i: int| 0 <= i < sent.len() ==> !sent[i],
    ensures
        settled_all(Seq::empty(), replies, sent) == replies,
    decreases replies.len(),
{
    if replies.len() > 0 {
        replies_wait_in_order(replies.drop_last(), sent.drop_last());
        assert(replies =~= replies.drop_last().push(replies.last()));
    }
}

// ---- The send tool ----------------------------------------------------------

/// Whether `target` is a single word.
pub open spec fn is_target(target: Seq<char>) -> bool {
    target.len() > 0 && text::no_white(target)
}

/// Whether `target` is a single word, so that nothing can follow it on its line.
pub fn valid_irc_target(target: &str) -> (b: bool)
    ensures
        b == is_target(target@),
{
    let chars = text::to_chars(target);
    let mut i: usize = 0;
    while i < chars.len()
        invariant
            chars@ == target@,
            i <= chars@.len(),
            forall|j: int| 0 <= j < i ==> !text::is_white(#[trigger] chars@[j]),
        decreases chars@.len() - i,
    {
        if text::is_whitespace(chars[i]) {
            assert(text::is_white(target@[i as int]));
            return false;
        }
        i = i + 1;
    }
    chars.len() > 0
}

/// What is wrong with the arguments of the send tool.
#[derive(Clone, Copy, Debug, PartialEq, Eq, Structural)]
pub enum SendArgsError {
    Empty,
    Target,
}

/// The trimmed target and text of a request to send a message.
pub fn check_send_args(target: &str, text: &str) -> (r: Result<(String, String), SendArgsError>)
    ensures
        match r {
            Ok((t, s)) => t@ == text::trimmed(target@) && s@ == text::trimmed(text@) && is_target(
                t@,
            ) && s@.len() > 0,
            Err(SendArgsError::Empty) => text::is_blank(target@) || text::is_blank(text@),
            Err(SendArgsError::Target) => !text::is_blank(target@) && !text::is_blank(text@)
                && !is_target(text::trimmed(target@)),
        },
{
    let target_chars = text::to_chars(target);
    let text_chars = text::to_chars(text);
    let t = text::from_chars(text::trim(target_chars.as_slice()));
    let s = text::from_chars(text::trim(text_chars.as_slice()));
    if t.as_str().is_empty() || s.as_str().is_empty() {
        Err(SendArgsError::Empty)
    } else if !valid_irc_target(t.as_str()) {
        Err(SendArgsError::Target)
    } else {
        Ok((t, s))
    }
}

impl SendArgsError {
    /// What the caller of the tool is told.
    pub fn message(self) -> (s: &'static str)
        ensures
            self is Empty ==> s@ == "irc_send_message requires non-empty 'target' and 'text'"@,
            self is Target ==> s@
                == "irc_send_message target must be a single IRC channel or nick without whitespace or line breaks"@,
    {
        match self {
            SendArgsError::Empty => "irc_send_message requires non-empty 'target' and 'text'",
            SendArgsError::Target =>
                "irc_send_message target must be a single IRC channel or nick without whitespace or line breaks",
        }
    }
}

/// The numerics with which a server refuses a message.
pub open spec fn refuses_message(command: Seq<char>) -> bool {
    ||| command == "401"@
    ||| command == "403"@
    ||| command == "404"@
    ||| command == "405"@
    ||| command == "407"@
    ||| command == "408"@
    ||| command == "411"@
    ||| command == "412"@
    ||| command == "413"@
    ||| command == "414"@
    ||| command == "442"@
    ||| command == "482"@
}

/// Whether `command` refuses a message.
pub fn is_privmsg_rejection(command: &str) -> (b: bool)
    ensures
        b == refuses_message(command@),
{
    text::str_eq(command, "401") || text::str_eq(command, "403") || text::str_eq(command, "404")
        || text::str_eq(command, "405") || text::str_eq(command, "407") || text::str_eq(
        command,
        "408",
    ) || text::str_eq(command, "411") || text::str_eq(command, "412") || text::str_eq(
        command,
        "413",
    ) || text::str_eq(command, "414") || text::str_eq(command, "442") || text::str_eq(
        command,
        "482",
    )
}

/// Whether `target` is among the parameters of a message, up to the case of ASCII
/// letters.
pub fn message_mentions_target(params: &[String], target: &str) -> (b: bool)
    ensures
        b == config::lists_nick(params@, target@),
{
    config::contains_nick(params, target)
}

/// What the server says against a message to `target`, where this is a refusal of it.
pub fn rejection(message: &Message, target: &str) -> (r: Option<String>)
    ensures
        match r {
            Some(s) => refuses_message(message.command@) && config::lists_nick(
                message.params@,
                target@,
            ) && s@ == text::joined(text::views(message.params@), " "@),
            None => !refuses_message(message.command@) || !config::lists_nick(
                message.params@,
                target@,
            ),
        },
{
    if is_privmsg_rejection(message.command.as_str()) && message_mentions_target(
        message.params.as_slice(),
        target,
    ) {
        Some(conn::join_params(&message.params))
    } else {
        None
    }
}

/// The context of a conversation never outgrows its window, and what it keeps is the
/// newest.
pub proof fn ambient_context_is_bounded(entries: Seq<Seq<char>>, window: nat)
    ensures
        newest(entries, window).len() <= window,
        newest(entries, window) == entries.skip(entries.len() - newest(entries, window).len()),
{
    assert(entries.skip(0) =~= entries);
}

/// Where no human is known, everyone is capped: of any messages in a row, whoever sent
/// them, no more are answered than the cap allows.
pub proof fn without_known_humans_everyone_is_capped(
    humans: Seq<String>,
    senders: Seq<Seq<char>>,
    cap: nat,
)
    requires
        humans.len() == 0,
    ensures
        loop_guard::answers(
            cap,
            0,
            Seq::new(senders.len(), |i: int| !config::lists_nick(humans, senders[i])),
        ) <= cap,
{
    loop_guard::bots_alone_are_capped(
        cap,
        0,
        Seq::new(senders.len(), |i: int| !config::lists_nick(humans, senders[i])),
    );
}

} // verus!
