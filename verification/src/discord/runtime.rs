//! What is done with what the gateway tells.

use crate::discord::addressing;
use crate::discord::addressing::{InboundMessage, RouteDecision};
use crate::discord::attachments;
use crate::discord::attachments::Attachment;
use crate::discord::commands;
use crate::discord::commands::Command;
use crate::discord::config::DiscordConfig;
use crate::discord::session;
use crate::discord::session::SessionKey;
use crate::json;
use crate::json::{Json, JsonView};
use crate::keyed::Keyed;
use crate::text;
use vstd::prelude::*;
use vstd::string::*;

verus! {

/// The longest time, in seconds, between two attempts to connect.
pub const MAX_DELAY_SECONDS: u64 = 30;

/// How long, in seconds, the agent may keep silent.
pub const SILENCE_SECONDS: u64 = 60;

/// The time, in seconds, to wait after another failure to connect.
pub fn reconnect_delay(delay: u64) -> (next: u64)
    ensures
        next == (if delay * 2 < MAX_DELAY_SECONDS {
            delay * 2
        } else {
            MAX_DELAY_SECONDS as int
        }),
{
    if delay < MAX_DELAY_SECONDS / 2 {
        delay * 2
    } else {
        MAX_DELAY_SECONDS
    }
}

/// Whether the gateway asks for another connection.
pub open spec fn asks_to_reconnect(value: JsonView) -> bool {
    let op = json::unsigned_of(json::member(value, "op"@));
    op == Some(7nat) || op == Some(9nat)
}

/// Whether the gateway asks for another connection.
pub fn gateway_requests_reconnect(value: &Json) -> (b: bool)
    ensures
        b == asks_to_reconnect(value@),
{
    match value.get_unsigned("op") {
        Some(op) => op == 7 || op == 9,
        None => false,
    }
}

/// The time, in milliseconds, between two heartbeats, as the gateway's greeting
/// tells it.
pub fn heartbeat_interval(hello: &Json) -> (r: Option<u64>)
    ensures
        match r {
            Some(n) => json::unsigned_of(
                json::inner_member(hello@, "d"@, "heartbeat_interval"@),
            ) == Some(n as nat),
            None => json::unsigned_of(
                json::inner_member(hello@, "d"@, "heartbeat_interval"@),
            ) is None,
        },
{
    match hello.get_inner("d", "heartbeat_interval") {
        Some(Json::Unsigned(n)) => Some(*n),
        _ => None,
    }
}

// ---- Threads ----------------------------------------------------------------

/// The channels that threads belong to.
#[derive(Debug)]
pub struct Threads {
    parents: Keyed<String>,
}

impl View for Threads {
    type V = Map<Seq<char>, Seq<char>>;

    closed spec fn view(&self) -> Map<Seq<char>, Seq<char>> {
        self.parents@.map_values(|s: String| s@)
    }
}

impl Default for Threads {
    fn default() -> (t: Threads)
        ensures
            t@ == Map::<Seq<char>, Seq<char>>::empty(),
    {
        let t = Threads { parents: Keyed::new() };
        assert(t@ =~= Map::empty());
        t
    }
}

/// What is known of threads after one more is told of.
pub open spec fn with_thread(all: Map<Seq<char>, Seq<char>>, thread: JsonView) -> Map<
    Seq<char>,
    Seq<char>,
> {
    match (json::text_member(thread, "id"@), json::text_member(thread, "parent_id"@)) {
        (Some(id), Some(parent)) => all.insert(id, parent),
        _ => all,
    }
}

/// What is known of threads after several are told of.
pub open spec fn with_threads(all: Map<Seq<char>, Seq<char>>, threads: Seq<JsonView>) -> Map<
    Seq<char>,
    Seq<char>,
>
    decreases threads.len(),
{
    if threads.len() == 0 {
        all
    } else {
        with_thread(with_threads(all, threads.drop_last()), threads.last())
    }
}

/// What is known of threads after one is gone.
pub open spec fn without_thread(all: Map<Seq<char>, Seq<char>>, thread: JsonView) -> Map<
    Seq<char>,
    Seq<char>,
> {
    match json::text_member(thread, "id"@) {
        Some(id) => all.remove(id),
        None => all,
    }
}

impl Threads {
    /// The channel that a thread belongs to.
    pub fn parent(&self, id: &str) -> (r: Option<&str>)
        ensures
            text::opt_str_view(r) == (if self@.contains_key(id@) {
                Some(self@[id@])
            } else {
                None
            }),
    {
        match self.parents.get(id) {
            Some(parent) => Some(parent.as_str()),
            None => None,
        }
    }

    /// Notes a thread.
    pub fn update_thread(&mut self, thread: &Json)
        ensures
            final(self)@ == with_thread(old(self)@, thread@),
    {
        if let (Some(id), Some(parent)) = (thread.get_text("id"), thread.get_text("parent_id")) {
            self.parents.insert(id.to_owned(), parent.to_owned());
            assert(self@ =~= old(self)@.insert(id@, parent@));
        }
    }

    /// Notes several threads.
    pub fn update_threads(&mut self, values: Option<&Vec<Json>>)
        ensures
            final(self)@ == (match values {
                Some(values) => with_threads(old(self)@, json::views(values@)),
                None => old(self)@,
            }),
    {
        if let Some(values) = values {
            let ghost before = self@;
            let ghost all = json::views(values@);
            let mut i: usize = 0;
            assert(all.take(0) =~= Seq::<JsonView>::empty());
            while i < values.len()
                invariant
                    all == json::views(values@),
                    i <= values@.len(),
                    self@ == with_threads(before, all.take(i as int)),
                decreases values@.len() - i,
            {
                assert(all.take(i + 1).drop_last() =~= all.take(i as int));
                assert(all.take(i + 1).last() == values@[i as int]@);
                self.update_thread(&values[i]);
                i = i + 1;
            }
            assert(all.take(i as int) =~= all);
        }
    }

    /// Forgets a thread.
    pub fn remove_thread(&mut self, thread: &Json)
        ensures
            final(self)@ == without_thread(old(self)@, thread@),
    {
        if let Some(id) = thread.get_text("id") {
            self.parents.remove(id);
            assert(self@ =~= old(self)@.remove(id@));
        }
    }
}

// ---- Events -----------------------------------------------------------------

/// What the gateway tells.
#[derive(Clone, Copy, Debug, PartialEq, Eq, Structural)]
pub enum GatewayEvent {
    /// Another connection is asked for.
    Reconnect,
    /// The connection stands: the bot learns who it is.
    Ready,
    /// Threads have changed.
    Threads,
    /// A message has come.
    Message,
    Other,
}

/// Whether an event tells of several threads: on joining a guild, and on gaining
/// access to channels.
pub open spec fn tells_of_threads(kind: Option<Seq<char>>) -> bool {
    kind == Some("THREAD_LIST_SYNC"@) || kind == Some("GUILD_CREATE"@)
}

/// What is known of threads after an event with data.
pub open spec fn threads_after(
    all: Map<Seq<char>, Seq<char>>,
    kind: Option<Seq<char>>,
    data: JsonView,
) -> Map<Seq<char>, Seq<char>> {
    if kind == Some("THREAD_CREATE"@) || kind == Some("THREAD_UPDATE"@) {
        with_thread(all, data)
    } else if kind == Some("THREAD_DELETE"@) {
        without_thread(all, data)
    } else if tells_of_threads(kind) {
        with_threads(all, json::elements_of(json::member(data, "threads"@)))
    } else {
        all
    }
}

/// The data of an event.
pub open spec fn event_data(value: JsonView) -> JsonView {
    match json::member(value, "d"@) {
        Some(data) => data,
        None => JsonView::Null,
    }
}

/// Takes in what the gateway tells: changes of threads are noted.
pub fn on_event(threads: &mut Threads, value: &Json) -> (r: GatewayEvent)
    ensures
        ({
            let kind = json::text_member(value@, "t"@);
            &&& r == (if asks_to_reconnect(value@) {
                GatewayEvent::Reconnect
            } else if kind == Some("READY"@) {
                GatewayEvent::Ready
            } else if kind == Some("MESSAGE_CREATE"@) {
                GatewayEvent::Message
            } else if kind == Some("THREAD_CREATE"@) || kind == Some("THREAD_UPDATE"@) || kind
                == Some("THREAD_DELETE"@) || tells_of_threads(kind) {
                GatewayEvent::Threads
            } else {
                GatewayEvent::Other
            })
            &&& final(threads)@ == (if r == GatewayEvent::Threads {
                threads_after(old(threads)@, kind, event_data(value@))
            } else {
                old(threads)@
            })
        }),
{
    proof {
        reveal_strlit("READY");
        reveal_strlit("MESSAGE_CREATE");
        reveal_strlit("THREAD_CREATE");
        reveal_strlit("THREAD_UPDATE");
        reveal_strlit("THREAD_DELETE");
        reveal_strlit("THREAD_LIST_SYNC");
        reveal_strlit("GUILD_CREATE");
        assert("READY"@.len() != "MESSAGE_CREATE"@.len());
    }
    if gateway_requests_reconnect(value) {
        return GatewayEvent::Reconnect;
    }
    let kind = value.get_text("t");
    if json::text_is(kind, "READY") {
        return GatewayEvent::Ready;
    }
    if json::text_is(kind, "MESSAGE_CREATE") {
        return GatewayEvent::Message;
    }
    let nothing = Json::Null;
    let data = match value.get("d") {
        Some(data) => data,
        None => &nothing,
    };
    if json::text_is(kind, "THREAD_CREATE") || json::text_is(kind, "THREAD_UPDATE") {
        threads.update_thread(data);
        GatewayEvent::Threads
    } else if json::text_is(kind, "THREAD_DELETE") {
        threads.remove_thread(data);
        GatewayEvent::Threads
    } else if json::text_is(kind, "THREAD_LIST_SYNC") || json::text_is(kind, "GUILD_CREATE") {
        threads.update_threads(data.get_array("threads"));
        GatewayEvent::Threads
    } else {
        GatewayEvent::Other
    }
}

/// Who the bot is, as the gateway's first event tells it.
pub fn ready_user_id(value: &Json) -> (r: Option<String>)
    ensures
        text::opt_view(r) == json::text_of(
            json::inner_member(event_data(value@), "user"@, "id"@),
        ),
{
    match value.get("d") {
        Some(data) => match data.get_inner_text("user", "id") {
            Some(id) => Some(id.to_owned()),
            None => None,
        },
        None => None,
    }
}

// ---- A connection -----------------------------------------------------------

/// A connection to the gateway.
#[derive(Clone, Debug, PartialEq, Eq)]
pub struct Link {
    greeted: bool,
    sequence: Option<i64>,
    bot_user_id: Option<String>,
}

/// What is known of a connection: whether the gateway has greeted, the number of its
/// last event, and who the bot is.
#[verifier::ext_equal]
pub struct LinkView {
    pub greeted: bool,
    pub sequence: Option<i64>,
    pub bot_user_id: Option<Seq<char>>,
}

impl View for Link {
    type V = LinkView;

    closed spec fn view(&self) -> LinkView {
        LinkView {
            greeted: self.greeted,
            sequence: self.sequence,
            bot_user_id: text::opt_view(self.bot_user_id),
        }
    }
}

/// What is to be done about what the gateway sent.
#[derive(Clone, Copy, Debug, PartialEq, Eq, Structural)]
pub enum LinkStep {
    /// The bot says who it is, and sends a heartbeat every so many milliseconds.
    Identify { interval: u64 },
    /// The gateway did not begin with a greeting: the connection is given up.
    NoGreeting,
    /// Another connection is asked for.
    Reconnect,
    /// A message has come.
    Message,
    Nothing,
}

/// The time, in milliseconds, between two heartbeats that a greeting tells.
pub open spec fn greeting(value: JsonView) -> Option<nat> {
    json::unsigned_of(json::inner_member(value, "d"@, "heartbeat_interval"@))
}

/// A connection after an event.
pub open spec fn link_after(link: LinkView, value: JsonView) -> LinkView {
    LinkView {
        greeted: true,
        sequence: match json::integer_of(json::member(value, "s"@)) {
            Some(n) => Some(n as i64),
            None => link.sequence,
        },
        bot_user_id: if json::text_member(value, "t"@) == Some("READY"@) {
            json::text_of(json::inner_member(event_data(value), "user"@, "id"@))
        } else {
            link.bot_user_id
        },
    }
}

/// What is to be done about what the gateway sent, and what is known afterwards of the
/// connection and of threads: first comes its greeting, and events from then on.
pub open spec fn link_step(
    link: LinkView,
    threads: Map<Seq<char>, Seq<char>>,
    value: JsonView,
) -> (LinkStep, LinkView, Map<Seq<char>, Seq<char>>) {
    let kind = json::text_member(value, "t"@);
    if !link.greeted {
        match greeting(value) {
            Some(n) => (
                LinkStep::Identify { interval: n as u64 },
                LinkView { greeted: true, ..link },
                threads,
            ),
            None => (LinkStep::NoGreeting, link, threads),
        }
    } else if asks_to_reconnect(value) {
        (LinkStep::Reconnect, link, threads)
    } else {
        (
            if kind == Some("MESSAGE_CREATE"@) {
                LinkStep::Message
            } else {
                LinkStep::Nothing
            },
            link_after(link, value),
            threads_after(threads, kind, event_data(value)),
        )
    }
}

impl Link {
    /// A connection on which nothing has come.
    pub fn new() -> (link: Link)
        ensures
            link@ == (LinkView { greeted: false, sequence: None, bot_user_id: None }),
    {
        Link { greeted: false, sequence: None, bot_user_id: None }
    }

    /// The number of the last event, which a heartbeat tells.
    pub fn sequence(&self) -> (n: Option<i64>)
        ensures
            n == self@.sequence,
    {
        self.sequence
    }

    /// Who the bot is.
    pub fn bot_user_id(&self) -> (id: Option<&str>)
        ensures
            text::opt_str_view(id) == self@.bot_user_id,
    {
        text::as_text(&self.bot_user_id)
    }

    /// Takes in what the gateway sent: first its greeting, and events from then on.
    pub fn on_value(&mut self, threads: &mut Threads, value: &Json) -> (step: LinkStep)
        ensures
            (step, final(self)@, final(threads)@) == link_step(
                old(self)@,
                old(threads)@,
                value@,
            ),
    {
        if !self.greeted {
            return match heartbeat_interval(value) {
                Some(interval) => {
                    self.greeted = true;
                    LinkStep::Identify { interval }
                },
                None => LinkStep::NoGreeting,
            };
        }
        proof {
            reveal_strlit("READY");
            reveal_strlit("MESSAGE_CREATE");
            reveal_strlit("THREAD_CREATE");
            reveal_strlit("THREAD_UPDATE");
            reveal_strlit("THREAD_DELETE");
            reveal_strlit("THREAD_LIST_SYNC");
            reveal_strlit("GUILD_CREATE");
            assert("READY"@.len() == 5 && "MESSAGE_CREATE"@.len() == 14);
            assert("THREAD_CREATE"@.len() == 13 && "THREAD_UPDATE"@.len() == 13);
            assert("THREAD_DELETE"@.len() == 13 && "THREAD_LIST_SYNC"@.len() == 16);
            assert("GUILD_CREATE"@.len() == 12);
        }
        let event = on_event(threads, value);
        if event == GatewayEvent::Reconnect {
            return LinkStep::Reconnect;
        }
        if let Some(n) = value.get_integer("s") {
            self.sequence = Some(n);
        }
        if event == GatewayEvent::Ready {
            self.bot_user_id = ready_user_id(value);
        }
        if event == GatewayEvent::Message {
            LinkStep::Message
        } else {
            LinkStep::Nothing
        }
    }
}

// ---- Messages ---------------------------------------------------------------

/// A message that came in.
#[derive(Clone, Debug, PartialEq, Eq)]
pub struct Incoming {
    pub id: Option<String>,
    pub guild_id: Option<String>,
    pub channel_id: String,
    /// The channel that the thread belongs to, where the message is in one.
    pub parent_channel_id: Option<String>,
    pub author_id: String,
    pub author_is_bot: bool,
    pub webhook_id: Option<String>,
    pub content: String,
    pub attachments: Vec<Attachment>,
}

/// What came in.
#[verifier::ext_equal]
pub struct IncomingView {
    pub id: Option<Seq<char>>,
    pub guild_id: Option<Seq<char>>,
    pub channel_id: Seq<char>,
    pub parent_channel_id: Option<Seq<char>>,
    pub author_id: Seq<char>,
    pub author_is_bot: bool,
    pub webhook_id: Option<Seq<char>>,
    pub content: Seq<char>,
    pub attachments: Seq<attachments::AttachmentView>,
}

impl View for Incoming {
    type V = IncomingView;

    open spec fn view(&self) -> IncomingView {
        IncomingView {
            id: text::opt_view(self.id),
            guild_id: text::opt_view(self.guild_id),
            channel_id: self.channel_id@,
            parent_channel_id: text::opt_view(self.parent_channel_id),
            author_id: self.author_id@,
            author_is_bot: self.author_is_bot,
            webhook_id: text::opt_view(self.webhook_id),
            content: self.content@,
            attachments: attachments::attachment_views(self.attachments@),
        }
    }
}

/// A text, or the empty one.
pub open spec fn or_empty(value: Option<Seq<char>>) -> Seq<char> {
    match value {
        Some(s) => s,
        None => Seq::empty(),
    }
}

/// What is known of threads after a message, which may tell of the thread that it
/// began.
pub open spec fn threads_of(all: Map<Seq<char>, Seq<char>>, message: JsonView) -> Map<
    Seq<char>,
    Seq<char>,
> {
    match json::member(message, "thread"@) {
        Some(thread) => with_thread(all, thread),
        None => all,
    }
}

/// The message that the data of an event describe.
pub open spec fn read(all: Map<Seq<char>, Seq<char>>, message: JsonView) -> IncomingView {
    let channel_id = or_empty(json::text_member(message, "channel_id"@));
    IncomingView {
        id: json::text_member(message, "id"@),
        guild_id: json::text_member(message, "guild_id"@),
        channel_id,
        parent_channel_id: if all.contains_key(channel_id) {
            Some(all[channel_id])
        } else {
            None
        },
        author_id: or_empty(json::text_of(json::inner_member(message, "author"@, "id"@))),
        author_is_bot: json::inner_member(message, "author"@, "bot"@) == Some(JsonView::Bool(true)),
        webhook_id: json::text_member(message, "webhook_id"@),
        content: or_empty(json::text_member(message, "content"@)),
        attachments: attachments::described(
            json::elements_of(json::member(message, "attachments"@)),
        ),
    }
}

fn owned(value: Option<&str>) -> (r: Option<String>)
    ensures
        text::opt_view(r) == text::opt_str_view(value),
{
    match value {
        Some(s) => Some(s.to_owned()),
        None => None,
    }
}

fn owned_or_empty(value: Option<&str>) -> (s: String)
    ensures
        s@ == or_empty(text::opt_str_view(value)),
{
    match value {
        Some(s) => s.to_owned(),
        None => {
            let empty = String::new();
            assert(empty@ =~= Seq::<char>::empty());
            empty
        },
    }
}

/// The message that the data of an event describe; a thread that it began is noted.
pub fn read_message(threads: &mut Threads, message: &Json) -> (m: Incoming)
    ensures
        final(threads)@ == threads_of(old(threads)@, message@),
        m@ == read(final(threads)@, message@),
{
    if let Some(thread) = message.get("thread") {
        threads.update_thread(thread);
    }
    let channel_id = owned_or_empty(message.get_text("channel_id"));
    let parent_channel_id = owned(threads.parent(channel_id.as_str()));
    let author_is_bot = match message.get_inner("author", "bot") {
        Some(Json::Bool(b)) => *b,
        _ => false,
    };
    let listed = message.get_array("attachments");
    Incoming {
        id: owned(message.get_text("id")),
        guild_id: owned(message.get_text("guild_id")),
        channel_id,
        parent_channel_id,
        author_id: owned_or_empty(message.get_inner_text("author", "id")),
        author_is_bot,
        webhook_id: owned(message.get_text("webhook_id")),
        content: owned_or_empty(message.get_text("content")),
        attachments: attachments::parse(listed),
    }
}

impl Link {
    /// Takes in a frame of the gateway as text, with the message that it brings; `None`
    /// where it is no JSON.
    pub fn on_text(&mut self, threads: &mut Threads, text: &str) -> (r: Option<
        (LinkStep, Option<Incoming>),
    >)
        ensures
            match json::text_value(text@) {
                None => r is None && final(self)@ == old(self)@ && final(threads)@ == old(
                    threads,
                )@,
                Some(value) => {
                    let (step, link, noted) = link_step(old(self)@, old(threads)@, value);
                    let data = event_data(value);
                    &&& r is Some
                    &&& (r->0).0 == step
                    &&& final(self)@ == link
                    &&& final(threads)@ == if step == LinkStep::Message {
                        threads_of(noted, data)
                    } else {
                        noted
                    }
                    &&& match (r->0).1 {
                        Some(m) => step == LinkStep::Message && m@ == read(
                            threads_of(noted, data),
                            data,
                        ),
                        None => step != LinkStep::Message,
                    }
                },
            },
    {
        let value = match json::parse_text(text) {
            Some(value) => value,
            None => return None,
        };
        let step = self.on_value(threads, &value);
        if step != LinkStep::Message {
            return Some((step, None));
        }
        let nothing = Json::Null;
        let data = match value.get("d") {
            Some(data) => data,
            None => &nothing,
        };
        Some((step, Some(read_message(threads, data))))
    }
}

/// The key of the session of a thread that a message is in.
pub fn thread_session(m: &Incoming) -> (r: Option<SessionKey>)
    ensures
        match r {
            Some(key) => m@.guild_id is Some && m@.parent_channel_id is Some && key@
                == session::thread_key(m@.guild_id->0, m@.channel_id),
            None => m@.guild_id is None || m@.parent_channel_id is None,
        },
{
    match (&m.guild_id, &m.parent_channel_id) {
        (Some(guild_id), Some(_)) => Some(
            SessionKey::guild_thread(guild_id.as_str(), m.channel_id.as_str()),
        ),
        _ => None,
    }
}

/// A message as it is routed.
pub open spec fn as_routed(m: IncomingView, engaged: bool) -> addressing::MessageView {
    addressing::MessageView {
        guild_id: m.guild_id,
        channel_id: m.channel_id,
        parent_channel_id: m.parent_channel_id,
        thread_engaged: engaged,
        author_id: m.author_id,
        author_is_bot: m.author_is_bot,
        from_webhook: m.webhook_id is Some,
        text: m.content,
        has_attachments: m.attachments.len() > 0,
    }
}

/// What the router is told of a message.
fn to_inbound<'a>(m: &'a Incoming, engaged: bool) -> (inbound: InboundMessage<'a>)
    ensures
        inbound@ == as_routed(m@, engaged),
{
    let inbound = InboundMessage {
        guild_id: text::as_text(&m.guild_id),
        channel_id: m.channel_id.as_str(),
        parent_channel_id: text::as_text(&m.parent_channel_id),
        thread_engaged: engaged,
        author_id: m.author_id.as_str(),
        author_is_bot: m.author_is_bot,
        webhook_id: text::as_text(&m.webhook_id),
        text: m.content.as_str(),
        has_attachments: m.attachments.len() > 0,
    };
    assert(inbound@ =~= as_routed(m@, engaged));
    inbound
}

/// The key under which a message is kept as context, where it is: its sender may
/// address the bot there, whether or not they do.
pub fn context_key(config: &DiscordConfig, m: &Incoming) -> (r: Option<String>)
    ensures
        text::opt_view(r) == (if addressing::routed(*config, None, as_routed(m@, true)) is Some {
            Some(
                session::history_key_text(m@.guild_id, m@.channel_id, Some(m@.author_id)),
            )
        } else {
            None
        }),
{
    match addressing::route(config, None, &to_inbound(m, true)) {
        RouteDecision::Ignore => None,
        RouteDecision::Dispatch { .. } => Some(
            session::history_key(
                text::as_text(&m.guild_id),
                m.channel_id.as_str(),
                text::as_text(&m.parent_channel_id),
                Some(m.author_id.as_str()),
            ),
        ),
    }
}

/// What is to be done with a message.
#[derive(Debug, PartialEq, Eq)]
pub enum MessagePlan {
    Ignore,
    /// There is nothing to be answered, but the bot is in conversation now.
    Note { session_key: SessionKey },
    /// A command is acknowledged, carried out and answered.
    Command { command: Command, session_key: SessionKey, message_id: String },
    /// The message is acknowledged, and the agent is asked.
    Turn { prompt: String, session_key: SessionKey, message_id: String },
}

/// What is asked of the bot: a direct message as it came, and a message to a guild
/// without mentions of the bot.
pub open spec fn request_of(m: IncomingView, routed: Seq<char>) -> Seq<char> {
    if m.guild_id is None {
        m.content
    } else {
        routed
    }
}

/// What is to be done with a message; `engaged` says whether the bot is in
/// conversation in its thread.
pub fn plan_message(
    config: &DiscordConfig,
    bot_user_id: Option<&str>,
    m: &Incoming,
    engaged: bool,
) -> (r: MessagePlan)
    ensures
        ({
            let route = addressing::routed(
                *config,
                text::opt_str_view(bot_user_id),
                as_routed(m@, engaged),
            );
            let silent = m@.id is None || (text::is_blank(m@.content) && m@.attachments.len() == 0);
            match r {
                MessagePlan::Ignore => route is None,
                MessagePlan::Note { session_key } => route is Some && silent && session_key@ == (
                route->0).1,
                MessagePlan::Command { command, session_key, message_id } => route is Some
                    && !silent && commands::given_command(request_of(m@, (route->0).0)) == Some(
                    command,
                )
                    && session_key@ == (route->0).1 && m@.id == Some(message_id@),
                MessagePlan::Turn { prompt, session_key, message_id } => route is Some && !silent
                    && commands::given_command(request_of(m@, (route->0).0)) is None && prompt@
                    == request_of(m@, (route->0).0)
                    && session_key@ == (route->0).1 && m@.id == Some(message_id@),
            }
        }),
{
    let (prompt, session_key) = match addressing::route(
        config,
        bot_user_id,
        &to_inbound(m, engaged),
    ) {
        RouteDecision::Ignore => {
            return MessagePlan::Ignore;
        },
        RouteDecision::Dispatch { text, session_key } => (
            if m.guild_id.is_none() {
                m.content.as_str().to_owned()
            } else {
                text
            },
            session_key,
        ),
    };
    let chars = text::to_chars(m.content.as_str());
    if text::trim(chars.as_slice()).len() == 0 && m.attachments.len() == 0 {
        return MessagePlan::Note { session_key };
    }
    let message_id = match &m.id {
        Some(id) => id.as_str().to_owned(),
        None => {
            return MessagePlan::Note { session_key };
        },
    };
    match commands::parse(prompt.as_str()) {
        Some(command) => MessagePlan::Command { command, session_key, message_id },
        None => MessagePlan::Turn { prompt, session_key, message_id },
    }
}

// ---- Turns ------------------------------------------------------------------

/// What is said at the end of a turn: never nothing.
pub fn final_reply(reply: &str) -> (s: String)
    ensures
        s@ == (if text::is_blank(reply@) {
            "(no response)"@
        } else {
            reply@
        }),
{
    let chars = text::to_chars(reply);
    if text::trim(chars.as_slice()).len() == 0 {
        "(no response)".to_owned()
    } else {
        reply.to_owned()
    }
}

/// Whether the turn that has ended is still the one that a session runs: only that
/// one is taken off the list.
pub fn is_current_turn(running: Option<u64>, ended: u64) -> (b: bool)
    ensures
        b == (running == Some(ended)),
{
    match running {
        Some(id) => id == ended,
        None => false,
    }
}

// ---- Laws -------------------------------------------------------------------

/// A thread that was told of takes the settings of its channel, and keeps a session
/// of its own.
pub proof fn threads_inherit_from_their_channel(
    all: Map<Seq<char>, Seq<char>>,
    thread: JsonView,
    message: JsonView,
    id: Seq<char>,
    parent: Seq<char>,
    guild: Seq<char>,
    engaged: bool,
)
    requires
        json::text_member(thread, "id"@) == Some(id),
        json::text_member(thread, "parent_id"@) == Some(parent),
        json::text_member(message, "channel_id"@) == Some(id),
    ensures
        ({
            let m = as_routed(read(with_thread(all, thread), message), engaged);
            addressing::settings_channel(m) == parent && addressing::guild_session(guild, m)
                == session::thread_key(guild, id)
        }),
{
}

} // verus!
