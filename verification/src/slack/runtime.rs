//! What is done with envelopes, messages and turns.

use crate::json;
use crate::paths;
use crate::slack::addressing;
use crate::slack::addressing::{InboundMessage, RouteDecision};
use crate::slack::api::SlackIdentity;
use crate::slack::commands;
use crate::slack::commands::Command;
use crate::slack::config::{ChannelConfig, SlackConfig};
use crate::slack::events;
use crate::slack::events::{Envelope, File, Incoming};
use crate::slack::session;
use crate::slack::session::ConversationKey;
use crate::text;
use vstd::prelude::*;
use vstd::string::*;

verus! {

/// How long, in milliseconds, an envelope is remembered.
pub const DEDUPE_TTL_MS: u64 = 600_000;

/// How many envelopes are remembered.
pub const MAX_DEDUPE_ENTRIES: usize = 100;

/// How many conversations are worked on at a time.
pub const MAX_KEYED_WORKERS: usize = 8;

/// How much work of one conversation waits at most.
pub const KEY_WORK_QUEUE_CAPACITY: usize = 64;

/// The longest time, in seconds, between two attempts to connect.
pub const MAX_DELAY_SECONDS: u64 = 30;

/// What is said when there is no room for more work.
pub const BUSY: &'static str = "Agent is busy; retry shortly.";

/// What is said when nothing is there to be stopped.
pub const NOTHING_TO_STOP: &'static str = "No active response to stop.";

/// What is said to a command of someone who may not give any.
pub const ACCESS_DENIED: &'static str = "Access denied.";

/// What is said when no session can be had.
pub const NO_SESSION: &'static str = "Could not start agent session.";

/// The time to wait after another failure to connect.
pub fn next_delay(seconds: u64) -> (next: u64)
    ensures
        next == (if seconds * 2 < MAX_DELAY_SECONDS {
            seconds * 2
        } else {
            MAX_DELAY_SECONDS as int
        }),
{
    if seconds < MAX_DELAY_SECONDS / 2 {
        seconds * 2
    } else {
        MAX_DELAY_SECONDS
    }
}

// ---- Acknowledgements -------------------------------------------------------

/// The acknowledgement of an envelope, with a reply that only its sender sees.
pub open spec fn ack_text(envelope_id: Seq<char>, reply: Option<Seq<char>>) -> Seq<char> {
    match reply {
        Some(s) => "{\"envelope_id\":"@ + json::json_string(envelope_id)
            + ",\"payload\":{\"response_type\":\"ephemeral\",\"text\":"@ + json::json_string(s)
            + "}}"@,
        None => "{\"envelope_id\":"@ + json::json_string(envelope_id) + "}"@,
    }
}

/// The acknowledgement of an envelope, with a reply that only its sender sees.
pub fn ack(envelope_id: &str, text: Option<&str>) -> (out: String)
    ensures
        out@ == ack_text(envelope_id@, text::opt_str_view(text)),
{
    let mut out = "{\"envelope_id\":".to_owned();
    out.append(json::quote(envelope_id).as_str());
    match text {
        Some(s) => {
            out.append(",\"payload\":{\"response_type\":\"ephemeral\",\"text\":");
            out.append(json::quote(s).as_str());
            out.append("}}");
        },
        None => {
            out.append("}");
        },
    }
    out
}

// ---- Remembering envelopes --------------------------------------------------

/// An envelope that was seen.
#[derive(Clone, Debug, PartialEq, Eq)]
pub struct SeenEntry {
    key: String,
    at: u64,
}

/// The envelopes that were seen, by key, with the times at which they were.
#[derive(Clone, Debug, PartialEq, Eq)]
pub struct Seen {
    entries: Vec<SeenEntry>,
}

impl View for Seen {
    type V = Seq<(Seq<char>, u64)>;

    closed spec fn view(&self) -> Seq<(Seq<char>, u64)> {
        Seq::new(self.entries@.len(), |i: int| (self.entries@[i].key@, self.entries@[i].at))
    }
}

impl Default for Seen {
    fn default() -> (s: Seen)
        ensures
            s@ == Seq::<(Seq<char>, u64)>::empty(),
    {
        let s = Seen { entries: Vec::new() };
        assert(s@ =~= Seq::<(Seq<char>, u64)>::empty());
        s
    }
}

/// The place of `key` in a list, or the list's length.
pub open spec fn place_of(list: Seq<(Seq<char>, u64)>, key: Seq<char>) -> int
    decreases list.len(),
{
    if list.len() == 0 {
        0
    } else if list[0].0 == key {
        0
    } else {
        1 + place_of(list.skip(1), key)
    }
}

/// `list` with `key` seen at the time `now`.
pub open spec fn noted(list: Seq<(Seq<char>, u64)>, key: Seq<char>, now: u64) -> Seq<
    (Seq<char>, u64),
> {
    let i = place_of(list, key);
    if i < list.len() {
        list.update(i, (key, now))
    } else {
        list.push((key, now))
    }
}

/// `list` without what was seen too long ago.
pub open spec fn unexpired(list: Seq<(Seq<char>, u64)>, now: u64) -> Seq<(Seq<char>, u64)>
    decreases list.len(),
{
    if list.len() == 0 {
        list
    } else {
        let before = unexpired(list.drop_last(), now);
        if now - list.last().1 < DEDUPE_TTL_MS {
            before.push(list.last())
        } else {
            before
        }
    }
}

/// The place of what was seen longest ago among the first `n` of a list.
pub open spec fn oldest(list: Seq<(Seq<char>, u64)>, n: nat) -> int
    decreases n,
{
    if n <= 1 {
        0
    } else {
        let k = oldest(list, (n - 1) as nat);
        if list[n - 1].1 < list[k].1 {
            n - 1
        } else {
            k
        }
    }
}

proof fn lemma_oldest(list: Seq<(Seq<char>, u64)>, n: nat)
    requires
        1 <= n <= list.len(),
    ensures
        0 <= oldest(list, n) < n,
        forall|i: int| 0 <= i < n ==> list[oldest(list, n)].1 <= (#[trigger] list[i]).1,
        forall|i: int|
            0 <= i < oldest(list, n) ==> list[oldest(list, n)].1 < (#[trigger] list[i]).1,
    decreases n,
{
    if n > 1 {
        lemma_oldest(list, (n - 1) as nat);
    }
}

/// `list` without the oldest of what is more than can be remembered.
pub open spec fn bounded(list: Seq<(Seq<char>, u64)>) -> Seq<(Seq<char>, u64)>
    decreases list.len(),
    via bounded_decreases
{
    if list.len() > MAX_DEDUPE_ENTRIES {
        bounded(list.remove(oldest(list, list.len())))
    } else {
        list
    }
}

#[via_fn]
proof fn bounded_decreases(list: Seq<(Seq<char>, u64)>) {
    if list.len() > MAX_DEDUPE_ENTRIES {
        lemma_oldest(list, list.len());
    }
}

proof fn lemma_place(list: Seq<(Seq<char>, u64)>, key: Seq<char>)
    ensures
        0 <= place_of(list, key) <= list.len(),
        place_of(list, key) < list.len() ==> list[place_of(list, key)].0 == key,
        forall|i: int| 0 <= i < place_of(list, key) ==> (#[trigger] list[i]).0 != key,
    decreases list.len(),
{
    if list.len() > 0 && list[0].0 != key {
        lemma_place(list.skip(1), key);
        let k = place_of(list.skip(1), key);
        assert forall|i: int| 0 <= i < place_of(list, key) implies (#[trigger] list[i]).0
            != key by {
            if i > 0 {
                assert(list.skip(1)[i - 1].0 != key);
            }
        }
        if k < list.skip(1).len() {
            assert(list.skip(1)[k] == list[k + 1]);
        }
    }
}

impl Seen {
    /// How many envelopes are remembered.
    pub fn len(&self) -> (n: usize)
        ensures
            n == self@.len(),
    {
        self.entries.len()
    }

    /// Notes that `key` was seen at the time `now`; whether it had been before.
    pub fn insert(&mut self, key: &str, now: u64) -> (known: bool)
        ensures
            known == (place_of(old(self)@, key@) < old(self)@.len()),
            final(self)@ == noted(old(self)@, key@, now),
    {
        let ghost all = self@;
        let mut i: usize = 0;
        assert(all.skip(0) =~= all);
        while i < self.entries.len()
            invariant
                *self == *old(self),
                all == self@,
                i <= self.entries@.len(),
                place_of(all, key@) == i + place_of(all.skip(i as int), key@),
            decreases self.entries@.len() - i,
        {
            assert(all[i as int] == (self.entries@[i as int].key@, self.entries@[i as int].at));
            assert(all.skip(i as int).skip(1) =~= all.skip(i + 1));
            if text::str_eq(self.entries[i].key.as_str(), key) {
                self.entries.set(i, SeenEntry { key: key.to_owned(), at: now });
                assert(self@ =~= all.update(i as int, (key@, now)));
                return true;
            }
            i = i + 1;
        }
        self.entries.push(SeenEntry { key: key.to_owned(), at: now });
        assert(self@ =~= all.push((key@, now)));
        false
    }
}

/// Forgets what was seen too long before the time `now`.
pub fn prune_dedupe(dedupe: &mut Seen, now: u64)
    ensures
        final(dedupe)@ == unexpired(old(dedupe)@, now),
{
    let ghost all = dedupe@;
    let mut kept: Vec<SeenEntry> = Vec::new();
    let mut i: usize = 0;
    let ghost mut shown: Seq<(Seq<char>, u64)> = Seq::empty();
    assert(all.take(0) =~= Seq::<(Seq<char>, u64)>::empty());
    while i < dedupe.entries.len()
        invariant
            *dedupe == *old(dedupe),
            all == dedupe@,
            i <= dedupe.entries@.len(),
            shown == unexpired(all.take(i as int), now),
            shown.len() == kept@.len(),
            forall|k: int|
                0 <= k < kept@.len() ==> shown[k] == ((#[trigger] kept@[k]).key@, kept@[k].at),
        decreases dedupe.entries@.len() - i,
    {
        assert(all.take(i + 1).drop_last() =~= all.take(i as int));
        assert(all.take(i + 1).last() == (
            dedupe.entries@[i as int].key@,
            dedupe.entries@[i as int].at,
        ));
        let at: u64 = dedupe.entries[i].at;
        if now < at || now - at < DEDUPE_TTL_MS {
            kept.push(SeenEntry { key: dedupe.entries[i].key.as_str().to_owned(), at });
            proof {
                shown = shown.push(all[i as int]);
            }
        }
        i = i + 1;
    }
    assert(all.take(i as int) =~= all);
    dedupe.entries = kept;
    assert(dedupe@ =~= shown);
}

/// Forgets the oldest of what is more than can be remembered.
pub fn trim_dedupe(dedupe: &mut Seen)
    ensures
        final(dedupe)@ == bounded(old(dedupe)@),
{
    while dedupe.entries.len() > MAX_DEDUPE_ENTRIES
        invariant
            bounded(dedupe@) == bounded(old(dedupe)@),
        decreases dedupe.entries@.len(),
    {
        let ghost all = dedupe@;
        let n: usize = dedupe.entries.len();
        let mut k: usize = 0;
        let mut i: usize = 1;
        while i < n
            invariant
                n == dedupe.entries@.len(),
                all == dedupe@,
                1 <= i <= n,
                k < i,
                k == oldest(all, i as nat),
            decreases n - i,
        {
            assert(all[i as int].1 == dedupe.entries@[i as int].at);
            assert(all[k as int].1 == dedupe.entries@[k as int].at);
            if dedupe.entries[i].at < dedupe.entries[k].at {
                k = i;
            }
            i = i + 1;
        }
        dedupe.entries.remove(k);
        assert(dedupe@ =~= all.remove(k as int));
    }
}

proof fn lemma_bounded(list: Seq<(Seq<char>, u64)>)
    ensures
        bounded(list).len() <= MAX_DEDUPE_ENTRIES,
    decreases list.len(),
{
    if list.len() > MAX_DEDUPE_ENTRIES {
        lemma_oldest(list, list.len());
        lemma_bounded(list.remove(oldest(list, list.len())));
    }
}

/// No more envelopes are remembered than the bound, and the newest of them is among
/// them: it is known when it comes again.
pub proof fn the_newest_envelope_is_remembered(list: Seq<(Seq<char>, u64)>, key: Seq<char>, now: u64)
    requires
        forall|i: int| 0 <= i < list.len() ==> (#[trigger] list[i]).1 <= now,
        place_of(list, key) == list.len(),
        list.len() <= MAX_DEDUPE_ENTRIES,
    ensures
        bounded(noted(list, key, now)).len() <= MAX_DEDUPE_ENTRIES,
        place_of(bounded(noted(list, key, now)), key) < bounded(noted(list, key, now)).len(),
{
    let all = list.push((key, now));
    lemma_bounded(all);
    assert(noted(list, key, now) == all);
    let kept = bounded(all);
    if all.len() > MAX_DEDUPE_ENTRIES {
        lemma_oldest(all, all.len());
        let k = oldest(all, all.len());
        assert(all[0].1 <= now);
        assert(k < all.len() - 1) by {
            if k == all.len() - 1 {
                assert(all[k].1 < all[0].1);
            }
        }
        assert(bounded(all.remove(k)) == all.remove(k));
        assert(kept[kept.len() - 1] == (key, now));
    } else {
        assert(kept[kept.len() - 1] == (key, now));
    }
    lemma_place(kept, key);
    if place_of(kept, key) == kept.len() {
        assert(kept[kept.len() - 1].0 != key);
    }
}

// ---- Commands ---------------------------------------------------------------

/// Whether the first greeting of a connection is logged: only the first is.
pub fn should_log_socket_mode_hello(envelope: &Envelope, hello_logged: &mut bool) -> (b: bool)
    ensures
        b == (envelope.kind@ == "hello"@ && !*old(hello_logged)),
        *final(hello_logged) == (*old(hello_logged) || b),
{
    if !text::str_eq(envelope.kind.as_str(), "hello") || *hello_logged {
        return false;
    }
    *hello_logged = true;
    true
}

/// Whether a command may be given.
pub open spec fn may_command(config: SlackConfig, m: events::IncomingView) -> bool {
    match m.kind {
        addressing::ConversationKind::DirectMessage => config.dm.enabled && addressing::permits(
            text::views(config.dm.users@),
            m.sender_id,
        ),
        addressing::ConversationKind::Channel => config.channels@ == Map::<
            Seq<char>,
            ChannelConfig,
        >::empty() || (config.channels@.contains_key(m.channel_id) && addressing::permits(
            text::views(config.channels@[m.channel_id].users@),
            m.sender_id,
        )),
    }
}

/// Whether a command may be given.
pub fn command_allowed(config: &SlackConfig, incoming: &Incoming) -> (b: bool)
    ensures
        b == may_command(*config, incoming@),
{
    match incoming.kind {
        addressing::ConversationKind::DirectMessage => {
            config.dm.enabled && addressing::allowed(
                config.dm.users.as_slice(),
                incoming.sender_id.as_str(),
            )
        },
        addressing::ConversationKind::Channel => {
            if config.channels.is_empty() {
                return true;
            }
            match config.channels.get(incoming.channel_id.as_str()) {
                Some(channel) => addressing::allowed(
                    channel.users.as_slice(),
                    incoming.sender_id.as_str(),
                ),
                None => false,
            }
        },
    }
}

/// What is to be done with a slash command.
#[derive(Clone, Copy, Debug, PartialEq, Eq, Structural)]
pub enum SlashStep {
    /// It is answered that it may not be given.
    Deny,
    /// The current response is stopped.
    Stop,
    /// The health of the bot is asked for.
    Ping,
    /// It is answered at once.
    Answer,
    /// It is handed to the worker of the conversation.
    Enqueue,
}

/// What is to be done with a slash command.
pub fn slash_step(config: &SlackConfig, command: Command, incoming: &Incoming) -> (r: SlashStep)
    ensures
        r == (if !may_command(*config, incoming@) {
            SlashStep::Deny
        } else {
            match command {
                Command::Stop => SlashStep::Stop,
                Command::Ping => SlashStep::Ping,
                Command::Help => SlashStep::Answer,
                Command::New => SlashStep::Enqueue,
            }
        }),
{
    if !command_allowed(config, incoming) {
        return SlashStep::Deny;
    }
    match command {
        Command::Stop => SlashStep::Stop,
        Command::Ping => SlashStep::Ping,
        Command::Help => SlashStep::Answer,
        Command::New => SlashStep::Enqueue,
    }
}

/// What is said after an attempt to stop the current response.
pub fn stop_reply(stopped: bool) -> (text: &'static str)
    ensures
        text@ == (if stopped {
            "Stopped current response."@
        } else {
            NOTHING_TO_STOP@
        }),
{
    if stopped {
        commands::reply(Command::Stop)
    } else {
        NOTHING_TO_STOP
    }
}

/// What is said of the bot's health: by the workspace that it was found in, if any,
/// and the one that it belongs to.
pub fn ping_reply(found: Option<&str>, team_id: &str) -> (text: &'static str)
    ensures
        text@ == (match found {
            Some(team) => if team@ == team_id@ {
                "Bot healthy."@
            } else {
                "Bot health check failed: workspace mismatch."@
            },
            None => "Bot health check failed."@,
        }),
{
    match found {
        Some(team) => {
            if text::str_eq(team, team_id) {
                "Bot healthy."
            } else {
                "Bot health check failed: workspace mismatch."
            }
        },
        None => "Bot health check failed.",
    }
}

// ---- Work -------------------------------------------------------------------

/// Something to be done in a conversation.
#[derive(Clone, Debug, PartialEq, Eq)]
pub enum Work {
    Message(Incoming),
    Command { command: Command, incoming: Incoming },
}

/// What the work is about.
pub open spec fn subject(work: Work) -> events::IncomingView {
    match work {
        Work::Message(incoming) => incoming@,
        Work::Command { incoming, .. } => incoming@,
    }
}

/// The key of the conversation that a message belongs to.
pub open spec fn conversation(m: events::IncomingView) -> Seq<char> {
    session::key_text(m.team_id, m.kind, m.sender_id, m.channel_id, m.thread_ts)
}

/// The key of the conversation that a message belongs to.
pub fn conversation_key(incoming: &Incoming) -> (key: ConversationKey)
    ensures
        key@ == conversation(incoming@),
{
    ConversationKey::from_message(&events::inbound(incoming, ""))
}

/// The key of the conversation that work is to be done in.
pub fn work_key(work: &Work) -> (key: String)
    ensures
        key@ == conversation(subject(*work)),
{
    let incoming = match work {
        Work::Message(incoming) => incoming,
        Work::Command { incoming, .. } => incoming,
    };
    conversation_key(incoming).as_str().to_owned()
}

/// Where work goes.
#[derive(Clone, Copy, Debug, PartialEq, Eq, Structural)]
pub enum Lane {
    /// To the worker that the conversation has.
    Existing,
    /// To a worker of its own.
    Fresh,
    /// Nowhere: there are too many workers.
    Busy,
}

/// Where work of a conversation goes, by whether it has a worker and how many
/// workers there are.
pub fn choose_lane(has_worker: bool, workers: usize) -> (lane: Lane)
    ensures
        lane == (if has_worker {
            Lane::Existing
        } else if workers >= MAX_KEYED_WORKERS {
            Lane::Busy
        } else {
            Lane::Fresh
        }),
{
    if has_worker {
        Lane::Existing
    } else if workers >= MAX_KEYED_WORKERS {
        Lane::Busy
    } else {
        Lane::Fresh
    }
}

// ---- Messages ---------------------------------------------------------------

/// The text of a message as it is routed: a reaction counts as a mention.
pub open spec fn routed_text(m: events::IncomingView, bot: Seq<char>) -> Seq<char> {
    if m.is_reaction {
        "<@"@ + bot + "> "@ + m.text
    } else {
        m.text
    }
}

/// A message as it is routed.
pub open spec fn to_route(m: events::IncomingView, bot: Seq<char>) -> addressing::MessageView {
    addressing::MessageView { text: routed_text(m, bot), ..events::as_routed(m, bot) }
}

/// The text and the thread with which a message is answered, where it is: it comes
/// from the bot's own workspace, and is routed.
pub open spec fn answered(
    config: SlackConfig,
    team: Seq<char>,
    bot: Seq<char>,
    patterns: Seq<Seq<char>>,
    m: events::IncomingView,
) -> Option<(Seq<char>, Option<Seq<char>>)> {
    if m.team_id == team {
        addressing::routed(config, patterns, to_route(m, bot))
    } else {
        None
    }
}

/// What a text says to the bot itself, once what addresses the bot is taken away: a
/// command that an exclamation mark begins.
pub open spec fn bang_command(s: Seq<char>, bot: Seq<char>, patterns: Seq<Seq<char>>) -> Option<
    Command,
> {
    let rest = match addressing::addressed(s, Some(bot), patterns) {
        Some(rest) => rest,
        None => s,
    };
    let shown = text::trimmed_start(rest);
    if shown.len() > 0 && shown[0] == '!' {
        commands::named_command(commands::unmarked(text::first_word(rest)))
    } else {
        None
    }
}

/// The command that a message gives.
pub fn message_command(incoming: &Incoming, identity: &SlackIdentity, patterns: &[String]) -> (r:
    Option<Command>)
    ensures
        r == bang_command(incoming@.text, identity.user_id@, text::views(patterns@)),
{
    let (_, rest) = addressing::strip_mention(
        incoming.text.as_str(),
        Some(identity.user_id.as_str()),
        patterns,
    );
    let chars = text::to_chars(rest.as_str());
    let shown = text::trim_start(chars.as_slice());
    if shown.len() > 0 && shown[0] == '!' {
        commands::parse(rest.as_str())
    } else {
        None
    }
}

fn write_routed_text(incoming: &Incoming, bot: &str) -> (text: String)
    ensures
        text@ == routed_text(incoming@, bot@),
{
    if incoming.is_reaction {
        let mut text = "<@".to_owned();
        text.append(bot);
        text.append("> ");
        text.append(incoming.text.as_str());
        text
    } else {
        incoming.text.as_str().to_owned()
    }
}

fn route_incoming(
    config: &SlackConfig,
    identity: &SlackIdentity,
    patterns: &[String],
    incoming: &Incoming,
) -> (r: RouteDecision)
    ensures
        addressing::decision(r) == answered(
            *config,
            identity.team_id@,
            identity.user_id@,
            text::views(patterns@),
            incoming@,
        ),
{
    if !text::str_eq(incoming.team_id.as_str(), identity.team_id.as_str()) {
        return RouteDecision::Ignore;
    }
    let shown = write_routed_text(incoming, identity.user_id.as_str());
    let plain = events::inbound(incoming, identity.user_id.as_str());
    let message = InboundMessage {
        team_id: plain.team_id,
        channel_id: plain.channel_id,
        sender_id: plain.sender_id,
        text: shown.as_str(),
        has_files: plain.has_files,
        bot_user_id: plain.bot_user_id,
        thread_ts: plain.thread_ts,
        message_ts: plain.message_ts,
        kind: plain.kind,
    };
    assert(message@ =~= to_route(incoming@, identity.user_id@));
    addressing::route(config, patterns, &message)
}

/// Whether a message is answered.
pub fn accepted_message(
    config: &SlackConfig,
    identity: &SlackIdentity,
    patterns: &[String],
    incoming: &Incoming,
) -> (b: bool)
    ensures
        b == (answered(
            *config,
            identity.team_id@,
            identity.user_id@,
            text::views(patterns@),
            incoming@,
        ) is Some),
{
    match route_incoming(config, identity, patterns, incoming) {
        RouteDecision::Ignore => false,
        RouteDecision::Dispatch { .. } => true,
    }
}

/// What is to be done with a message.
#[derive(Clone, Debug, PartialEq, Eq)]
pub enum MessagePlan {
    Ignore,
    /// A command is carried out and answered.
    Command {
        command: Command,
        reply_thread_ts: Option<String>,
    },
    /// The agent is asked.
    Turn {
        text: String,
        reply_thread_ts: Option<String>,
    },
}

/// What is to be done with a message: it is ignored where it is not answered; a
/// command goes before anything else.
pub fn plan_message(
    config: &SlackConfig,
    identity: &SlackIdentity,
    patterns: &[String],
    incoming: &Incoming,
) -> (r: MessagePlan)
    ensures
        ({
            let answer = answered(
                *config,
                identity.team_id@,
                identity.user_id@,
                text::views(patterns@),
                incoming@,
            );
            let command = bang_command(incoming@.text, identity.user_id@, text::views(patterns@));
            match r {
                MessagePlan::Ignore => answer is None,
                MessagePlan::Command { command: given, reply_thread_ts } => answer is Some
                    && command == Some(given) && text::opt_view(reply_thread_ts) == (answer->0).1,
                MessagePlan::Turn { text, reply_thread_ts } => answer is Some && command is None
                    && text@ == (answer->0).0 && text::opt_view(reply_thread_ts) == (answer->0).1,
            }
        }),
{
    match route_incoming(config, identity, patterns, incoming) {
        RouteDecision::Ignore => MessagePlan::Ignore,
        RouteDecision::Dispatch { text, reply_thread_ts } => {
            match message_command(incoming, identity, patterns) {
                Some(command) => MessagePlan::Command { command, reply_thread_ts },
                None => MessagePlan::Turn { text, reply_thread_ts },
            }
        },
    }
}

/// Characters that may stand in a log line.
pub open spec fn is_safe(c: char) -> bool {
    text::is_ascii_alnum(c) || c == '_' || c == '-'
}

/// At most `room` safe characters of `s` from index `i` on.
pub open spec fn safe_part(s: Seq<char>, i: int, room: nat) -> Seq<char>
    decreases s.len() - i,
{
    if i < 0 || i >= s.len() || room == 0 {
        Seq::empty()
    } else if is_safe(s[i]) {
        seq![s[i]] + safe_part(s, i + 1, (room - 1) as nat)
    } else {
        safe_part(s, i + 1, room)
    }
}

/// An identifier that may stand in a log line.
pub open spec fn safe_identifier(s: Seq<char>) -> Seq<char> {
    if safe_part(s, 0, 128).len() == 0 {
        "?"@
    } else {
        safe_part(s, 0, 128)
    }
}

/// An identifier that may stand in a log line.
pub fn safe_slack_identifier(identifier: &str) -> (out: String)
    ensures
        out@ == safe_identifier(identifier@),
{
    let chars = text::to_chars(identifier);
    let mut out: Vec<char> = Vec::new();
    let mut i: usize = 0;
    while i < chars.len() && out.len() < 128
        invariant
            chars@ == identifier@,
            i <= chars@.len(),
            out@.len() <= 128,
            out@ + safe_part(chars@, i as int, (128 - out@.len()) as nat) =~= safe_part(
                chars@,
                0,
                128,
            ),
        decreases chars@.len() - i,
    {
        let c = chars[i];
        let ghost before = out@;
        if text::is_ascii_alphanumeric(c) || c == '_' || c == '-' {
            out.push(c);
            assert(out@ + safe_part(chars@, i + 1, (128 - out@.len()) as nat) =~= before + (
            seq![c] + safe_part(chars@, i + 1, (128 - out@.len()) as nat)));
        }
        i = i + 1;
    }
    if out.len() == 0 {
        "?".to_owned()
    } else {
        text::from_chars(out.as_slice())
    }
}

/// The log line of a message: where it came from, and nothing of what it says.
pub fn accepted_message_log(incoming: &Incoming) -> (line: String)
    ensures
        line@ == "message from channel "@ + safe_identifier(incoming@.channel_id) + " (user "@
            + safe_identifier(incoming@.sender_id) + ")"@,
{
    let mut line = "message from channel ".to_owned();
    line.append(safe_slack_identifier(incoming.channel_id.as_str()).as_str());
    line.append(" (user ");
    line.append(safe_slack_identifier(incoming.sender_id.as_str()).as_str());
    line.append(")");
    line
}

proof fn lemma_safe_part(s: Seq<char>, i: int, room: nat)
    ensures
        safe_part(s, i, room).len() <= room,
        forall|k: int|
            0 <= k < safe_part(s, i, room).len() ==> is_safe(#[trigger] safe_part(s, i, room)[k]),
    decreases s.len() - i,
{
    if 0 <= i < s.len() && room > 0 {
        if is_safe(s[i]) {
            lemma_safe_part(s, i + 1, (room - 1) as nat);
        } else {
            lemma_safe_part(s, i + 1, room);
        }
    }
}

/// Whatever an identifier holds, no line break, and no more than a line has room
/// for, gets into the log.
pub proof fn log_lines_hold_only_safe_identifiers(s: Seq<char>)
    ensures
        0 < safe_identifier(s).len() <= 128,
        forall|k: int|
            0 <= k < safe_identifier(s).len() ==> is_safe(#[trigger] safe_identifier(s)[k])
                || safe_identifier(s)[k] == '?',
{
    reveal_strlit("?");
    lemma_safe_part(s, 0, 128);
}

/// What becomes of a message that came through the socket.
#[derive(Clone, Copy, Debug, PartialEq, Eq, Structural)]
pub enum Disposition {
    /// It is not answered.
    Reject,
    /// The current response is stopped at once.
    Stop,
    /// It is handed to a worker, and marked as being thought about or not.
    Work { thinking: bool },
}

/// What becomes of a message that came through the socket.
pub fn dispose(
    config: &SlackConfig,
    identity: &SlackIdentity,
    patterns: &[String],
    incoming: &Incoming,
) -> (r: Disposition)
    ensures
        ({
            let command = bang_command(incoming@.text, identity.user_id@, text::views(patterns@));
            r == if answered(
                *config,
                identity.team_id@,
                identity.user_id@,
                text::views(patterns@),
                incoming@,
            ) is None {
                Disposition::Reject
            } else if command == Some(Command::Stop) {
                Disposition::Stop
            } else {
                Disposition::Work { thinking: config.show_thinking && command is None }
            }
        }),
{
    if !accepted_message(config, identity, patterns, incoming) {
        return Disposition::Reject;
    }
    match message_command(incoming, identity, patterns) {
        Some(Command::Stop) => Disposition::Stop,
        Some(_) => Disposition::Work { thinking: false },
        None => Disposition::Work { thinking: config.show_thinking },
    }
}

// ---- The socket -------------------------------------------------------------

/// What is to be done with an envelope.
#[derive(Clone, Debug, PartialEq, Eq)]
pub enum EnvelopeStep {
    /// The connection stands.
    Hello,
    /// It is nothing that could be told from others.
    Skip,
    /// It came before: it is only acknowledged.
    Repeat { ack: Option<String> },
    /// A slash command, which is acknowledged with its reply.
    Slash { command: Command, incoming: Incoming },
    /// It is acknowledged, and what it brings is worked on.
    Event { ack: Option<String>, incoming: Option<Incoming> },
}

/// The acknowledgement of an envelope that has an id.
pub open spec fn plain_ack(envelope_id: Seq<char>) -> Option<Seq<char>> {
    if envelope_id.len() > 0 {
        Some(ack_text(envelope_id, None))
    } else {
        None
    }
}

fn acknowledge(envelope: &Envelope) -> (r: Option<String>)
    ensures
        text::opt_view(r) == plain_ack(envelope.envelope_id@),
{
    if envelope.envelope_id.as_str().is_empty() {
        None
    } else {
        Some(ack(envelope.envelope_id.as_str(), None))
    }
}

/// What a connection has seen after an envelope with a key, at the time `now`.
pub open spec fn seen_after(list: Seq<(Seq<char>, u64)>, key: Seq<char>, now: u64) -> Seq<
    (Seq<char>, u64),
> {
    let recent = unexpired(list, now);
    if place_of(recent, key) < recent.len() {
        noted(recent, key, now)
    } else {
        bounded(noted(recent, key, now))
    }
}

/// What is to be done with an envelope that comes at the time `now`.
pub fn on_envelope(seen: &mut Seen, hello_logged: &mut bool, envelope: &Envelope, now: u64) -> (r:
    EnvelopeStep)
    ensures
        ({
            let hello = envelope.kind@ == "hello"@ && !*old(hello_logged);
            let key = events::envelope_key(
                envelope.kind@,
                envelope.envelope_id@,
                envelope.payload@,
            );
            let recent = unexpired(old(seen)@, now);
            let known = key is Some && place_of(recent, key->0) < recent.len();
            let command = events::given_command(envelope.kind@, envelope.payload@);
            &&& *final(hello_logged) == (*old(hello_logged) || hello)
            &&& final(seen)@ == (if hello || key is None {
                old(seen)@
            } else {
                seen_after(old(seen)@, key->0, now)
            })
            &&& match r {
                EnvelopeStep::Hello => hello,
                EnvelopeStep::Skip => !hello && key is None,
                EnvelopeStep::Repeat { ack } => !hello && known && text::opt_view(ack)
                    == plain_ack(envelope.envelope_id@),
                EnvelopeStep::Slash { command: given, incoming } => !hello && key is Some && !known
                    && command == Some((given, incoming@)),
                EnvelopeStep::Event { ack, incoming } => !hello && key is Some && !known
                    && command is None && text::opt_view(ack) == plain_ack(envelope.envelope_id@)
                    && events::brought(envelope.kind@, envelope.payload@) == (match incoming {
                    Some(m) => Some(m@),
                    None => None,
                }),
            }
        }),
{
    if should_log_socket_mode_hello(envelope, hello_logged) {
        return EnvelopeStep::Hello;
    }
    let key = match events::dedupe_key(envelope) {
        Some(key) => key,
        None => {
            return EnvelopeStep::Skip;
        },
    };
    prune_dedupe(seen, now);
    if seen.insert(key.as_str(), now) {
        return EnvelopeStep::Repeat { ack: acknowledge(envelope) };
    }
    trim_dedupe(seen);
    if let Some((command, incoming)) = events::slash_command(envelope) {
        return EnvelopeStep::Slash { command, incoming };
    }
    EnvelopeStep::Event { ack: acknowledge(envelope), incoming: events::incoming(envelope) }
}

proof fn lemma_unexpired(list: Seq<(Seq<char>, u64)>, now: u64)
    ensures
        unexpired(list, now).len() <= list.len(),
        forall|i: int|
            0 <= i < unexpired(list, now).len() ==> list.contains(
                #[trigger] unexpired(list, now)[i],
            ),
        forall|i: int|
            0 <= i < list.len() && now - list[i].1 < DEDUPE_TTL_MS ==> unexpired(
                list,
                now,
            ).contains(#[trigger] list[i]),
    decreases list.len(),
{
    if list.len() > 0 {
        let init = list.drop_last();
        lemma_unexpired(init, now);
        let before = unexpired(init, now);
        let all = unexpired(list, now);
        assert forall|i: int| 0 <= i < all.len() implies list.contains(#[trigger] all[i]) by {
            if i < before.len() {
                assert(init.contains(before[i]));
                let k = choose|k: int| 0 <= k < init.len() && init[k] == before[i];
                assert(list[k] == all[i]);
            } else {
                assert(list[list.len() - 1] == all[i]);
            }
        }
        assert forall|i: int|
            0 <= i < list.len() && now - list[i].1 < DEDUPE_TTL_MS implies all.contains(
            #[trigger] list[i],
        ) by {
            if i < init.len() {
                assert(before.contains(init[i]));
                let k = choose|k: int| 0 <= k < before.len() && before[k] == init[i];
                assert(all[k] == list[i]);
            } else {
                assert(all[all.len() - 1] == list[i]);
            }
        }
    }
}

/// An envelope that was seen is only acknowledged when it comes again within the
/// time that it is remembered.
pub proof fn an_envelope_is_worked_on_once(
    list: Seq<(Seq<char>, u64)>,
    key: Seq<char>,
    now: u64,
    later: u64,
)
    requires
        list.len() <= MAX_DEDUPE_ENTRIES,
        forall|i: int| 0 <= i < list.len() ==> (#[trigger] list[i]).1 <= now,
        now <= later < now + DEDUPE_TTL_MS,
    ensures
        seen_after(list, key, now).len() <= MAX_DEDUPE_ENTRIES,
        ({
            let recent = unexpired(seen_after(list, key, now), later);
            place_of(recent, key) < recent.len()
        }),
{
    let recent = unexpired(list, now);
    lemma_unexpired(list, now);
    lemma_place(recent, key);
    let after = seen_after(list, key, now);
    if place_of(recent, key) < recent.len() {
        assert(after[place_of(recent, key)] == (key, now));
    } else {
        assert forall|i: int| 0 <= i < recent.len() implies (#[trigger] recent[i]).1 <= now by {
            assert(list.contains(recent[i]));
        }
        the_newest_envelope_is_remembered(recent, key, now);
        let grown = recent.push((key, now));
        if grown.len() > MAX_DEDUPE_ENTRIES {
            lemma_oldest(grown, grown.len());
            let k = oldest(grown, grown.len());
            assert(grown[0].1 <= now);
            assert(k < grown.len() - 1) by {
                if k == grown.len() - 1 {
                    assert(grown[k].1 < grown[0].1);
                }
            }
            assert(bounded(grown.remove(k)) == grown.remove(k));
        }
        assert(after[after.len() - 1] == (key, now));
    }
    assert(after.contains((key, now)));
    let at = choose|i: int| 0 <= i < after.len() && after[i] == (key, now);
    lemma_unexpired(after, later);
    let still = unexpired(after, later);
    assert(still.contains(after[at]));
    let k = choose|k: int| 0 <= k < still.len() && still[k] == after[at];
    lemma_place(still, key);
    if place_of(still, key) == still.len() {
        assert(still[k].0 != key);
    }
}

// ---- Attachments ------------------------------------------------------------

/// How many files of a message are fetched at most.
pub const MAX_FILES: usize = 10;

/// Whether a file can be fetched.
pub open spec fn is_fetchable(f: events::FileView) -> bool {
    f.name.len() > 0 && f.url.len() > 0
}

/// The places of the files that are fetched.
pub open spec fn fetched_places(files: Seq<events::FileView>, n: nat) -> Seq<int>
    decreases n,
{
    if n == 0 {
        Seq::empty()
    } else {
        let before = fetched_places(files, (n - 1) as nat);
        if is_fetchable(files[n - 1]) {
            before.push(n - 1)
        } else {
            before
        }
    }
}

/// The places of the files that are fetched: of those that come first, the ones
/// that have a name and an address.
pub fn files_to_fetch(files: &Vec<File>) -> (list: Vec<usize>)
    ensures
        ({
            let n = if files@.len() < MAX_FILES {
                files@.len()
            } else {
                MAX_FILES as nat
            };
            let places = fetched_places(events::file_views(files@), n);
            list@.len() == places.len() && forall|k: int|
                0 <= k < list@.len() ==> #[trigger] list@[k] == places[k]
        }),
{
    let ghost all = events::file_views(files@);
    let n: usize = if files.len() < MAX_FILES {
        files.len()
    } else {
        MAX_FILES
    };
    let mut list: Vec<usize> = Vec::new();
    let mut i: usize = 0;
    while i < n
        invariant
            all == events::file_views(files@),
            i <= n <= files@.len(),
            list@.len() == fetched_places(all, i as nat).len(),
            forall|k: int|
                0 <= k < list@.len() ==> #[trigger] list@[k] == fetched_places(all, i as nat)[k],
        decreases n - i,
    {
        assert(all[i as int] == files@[i as int]@);
        if !files[i].name.as_str().is_empty() && !files[i].url_private_download.as_str().is_empty() {
            list.push(i);
        }
        i = i + 1;
    }
    list
}

/// The name under which a file of a message is kept.
pub fn attachment_name(ts: &str, index: u64, name: &str) -> (out: String)
    ensures
        out@ == text::replaced(ts@, "."@, "_"@) + "-"@ + text::decimal(index as nat) + "-"@ + name@,
{
    proof {
        reveal_strlit(".");
    }
    let chars = text::to_chars(ts);
    let mut out = text::replace(chars.as_slice(), ".", "_");
    text::push_str(&mut out, "-");
    text::push_all(&mut out, text::decimal_chars(index).as_slice());
    text::push_str(&mut out, "-");
    text::push_str(&mut out, name);
    text::from_chars(out.as_slice())
}

/// What a prompt is told of a file that was fetched.
pub fn attachment_note(path: &str, name: &str, mimetype: &str) -> (note: String)
    ensures
        note@
            == "\n\nAttachment metadata (untrusted data, inspect local path if useful): {\"mime\":"@
            + json::json_string(mimetype@) + ",\"name\":"@ + json::json_string(name@)
            + ",\"path\":"@ + json::json_string(path@)
            + ",\"source\":\"untrusted Slack attachment\"}"@,
{
    let mut note =
        "\n\nAttachment metadata (untrusted data, inspect local path if useful): {\"mime\":".to_owned();
    note.append(json::quote(mimetype).as_str());
    note.append(",\"name\":");
    note.append(json::quote(name).as_str());
    note.append(",\"path\":");
    note.append(json::quote(path).as_str());
    note.append(",\"source\":\"untrusted Slack attachment\"}");
    note
}

/// What a prompt is told of a file that could not be fetched.
pub const ATTACHMENT_FAILED: &'static str = "\n\nAttachment download failed.";

// ---- Generations ------------------------------------------------------------

/// The file that names the current generation of a conversation's session.
pub fn generation_file(key: &ConversationKey, data_dir: &str) -> (path: String)
    ensures
        path@ == paths::joined(session::key_directory(data_dir@, key@), "current"@),
{
    paths::join(key.directory(data_dir).as_str(), "current")
}

/// The directory of a generation of a conversation's session.
pub fn generation_dir(key: &ConversationKey, data_dir: &str, generation: u64) -> (path: String)
    ensures
        path@ == paths::joined(
            session::key_directory(data_dir@, key@),
            text::decimal(generation as nat),
        ),
{
    paths::join_number(key.directory(data_dir).as_str(), generation)
}

/// The generation that a file names: the first where there is no file.
pub fn read_generation(content: Option<&str>) -> (r: Option<u64>)
    ensures
        match r {
            Some(n) => named_generation(text::opt_str_view(content)) == Some(n as nat),
            None => named_generation(text::opt_str_view(content)) is None,
        },
{
    match content {
        Some(s) => {
            let chars = text::to_chars(s);
            text::parse_number(text::trim(chars.as_slice()), u64::MAX)
        },
        None => Some(0),
    }
}

/// The generation after another.
pub fn next_generation(generation: u64) -> (r: Option<u64>)
    ensures
        match r {
            Some(n) => n == generation + 1,
            None => generation == u64::MAX,
        },
{
    generation.checked_add(1)
}

/// Why a conversation's session has no directory.
#[derive(Clone, Copy, Debug, PartialEq, Eq, Structural)]
pub enum GenerationError {
    /// The file names no generation.
    Invalid,
    Overflow,
}

impl GenerationError {
    /// What is wrong.
    pub fn message(&self) -> (text: &'static str)
        ensures
            text@ == (match *self {
                GenerationError::Invalid => "invalid Slack session generation"@,
                GenerationError::Overflow => "Slack session generation overflow"@,
            }),
    {
        match self {
            GenerationError::Invalid => "invalid Slack session generation",
            GenerationError::Overflow => "Slack session generation overflow",
        }
    }
}

/// The generation that a file names: the first where there is no file.
pub open spec fn named_generation(content: Option<Seq<char>>) -> Option<nat> {
    match content {
        Some(s) => match text::numeral(text::trimmed(s)) {
            Some(n) => if n <= u64::MAX {
                Some(n)
            } else {
                None
            },
            None => None,
        },
        None => Some(0),
    }
}

/// The generation in which a conversation goes on whose file says `content`: the one
/// that is named, or the one after it.
pub open spec fn generation_for(content: Option<Seq<char>>, fresh: bool) -> Result<
    nat,
    GenerationError,
> {
    match named_generation(content) {
        None => Err(GenerationError::Invalid),
        Some(n) => if !fresh {
            Ok(n)
        } else if n < u64::MAX {
            Ok(n + 1)
        } else {
            Err(GenerationError::Overflow)
        },
    }
}

/// Where a conversation goes on.
#[derive(Clone, Debug, PartialEq, Eq)]
pub struct SessionPlace {
    /// What the file that names the current generation is to hold.
    pub content: String,
    /// The directory of the session.
    pub directory: String,
}

/// Whether a place is that of a generation of a conversation.
pub open spec fn is_place_of(
    place: SessionPlace,
    data_dir: Seq<char>,
    key: Seq<char>,
    generation: nat,
) -> bool {
    &&& place.content@ == text::decimal(generation)
    &&& place.directory@ == paths::joined(
        session::key_directory(data_dir, key),
        text::decimal(generation),
    )
}

fn session_place(key: &ConversationKey, data_dir: &str, generation: u64) -> (place: SessionPlace)
    ensures
        is_place_of(place, data_dir@, key@, generation as nat),
{
    SessionPlace {
        content: text::from_chars(text::decimal_chars(generation).as_slice()),
        directory: generation_dir(key, data_dir, generation),
    }
}

/// Where a conversation goes on whose generation file holds `content`.
pub fn current_session_dir(key: &ConversationKey, data_dir: &str, content: Option<&str>) -> (r:
    Result<SessionPlace, GenerationError>)
    ensures
        match generation_for(text::opt_str_view(content), false) {
            Ok(n) => r is Ok && is_place_of(r->Ok_0, data_dir@, key@, n),
            Err(e) => r == Err::<SessionPlace, GenerationError>(e),
        },
{
    match read_generation(content) {
        Some(n) => Ok(session_place(key, data_dir, n)),
        None => Err(GenerationError::Invalid),
    }
}

/// Where a conversation begins anew whose generation file holds `content`.
pub fn next_session_dir(key: &ConversationKey, data_dir: &str, content: Option<&str>) -> (r: Result<
    SessionPlace,
    GenerationError,
>)
    ensures
        match generation_for(text::opt_str_view(content), true) {
            Ok(n) => r is Ok && is_place_of(r->Ok_0, data_dir@, key@, n),
            Err(e) => r == Err::<SessionPlace, GenerationError>(e),
        },
{
    match read_generation(content) {
        Some(n) => match next_generation(n) {
            Some(next) => Ok(session_place(key, data_dir, next)),
            None => Err(GenerationError::Overflow),
        },
        None => Err(GenerationError::Invalid),
    }
}

/// Where a conversation begins anew it gets a directory that it has not had before, and
/// goes on there from then on.
pub proof fn conversations_that_begin_anew_move_on(
    data_dir: Seq<char>,
    key: Seq<char>,
    content: Option<Seq<char>>,
    first: SessionPlace,
    second: SessionPlace,
    earlier: nat,
)
    requires
        generation_for(content, true) is Ok,
        is_place_of(first, data_dir, key, generation_for(content, false)->Ok_0),
        is_place_of(second, data_dir, key, generation_for(Some(first.content@), true)->Ok_0),
        earlier <= generation_for(content, false)->Ok_0,
    ensures
        generation_for(content, false) is Ok,
        generation_for(Some(first.content@), false) == generation_for(content, false),
        generation_for(Some(first.content@), true) == generation_for(content, true),
        second.directory@ != first.directory@,
        second.directory@ != paths::joined(
            session::key_directory(data_dir, key),
            text::decimal(earlier),
        ),
        generation_for(Some(second.content@), false) == generation_for(content, true),
{
    let n = generation_for(content, false)->Ok_0;
    let base = session::key_directory(data_dir, key);
    text::lemma_numeral_of_decimal(n);
    text::lemma_numeral_of_decimal(n + 1);
    lemma_generations_differ(base, n, n + 1);
    lemma_generations_differ(base, earlier, n + 1);
}

proof fn lemma_generations_differ(base: Seq<char>, a: nat, b: nat)
    requires
        a != b,
    ensures
        paths::joined(base, text::decimal(a)) != paths::joined(base, text::decimal(b)),
{
    text::lemma_decimal_value(a);
    text::lemma_decimal_value(b);
    text::lemma_decimal_digits(a);
    text::lemma_decimal_digits(b);
    assert(text::is_digit(text::decimal(a)[0]) && text::is_digit(text::decimal(b)[0]));
    paths::names_have_their_own_paths(base, text::decimal(a), text::decimal(b));
}

// ---- Turns ------------------------------------------------------------------

/// What happens in a turn.
#[derive(Clone, Debug, PartialEq, Eq)]
pub enum TurnEvent {
    /// More text of the answer.
    Text(String),
    /// The turn is over.
    Finished { ok: bool, error: Option<String> },
    /// The session has closed, or is gone.
    Closed,
    /// The channel is shutting down.
    Shutdown,
    Other,
}

/// A turn as far as it has come.
#[derive(Clone, Debug, PartialEq, Eq)]
pub struct Turn {
    answer: String,
    done: bool,
    closed: bool,
    succeeded: bool,
}

/// What is known of a turn.
#[verifier::ext_equal]
pub struct TurnView {
    pub answer: Seq<char>,
    pub done: bool,
    /// Whether the session cannot be used again.
    pub closed: bool,
    pub succeeded: bool,
}

impl View for Turn {
    type V = TurnView;

    closed spec fn view(&self) -> TurnView {
        TurnView {
            answer: self.answer@,
            done: self.done,
            closed: self.closed,
            succeeded: self.succeeded,
        }
    }
}

/// What is said of a turn that failed without an answer.
pub open spec fn failure_text(error: Option<Seq<char>>) -> Seq<char> {
    "Agent turn failed: "@ + match error {
        Some(s) => s,
        None => "unknown error"@,
    }
}

/// The turn after an event.
pub open spec fn turn_after(t: TurnView, event: TurnEvent) -> TurnView {
    match event {
        TurnEvent::Text(s) => TurnView { answer: t.answer + s@, ..t },
        TurnEvent::Finished { ok, error } => TurnView {
            answer: if !ok && t.answer.len() == 0 {
                failure_text(text::opt_view(error))
            } else {
                t.answer
            },
            done: true,
            closed: false,
            succeeded: ok,
        },
        TurnEvent::Closed => TurnView { done: true, closed: true, succeeded: false, ..t },
        TurnEvent::Shutdown => TurnView { done: true, closed: true, succeeded: false, ..t },
        TurnEvent::Other => t,
    }
}

impl Turn {
    /// A turn that has just begun.
    pub fn new() -> (t: Turn)
        ensures
            t@ == (TurnView {
                answer: Seq::empty(),
                done: false,
                closed: false,
                succeeded: false,
            }),
    {
        Turn { answer: String::new(), done: false, closed: false, succeeded: false }
    }

    /// A turn that could not be begun.
    pub fn failed() -> (t: Turn)
        ensures
            t@ == (TurnView {
                answer: "Agent response failed."@,
                done: true,
                closed: true,
                succeeded: false,
            }),
    {
        Turn {
            answer: "Agent response failed.".to_owned(),
            done: true,
            closed: true,
            succeeded: false,
        }
    }

    /// Takes an event in.
    pub fn on_event(&mut self, event: TurnEvent)
        ensures
            final(self)@ == turn_after(old(self)@, event),
    {
        match event {
            TurnEvent::Text(s) => {
                self.answer.append(s.as_str());
            },
            TurnEvent::Finished { ok, error } => {
                if !ok && self.answer.as_str().is_empty() {
                    let mut answer = "Agent turn failed: ".to_owned();
                    match error {
                        Some(s) => answer.append(s.as_str()),
                        None => answer.append("unknown error"),
                    }
                    self.answer = answer;
                }
                self.done = true;
                self.closed = false;
                self.succeeded = ok;
            },
            TurnEvent::Closed => {
                self.done = true;
                self.closed = true;
                self.succeeded = false;
            },
            TurnEvent::Shutdown => {
                self.done = true;
                self.closed = true;
                self.succeeded = false;
            },
            TurnEvent::Other => {},
        }
    }

    /// The answer so far.
    pub fn answer(&self) -> (s: &str)
        ensures
            s@ == self@.answer,
    {
        self.answer.as_str()
    }

    /// Whether the turn is over.
    pub fn is_done(&self) -> (b: bool)
        ensures
            b == self@.done,
    {
        self.done
    }

    /// Whether the session cannot be used again.
    pub fn is_closed(&self) -> (b: bool)
        ensures
            b == self@.closed,
    {
        self.closed
    }

    /// What is said at the end: never nothing.
    pub fn reply(&self) -> (s: String)
        ensures
            s@ == (if text::is_blank(self@.answer) {
                "Agent completed without a text response."@
            } else {
                self@.answer
            }),
    {
        let chars = text::to_chars(self.answer.as_str());
        if text::trim(chars.as_slice()).len() == 0 {
            "Agent completed without a text response.".to_owned()
        } else {
            self.answer.as_str().to_owned()
        }
    }

    /// Whether files are delivered after a reply: the agent and the reply must both
    /// have succeeded.
    pub fn delivers(&self, reply_succeeded: bool) -> (b: bool)
        ensures
            b == (self@.succeeded && reply_succeeded),
    {
        self.succeeded && reply_succeeded
    }
}

// ---- Artifacts --------------------------------------------------------------

/// A file that the agent made.
#[derive(Clone, Debug, PartialEq, Eq)]
pub struct Artifact {
    pub id: String,
    pub name: String,
}

/// Whether one of `list` has the id.
pub open spec fn has_id(list: Seq<Artifact>, id: Seq<char>) -> bool {
    exists|i: int| 0 <= i < list.len() && (#[trigger] list[i]).id@ == id
}

/// Adds a file that is told of, unless one with its id was told of before.
pub fn append_artifact(artifacts: &mut Vec<Artifact>, artifact: Artifact)
    ensures
        final(artifacts)@ == (if has_id(old(artifacts)@, artifact.id@) {
            old(artifacts)@
        } else {
            old(artifacts)@.push(artifact)
        }),
{
    let mut i: usize = 0;
    while i < artifacts.len()
        invariant
            *artifacts == *old(artifacts),
            i <= artifacts@.len(),
            forall|k: int| 0 <= k < i ==> (#[trigger] artifacts@[k]).id@ != artifact.id@,
        decreases artifacts@.len() - i,
    {
        if text::str_eq(artifacts[i].id.as_str(), artifact.id.as_str()) {
            return ;
        }
        i = i + 1;
    }
    artifacts.push(artifact);
}

/// Where a file is delivered to, as it is recorded.
pub fn delivery_destination(channel: &str, thread_ts: Option<&str>) -> (out: String)
    ensures
        out@ == "{\"channel\":"@ + json::json_string(channel@) + ",\"thread_ts\":"@ + (
        match thread_ts {
            Some(ts) => json::json_string(ts@),
            None => "null"@,
        }) + "}"@,
{
    let mut out = "{\"channel\":".to_owned();
    out.append(json::quote(channel).as_str());
    out.append(",\"thread_ts\":");
    match thread_ts {
        Some(ts) => out.append(json::quote(ts).as_str()),
        None => out.append("null"),
    }
    out.append("}");
    out
}

} // verus!
