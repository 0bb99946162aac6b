//! What comes through the socket: envelopes, events and slash commands.

use crate::json;
use crate::json::{Json, JsonView};
use crate::slack::addressing::{ConversationKind, InboundMessage, MessageView};
use crate::slack::commands;
use crate::slack::commands::Command;
use crate::text;
use vstd::prelude::*;
use vstd::string::*;

verus! {

/// An envelope.
#[derive(Debug, PartialEq, Eq)]
pub struct Envelope {
    pub envelope_id: String,
    pub kind: String,
    pub payload: Json,
}

/// A file that comes with a message.
#[derive(Clone, Debug, PartialEq, Eq)]
pub struct File {
    pub name: String,
    pub mimetype: String,
    pub url_private_download: String,
}

/// What a file is.
#[verifier::ext_equal]
pub struct FileView {
    pub name: Seq<char>,
    pub mimetype: Seq<char>,
    pub url: Seq<char>,
}

impl View for File {
    type V = FileView;

    open spec fn view(&self) -> FileView {
        FileView {
            name: self.name@,
            mimetype: self.mimetype@,
            url: self.url_private_download@,
        }
    }
}

/// What a list of files holds.
pub open spec fn file_views(files: Seq<File>) -> Seq<FileView> {
    Seq::new(files.len(), |i: int| files[i]@)
}

/// A message, a reaction or a command that came in.
#[derive(Clone, Debug, PartialEq, Eq)]
pub struct Incoming {
    pub team_id: String,
    pub channel_id: String,
    pub sender_id: String,
    pub text: String,
    pub ts: String,
    pub thread_ts: Option<String>,
    pub kind: ConversationKind,
    pub files: Vec<File>,
    pub is_reaction: bool,
}

/// What came in.
#[verifier::ext_equal]
pub struct IncomingView {
    pub team_id: Seq<char>,
    pub channel_id: Seq<char>,
    pub sender_id: Seq<char>,
    pub text: Seq<char>,
    pub ts: Seq<char>,
    pub thread_ts: Option<Seq<char>>,
    pub kind: ConversationKind,
    pub files: Seq<FileView>,
    pub is_reaction: bool,
}

impl View for Incoming {
    type V = IncomingView;

    open spec fn view(&self) -> IncomingView {
        IncomingView {
            team_id: self.team_id@,
            channel_id: self.channel_id@,
            sender_id: self.sender_id@,
            text: self.text@,
            ts: self.ts@,
            thread_ts: text::opt_view(self.thread_ts),
            kind: self.kind,
            files: file_views(self.files@),
            is_reaction: self.is_reaction,
        }
    }
}

/// The kind of the conversation in a channel: direct ones have ids of their own.
pub open spec fn kind_of(channel_id: Seq<char>) -> ConversationKind {
    if channel_id.len() > 0 && channel_id[0] == 'D' {
        ConversationKind::DirectMessage
    } else {
        ConversationKind::Channel
    }
}

fn channel_kind(channel_id: &str) -> (kind: ConversationKind)
    ensures
        kind == kind_of(channel_id@),
{
    let chars = text::to_chars(channel_id);
    if chars.len() > 0 && chars[0] == 'D' {
        ConversationKind::DirectMessage
    } else {
        ConversationKind::Channel
    }
}

// ---- Optional texts ---------------------------------------------------------

/// The text of a field that may be missing but, where it is there, is a text.
pub open spec fn optional_text(field: Option<JsonView>) -> Option<Seq<char>> {
    match field {
        None => Some(Seq::empty()),
        Some(JsonView::Text(s)) => Some(s),
        Some(_) => None,
    }
}

fn read_optional(value: &Json, name: &str, place: usize) -> (r: Option<String>)
    ensures
        text::opt_view(r) == optional_text(json::field(value@, name@, place as int)),
{
    match value.get_field(name, place) {
        None => {
            let empty = String::new();
            assert(empty@ =~= Seq::<char>::empty());
            Some(empty)
        },
        Some(Json::Text(s)) => Some(s.as_str().to_owned()),
        Some(_) => None,
    }
}

/// A text, or the empty one.
pub open spec fn or_empty(value: Option<Seq<char>>) -> Seq<char> {
    match value {
        Some(s) => s,
        None => Seq::empty(),
    }
}

fn owned_or_empty(value: Option<&str>) -> (s: String)
    ensures
        s@ == or_empty(text::opt_str_view(value)),
{
    match value {
        Some(s) => s.to_owned(),
        None => {
            let empty = String::new();
            assert(empty@ =~= Seq::<char>::empty());
            empty
        },
    }
}

fn owned(value: Option<&str>) -> (r: Option<String>)
    ensures
        text::opt_view(r) == text::opt_str_view(value),
{
    match value {
        Some(s) => Some(s.to_owned()),
        None => None,
    }
}

// ---- Payloads ---------------------------------------------------------------

/// What the payload of an event says of it: its id and its workspace. `None` where
/// it is not the payload of an event. A payload holds the event, its id and its
/// workspace.
pub open spec fn payload_ids(payload: JsonView) -> Option<(Seq<char>, Seq<char>)> {
    if json::is_record(payload, 3) {
        match (
            optional_text(json::field(payload, "event_id"@, 1)),
            optional_text(json::field(payload, "team_id"@, 2)),
        ) {
            (Some(event_id), Some(team_id)) => Some((event_id, team_id)),
            _ => None,
        }
    } else {
        None
    }
}

fn read_payload_ids(payload: &Json) -> (r: Option<(String, String)>)
    ensures
        match r {
            Some((event_id, team_id)) => payload_ids(payload@) == Some((event_id@, team_id@)),
            None => payload_ids(payload@) is None,
        },
{
    if !payload.holds_record(3) {
        return None;
    }
    match (read_optional(payload, "event_id", 1), read_optional(payload, "team_id", 2)) {
        (Some(event_id), Some(team_id)) => Some((event_id, team_id)),
        _ => None,
    }
}

/// The file that a value describes.
pub open spec fn described_file(value: JsonView) -> Option<FileView> {
    if json::is_record(value, 3) {
        match (
            optional_text(json::field(value, "name"@, 0)),
            optional_text(json::field(value, "mimetype"@, 1)),
            optional_text(json::field(value, "url_private_download"@, 2)),
        ) {
            (Some(name), Some(mimetype), Some(url)) => Some(FileView { name, mimetype, url }),
            _ => None,
        }
    } else {
        None
    }
}

/// The files that all of `values` describe; `None` where one does not describe any.
pub open spec fn described_files(values: Seq<JsonView>) -> Option<Seq<FileView>>
    decreases values.len(),
{
    if values.len() == 0 {
        Some(Seq::empty())
    } else {
        match (described_files(values.drop_last()), described_file(values.last())) {
            (Some(before), Some(file)) => Some(before.push(file)),
            _ => None,
        }
    }
}

/// The files of an event: none unless each is described.
pub open spec fn event_files(event: JsonView) -> Seq<FileView> {
    match described_files(json::elements_of(json::member(event, "files"@))) {
        Some(files) => files,
        None => Seq::empty(),
    }
}

fn read_file(value: &Json) -> (r: Option<File>)
    ensures
        match r {
            Some(file) => described_file(value@) == Some(file@),
            None => described_file(value@) is None,
        },
{
    if !value.holds_record(3) {
        return None;
    }
    match (
        read_optional(value, "name", 0),
        read_optional(value, "mimetype", 1),
        read_optional(value, "url_private_download", 2),
    ) {
        (Some(name), Some(mimetype), Some(url_private_download)) => Some(
            File { name, mimetype, url_private_download },
        ),
        _ => None,
    }
}

proof fn lemma_described_prefix(values: Seq<JsonView>, i: int)
    requires
        0 <= i <= values.len(),
        described_files(values.take(i)) is None,
    ensures
        described_files(values) is None,
    decreases values.len() - i,
{
    if i < values.len() {
        assert(values.take(i + 1).drop_last() =~= values.take(i));
        lemma_described_prefix(values, i + 1);
    } else {
        assert(values.take(i) =~= values);
    }
}

fn read_files(event: &Json) -> (files: Vec<File>)
    ensures
        file_views(files@) == event_files(event@),
{
    let mut files: Vec<File> = Vec::new();
    if let Some(values) = event.get_array("files") {
        let ghost all = json::views(values@);
        let mut i: usize = 0;
        assert(file_views(files@) =~= Seq::<FileView>::empty());
        assert(all.take(0) =~= Seq::<JsonView>::empty());
        while i < values.len()
            invariant
                all == json::views(values@),
                i <= values@.len(),
                all == json::elements_of(json::member(event@, "files"@)),
                described_files(all.take(i as int)) == Some(file_views(files@)),
            decreases values@.len() - i,
        {
            assert(all.take(i + 1).drop_last() =~= all.take(i as int));
            assert(all.take(i + 1).last() == values@[i as int]@);
            let ghost before = files@;
            match read_file(&values[i]) {
                Some(file) => {
                    files.push(file);
                    assert(file_views(files@) =~= file_views(before).push(file@));
                },
                None => {
                    proof {
                        lemma_described_prefix(all, i + 1);
                    }
                    let none: Vec<File> = Vec::new();
                    assert(file_views(none@) =~= Seq::<FileView>::empty());
                    return none;
                },
            }
            i = i + 1;
        }
        assert(all.take(i as int) =~= all);
    } else {
        assert(file_views(files@) =~= Seq::<FileView>::empty());
    }
    files
}

// ---- Events -----------------------------------------------------------------

/// What is told of a reaction.
pub open spec fn reaction_text(
    sender: Seq<char>,
    added: bool,
    reaction: Seq<char>,
    ts: Seq<char>,
) -> Seq<char> {
    "[SYSTEM] User "@ + sender + " "@ + (if added {
        "reacted with"@
    } else {
        "removed reaction"@
    }) + " "@ + reaction + " on message "@ + ts
}

/// The reaction to a message that an event tells of.
pub open spec fn reaction_event(event: JsonView, added: bool, team_id: Seq<char>) -> Option<
    IncomingView,
> {
    match json::member(event, "item"@) {
        Some(item) => match (
            json::text_member(item, "channel"@),
            json::text_member(event, "user"@),
            json::text_member(item, "ts"@),
            json::text_member(event, "reaction"@),
        ) {
            (Some(channel_id), Some(sender_id), Some(ts), Some(reaction)) => if json::text_member(
                item,
                "type"@,
            ) == Some("message"@) {
                Some(
                    IncomingView {
                        team_id,
                        channel_id,
                        sender_id,
                        text: reaction_text(sender_id, added, reaction, ts),
                        ts,
                        thread_ts: json::text_member(item, "thread_ts"@),
                        kind: kind_of(channel_id),
                        files: Seq::empty(),
                        is_reaction: true,
                    },
                )
            } else {
                None
            },
            _ => None,
        },
        None => None,
    }
}

/// The message that an event tells of: of a user, and not about another message.
pub open spec fn message_event(event: JsonView, team_id: Seq<char>) -> Option<IncomingView> {
    match (
        json::text_member(event, "channel"@),
        json::text_member(event, "user"@),
        json::text_member(event, "ts"@),
    ) {
        (Some(channel_id), Some(sender_id), Some(ts)) => if json::member(event, "subtype"@) is None
            && json::member(event, "bot_id"@) is None {
            Some(
                IncomingView {
                    team_id,
                    channel_id,
                    sender_id,
                    text: or_empty(json::text_member(event, "text"@)),
                    ts,
                    thread_ts: json::text_member(event, "thread_ts"@),
                    kind: kind_of(channel_id),
                    files: event_files(event),
                    is_reaction: false,
                },
            )
        } else {
            None
        },
        _ => None,
    }
}

/// The message or reaction that an event tells of.
pub open spec fn told_event(event: JsonView, team_id: Seq<char>) -> Option<IncomingView> {
    let kind = json::text_member(event, "type"@);
    if kind == Some("message"@) || kind == Some("app_mention"@) {
        message_event(event, team_id)
    } else if kind == Some("reaction_added"@) {
        reaction_event(event, true, team_id)
    } else if kind == Some("reaction_removed"@) {
        reaction_event(event, false, team_id)
    } else {
        None
    }
}

/// The message or reaction that an envelope brings.
pub open spec fn brought(kind: Seq<char>, payload: JsonView) -> Option<IncomingView> {
    match (payload_ids(payload), json::field(payload, "event"@, 0)) {
        (Some((_, team_id)), Some(event)) => if kind == "events_api"@ {
            told_event(event, team_id)
        } else {
            None
        },
        _ => None,
    }
}

fn describe_reaction(sender: &str, added: bool, reaction: &str, ts: &str) -> (text: String)
    ensures
        text@ == reaction_text(sender@, added, reaction@, ts@),
{
    let mut text = "[SYSTEM] User ".to_owned();
    text.append(sender);
    text.append(" ");
    if added {
        text.append("reacted with");
    } else {
        text.append("removed reaction");
    }
    text.append(" ");
    text.append(reaction);
    text.append(" on message ");
    text.append(ts);
    text
}

fn read_reaction(event: &Json, added: bool, team_id: String) -> (r: Option<Incoming>)
    ensures
        match r {
            Some(incoming) => reaction_event(event@, added, team_id@) == Some(incoming@),
            None => reaction_event(event@, added, team_id@) is None,
        },
{
    let item = match event.get("item") {
        Some(item) => item,
        None => {
            return None;
        },
    };
    if !json::text_is(item.get_text("type"), "message") {
        return None;
    }
    match (
        item.get_text("channel"),
        event.get_text("user"),
        item.get_text("ts"),
        event.get_text("reaction"),
    ) {
        (Some(channel_id), Some(sender_id), Some(ts), Some(reaction)) => {
            let files: Vec<File> = Vec::new();
            assert(file_views(files@) =~= Seq::<FileView>::empty());
            Some(
                Incoming {
                    team_id,
                    channel_id: channel_id.to_owned(),
                    sender_id: sender_id.to_owned(),
                    text: describe_reaction(sender_id, added, reaction, ts),
                    ts: ts.to_owned(),
                    thread_ts: owned(item.get_text("thread_ts")),
                    kind: channel_kind(channel_id),
                    files,
                    is_reaction: true,
                },
            )
        },
        _ => None,
    }
}

fn read_message(event: &Json, team_id: String) -> (r: Option<Incoming>)
    ensures
        match r {
            Some(incoming) => message_event(event@, team_id@) == Some(incoming@),
            None => message_event(event@, team_id@) is None,
        },
{
    if event.get("subtype").is_some() || event.get("bot_id").is_some() {
        return None;
    }
    match (event.get_text("channel"), event.get_text("user"), event.get_text("ts")) {
        (Some(channel_id), Some(sender_id), Some(ts)) => Some(
            Incoming {
                team_id,
                channel_id: channel_id.to_owned(),
                sender_id: sender_id.to_owned(),
                text: owned_or_empty(event.get_text("text")),
                ts: ts.to_owned(),
                thread_ts: owned(event.get_text("thread_ts")),
                kind: channel_kind(channel_id),
                files: read_files(event),
                is_reaction: false,
            },
        ),
        _ => None,
    }
}

/// The message or reaction that an envelope brings.
pub fn incoming(envelope: &Envelope) -> (r: Option<Incoming>)
    ensures
        match r {
            Some(incoming) => brought(envelope.kind@, envelope.payload@) == Some(incoming@),
            None => brought(envelope.kind@, envelope.payload@) is None,
        },
{
    if !text::str_eq(envelope.kind.as_str(), "events_api") {
        return None;
    }
    let team_id = match read_payload_ids(&envelope.payload) {
        Some((_, team_id)) => team_id,
        None => {
            return None;
        },
    };
    let event = match envelope.payload.get_field("event", 0) {
        Some(event) => event,
        None => {
            return None;
        },
    };
    proof {
        reveal_strlit("message");
        reveal_strlit("app_mention");
        reveal_strlit("reaction_added");
        reveal_strlit("reaction_removed");
    }
    let kind = event.get_text("type");
    if json::text_is(kind, "message") || json::text_is(kind, "app_mention") {
        read_message(event, team_id)
    } else if json::text_is(kind, "reaction_added") {
        read_reaction(event, true, team_id)
    } else if json::text_is(kind, "reaction_removed") {
        read_reaction(event, false, team_id)
    } else {
        None
    }
}

// ---- Slash commands ---------------------------------------------------------

/// The scope of a slash command: its text, else the thread that it was given in.
pub open spec fn command_scope(payload: JsonView) -> Option<Seq<char>> {
    let scope = match json::text_member(payload, "text"@) {
        Some(s) => text::trimmed(s),
        None => Seq::empty(),
    };
    if scope.len() > 0 {
        Some(scope)
    } else {
        json::text_member(payload, "thread_ts"@)
    }
}

/// The slash command that an envelope brings, and where it came from.
pub open spec fn given_command(kind: Seq<char>, payload: JsonView) -> Option<(Command, IncomingView)> {
    match (
        json::text_member(payload, "command"@),
        json::text_member(payload, "channel_id"@),
        json::text_member(payload, "user_id"@),
    ) {
        (Some(name), Some(channel_id), Some(sender_id)) => match commands::named_command(
            commands::unmarked(text::first_word(name)),
        ) {
            Some(command) => if kind == "slash_commands"@ {
                Some(
                    (
                        command,
                        IncomingView {
                            team_id: or_empty(json::text_member(payload, "team_id"@)),
                            channel_id,
                            sender_id,
                            text: Seq::empty(),
                            ts: Seq::empty(),
                            thread_ts: command_scope(payload),
                            kind: kind_of(channel_id),
                            files: Seq::empty(),
                            is_reaction: false,
                        },
                    ),
                )
            } else {
                None
            },
            None => None,
        },
        _ => None,
    }
}

fn read_scope(payload: &Json) -> (r: Option<String>)
    ensures
        text::opt_view(r) == command_scope(payload@),
{
    if let Some(s) = payload.get_text("text") {
        let chars = text::to_chars(s);
        let trimmed = text::trim(chars.as_slice());
        if trimmed.len() > 0 {
            return Some(text::from_chars(trimmed));
        }
    }
    owned(payload.get_text("thread_ts"))
}

/// The slash command that an envelope brings, and where it came from.
pub fn slash_command(envelope: &Envelope) -> (r: Option<(Command, Incoming)>)
    ensures
        match r {
            Some((command, incoming)) => given_command(envelope.kind@, envelope.payload@) == Some(
                (command, incoming@),
            ),
            None => given_command(envelope.kind@, envelope.payload@) is None,
        },
{
    if !text::str_eq(envelope.kind.as_str(), "slash_commands") {
        return None;
    }
    let payload = &envelope.payload;
    match (
        payload.get_text("command"),
        payload.get_text("channel_id"),
        payload.get_text("user_id"),
    ) {
        (Some(name), Some(channel_id), Some(sender_id)) => match commands::parse(name) {
            Some(command) => {
                let files: Vec<File> = Vec::new();
                assert(file_views(files@) =~= Seq::<FileView>::empty());
                let nothing = String::new();
                let none = String::new();
                assert(nothing@ =~= Seq::<char>::empty() && none@ =~= Seq::<char>::empty());
                Some(
                    (
                        command,
                        Incoming {
                            team_id: owned_or_empty(payload.get_text("team_id")),
                            channel_id: channel_id.to_owned(),
                            sender_id: sender_id.to_owned(),
                            text: nothing,
                            ts: none,
                            thread_ts: read_scope(payload),
                            kind: channel_kind(channel_id),
                            files,
                            is_reaction: false,
                        },
                    ),
                )
            },
            None => None,
        },
        _ => None,
    }
}

// ---- Keys -------------------------------------------------------------------

/// The key by which an envelope is told from others: that of its event, which
/// stays the same when it is sent again, else its own.
pub open spec fn envelope_key(kind: Seq<char>, envelope_id: Seq<char>, payload: JsonView) -> Option<
    Seq<char>,
> {
    let event_id = if kind == "events_api"@ && payload_ids(payload) is Some {
        (payload_ids(payload)->0).0
    } else {
        Seq::empty()
    };
    if event_id.len() > 0 {
        Some("event:"@ + event_id)
    } else if envelope_id.len() > 0 {
        Some("envelope:"@ + envelope_id)
    } else {
        None
    }
}

/// The key by which an envelope is told from others.
pub fn dedupe_key(envelope: &Envelope) -> (r: Option<String>)
    ensures
        text::opt_view(r) == envelope_key(
            envelope.kind@,
            envelope.envelope_id@,
            envelope.payload@,
        ),
{
    if text::str_eq(envelope.kind.as_str(), "events_api") {
        if let Some((event_id, _)) = read_payload_ids(&envelope.payload) {
            if !event_id.as_str().is_empty() {
                let mut key = "event:".to_owned();
                key.append(event_id.as_str());
                return Some(key);
            }
        }
    }
    if envelope.envelope_id.as_str().is_empty() {
        return None;
    }
    let mut key = "envelope:".to_owned();
    key.append(envelope.envelope_id.as_str());
    Some(key)
}

/// An event that is sent again in another envelope has the same key.
pub proof fn retried_events_have_one_key(payload: JsonView, first: Seq<char>, second: Seq<char>)
    requires
        payload_ids(payload) is Some,
        (payload_ids(payload)->0).0.len() > 0,
    ensures
        envelope_key("events_api"@, first, payload) == envelope_key("events_api"@, second, payload),
{
}

// ---- Addressing -------------------------------------------------------------

/// A message as it is routed.
pub open spec fn as_routed(m: IncomingView, bot_user_id: Seq<char>) -> MessageView {
    MessageView {
        team_id: m.team_id,
        channel_id: m.channel_id,
        sender_id: m.sender_id,
        text: m.text,
        has_files: m.files.len() > 0,
        bot_user_id: Some(bot_user_id),
        thread_ts: m.thread_ts,
        message_ts: m.ts,
        kind: m.kind,
    }
}

/// A message as it is routed.
pub fn inbound<'a>(incoming: &'a Incoming, bot_user_id: &'a str) -> (m: InboundMessage<'a>)
    ensures
        m@ == as_routed(incoming@, bot_user_id@),
{
    InboundMessage {
        team_id: incoming.team_id.as_str(),
        channel_id: incoming.channel_id.as_str(),
        sender_id: incoming.sender_id.as_str(),
        text: incoming.text.as_str(),
        has_files: incoming.files.len() > 0,
        bot_user_id: Some(bot_user_id),
        thread_ts: text::as_text(&incoming.thread_ts),
        message_ts: incoming.ts.as_str(),
        kind: incoming.kind,
    }
}

} // verus!
