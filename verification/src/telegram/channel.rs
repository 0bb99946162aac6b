//! Settings, authorization, requests and replies of the Telegram channel.

use crate::json;
use crate::json::{Json, JsonView};
use crate::lines;
use crate::telegram::markdown;
use crate::telegram::markdown::{Chunk, ParseMode};
use crate::telegram::session;
use crate::telegram::session::{ResetCommand, SessionsConfig};
use crate::text;
use vstd::prelude::*;
use vstd::string::*;

verus! {

/// The most characters of a message.
pub const TELEGRAM_MAX_CHARS: usize = 4096;

/// The backend that is used where no other is named.
pub const DEFAULT_BACKEND_ID: &'static str = "pi";

/// How long, in seconds, the server holds a request for updates.
pub const POLL_TIMEOUT_SECS: u64 = 30;

/// What is said to a user who may not write.
pub const NOT_AUTHORIZED: &'static str = "Not authorized.";

/// What is said when too many messages are pending.
pub const BUSY: &'static str = "Busy; please retry.";

// ---- Settings ---------------------------------------------------------------

/// Settings of the Telegram channel.
#[derive(Clone, Debug)]
pub struct TelegramConfig {
    /// The token of the bot.
    pub bot_token: Option<String>,
    /// The users that may write; empty permits anyone.
    pub allowed_users: Vec<i64>,
    pub backend: Option<String>,
    pub sessions: SessionsConfig,
}

impl Default for TelegramConfig {
    fn default() -> (cfg: TelegramConfig)
        ensures
            cfg.bot_token is None,
            cfg.allowed_users@.len() == 0,
            cfg.backend is None,
            cfg.sessions.idle_minutes == session::DEFAULT_IDLE_MINUTES,
    {
        TelegramConfig {
            bot_token: None,
            allowed_users: Vec::new(),
            backend: None,
            sessions: SessionsConfig::default(),
        }
    }
}

/// A text that is set and not empty.
pub open spec fn nonempty(value: Option<Seq<char>>) -> Option<Seq<char>> {
    match value {
        Some(s) => if s.len() == 0 {
            None
        } else {
            Some(s)
        },
        None => None,
    }
}

fn when_nonempty(value: Option<&str>) -> (r: Option<String>)
    ensures
        text::opt_view(r) == nonempty(text::opt_str_view(value)),
{
    match value {
        Some(s) => {
            if text::to_chars(s).len() == 0 {
                None
            } else {
                Some(s.to_owned())
            }
        },
        None => None,
    }
}

/// The token of the bot: the configured one, else that of the environment.
pub fn resolve_token(cfg: &TelegramConfig, env: Option<&str>) -> (r: Option<String>)
    ensures
        text::opt_view(r) == match nonempty(text::opt_view(cfg.bot_token)) {
            Some(s) => Some(s),
            None => nonempty(text::opt_str_view(env)),
        },
{
    match when_nonempty(text::as_text(&cfg.bot_token)) {
        Some(s) => Some(s),
        None => when_nonempty(env),
    }
}

/// The backend that runs the turns: the configured one, registered or not; else that
/// of the runner where it is registered; else the default.
pub fn resolve_backend(configured: Option<&str>, runner: Option<&str>, runner_registered: bool) -> (
    id: String)
    ensures
        id@ == match nonempty(text::opt_str_view(configured)) {
            Some(s) => s,
            None => match nonempty(text::opt_str_view(runner)) {
                Some(s) => if runner_registered {
                    s
                } else {
                    "pi"@
                },
                None => "pi"@,
            },
        },
{
    if let Some(id) = when_nonempty(configured) {
        return id;
    }
    if runner_registered {
        if let Some(id) = when_nonempty(runner) {
            return id;
        }
    }
    "pi".to_owned()
}

/// What is said of a backend that is not there.
pub fn backend_missing(id: &str) -> (text: String)
    ensures
        text@ == "chat backend '"@ + id@ + "' not registered"@,
{
    let mut out = "chat backend '".to_owned();
    out.append(id);
    out.append("' not registered");
    out
}

// ---- Messages ---------------------------------------------------------------

/// Whether a user may write: anyone where no user is listed, else those that are.
pub open spec fn may_write(user_id: Option<i64>, allowed: Seq<i64>) -> bool {
    allowed.len() == 0 || (user_id is Some && allowed.contains(user_id->0))
}

/// Whether a user may write.
pub fn authorized(user_id: Option<i64>, allowed: &[i64]) -> (b: bool)
    ensures
        b == may_write(user_id, allowed@),
{
    if allowed.len() == 0 {
        return true;
    }
    match user_id {
        Some(id) => {
            let mut i: usize = 0;
            while i < allowed.len()
                invariant
                    i <= allowed@.len(),
                    user_id == Some(id),
                    forall|k: int| 0 <= k < i ==> allowed@[k] != id,
                decreases allowed@.len() - i,
            {
                if allowed[i] == id {
                    assert(allowed@.contains(id));
                    return true;
                }
                i = i + 1;
            }
            false
        },
        None => false,
    }
}

/// The offset from which updates are asked for after one was taken.
pub fn next_offset(update_id: i64) -> (offset: i64)
    requires
        update_id < i64::MAX,
    ensures
        offset == update_id + 1,
{
    update_id + 1
}

/// What is to be done with a message.
#[derive(Clone, Copy, Debug, PartialEq, Eq, Structural)]
pub enum Triage {
    /// It has no text.
    Ignore,
    /// Its sender may not write, and is told so.
    Refuse,
    /// The session is reset.
    Reset(ResetCommand),
    /// A turn is run.
    Answer,
}

/// What is to be done with a message of a user.
pub open spec fn triaged(
    user_id: Option<i64>,
    text: Option<Seq<char>>,
    allowed: Seq<i64>,
) -> Triage {
    match text {
        Some(s) => if !may_write(user_id, allowed) {
            Triage::Refuse
        } else {
            match session::reset_command(s) {
                Some(command) => Triage::Reset(command),
                None => Triage::Answer,
            }
        },
        None => Triage::Ignore,
    }
}

/// What is to be done with a message of a user.
pub fn triage(user_id: Option<i64>, text: Option<&str>, allowed: &[i64]) -> (r: Triage)
    ensures
        r == triaged(user_id, text::opt_str_view(text), allowed@),
{
    match text {
        Some(s) => if !authorized(user_id, allowed) {
            Triage::Refuse
        } else {
            match session::parse_reset_command(s) {
                Some(command) => Triage::Reset(command),
                None => Triage::Answer,
            }
        },
        None => Triage::Ignore,
    }
}

// ---- Sending on request -----------------------------------------------------

/// A text as messages that are not too long.
pub fn split_message(text: &str) -> (list: Vec<String>)
    ensures
        text::views(list@) == lines::pieces(text@, TELEGRAM_MAX_CHARS as nat),
{
    let chars = text::to_chars(text);
    lines::split_pieces(chars.as_slice(), TELEGRAM_MAX_CHARS)
}

/// Why a message is not sent.
#[derive(Clone, Copy, Debug, PartialEq, Eq, Structural)]
pub enum SendError {
    InvalidChat,
    EmptyText,
}

impl SendError {
    /// The code of the error.
    pub fn code(&self) -> (code: String)
        ensures
            code@ == "invalid_args"@,
    {
        "invalid_args".to_owned()
    }

    /// What is wrong.
    pub fn message(&self) -> (text: String)
        ensures
            text@ == (match *self {
                SendError::InvalidChat => "telegram_send_message requires integer 'chat_id'"@,
                SendError::EmptyText => "telegram_send_message requires non-empty string 'text'"@,
            }),
    {
        match self {
            SendError::InvalidChat => "telegram_send_message requires integer 'chat_id'".to_owned(),
            SendError::EmptyText => {
                "telegram_send_message requires non-empty string 'text'".to_owned()
            },
        }
    }
}

/// A message to a chat.
#[derive(Clone, Debug, PartialEq, Eq)]
pub struct SendRequest {
    pub chat_id: i64,
    /// The messages that the text is sent as.
    pub chunks: Vec<String>,
}

/// The chat and the text that a request asks for, or why it is refused.
pub open spec fn requested_message(args: JsonView) -> Result<(int, Seq<char>), SendError> {
    let chat_id = json::integer_of(json::member(args, "chat_id"@));
    let text = json::text_member(args, "text"@);
    if chat_id is None {
        Err(SendError::InvalidChat)
    } else if text is None || text::is_blank(text->0) {
        Err(SendError::EmptyText)
    } else {
        Ok((chat_id->0, text::trimmed(text->0)))
    }
}

/// The message that a request asks for, or why it is refused.
pub fn check_send(args: &Json) -> (r: Result<SendRequest, SendError>)
    ensures
        match r {
            Ok(request) => requested_message(args@) is Ok && request.chat_id == (requested_message(args@)->Ok_0).0 && text::views(request.chunks@) == lines::pieces(
                (requested_message(args@)->Ok_0).1,
                TELEGRAM_MAX_CHARS as nat,
            ),
            Err(e) => requested_message(args@) == Err::<(int, Seq<char>), SendError>(e),
        },
{
    let chat_id = match args.get_integer("chat_id") {
        Some(id) => id,
        None => return Err(SendError::InvalidChat),
    };
    let body = match args.get_text("text") {
        Some(s) => s,
        None => return Err(SendError::EmptyText),
    };
    let chars = text::to_chars(body);
    let trimmed = text::trim(chars.as_slice());
    if trimmed.len() == 0 {
        return Err(SendError::EmptyText);
    }
    Ok(SendRequest { chat_id, chunks: lines::split_pieces(trimmed, TELEGRAM_MAX_CHARS) })
}

/// What is said of a message that was sent.
pub fn sent_text(chat_id: i64) -> (text: String)
    ensures
        text@ == "sent Telegram message to chat "@ + text::signed_decimal(chat_id as int),
{
    let mut out = text::to_chars("sent Telegram message to chat ");
    let digits = text::signed_chars(chat_id);
    text::push_all(&mut out, digits.as_slice());
    text::from_chars(out.as_slice())
}

// ---- Replies ----------------------------------------------------------------

/// One way to deliver a part of a reply.
#[derive(Clone, Debug, PartialEq, Eq)]
pub struct Attempt {
    /// The message that is edited, or none where one is sent.
    pub edit: Option<i64>,
    pub text: String,
    pub parse_mode: ParseMode,
}

/// What an attempt is.
#[verifier::ext_equal]
pub struct AttemptView {
    pub edit: Option<i64>,
    pub text: Seq<char>,
    pub parse_mode: ParseMode,
}

impl View for Attempt {
    type V = AttemptView;

    open spec fn view(&self) -> AttemptView {
        AttemptView { edit: self.edit, text: self.text@, parse_mode: self.parse_mode }
    }
}

/// What a list of attempts holds.
pub open spec fn attempt_views(list: Seq<Attempt>) -> Seq<AttemptView> {
    Seq::new(list.len(), |i: int| list[i]@)
}

/// The ways to deliver a part of a reply, each to be tried where those before it
/// failed: by an edit where there is a message to edit, by a message, and by a
/// message in plain text.
pub open spec fn attempts_for(chunk: markdown::ChunkView, edit: Option<i64>) -> Seq<AttemptView> {
    let sent = AttemptView { edit: None, text: chunk.text, parse_mode: chunk.parse_mode };
    let first = match edit {
        Some(_) => seq![AttemptView { edit, ..sent }, sent],
        None => seq![sent],
    };
    match chunk.parse_mode {
        ParseMode::MarkdownV2 => first.push(
            AttemptView { edit: None, text: chunk.source, parse_mode: ParseMode::Plain },
        ),
        ParseMode::Plain => first,
    }
}

/// The ways to deliver a part of a reply.
pub fn attempts(chunk: &Chunk, edit: Option<i64>) -> (list: Vec<Attempt>)
    ensures
        attempt_views(list@) == attempts_for(chunk@, edit),
{
    let mut list: Vec<Attempt> = Vec::new();
    if edit.is_some() {
        list.push(
            Attempt { edit, text: chunk.text.as_str().to_owned(), parse_mode: chunk.parse_mode },
        );
    }
    list.push(
        Attempt { edit: None, text: chunk.text.as_str().to_owned(), parse_mode: chunk.parse_mode },
    );
    match chunk.parse_mode {
        ParseMode::MarkdownV2 => {
            list.push(
                Attempt {
                    edit: None,
                    text: chunk.source.as_str().to_owned(),
                    parse_mode: ParseMode::Plain,
                },
            );
        },
        ParseMode::Plain => {},
    }
    assert(attempt_views(list@) =~= attempts_for(chunk@, edit));
    list
}

/// How a reply is delivered.
#[derive(Clone, Debug, PartialEq, Eq)]
pub struct FinalReply {
    /// The message with the answer so far, where it gives way to the parts.
    pub delete: Option<i64>,
    /// The message that the only part is shown in.
    pub edit: Option<i64>,
    /// The parts.
    pub chunks: Vec<Chunk>,
}

/// How a reply is delivered: in the message that shows the answer so far where it
/// has one part, else in messages of its own, which replace that message.
pub fn plan_reply(reply: &str, answer_msg: Option<i64>) -> (r: FinalReply)
    ensures
        markdown::chunk_views(r.chunks@) == markdown::rich_chunks(reply@),
        r.edit == if r.chunks@.len() == 1 {
            answer_msg
        } else {
            None
        },
        r.delete == if r.chunks@.len() == 1 {
            None
        } else {
            answer_msg
        },
{
    let chunks = markdown::render_chunks(reply);
    if chunks.len() == 1 {
        FinalReply { delete: None, edit: answer_msg, chunks }
    } else {
        FinalReply { delete: answer_msg, edit: None, chunks }
    }
}

// ---- Laws -------------------------------------------------------------------

/// The messages that a text is sent as make up the text; each is at most as long as
/// a message may be, and holds something.
pub proof fn messages_make_up_the_text(s: Seq<char>)
    ensures
        text::concatenated(lines::pieces(s, TELEGRAM_MAX_CHARS as nat)) == s,
        forall|i: int|
            0 <= i < lines::pieces(s, TELEGRAM_MAX_CHARS as nat).len() ==> 0 < (
            #[trigger] lines::pieces(s, TELEGRAM_MAX_CHARS as nat)[i]).len() <= TELEGRAM_MAX_CHARS,
{
    lines::pieces_make_up_the_text(s, TELEGRAM_MAX_CHARS as nat);
}

/// The last way to deliver a part is a plain message that shows all of it, and no
/// way but the first edits anything.
pub proof fn deliveries_end_in_plain_text(chunk: markdown::ChunkView, edit: Option<i64>)
    ensures
        ({
            let list = attempts_for(chunk, edit);
            &&& list.len() > 0
            &&& list.last().parse_mode is Plain
            &&& list.last().edit is None
            &&& list.last().text == if chunk.parse_mode is MarkdownV2 {
                chunk.source
            } else {
                chunk.text
            }
            &&& forall|i: int| 0 < i < list.len() ==> (#[trigger] list[i]).edit is None
        }),
{
}

/// A user who is not listed can do nothing: not even a reset.
pub proof fn strangers_are_refused(user_id: Option<i64>, text: Seq<char>, allowed: Seq<i64>)
    requires
        allowed.len() > 0,
        user_id is None || !allowed.contains(user_id->0),
    ensures
        triaged(user_id, Some(text), allowed) == Triage::Refuse,
{
}

} // verus!
