//! Settings, authorization, statuses, turns and replies of the WhatsApp channel.

use crate::json;
use crate::json::{Json, JsonView, Scalar};
use crate::keyed::Keyed;
use crate::lines;
use crate::text;
use crate::whatsapp::session;
use crate::whatsapp::session::SessionsConfig;
use crate::whatsapp::webhook;
use vstd::prelude::*;
use vstd::string::*;

verus! {

// ---- Settings ---------------------------------------------------------------

/// Where the webhook listens.
#[derive(Clone, Debug)]
pub struct WebhookConfig {
    pub bind: String,
    pub port: u16,
    pub path: String,
    /// The origin under which the webhook is reachable from outside.
    pub public_url: Option<String>,
}

impl Default for WebhookConfig {
    fn default() -> (cfg: WebhookConfig)
        ensures
            cfg.bind@ == "127.0.0.1"@,
            cfg.port == 8090,
            cfg.path@ == "/whatsapp/webhook"@,
            cfg.public_url is None,
    {
        WebhookConfig {
            bind: "127.0.0.1".to_owned(),
            port: 8090,
            path: "/whatsapp/webhook".to_owned(),
            public_url: None,
        }
    }
}

impl WebhookConfig {
    /// Whether the path is one that can be routed.
    pub fn has_valid_path(&self) -> (b: bool)
        ensures
            b == text::begins_with(self.path@, "/"@),
    {
        let chars = text::to_chars(self.path.as_str());
        text::starts_with(chars.as_slice(), "/")
    }
}

/// Settings of the WhatsApp channel.
#[derive(Clone, Debug)]
pub struct WhatsAppConfig {
    pub phone_number_id: Option<String>,
    pub access_token: Option<String>,
    pub app_secret: Option<String>,
    pub verify_token: Option<String>,
    pub api_version: String,
    /// The users that may write; empty permits anyone.
    pub allowed_users: Vec<String>,
    pub backend: Option<String>,
    /// Whether tool calls are announced.
    pub tool_status: bool,
    pub sessions: SessionsConfig,
    pub webhook: WebhookConfig,
}

impl Default for WhatsAppConfig {
    fn default() -> (cfg: WhatsAppConfig)
        ensures
            cfg.phone_number_id is None,
            cfg.access_token is None,
            cfg.app_secret is None,
            cfg.verify_token is None,
            cfg.api_version@ == "v20.0"@,
            cfg.allowed_users@.len() == 0,
            cfg.backend is None,
            cfg.tool_status,
            cfg.sessions.idle_minutes == session::DEFAULT_IDLE_MINUTES,
            cfg.webhook.bind@ == "127.0.0.1"@,
            cfg.webhook.port == 8090,
            cfg.webhook.path@ == "/whatsapp/webhook"@,
            cfg.webhook.public_url is None,
    {
        WhatsAppConfig {
            phone_number_id: None,
            access_token: None,
            app_secret: None,
            verify_token: None,
            api_version: "v20.0".to_owned(),
            allowed_users: Vec::new(),
            backend: None,
            tool_status: true,
            sessions: SessionsConfig::default(),
            webhook: WebhookConfig::default(),
        }
    }
}

/// The configured value where it is filled in, else that of the environment.
pub fn credential(value: Option<&str>, env: Option<&str>) -> (r: Option<String>)
    ensures
        text::opt_view(r) == match text::when_filled(text::opt_str_view(value)) {
            Some(s) => Some(s),
            None => text::when_filled(text::opt_str_view(env)),
        },
{
    match text::filled(value) {
        Some(s) => Some(s),
        None => text::filled(env),
    }
}

/// Whether a user may write: anyone where no user is listed.
pub open spec fn may_write(wa_id: Seq<char>, allowed: Seq<Seq<char>>) -> bool {
    allowed.len() == 0 || allowed.contains(wa_id)
}

/// Whether a user may write.
pub fn authorized(wa_id: &str, allowed: &[String]) -> (b: bool)
    ensures
        b == may_write(wa_id@, text::views(allowed@)),
{
    allowed.len() == 0 || text::contains_str(allowed, wa_id)
}

/// `s` without the slashes at its end.
pub open spec fn unslashed(s: Seq<char>) -> Seq<char>
    decreases s.len(),
{
    if s.len() > 0 && s.last() == '/' {
        unslashed(s.drop_last())
    } else {
        s
    }
}

/// The address under which the webhook is called from outside, where one is configured.
pub open spec fn callback(public_url: Option<Seq<char>>, path: Seq<char>) -> Option<Seq<char>> {
    match public_url {
        Some(origin) => if text::is_blank(origin) {
            None
        } else {
            Some(unslashed(origin) + path)
        },
        None => None,
    }
}

/// The address under which the webhook is called from outside: its path behind the
/// configured address, where one is configured.
pub fn callback_url(public_url: Option<&str>, path: &str) -> (r: Option<String>)
    ensures
        text::opt_view(r) == callback(text::opt_str_view(public_url), path@),
{
    let origin = match public_url {
        Some(origin) => text::to_chars(origin),
        None => return None,
    };
    if text::trim(origin.as_slice()).len() == 0 {
        return None;
    }
    let mut end: usize = origin.len();
    assert(origin@.take(end as int) =~= origin@);
    while end > 0 && origin[end - 1] == '/'
        invariant
            end <= origin@.len(),
            unslashed(origin@) == unslashed(origin@.take(end as int)),
        decreases end,
    {
        assert(origin@.take(end as int).drop_last() =~= origin@.take(end - 1));
        end = end - 1;
    }
    let mut url = text::copy_chars(text::take(origin.as_slice(), end));
    text::push_str(&mut url, path);
    Some(text::from_chars(url.as_slice()))
}

// ---- Sending on request -----------------------------------------------------

/// Why a message is not sent.
#[derive(Clone, Copy, Debug, PartialEq, Eq, Structural)]
pub enum SendError {
    InvalidRecipient,
    EmptyText,
    NotAuthorized,
}

impl SendError {
    /// The code of the error.
    pub fn code(&self) -> (code: String)
        ensures
            code@ == (match *self {
                SendError::NotAuthorized => "not_authorized"@,
                _ => "invalid_args"@,
            }),
    {
        match self {
            SendError::NotAuthorized => "not_authorized".to_owned(),
            _ => "invalid_args".to_owned(),
        }
    }

    /// What is wrong.
    pub fn message(&self) -> (text: String)
        ensures
            text@ == (match *self {
                SendError::InvalidRecipient => "whatsapp_send_message requires digits-only 'wa_id'"@,
                SendError::EmptyText => "whatsapp_send_message requires non-empty 'text'"@,
                SendError::NotAuthorized => "WhatsApp recipient is not authorized"@,
            }),
    {
        match self {
            SendError::InvalidRecipient => {
                "whatsapp_send_message requires digits-only 'wa_id'".to_owned()
            },
            SendError::EmptyText => "whatsapp_send_message requires non-empty 'text'".to_owned(),
            SendError::NotAuthorized => "WhatsApp recipient is not authorized".to_owned(),
        }
    }
}

/// A message to a user.
#[derive(Clone, Debug, PartialEq, Eq)]
pub struct SendRequest {
    pub wa_id: String,
    pub text: String,
}

/// The message that a request asks for, or why it is refused.
pub open spec fn requested_message(args: JsonView, allowed: Seq<Seq<char>>) -> Result<
    (Seq<char>, Seq<char>),
    SendError,
> {
    let wa_id = json::text_member(args, "wa_id"@);
    let text = json::text_member(args, "text"@);
    if wa_id is None || !webhook::is_wa_id(wa_id->0) {
        Err(SendError::InvalidRecipient)
    } else if text is None || text::is_blank(text->0) {
        Err(SendError::EmptyText)
    } else if !may_write(wa_id->0, allowed) {
        Err(SendError::NotAuthorized)
    } else {
        Ok((wa_id->0, text->0))
    }
}

/// The message that a request asks for, or why it is refused.
pub fn check_send(args: &Json, allowed: &[String]) -> (r: Result<SendRequest, SendError>)
    ensures
        match r {
            Ok(request) => requested_message(args@, text::views(allowed@)) == Ok::<
                (Seq<char>, Seq<char>),
                SendError,
            >((request.wa_id@, request.text@)),
            Err(e) => requested_message(args@, text::views(allowed@)) == Err::<
                (Seq<char>, Seq<char>),
                SendError,
            >(e),
        },
{
    let wa_id = match args.get_text("wa_id") {
        Some(id) => id,
        None => return Err(SendError::InvalidRecipient),
    };
    if !session::valid_wa_id(wa_id) {
        return Err(SendError::InvalidRecipient);
    }
    let body = match args.get_text("text") {
        Some(s) => s,
        None => return Err(SendError::EmptyText),
    };
    let chars = text::to_chars(body);
    if text::trim(chars.as_slice()).len() == 0 {
        return Err(SendError::EmptyText);
    }
    if !authorized(wa_id, allowed) {
        return Err(SendError::NotAuthorized);
    }
    Ok(SendRequest { wa_id: wa_id.to_owned(), text: body.to_owned() })
}

// ---- Statuses ---------------------------------------------------------------

/// The least time, in milliseconds, between two statuses to a user.
pub const STATUS_INTERVAL_MS: u64 = 2_000;

/// Whether a status may go to a user now: none has within the interval.
pub open spec fn status_due(last: Map<Seq<char>, u64>, wa_id: Seq<char>, now: u64) -> bool {
    !last.contains_key(wa_id) || now - last[wa_id] >= STATUS_INTERVAL_MS
}

/// Whether a status may go to a user at the time `now`, in milliseconds; where it
/// may, that time is noted.
pub fn status_allowed(last: &mut Keyed<u64>, wa_id: &str, now: u64) -> (b: bool)
    ensures
        b == status_due(old(last)@, wa_id@, now),
        final(last)@ == if b {
            old(last)@.insert(wa_id@, now)
        } else {
            old(last)@
        },
{
    if let Some(previous) = last.get(wa_id) {
        if now < *previous || now - *previous < STATUS_INTERVAL_MS {
            return false;
        }
    }
    last.insert(wa_id.to_owned(), now);
    true
}

/// Whether a tool call is announced to a user; where statuses are off none is, and
/// nothing is noted.
pub fn tool_status_allowed(enabled: bool, last: &mut Keyed<u64>, wa_id: &str, now: u64) -> (b: bool)
    ensures
        b == (enabled && status_due(old(last)@, wa_id@, now)),
        final(last)@ == if b {
            old(last)@.insert(wa_id@, now)
        } else {
            old(last)@
        },
{
    enabled && status_allowed(last, wa_id, now)
}

/// After a status none is due until the interval has passed.
pub proof fn statuses_keep_their_distance(
    last: Map<Seq<char>, u64>,
    wa_id: Seq<char>,
    now: u64,
    later: u64,
)
    requires
        now <= later,
    ensures
        status_due(last.insert(wa_id, now), wa_id, later) <==> later - now >= STATUS_INTERVAL_MS,
{
}

/// The most characters of a target that a preview shows.
pub const PREVIEW_CHARS: usize = 80;

/// The first text under one of `names`, in their order.
pub open spec fn first_text(
    members: Seq<(Seq<char>, json::ScalarView)>,
    names: Seq<Seq<char>>,
) -> Option<Seq<char>>
    decreases names.len(),
{
    if names.len() == 0 {
        None
    } else {
        match json::scalar_under(members, names[0]) {
            Some(json::ScalarView::Text(s)) => Some(s),
            _ => first_text(members, names.skip(1)),
        }
    }
}

/// What a tool call works on, where its arguments say so.
pub open spec fn preview_target(
    members: Option<Seq<(Seq<char>, json::ScalarView)>>,
) -> Option<Seq<char>> {
    match members {
        Some(list) => match first_text(list, json::identifying_names()) {
            Some(s) => if text::collapsed(s).len() == 0 {
                None
            } else {
                Some(text::capped(text::collapsed(s), PREVIEW_CHARS as nat))
            },
            None => None,
        },
        None => None,
    }
}

/// How a tool call is announced: by its name and what it works on.
pub open spec fn preview(
    name: Seq<char>,
    members: Option<Seq<(Seq<char>, json::ScalarView)>>,
) -> Seq<char> {
    match preview_target(members) {
        Some(target) => name + " · "@ + target,
        None => name,
    }
}

fn find_text<'a>(members: &'a Vec<(String, Scalar)>) -> (r: Option<&'a str>)
    ensures
        text::opt_str_view(r) == first_text(
            json::scalar_views(members@),
            json::identifying_names(),
        ),
{
    let names = json::identifying();
    let ghost all = json::identifying_names();
    let ghost list = json::scalar_views(members@);
    let mut i: usize = 0;
    assert(all.skip(0) =~= all);
    while i < names.len()
        invariant
            all == json::identifying_names(),
            list == json::scalar_views(members@),
            names@.len() == all.len(),
            forall|k: int| 0 <= k < names@.len() ==> (#[trigger] names@[k])@ == all[k],
            i <= names@.len(),
            first_text(list, all) == first_text(list, all.skip(i as int)),
        decreases names@.len() - i,
    {
        assert(all.skip(i as int).skip(1) =~= all.skip(i + 1));
        assert(names@[i as int]@ == all[i as int]);
        if let Some(Scalar::Text(s)) = json::find_scalar(members, names[i]) {
            return Some(s.as_str());
        }
        i = i + 1;
    }
    None
}

/// How a tool call with these arguments is announced.
pub fn preview_of(name: &str, members: Option<&Vec<(String, Scalar)>>) -> (text: String)
    ensures
        text@ == preview(
            name@,
            match members {
                Some(list) => Some(json::scalar_views(list@)),
                None => None,
            },
        ),
{
    if let Some(list) = members {
        if let Some(s) = find_text(list) {
            let chars = text::to_chars(s);
            let target = text::collapse(chars.as_slice());
            if target.len() > 0 {
                let mut out = text::to_chars(name);
                text::push_str(&mut out, " · ");
                text::push_all(&mut out, text::cap(target.as_slice(), PREVIEW_CHARS));
                return text::from_chars(out.as_slice());
            }
        }
    }
    name.to_owned()
}

/// How a tool call is announced, from its name and its arguments in JSON.
pub fn tool_preview(name: &str, args: &str) -> (text: String)
    ensures
        text@ == preview(name@, json::json_members(args@)),
{
    match json::parse_members(args) {
        Some(list) => preview_of(name, Some(&list)),
        None => preview_of(name, None),
    }
}

/// A preview begins with the tool's name, and is at most a little longer.
pub proof fn previews_are_short(
    name: Seq<char>,
    members: Option<Seq<(Seq<char>, json::ScalarView)>>,
)
    ensures
        text::begins_with(preview(name, members), name),
        preview(name, members).len() <= name.len() + 3 + PREVIEW_CHARS,
{
    reveal_strlit(" · ");
    assert(preview(name, members).take(name.len() as int) =~= name);
}

// ---- Turns ------------------------------------------------------------------

/// What happens in a turn.
#[derive(Clone, Debug, PartialEq, Eq)]
pub enum TurnEvent {
    /// More text of the answer.
    Text(String),
    Finished,
    Failed(Option<String>),
    /// The session has closed.
    Closed(Option<String>),
    /// The stream of events has ended.
    Ended,
    /// The channel is shutting down.
    Shutdown,
    Other,
}

/// A turn as far as it has come.
#[derive(Clone, Debug, PartialEq, Eq)]
pub struct Turn {
    answer: String,
    failure: Option<String>,
    done: bool,
}

/// What a turn holds.
#[verifier::ext_equal]
pub struct TurnView {
    pub answer: Seq<char>,
    pub failure: Option<Seq<char>>,
    pub done: bool,
}

impl View for Turn {
    type V = TurnView;

    closed spec fn view(&self) -> TurnView {
        TurnView {
            answer: self.answer@,
            failure: text::opt_view(self.failure),
            done: self.done,
        }
    }
}

/// A text, or another where there is none.
pub open spec fn text_or(value: Option<Seq<char>>, other: Seq<char>) -> Seq<char> {
    match value {
        Some(s) => s,
        None => other,
    }
}

/// The turn after an event.
pub open spec fn turn_after(t: TurnView, event: TurnEvent) -> TurnView {
    match event {
        TurnEvent::Text(s) => TurnView { answer: t.answer + s@, ..t },
        TurnEvent::Finished => TurnView { done: true, ..t },
        TurnEvent::Failed(error) => TurnView {
            failure: Some(text_or(text::opt_view(error), "unknown"@)),
            done: true,
            ..t
        },
        TurnEvent::Closed(error) => TurnView {
            failure: Some(text_or(text::opt_view(error), "backend closed"@)),
            done: true,
            ..t
        },
        TurnEvent::Ended => TurnView {
            failure: Some("backend event stream closed"@),
            done: true,
            ..t
        },
        TurnEvent::Shutdown => TurnView { failure: Some("shutdown requested"@), done: true, ..t },
        TurnEvent::Other => t,
    }
}

/// What a turn that is over has come to: an answer, or why there is none.
pub open spec fn turn_result(t: TurnView) -> Result<Seq<char>, Seq<char>> {
    match t.failure {
        Some(error) => Err(error),
        None => if text::is_blank(t.answer) {
            Ok("(no response)"@)
        } else {
            Ok(t.answer)
        },
    }
}

fn or_text(value: Option<String>, other: &str) -> (s: String)
    ensures
        s@ == text_or(text::opt_view(value), other@),
{
    match value {
        Some(s) => s,
        None => other.to_owned(),
    }
}

impl Turn {
    /// A turn that has just begun.
    pub fn new() -> (t: Turn)
        ensures
            t@ == (TurnView { answer: Seq::empty(), failure: None, done: false }),
    {
        Turn { answer: String::new(), failure: None, done: false }
    }

    /// Takes an event in.
    pub fn on_event(&mut self, event: TurnEvent)
        ensures
            final(self)@ == turn_after(old(self)@, event),
    {
        match event {
            TurnEvent::Text(s) => {
                self.answer.append(s.as_str());
            },
            TurnEvent::Finished => {
                self.done = true;
            },
            TurnEvent::Failed(error) => {
                self.failure = Some(or_text(error, "unknown"));
                self.done = true;
            },
            TurnEvent::Closed(error) => {
                self.failure = Some(or_text(error, "backend closed"));
                self.done = true;
            },
            TurnEvent::Ended => {
                self.failure = Some("backend event stream closed".to_owned());
                self.done = true;
            },
            TurnEvent::Shutdown => {
                self.failure = Some("shutdown requested".to_owned());
                self.done = true;
            },
            TurnEvent::Other => {},
        }
    }

    /// Whether the turn is over.
    pub fn is_done(&self) -> (b: bool)
        ensures
            b == self@.done,
    {
        self.done
    }

    /// What the turn has come to.
    pub fn into_result(self) -> (r: Result<String, String>)
        ensures
            match r {
                Ok(s) => turn_result(self@) == Ok::<Seq<char>, Seq<char>>(s@),
                Err(e) => turn_result(self@) == Err::<Seq<char>, Seq<char>>(e@),
            },
    {
        match self.failure {
            Some(error) => Err(error),
            None => {
                let chars = text::to_chars(self.answer.as_str());
                if text::trim(chars.as_slice()).len() == 0 {
                    Ok("(no response)".to_owned())
                } else {
                    Ok(self.answer)
                }
            },
        }
    }
}

// ---- Replies ----------------------------------------------------------------

/// What is said to a user who may not write.
pub const NOT_AUTHORIZED: &'static str = "Not authorized.";

/// What is said when no session can be had.
pub const PREPARE_FAILED: &'static str = "Failed to prepare session.";

/// What is to be done with a message.
#[derive(Clone, Copy, Debug, PartialEq, Eq, Structural)]
pub enum Triage {
    /// Its sender may not write, and is told so.
    Refuse,
    /// Its sender cannot have a session.
    Ignore,
    /// The session is reset.
    Reset,
    /// A turn is run.
    Answer,
}

/// What is to be done with a message of `wa_id`.
pub fn triage(wa_id: &str, text: &str, allowed: &[String]) -> (r: Triage)
    ensures
        r == if !may_write(wa_id@, text::views(allowed@)) {
            Triage::Refuse
        } else if !webhook::is_wa_id(wa_id@) {
            Triage::Ignore
        } else if text::trimmed(text@) == "/new"@ || text::trimmed(text@) == "/reset"@ {
            Triage::Reset
        } else {
            Triage::Answer
        },
{
    if !authorized(wa_id, allowed) {
        Triage::Refuse
    } else if !session::valid_wa_id(wa_id) {
        Triage::Ignore
    } else if session::is_reset(text) {
        Triage::Reset
    } else {
        Triage::Answer
    }
}

/// What is said of a turn that failed.
pub fn turn_failed(error: &str) -> (text: String)
    ensures
        text@ == "(turn failed: "@ + error@ + ")"@,
{
    let mut out = "(turn failed: ".to_owned();
    out.append(error);
    out.append(")");
    out
}

/// A line in WhatsApp's markup: a heading loses its marks, and bold text is marked
/// by single stars.
pub open spec fn adapted_line(line: Seq<char>) -> Seq<char> {
    let rest = text::trimmed_start(line);
    let marks = text::run_of(rest, '#', 0);
    if marks > 0 {
        text::replaced(text::trimmed_start(rest.skip(marks as int)), "**"@, "*"@)
    } else {
        text::replaced(line, "**"@, "*"@)
    }
}

/// The lines of a text in WhatsApp's markup.
pub open spec fn adapted_lines(s: Seq<char>) -> Seq<Seq<char>> {
    Seq::new(lines::lines(s).len(), |i: int| adapted_line(lines::lines(s)[i]))
}

/// A text in WhatsApp's markup.
pub open spec fn adapted(s: Seq<char>) -> Seq<char> {
    text::joined(adapted_lines(s), "\n"@)
}

fn adapt_line(line: &[char]) -> (out: Vec<char>)
    ensures
        out@ == adapted_line(line@),
{
    proof {
        reveal_strlit("**");
    }
    let rest = text::trim_start(line);
    let marks: usize = text::run_len(rest, '#', 0);
    proof {
        text::lemma_run_of(rest@, '#', 0);
    }
    if marks > 0 {
        text::replace(text::trim_start(text::skip(rest, marks)), "**", "*")
    } else {
        text::replace(line, "**", "*")
    }
}

/// A text in WhatsApp's markup.
pub fn adapt_markdown(text: &str) -> (out: String)
    ensures
        out@ == adapted(text@),
{
    let chars = text::to_chars(text);
    let list = lines::split_lines(chars.as_slice());
    let ghost all = text::slice_views(list@);
    let mut parts: Vec<Vec<char>> = Vec::new();
    let mut i: usize = 0;
    while i < list.len()
        invariant
            all == text::slice_views(list@),
            all == lines::lines(text@),
            i <= list@.len(),
            text::vec_views(parts@) =~= adapted_lines(text@).take(i as int),
        decreases list@.len() - i,
    {
        let ghost before = parts@;
        let part = adapt_line(list[i]);
        parts.push(part);
        assert(all[i as int] == list@[i as int]@);
        assert(text::vec_views(parts@) =~= text::vec_views(before).push(part@));
        i = i + 1;
    }
    assert(adapted_lines(text@).take(i as int) =~= adapted_lines(text@));
    let out = text::join(&parts, "\n");
    text::from_chars(out.as_slice())
}

/// Text without marks stays as it is, but for how its lines end.
pub proof fn unmarked_text_is_kept(s: Seq<char>)
    requires
        forall|j: int| 0 <= j < s.len() ==> s[j] != '*' && s[j] != '#' && s[j] != '\r',
        s.len() > 0 ==> s.last() != '\n',
    ensures
        adapted(s) == s,
{
    reveal_strlit("**");
    reveal_strlit("\n");
    assert("\n"@ =~= seq!['\n']);
    lemma_unmarked_lines(s, 0);
    lines::lemma_joined_lines(s, 0);
    assert(adapted_lines(s) =~= lines::lines(s)) by {
        assert forall|i: int| 0 <= i < lines::lines(s).len() implies adapted_line(
            lines::lines(s)[i],
        ) == lines::lines(s)[i] by {
            let line = lines::lines(s)[i];
            assert(lines::lines_from(s, 0)[i] == line);
            text::lemma_run_of(text::trimmed_start(line), '#', 0);
            lemma_trimmed_start_part(line);
            text::lemma_replaced_absent(line, "**"@, "*"@, 0);
            assert(line.skip(0) =~= line);
        }
    }
    assert(s.skip(0) =~= s);
}

proof fn lemma_trimmed_start_part(line: Seq<char>)
    requires
        forall|j: int| 0 <= j < line.len() ==> line[j] != '#',
    ensures
        text::run_of(text::trimmed_start(line), '#', 0) == 0,
    decreases line.len(),
{
    if line.len() > 0 && text::is_white(line[0]) {
        lemma_trimmed_start_part(line.skip(1));
    }
}

proof fn lemma_unmarked_lines(s: Seq<char>, i: int)
    requires
        0 <= i <= s.len(),
        forall|j: int| 0 <= j < s.len() ==> s[j] != '*' && s[j] != '#' && s[j] != '\r',
    ensures
        forall|k: int, j: int|
            0 <= k < lines::lines_from(s, i).len() && 0 <= j < lines::lines_from(s, i)[k].len()
                ==> (#[trigger] lines::lines_from(s, i)[k][j]) != '*' && lines::lines_from(
                s,
                i,
            )[k][j] != '#',
    decreases s.len() - i,
{
    text::lemma_next_at(s, '\n', i);
    let end = text::next_at(s, '\n', i);
    let all = lines::lines_from(s, i);
    if i < s.len() && end < s.len() {
        lemma_unmarked_lines(s, end + 1);
        let rest = lines::lines_from(s, end + 1);
        assert forall|k: int, j: int| 0 <= k < all.len() && 0 <= j < all[k].len() implies (
        #[trigger] all[k][j]) != '*' && all[k][j] != '#' by {
            if k == 0 {
                assert(all[0][j] == s[i + j]);
            } else {
                assert(all[k] == rest[k - 1]);
                assert(rest[k - 1][j] != '*');
            }
        }
    } else if i < s.len() {
        assert forall|k: int, j: int| 0 <= k < all.len() && 0 <= j < all[k].len() implies (
        #[trigger] all[k][j]) != '*' && all[k][j] != '#' by {
            assert(all[k][j] == s[i + j]);
        }
    }
}

} // verus!
