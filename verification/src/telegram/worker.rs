//! The conversation with one session: which turn belongs to which message, and what
//! each turn is answered with.
//!
//! Messages are handed to the session in order. The session runs a turn for each, and
//! may run turns of its own accord in between. A message is acknowledged when it is
//! taken in, and the acknowledgement is cleared when its turn is over.

use crate::json;
use crate::telegram::stream;
use crate::telegram::stream::{LiveTurn, LiveTurnView, Updates};
use crate::text;
use vstd::prelude::*;
use vstd::string::*;

verus! {

/// The most messages of a chat that may be pending.
pub const INTAKE_LIMIT: usize = 16;

/// What is said when no session can be had.
pub const START_FAILED: &'static str = "Failed to start agent session; please retry.";

/// What is said when a session has stopped.
pub const STOPPED: &'static str = "Agent session stopped; pending messages were cancelled. Please retry.";

// ---- Intake -----------------------------------------------------------------

/// How many messages of a chat are pending.
#[derive(Debug, PartialEq, Eq)]
pub struct Intake {
    pending: usize,
}

impl View for Intake {
    type V = nat;

    closed spec fn view(&self) -> nat {
        self.pending as nat
    }
}

impl Intake {
    #[verifier::type_invariant]
    spec fn bounded(&self) -> bool {
        self.pending <= INTAKE_LIMIT
    }

    /// No message is pending.
    pub fn new() -> (i: Intake)
        ensures
            i@ == 0,
    {
        Intake { pending: 0 }
    }

    /// Whether one more message is taken: as long as there is room.
    pub fn accept(&mut self) -> (b: bool)
        ensures
            b == (old(self)@ < INTAKE_LIMIT),
            final(self)@ == if b {
                old(self)@ + 1
            } else {
                old(self)@
            },
            final(self)@ <= INTAKE_LIMIT,
    {
        proof {
            use_type_invariant(&*self);
        }
        if self.pending < INTAKE_LIMIT {
            self.pending = self.pending + 1;
            true
        } else {
            false
        }
    }

    /// A message is no longer pending.
    pub fn release(&mut self)
        ensures
            final(self)@ == if old(self)@ > 0 {
                (old(self)@ - 1) as nat
            } else {
                0
            },
    {
        proof {
            use_type_invariant(&*self);
        }
        if self.pending > 0 {
            self.pending = self.pending - 1;
        }
    }
}

// ---- The conversation -------------------------------------------------------

/// Why a turn runs.
#[derive(Clone, Copy, Debug, PartialEq, Eq, Structural)]
pub enum TurnOrigin {
    /// For a message.
    Submitted,
    /// Of the session's own accord.
    Autonomous,
}

/// What a session reports.
#[derive(Clone, Debug, PartialEq, Eq)]
pub enum SessionEvent {
    TurnStarted(TurnOrigin),
    /// More text, of the answer or of something else.
    Text { of_answer: bool, text: String },
    ToolCall { name: String, args: String },
    TurnFinished { ok: bool, error: Option<String> },
    /// The session has closed.
    Closed(Option<String>),
    /// The stream of events has ended.
    Ended,
    Other,
}

/// What is to be done about an event.
#[derive(Clone, Debug, PartialEq, Eq)]
pub enum Step {
    Nothing,
    /// Clear the acknowledgement of this message.
    Clear(i64),
    /// Show this.
    Show(Updates),
    /// Show this, then complete the turn.
    Finish { updates: Updates, ok: bool, error: Option<String> },
    /// The conversation is over, for this reason.
    Stop(String),
}

/// What comes of a turn.
#[derive(Clone, Debug, PartialEq, Eq)]
pub struct Completed {
    /// What is answered, if anything.
    pub reply: Option<String>,
    /// The message that shows the answer so far.
    pub answer_msg: Option<i64>,
    /// The message whose acknowledgement is cleared.
    pub cleared: Option<i64>,
}

/// A conversation as far as it has come.
#[derive(Clone, Debug)]
pub struct Conversation {
    pending: Vec<i64>,
    active: Option<i64>,
    origin: Option<TurnOrigin>,
    live: LiveTurn,
}

/// What is known of a conversation.
#[verifier::ext_equal]
pub struct ConversationView {
    /// The messages that wait for their turn, in order.
    pub pending: Seq<i64>,
    /// The message whose turn it is.
    pub active: Option<i64>,
    /// Why the running turn runs, while one does.
    pub origin: Option<TurnOrigin>,
    /// The running turn.
    pub live: LiveTurnView,
}

impl View for Conversation {
    type V = ConversationView;

    closed spec fn view(&self) -> ConversationView {
        ConversationView {
            pending: self.pending@,
            active: self.active,
            origin: self.origin,
            live: self.live@,
        }
    }
}

/// The messages that are acknowledged, in order: the one whose turn it is, and those
/// that wait.
pub open spec fn acknowledged(c: ConversationView) -> Seq<i64> {
    match c.active {
        Some(id) => seq![id] + c.pending,
        None => c.pending,
    }
}

/// The conversation after a turn has started. A turn for a message is for the one
/// that has waited longest.
pub open spec fn started(c: ConversationView, origin: TurnOrigin) -> ConversationView {
    match origin {
        TurnOrigin::Submitted => ConversationView {
            pending: if c.pending.len() > 0 {
                c.pending.skip(1)
            } else {
                c.pending
            },
            active: if c.pending.len() > 0 {
                Some(c.pending[0])
            } else {
                None
            },
            origin: Some(origin),
            ..c
        },
        TurnOrigin::Autonomous => ConversationView { origin: Some(origin), ..c },
    }
}

/// The conversation in which a turn runs. One whose start was not reported is for a
/// message.
pub open spec fn in_turn(c: ConversationView) -> ConversationView {
    match c.origin {
        Some(_) => c,
        None => started(c, TurnOrigin::Submitted),
    }
}

/// What a turn is answered with: the answer, why there is none, or, where the turn
/// was for a message, that there is none.
pub open spec fn turn_reply(
    answer: Seq<char>,
    ok: bool,
    error: Option<Seq<char>>,
    origin: Option<TurnOrigin>,
) -> Option<Seq<char>> {
    if !text::is_blank(answer) {
        Some(answer)
    } else if !ok {
        Some("(turn failed: "@ + (match error {
            Some(e) => e,
            None => "unknown"@,
        }) + ")"@)
    } else if origin == Some(TurnOrigin::Autonomous) {
        None
    } else {
        Some("(no response)"@)
    }
}

/// The conversation after an event.
pub open spec fn after_event(c: ConversationView, event: SessionEvent) -> ConversationView {
    match event {
        SessionEvent::TurnStarted(origin) => started(c, origin),
        SessionEvent::Text { of_answer, text } => if of_answer {
            let turn = in_turn(c);
            ConversationView {
                live: LiveTurnView { answer: turn.live.answer + text@, ..turn.live },
                ..turn
            }
        } else {
            in_turn(c)
        },
        SessionEvent::ToolCall { name, args } => {
            let turn = in_turn(c);
            ConversationView {
                live: LiveTurnView { tools: turn.live.tools.push(name@), ..turn.live },
                ..turn
            }
        },
        SessionEvent::TurnFinished { .. } => in_turn(c),
        _ => c,
    }
}

/// The message whose acknowledgement an event clears: the one whose turn was
/// running when that of another has started.
pub open spec fn cleared_by(c: ConversationView, event: SessionEvent) -> Option<i64> {
    if event == SessionEvent::TurnStarted(TurnOrigin::Submitted) {
        c.active
    } else {
        None
    }
}

/// Why a conversation is over.
pub open spec fn stop_reason(event: SessionEvent) -> Option<Seq<char>> {
    match event {
        SessionEvent::Closed(error) => Some("backend closed: "@ + (match error {
            Some(e) => e@,
            None => Seq::empty(),
        })),
        SessionEvent::Ended => Some("backend event stream closed"@),
        _ => None,
    }
}

/// Whether `step` is what an event calls for in the conversation `c` at the time
/// `now`.
pub open spec fn step_for(c: ConversationView, event: SessionEvent, now: u64, step: Step) -> bool {
    match event {
        SessionEvent::TurnStarted(_) => match cleared_by(c, event) {
            Some(id) => step == Step::Clear(id),
            None => step is Nothing,
        },
        SessionEvent::Text { of_answer, text } => if of_answer && text@.len() > 0 {
            &&& step is Show
            &&& stream::update_view(step->Show_0.answer) == stream::push_update(
                after_event(c, event).live,
                now,
            )
            &&& step->Show_0.status is None
        } else {
            step is Nothing
        },
        SessionEvent::ToolCall { name, args } => {
            &&& step is Show
            &&& stream::update_view(step->Show_0.answer) == stream::flush(c.live)
            &&& stream::update_view(step->Show_0.status) == Some(
                (
                    c.live.status_msg,
                    stream::preview(name@, json::json_members(args@)),
                ),
            )
        },
        SessionEvent::TurnFinished { ok, error } => {
            &&& step is Finish
            &&& stream::update_view(step->updates.answer) == stream::flush(c.live)
            &&& stream::update_view(step->updates.status) == if c.live.status_msg is Some
                && c.live.tools.len() > 0 {
                Some((c.live.status_msg, stream::summary(c.live.tools)))
            } else {
                None
            }
            &&& step->ok == ok
            &&& text::opt_view(step->error) == text::opt_view(error)
        },
        SessionEvent::Other => step is Nothing,
        _ => step is Stop && stop_reason(event) == Some(step->Stop_0@),
    }
}

impl Conversation {
    /// A conversation in which nothing has happened.
    pub fn new() -> (c: Conversation)
        ensures
            c@ == (ConversationView {
                pending: Seq::empty(),
                active: None,
                origin: None,
                live: stream::fresh_turn(),
            }),
    {
        Conversation { pending: Vec::new(), active: None, origin: None, live: LiveTurn::new() }
    }

    /// A message has come, is acknowledged and waits for its turn.
    pub fn on_message(&mut self, message_id: i64)
        ensures
            final(self)@ == (ConversationView {
                pending: old(self)@.pending.push(message_id),
                ..old(self)@
            }),
    {
        self.pending.push(message_id);
    }

    fn start(&mut self, origin: TurnOrigin)
        ensures
            final(self)@ == started(old(self)@, origin),
    {
        self.origin = Some(origin);
        match origin {
            TurnOrigin::Submitted => {
                if self.pending.len() > 0 {
                    let ghost before = self.pending@;
                    let id: i64 = self.pending.remove(0);
                    assert(self.pending@ =~= before.skip(1));
                    self.active = Some(id);
                } else {
                    self.active = None;
                }
            },
            TurnOrigin::Autonomous => {},
        }
    }

    fn enter_turn(&mut self)
        ensures
            final(self)@ == in_turn(old(self)@),
    {
        if self.origin.is_none() {
            self.start(TurnOrigin::Submitted);
        }
    }

    /// The session reports an event at the time `now`, in milliseconds: what is to be
    /// done about it.
    pub fn on_event(&mut self, event: SessionEvent, now: u64) -> (step: Step)
        ensures
            final(self)@ == after_event(old(self)@, event),
            step_for(old(self)@, event, now, step),
    {
        match event {
            SessionEvent::TurnStarted(origin) => {
                let running = self.active;
                self.start(origin);
                match origin {
                    TurnOrigin::Submitted => match running {
                        Some(id) => Step::Clear(id),
                        None => Step::Nothing,
                    },
                    TurnOrigin::Autonomous => Step::Nothing,
                }
            },
            SessionEvent::Text { of_answer, text } => {
                self.enter_turn();
                if of_answer {
                    let chars = text::to_chars(text.as_str());
                    let answer = self.live.push_text(text.as_str(), now);
                    if chars.len() > 0 {
                        Step::Show(Updates { answer, status: None })
                    } else {
                        Step::Nothing
                    }
                } else {
                    Step::Nothing
                }
            },
            SessionEvent::ToolCall { name, args } => {
                self.enter_turn();
                Step::Show(self.live.tool_started(name.as_str(), args.as_str()))
            },
            SessionEvent::TurnFinished { ok, error } => {
                self.enter_turn();
                Step::Finish { updates: self.live.finish(), ok, error }
            },
            SessionEvent::Closed(error) => {
                let mut reason = "backend closed: ".to_owned();
                if let Some(e) = error {
                    reason.append(e.as_str());
                } else {
                    assert("backend closed: "@ + Seq::empty() =~= "backend closed: "@);
                }
                Step::Stop(reason)
            },
            SessionEvent::Ended => Step::Stop("backend event stream closed".to_owned()),
            SessionEvent::Other => Step::Nothing,
        }
    }

    /// The answer was sent at the time `now`, as this message if at all.
    pub fn on_answer_sent(&mut self, id: Option<i64>, now: u64)
        ensures
            final(self)@ == (ConversationView {
                live: LiveTurnView {
                    answer_msg: id,
                    written: old(self)@.live.answer.len(),
                    last_edit: Some(now),
                    ..old(self)@.live
                },
                ..old(self)@
            }),
    {
        self.live.on_answer_sent(id, now);
    }

    /// An edit of the answer was tried at the time `now`.
    pub fn on_answer_edited(&mut self, now: u64)
        ensures
            final(self)@ == (ConversationView {
                live: LiveTurnView {
                    written: old(self)@.live.answer.len(),
                    last_edit: Some(now),
                    ..old(self)@.live
                },
                ..old(self)@
            }),
    {
        self.live.on_answer_edited(now);
    }

    /// A tool was shown in this message, if at all.
    pub fn on_status_sent(&mut self, id: Option<i64>)
        ensures
            final(self)@ == (ConversationView {
                live: LiveTurnView { status_msg: id, ..old(self)@.live },
                ..old(self)@
            }),
    {
        self.live.on_status_sent(id);
    }

    /// A turn that is over, and is shown as far as it came: what comes of it.
    pub fn complete(&mut self, ok: bool, error: Option<&str>) -> (r: Completed)
        ensures
            final(self)@ == (ConversationView {
                pending: old(self)@.pending,
                active: None,
                origin: None,
                live: stream::fresh_turn(),
            }),
            text::opt_view(r.reply) == turn_reply(
                old(self)@.live.answer,
                ok,
                text::opt_str_view(error),
                old(self)@.origin,
            ),
            r.answer_msg == old(self)@.live.answer_msg,
            r.cleared == old(self)@.active,
    {
        let answer_msg = self.live.answer_message_id();
        let cleared = self.active;
        let reply = self.reply(ok, error);
        self.live = LiveTurn::new();
        self.active = None;
        self.origin = None;
        Completed { reply, answer_msg, cleared }
    }

    fn reply(&self, ok: bool, error: Option<&str>) -> (r: Option<String>)
        ensures
            text::opt_view(r) == turn_reply(
                self@.live.answer,
                ok,
                text::opt_str_view(error),
                self@.origin,
            ),
    {
        let answer = self.live.answer();
        let chars = text::to_chars(answer);
        if text::trim(chars.as_slice()).len() > 0 {
            return Some(answer.to_owned());
        }
        if !ok {
            let mut out = "(turn failed: ".to_owned();
            out.append(
                match error {
                    Some(e) => e,
                    None => "unknown",
                },
            );
            out.append(")");
            return Some(out);
        }
        match self.origin {
            Some(TurnOrigin::Autonomous) => None,
            _ => Some("(no response)".to_owned()),
        }
    }

    /// The conversation is over: the messages whose acknowledgements are cleared.
    pub fn stop(self) -> (list: Vec<i64>)
        ensures
            list@ == acknowledged(self@),
    {
        let mut list: Vec<i64> = Vec::new();
        if let Some(id) = self.active {
            list.push(id);
        }
        let mut rest = self.pending;
        let ghost head = list@;
        let ghost tail = rest@;
        list.append(&mut rest);
        assert(list@ =~= head + tail);
        assert(head + tail =~= acknowledged(self@));
        list
    }
}

// ---- Laws -------------------------------------------------------------------

/// No event clears an acknowledgement but that of the message whose turn it is, and
/// none is lost: the others stay, in order.
pub proof fn acknowledgements_are_cleared_in_order(c: ConversationView, event: SessionEvent)
    requires
        c.origin is None ==> c.active is None,
    ensures
        match cleared_by(c, event) {
            Some(id) => acknowledged(c).len() > 0 && acknowledged(c)[0] == id && acknowledged(
                after_event(c, event),
            ) == acknowledged(c).skip(1),
            None => acknowledged(after_event(c, event)) == acknowledged(c),
        },
        after_event(c, event).origin is None ==> after_event(c, event).active is None,
{
    let next = after_event(c, event);
    let all = acknowledged(c);
    if c.active is Some {
        assert(all.skip(1) =~= c.pending);
    }
    if c.pending.len() > 0 {
        assert(seq![c.pending[0]] + c.pending.skip(1) =~= c.pending);
    }
    match cleared_by(c, event) {
        Some(id) => {
            assert(acknowledged(next) =~= c.pending);
        },
        None => {
            assert(acknowledged(next) =~= acknowledged(c));
        },
    }
}

/// A turn that the session runs of its own accord takes no message that waits, and
/// is silent where it has nothing to say.
pub proof fn autonomous_turns_take_no_message(c: ConversationView)
    ensures
        started(c, TurnOrigin::Autonomous).pending == c.pending,
        turn_reply(Seq::empty(), true, None, started(c, TurnOrigin::Autonomous).origin) is None,
{
}

/// Turns are given to messages in the order in which these came.
pub proof fn replies_stay_aligned(c: ConversationView, first: i64, second: i64)
    requires
        c.pending.len() == 0,
    ensures
        ({
            let both = ConversationView { pending: c.pending.push(first).push(second), ..c };
            let one = started(both, TurnOrigin::Submitted);
            let other = started(one, TurnOrigin::Submitted);
            one.active == Some(first) && other.active == Some(second) && other.pending.len() == 0
        }),
{
}

/// Every turn for a message is answered.
pub proof fn messages_are_answered(answer: Seq<char>, ok: bool, error: Option<Seq<char>>)
    ensures
        turn_reply(answer, ok, error, Some(TurnOrigin::Submitted)) is Some,
{
}

} // verus!
