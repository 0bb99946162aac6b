//! The message that shows what the agent is thinking.

use crate::slack::mrkdwn;
use crate::text;
use vstd::prelude::*;
use vstd::string::*;

verus! {

/// The most characters of a thought that are shown.
pub const MAX_THINKING_CHARS: usize = 3000;

/// How long, in milliseconds, further thoughts are awaited before the message is
/// updated.
pub const UPDATE_INTERVAL_MS: u64 = 3_000;

/// A thought on one line, cut where it is too long.
pub open spec fn compact(s: Seq<char>) -> Seq<char> {
    let line = text::collapsed(s);
    if line.len() > MAX_THINKING_CHARS {
        line.take(MAX_THINKING_CHARS as int) + "…"@
    } else {
        line
    }
}

/// A thought as it is shown: a line for each sentence and each item.
pub open spec fn displayed(s: Seq<char>) -> Seq<char> {
    "🧠 Thinking:\n"@ + mrkdwn::rendered(
        text::replaced(text::replaced(compact(s), ". "@, ".\n"@), " - "@, "\n- "@),
    )
}

/// A thought as it is shown.
pub fn display(text: &str) -> (out: String)
    ensures
        out@ == displayed(text@),
{
    proof {
        reveal_strlit(". ");
        reveal_strlit(" - ");
    }
    let chars = text::to_chars(text);
    let mut line = text::collapse(chars.as_slice());
    if line.len() > MAX_THINKING_CHARS {
        line = text::copy_chars(text::take(line.as_slice(), MAX_THINKING_CHARS));
        text::push_str(&mut line, "…");
    }
    let sentences = text::replace(line.as_slice(), ". ", ".\n");
    let items = text::replace(sentences.as_slice(), " - ", "\n- ");
    let body = mrkdwn::render(text::from_chars(items.as_slice()).as_str());
    let mut out = "🧠 Thinking:\n".to_owned();
    out.append(body.as_str());
    out
}

/// What is to be done with the message.
#[derive(Clone, Debug, PartialEq, Eq)]
pub enum ThinkingAction {
    Nothing,
    /// A message with this text is posted.
    Post(String),
    /// The message with this timestamp is given this text.
    Update(String, String),
}

/// What is to be done at the end, in this order.
#[derive(Clone, Debug, PartialEq, Eq)]
pub struct Farewell {
    /// The text that the message is given.
    pub update: Option<String>,
    /// The message that is deleted.
    pub delete: Option<String>,
}

/// What was thought, and the message that shows it.
#[derive(Clone, Debug, PartialEq, Eq)]
pub struct Thinking {
    text: String,
    posted: Option<String>,
    dirty: bool,
}

/// What is known of a thought.
#[verifier::ext_equal]
pub struct ThinkingView {
    pub text: Seq<char>,
    pub posted: Option<Seq<char>>,
    pub dirty: bool,
}

impl View for Thinking {
    type V = ThinkingView;

    closed spec fn view(&self) -> ThinkingView {
        ThinkingView { text: self.text@, posted: text::opt_view(self.posted), dirty: self.dirty }
    }
}

impl Thinking {
    /// Nothing was thought yet.
    pub fn start() -> (t: Thinking)
        ensures
            t@ == (ThinkingView { text: Seq::empty(), posted: None, dirty: false }),
    {
        Thinking { text: String::new(), posted: None, dirty: false }
    }

    /// The message that shows the thought.
    pub fn posted(&self) -> (ts: Option<&str>)
        ensures
            text::opt_str_view(ts) == self@.posted,
    {
        text::as_text(&self.posted)
    }

    /// Whether an update is due once the interval has passed.
    pub fn is_dirty(&self) -> (b: bool)
        ensures
            b == self@.dirty,
    {
        self.dirty
    }

    /// Takes in more of the thought: the first of it is posted at once, the rest
    /// waits.
    pub fn append(&mut self, delta: &str) -> (action: ThinkingAction)
        ensures
            final(self)@.text == old(self)@.text + delta@,
            final(self)@.posted == old(self)@.posted,
            final(self)@.dirty == (old(self)@.dirty || old(self)@.posted is Some),
            match action {
                ThinkingAction::Post(s) => old(self)@.posted is None && s@ == displayed(
                    final(self)@.text,
                ),
                ThinkingAction::Nothing => old(self)@.posted is Some,
                ThinkingAction::Update(_, _) => false,
            },
    {
        self.text.append(delta);
        if self.posted.is_none() {
            ThinkingAction::Post(display(self.text.as_str()))
        } else {
            self.dirty = true;
            ThinkingAction::Nothing
        }
    }

    /// Notes the message that was posted.
    pub fn on_posted(&mut self, ts: &str)
        ensures
            final(self)@ == (ThinkingView { posted: Some(ts@), ..old(self)@ }),
    {
        self.posted = Some(ts.to_owned());
    }

    /// The interval has passed: the message is brought up to date.
    pub fn on_timer(&mut self) -> (action: ThinkingAction)
        ensures
            match action {
                ThinkingAction::Update(ts, s) => old(self)@.posted == Some(ts@) && s@
                    == displayed(old(self)@.text) && final(self)@ == (ThinkingView {
                    dirty: false,
                    ..old(self)@
                }),
                ThinkingAction::Nothing => old(self)@.posted is None && final(self)@
                    == old(self)@,
                ThinkingAction::Post(_) => false,
            },
    {
        match &self.posted {
            Some(ts) => {
                let action = ThinkingAction::Update(
                    ts.as_str().to_owned(),
                    display(self.text.as_str()),
                );
                self.dirty = false;
                action
            },
            None => ThinkingAction::Nothing,
        }
    }

    /// The turn is over: what is not shown yet is shown, and the message deleted
    /// where it is not to stay.
    pub fn finish(self, delete_on_complete: bool) -> (r: Farewell)
        ensures
            text::opt_view(r.update) == (if self@.posted is Some && self@.dirty {
                Some(displayed(self@.text))
            } else {
                None
            }),
            text::opt_view(r.delete) == (if delete_on_complete {
                self@.posted
            } else {
                None
            }),
    {
        let update = if self.posted.is_some() && self.dirty {
            Some(display(self.text.as_str()))
        } else {
            None
        };
        let delete = if delete_on_complete {
            self.posted
        } else {
            None
        };
        Farewell { update, delete }
    }
}

/// What is shown of a thought is bounded, whatever its length.
pub proof fn thoughts_are_cut(s: Seq<char>)
    ensures
        compact(s).len() <= MAX_THINKING_CHARS + 1,
{
    reveal_strlit("…");
}

} // verus!
