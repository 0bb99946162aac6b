//! An answer that is shown while it grows.

use crate::discord::markdown;
use crate::text;
use vstd::prelude::*;
use vstd::string::*;

verus! {

/// The least time, in milliseconds, between two updates.
pub const UPDATE_INTERVAL_MS: u64 = 1_000;

/// One step of showing an answer.
#[derive(Clone, Debug, PartialEq, Eq)]
pub struct Step {
    /// The message that is edited, or none where one is posted.
    pub edit: Option<String>,
    pub text: String,
}

/// What a list of steps holds: the messages that are edited, and texts.
pub open spec fn step_views(list: Seq<Step>) -> Seq<(Option<Seq<char>>, Seq<char>)> {
    Seq::new(list.len(), |i: int| (text::opt_view(list[i].edit), list[i].text@))
}

/// The messages that show an answer, and how they stand.
#[derive(Clone, Debug, PartialEq, Eq)]
pub struct LiveAnswer {
    messages: Vec<String>,
    last: Option<u64>,
    dirty: bool,
}

/// What is known of an answer.
#[verifier::ext_equal]
pub struct LiveView {
    /// The ids of the messages that show it.
    pub messages: Seq<Seq<char>>,
    /// When it was last shown.
    pub last: Option<u64>,
    /// Whether more of it came since.
    pub dirty: bool,
}

impl View for LiveAnswer {
    type V = LiveView;

    closed spec fn view(&self) -> LiveView {
        LiveView { messages: text::views(self.messages@), last: self.last, dirty: self.dirty }
    }
}

/// Whether an answer was shown less than the interval ago.
pub open spec fn shown_recently(a: LiveView, now: u64) -> bool {
    a.last is Some && now - a.last->0 < UPDATE_INTERVAL_MS
}

/// The texts that an answer is shown as.
pub open spec fn answer_parts(answer: Seq<char>) -> Seq<Seq<char>> {
    markdown::messages(markdown::rendered(answer))
}

/// The steps in which an answer is shown: the messages that are there are edited in
/// order, and the rest is posted.
pub open spec fn answer_steps(messages: Seq<Seq<char>>, answer: Seq<char>) -> Seq<
    (Option<Seq<char>>, Seq<char>),
> {
    Seq::new(
        answer_parts(answer).len(),
        |i: int|
            (
                if i < messages.len() {
                    Some(messages[i])
                } else {
                    None
                },
                answer_parts(answer)[i],
            ),
    )
}

impl LiveAnswer {
    /// An answer of which nothing is shown.
    pub fn new() -> (a: LiveAnswer)
        ensures
            a@ == (LiveView { messages: Seq::empty(), last: None, dirty: false }),
    {
        let a = LiveAnswer { messages: Vec::new(), last: None, dirty: false };
        assert(a@.messages =~= Seq::empty());
        a
    }

    /// More of the answer has come at the time `now`: whether it is shown at once.
    /// Else it waits.
    pub fn push(&mut self, now: u64) -> (flush: bool)
        ensures
            flush == !shown_recently(old(self)@, now),
            final(self)@ == (if flush {
                old(self)@
            } else {
                LiveView { dirty: true, ..old(self)@ }
            }),
    {
        if let Some(last) = self.last {
            if now < last || now - last < UPDATE_INTERVAL_MS {
                self.dirty = true;
                return false;
            }
        }
        true
    }

    /// How long to wait, in milliseconds, until what waits is shown; `None` where
    /// nothing waits.
    pub fn wait_for_flush(&self, now: u64) -> (r: Option<u64>)
        ensures
            match r {
                Some(wait) => self@.dirty && self@.last is Some && wait == (if self@.last->0
                    + UPDATE_INTERVAL_MS > now {
                    self@.last->0 + UPDATE_INTERVAL_MS - now
                } else {
                    0
                }),
                None => !self@.dirty || self@.last is None || (self@.last->0 + UPDATE_INTERVAL_MS
                    - now > u64::MAX),
            },
    {
        if !self.dirty {
            return None;
        }
        match self.last {
            Some(last) => {
                if last <= now {
                    let passed: u64 = now - last;
                    if passed >= UPDATE_INTERVAL_MS {
                        Some(0)
                    } else {
                        Some(UPDATE_INTERVAL_MS - passed)
                    }
                } else {
                    (last - now).checked_add(UPDATE_INTERVAL_MS)
                }
            },
            None => None,
        }
    }

    /// Whether something waits to be shown.
    pub fn flush_if_due(&self) -> (b: bool)
        ensures
            b == self@.dirty,
    {
        self.dirty
    }

    /// The steps in which an answer is shown.
    pub fn plan(&self, answer: &str) -> (list: Vec<Step>)
        ensures
            step_views(list@) == answer_steps(self@.messages, answer@),
    {
        let parts = markdown::chunk(markdown::render(answer).as_str());
        let ghost all = text::views(parts@);
        let ghost shown = text::views(self.messages@);
        let mut list: Vec<Step> = Vec::new();
        let mut i: usize = 0;
        while i < parts.len()
            invariant
                all == text::views(parts@),
                all == answer_parts(answer@),
                shown == text::views(self.messages@),
                shown == self@.messages,
                i <= parts@.len(),
                step_views(list@) =~= answer_steps(shown, answer@).take(i as int),
            decreases parts@.len() - i,
        {
            let edit = if i < self.messages.len() {
                assert(shown[i as int] == self.messages@[i as int]@);
                Some(self.messages[i].as_str().to_owned())
            } else {
                None
            };
            let ghost before = list@;
            let step = Step { edit, text: parts[i].as_str().to_owned() };
            list.push(step);
            assert(all[i as int] == parts@[i as int]@);
            assert(step_views(list@) =~= step_views(before).push(
                (text::opt_view(step.edit), step.text@),
            ));
            i = i + 1;
        }
        assert(answer_steps(shown, answer@).take(i as int) =~= answer_steps(shown, answer@));
        list
    }

    /// A part was posted.
    pub fn on_posted(&mut self, id: &str)
        ensures
            final(self)@ == (LiveView { messages: old(self)@.messages.push(id@), ..old(self)@ }),
    {
        let ghost before = self.messages@;
        self.messages.push(id.to_owned());
        assert(text::views(self.messages@) =~= text::views(before).push(id@));
    }

    /// All parts were shown at the time `now`.
    pub fn on_flushed(&mut self, now: u64)
        ensures
            final(self)@ == (LiveView { last: Some(now), dirty: false, ..old(self)@ }),
    {
        self.last = Some(now);
        self.dirty = false;
    }

    /// Whether the answer is shown once more at the end.
    pub fn needs_finish(&self) -> (b: bool)
        ensures
            b == (self@.dirty || self@.messages.len() == 0),
    {
        self.dirty || self.messages.len() == 0
    }
}

/// Every part of an answer fits a message.
pub proof fn answers_fit_their_messages(answer: Seq<char>, i: int)
    requires
        0 <= i < answer_parts(answer).len(),
    ensures
        answer_parts(answer)[i].len() <= markdown::MESSAGE_LIMIT,
{
    markdown::every_message_fits(markdown::rendered(answer), i);
}

/// A part that is posted becomes the message that is edited for that part, so parts
/// keep their messages.
pub proof fn parts_keep_their_messages(
    messages: Seq<Seq<char>>,
    id: Seq<char>,
    answer: Seq<char>,
    later: Seq<char>,
)
    requires
        messages.len() < answer_parts(answer).len(),
        messages.len() < answer_parts(later).len(),
    ensures
        answer_steps(messages, answer)[messages.len() as int].0 is None,
        answer_steps(messages.push(id), later)[messages.len() as int].0 == Some(id),
        forall|i: int|
            0 <= i < messages.len() ==> (#[trigger] answer_steps(messages.push(id), later)[i]).0
                == Some(messages[i]),
{
}

} // verus!
