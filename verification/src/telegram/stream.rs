//! How a turn is shown while it runs.
//!
//! A turn is shown in two messages that are edited in place: one with the answer as
//! far as it has come, and one with the tool that is running. The answer is brought
//! up to date from time to time, before each tool runs, and at the end, when the
//! other message comes to sum up the tools that were used.

use crate::json;
use crate::json::Scalar;
use crate::text;
use vstd::prelude::*;
use vstd::slice::slice_subrange;
use vstd::string::*;

verus! {

/// The least time, in milliseconds, between two edits of the answer.
pub const EDIT_INTERVAL_MS: u64 = 1_000;

/// So many new characters are shown though the interval has not passed.
pub const EDIT_CHAR_THRESHOLD: usize = 200;

/// The most characters of a target that a preview shows.
pub const TOOL_PREVIEW_MAX: usize = 80;

// ---- Tools ------------------------------------------------------------------

/// What a preview shows of a value: text that is not blank, a number or a truth
/// value.
pub open spec fn scalar_text(value: json::ScalarView) -> Option<Seq<char>> {
    match value {
        json::ScalarView::Text(s) => if text::is_blank(s) {
            None
        } else {
            Some(s)
        },
        json::ScalarView::Number(s) => Some(s),
        json::ScalarView::Bool(b) => Some(
            if b {
                "true"@
            } else {
                "false"@
            },
        ),
        json::ScalarView::Compound => None,
    }
}

/// What can be shown under the first of `names` that has something to show.
pub open spec fn preferred_text(
    members: Seq<(Seq<char>, json::ScalarView)>,
    names: Seq<Seq<char>>,
) -> Option<Seq<char>>
    decreases names.len(),
{
    if names.len() == 0 {
        None
    } else {
        let value = json::scalar_under(members, names[0]);
        if value is Some && scalar_text(value->0) is Some {
            scalar_text(value->0)
        } else {
            preferred_text(members, names.skip(1))
        }
    }
}

/// The first of `members` that can be shown.
pub open spec fn first_scalar(members: Seq<(Seq<char>, json::ScalarView)>) -> Option<Seq<char>>
    decreases members.len(),
{
    if members.len() == 0 {
        None
    } else {
        match scalar_text(members[0].1) {
            Some(s) => Some(s),
            None => first_scalar(members.skip(1)),
        }
    }
}

/// At most `n` characters of `s`, of which the last is an ellipsis where it is cut.
pub open spec fn truncated(s: Seq<char>, n: nat) -> Seq<char>
    recommends
        n > 0,
{
    if s.len() <= n {
        s
    } else {
        s.take(n - 1).push('…')
    }
}

/// What a tool call works on, where its arguments say so.
pub open spec fn short_target(
    members: Option<Seq<(Seq<char>, json::ScalarView)>>,
) -> Option<Seq<char>> {
    match members {
        Some(list) => {
            let pick = match preferred_text(list, json::identifying_names()) {
                Some(s) => Some(s),
                None => first_scalar(list),
            };
            match pick {
                Some(s) => Some(truncated(text::collapsed(s), TOOL_PREVIEW_MAX as nat)),
                None => None,
            }
        },
        None => None,
    }
}

/// How a running tool is shown: by its name and what it works on.
pub open spec fn preview(
    name: Seq<char>,
    members: Option<Seq<(Seq<char>, json::ScalarView)>>,
) -> Seq<char> {
    match short_target(members) {
        Some(target) => name + " · "@ + target,
        None => name,
    }
}

fn scalar_str(value: &Scalar) -> (r: Option<&str>)
    ensures
        text::opt_str_view(r) == scalar_text(value@),
{
    match value {
        Scalar::Text(s) => {
            let chars = text::to_chars(s.as_str());
            if text::trim(chars.as_slice()).len() == 0 {
                None
            } else {
                Some(s.as_str())
            }
        },
        Scalar::Number(s) => Some(s.as_str()),
        Scalar::Bool(b) => if *b {
            Some("true")
        } else {
            Some("false")
        },
        Scalar::Compound => None,
    }
}

fn find_preferred<'a>(members: &'a Vec<(String, Scalar)>) -> (r: Option<&'a str>)
    ensures
        text::opt_str_view(r) == preferred_text(
            json::scalar_views(members@),
            json::identifying_names(),
        ),
{
    let names = json::identifying();
    let ghost all = json::identifying_names();
    let ghost list = json::scalar_views(members@);
    let mut i: usize = 0;
    assert(all.skip(0) =~= all);
    while i < names.len()
        invariant
            all == json::identifying_names(),
            list == json::scalar_views(members@),
            names@.len() == all.len(),
            forall|k: int| 0 <= k < names@.len() ==> (#[trigger] names@[k])@ == all[k],
            i <= names@.len(),
            preferred_text(list, all) == preferred_text(list, all.skip(i as int)),
        decreases names@.len() - i,
    {
        assert(all.skip(i as int).skip(1) =~= all.skip(i + 1));
        assert(names@[i as int]@ == all[i as int]);
        if let Some(value) = json::find_scalar(members, names[i]) {
            if let Some(s) = scalar_str(value) {
                return Some(s);
            }
        }
        i = i + 1;
    }
    None
}

fn find_first<'a>(members: &'a Vec<(String, Scalar)>) -> (r: Option<&'a str>)
    ensures
        text::opt_str_view(r) == first_scalar(json::scalar_views(members@)),
{
    let ghost list = json::scalar_views(members@);
    let mut i: usize = 0;
    assert(list.skip(0) =~= list);
    while i < members.len()
        invariant
            list == json::scalar_views(members@),
            i <= members@.len(),
            first_scalar(list) == first_scalar(list.skip(i as int)),
        decreases members@.len() - i,
    {
        assert(list.skip(i as int).skip(1) =~= list.skip(i + 1));
        if let Some(s) = scalar_str(&members[i].1) {
            return Some(s);
        }
        i = i + 1;
    }
    None
}

fn truncate(s: &[char], n: usize) -> (out: Vec<char>)
    requires
        n > 0,
    ensures
        out@ == truncated(s@, n as nat),
{
    if s.len() <= n {
        return text::copy_chars(s);
    }
    let mut out = text::copy_chars(text::take(s, n - 1));
    out.push('…');
    out
}

/// How a running tool with these arguments is shown.
pub fn preview_of(name: &str, members: Option<&Vec<(String, Scalar)>>) -> (text: String)
    ensures
        text@ == preview(
            name@,
            match members {
                Some(list) => Some(json::scalar_views(list@)),
                None => None,
            },
        ),
{
    if let Some(list) = members {
        let pick = match find_preferred(list) {
            Some(s) => Some(s),
            None => find_first(list),
        };
        if let Some(s) = pick {
            let chars = text::to_chars(s);
            let target = truncate(text::collapse(chars.as_slice()).as_slice(), TOOL_PREVIEW_MAX);
            let mut out = text::to_chars(name);
            text::push_str(&mut out, " · ");
            text::push_all(&mut out, target.as_slice());
            return text::from_chars(out.as_slice());
        }
    }
    name.to_owned()
}

/// How a running tool is shown, from its name and its arguments in JSON.
pub fn tool_preview(name: &str, args: &str) -> (text: String)
    ensures
        text@ == preview(name@, json::json_members(args@)),
{
    match json::parse_members(args) {
        Some(list) => preview_of(name, Some(&list)),
        None => preview_of(name, None),
    }
}

/// `names` with each name only where it stands first.
pub open spec fn distinct(names: Seq<Seq<char>>) -> Seq<Seq<char>>
    decreases names.len(),
{
    if names.len() == 0 {
        Seq::empty()
    } else if names.drop_last().contains(names.last()) {
        distinct(names.drop_last())
    } else {
        distinct(names.drop_last()).push(names.last())
    }
}

/// How the tools that were used are summed up.
pub open spec fn summary(names: Seq<Seq<char>>) -> Seq<char> {
    if names.len() == 0 {
        Seq::empty()
    } else {
        "Used "@ + text::decimal(names.len()) + (if names.len() == 1 {
            " tool: "@
        } else {
            " tools: "@
        }) + text::joined(distinct(names), ", "@)
    }
}

/// How the tools that were used are summed up.
pub fn tool_summary(names: &[String]) -> (text: String)
    ensures
        text@ == summary(text::views(names@)),
{
    if names.len() == 0 {
        return String::new();
    }
    let ghost all = text::views(names@);
    let mut unique: Vec<Vec<char>> = Vec::new();
    let mut i: usize = 0;
    assert(text::vec_views(unique@) =~= distinct(all.take(0)));
    while i < names.len()
        invariant
            all == text::views(names@),
            i <= names@.len(),
            text::vec_views(unique@) == distinct(all.take(i as int)),
        decreases names@.len() - i,
    {
        let name = names[i].as_str();
        let ghost before = unique@;
        let head = slice_subrange(names, 0, i);
        assert(all.take(i + 1).drop_last() =~= all.take(i as int));
        assert(all.take(i + 1).last() == name@);
        assert(text::views(head@) =~= all.take(i as int));
        if !text::contains_str(head, name) {
            unique.push(text::to_chars(name));
            assert(text::vec_views(unique@) =~= text::vec_views(before).push(name@));
        }
        i = i + 1;
    }
    assert(all.take(i as int) =~= all);
    let mut out = text::to_chars("Used ");
    let count = text::decimal_chars(names.len() as u64);
    text::push_all(&mut out, count.as_slice());
    text::push_str(
        &mut out,
        if names.len() == 1 {
            " tool: "
        } else {
            " tools: "
        },
    );
    let list = text::join(&unique, ", ");
    text::push_all(&mut out, list.as_slice());
    text::from_chars(out.as_slice())
}

// ---- The turn ---------------------------------------------------------------

/// Something to show.
#[derive(Clone, Debug, PartialEq, Eq)]
pub struct Update {
    /// The message that is edited, or none where one is sent.
    pub edit: Option<i64>,
    pub text: String,
}

/// What an update is: the message that is edited, and the text.
pub open spec fn update_view(update: Option<Update>) -> Option<(Option<i64>, Seq<char>)> {
    match update {
        Some(u) => Some((u.edit, u.text@)),
        None => None,
    }
}

/// What is to be shown at once, in this order.
#[derive(Clone, Debug, PartialEq, Eq)]
pub struct Updates {
    /// In the message with the answer.
    pub answer: Option<Update>,
    /// In the message with the tools.
    pub status: Option<Update>,
}

/// A turn as far as it is shown.
#[derive(Clone, Debug, PartialEq, Eq)]
pub struct LiveTurn {
    answer_msg: Option<i64>,
    answer: String,
    written: usize,
    last_edit: Option<u64>,
    status_msg: Option<i64>,
    tools: Vec<String>,
}

/// What is known of a turn.
#[verifier::ext_equal]
pub struct LiveTurnView {
    /// The message that shows the answer.
    pub answer_msg: Option<i64>,
    /// The answer as far as it has come.
    pub answer: Seq<char>,
    /// How much of it was last shown.
    pub written: nat,
    /// When it was last shown, in milliseconds.
    pub last_edit: Option<u64>,
    /// The message that shows the tools.
    pub status_msg: Option<i64>,
    /// The tools that were used, in order.
    pub tools: Seq<Seq<char>>,
}

impl View for LiveTurn {
    type V = LiveTurnView;

    closed spec fn view(&self) -> LiveTurnView {
        LiveTurnView {
            answer_msg: self.answer_msg,
            answer: self.answer@,
            written: self.written as nat,
            last_edit: self.last_edit,
            status_msg: self.status_msg,
            tools: text::views(self.tools@),
        }
    }
}

/// A turn that has just begun.
pub open spec fn fresh_turn() -> LiveTurnView {
    LiveTurnView {
        answer_msg: None,
        answer: Seq::empty(),
        written: 0,
        last_edit: None,
        status_msg: None,
        tools: Seq::empty(),
    }
}

/// Whether enough has come, or enough time has passed, to edit the answer.
pub open spec fn edit_due(t: LiveTurnView, now: u64) -> bool {
    &&& t.answer.len() > t.written
    &&& t.answer.len() - t.written >= EDIT_CHAR_THRESHOLD || t.last_edit is None || now
        - t.last_edit->0 >= EDIT_INTERVAL_MS
}

/// What brings the message with the answer up to date.
pub open spec fn flush(t: LiveTurnView) -> Option<(Option<i64>, Seq<char>)> {
    match t.answer_msg {
        Some(id) => if t.answer.len() == t.written {
            None
        } else {
            Some((Some(id), t.answer))
        },
        None => if t.answer.len() == 0 {
            None
        } else {
            Some((None, t.answer))
        },
    }
}

/// What is shown when more of the answer has come: the first text at once, later
/// text when an edit is due.
pub open spec fn push_update(t: LiveTurnView, now: u64) -> Option<(Option<i64>, Seq<char>)> {
    match t.answer_msg {
        Some(id) => if edit_due(t, now) {
            Some((Some(id), t.answer))
        } else {
            None
        },
        None => Some((None, t.answer)),
    }
}

impl LiveTurn {
    /// A turn that has just begun.
    pub fn new() -> (t: LiveTurn)
        ensures
            t@ == fresh_turn(),
    {
        let t = LiveTurn {
            answer_msg: None,
            answer: String::new(),
            written: 0,
            last_edit: None,
            status_msg: None,
            tools: Vec::new(),
        };
        assert(t@ =~= fresh_turn());
        t
    }

    /// The answer as far as it has come.
    pub fn answer(&self) -> (answer: &str)
        ensures
            answer@ == self@.answer,
    {
        self.answer.as_str()
    }

    /// The message that shows the answer.
    pub fn answer_message_id(&self) -> (id: Option<i64>)
        ensures
            id == self@.answer_msg,
    {
        self.answer_msg
    }

    /// More of the answer has come at the time `now`, in milliseconds: what is shown
    /// of it at once.
    pub fn push_text(&mut self, text: &str, now: u64) -> (r: Option<Update>)
        ensures
            final(self)@ == (LiveTurnView { answer: old(self)@.answer + text@, ..old(self)@ }),
            update_view(r) == if text@.len() == 0 {
                None
            } else {
                push_update(final(self)@, now)
            },
    {
        let chars = text::to_chars(text);
        if chars.len() == 0 {
            assert(self.answer@ + text@ =~= self.answer@);
            return None;
        }
        self.answer.append(text);
        match self.answer_msg {
            Some(id) => if self.should_edit(now) {
                Some(Update { edit: Some(id), text: self.answer.as_str().to_owned() })
            } else {
                None
            },
            None => Some(Update { edit: None, text: self.answer.as_str().to_owned() }),
        }
    }

    fn should_edit(&self, now: u64) -> (b: bool)
        ensures
            b == edit_due(self@, now),
    {
        let len: usize = text::to_chars(self.answer.as_str()).len();
        if len <= self.written {
            return false;
        }
        if len - self.written >= EDIT_CHAR_THRESHOLD {
            return true;
        }
        match self.last_edit {
            Some(last) => now >= last && now - last >= EDIT_INTERVAL_MS,
            None => true,
        }
    }

    fn flush_answer(&self) -> (r: Option<Update>)
        ensures
            update_view(r) == flush(self@),
    {
        let len: usize = text::to_chars(self.answer.as_str()).len();
        let pending = match self.answer_msg {
            Some(_) => len != self.written,
            None => len != 0,
        };
        if pending {
            Some(Update { edit: self.answer_msg, text: self.answer.as_str().to_owned() })
        } else {
            None
        }
    }

    /// The answer was sent at the time `now`, as this message if at all.
    pub fn on_answer_sent(&mut self, id: Option<i64>, now: u64)
        ensures
            final(self)@ == (LiveTurnView {
                answer_msg: id,
                written: old(self)@.answer.len(),
                last_edit: Some(now),
                ..old(self)@
            }),
    {
        self.answer_msg = id;
        self.on_answer_edited(now);
    }

    /// An edit of the answer was tried at the time `now`. One that failed is not
    /// repeated: the whole answer is delivered at the end in any case.
    pub fn on_answer_edited(&mut self, now: u64)
        ensures
            final(self)@ == (LiveTurnView {
                written: old(self)@.answer.len(),
                last_edit: Some(now),
                ..old(self)@
            }),
    {
        self.written = text::to_chars(self.answer.as_str()).len();
        self.last_edit = Some(now);
    }

    /// A tool is about to run: what is shown before it does. The answer comes first,
    /// so a tool that hangs hides none of it.
    pub fn tool_started(&mut self, name: &str, args: &str) -> (r: Updates)
        ensures
            final(self)@ == (LiveTurnView { tools: old(self)@.tools.push(name@), ..old(self)@ }),
            update_view(r.answer) == flush(old(self)@),
            update_view(r.status) == Some(
                (old(self)@.status_msg, preview(name@, json::json_members(args@))),
            ),
    {
        let answer = self.flush_answer();
        let ghost before = self.tools@;
        self.tools.push(name.to_owned());
        assert(text::views(self.tools@) =~= text::views(before).push(name@));
        Updates {
            answer,
            status: Some(Update { edit: self.status_msg, text: tool_preview(name, args) }),
        }
    }

    /// The tool was shown in this message, if at all.
    pub fn on_status_sent(&mut self, id: Option<i64>)
        ensures
            final(self)@ == (LiveTurnView { status_msg: id, ..old(self)@ }),
    {
        self.status_msg = id;
    }

    /// The turn is over: what is shown last.
    pub fn finish(&self) -> (r: Updates)
        ensures
            update_view(r.answer) == flush(self@),
            update_view(r.status) == if self@.status_msg is Some && self@.tools.len() > 0 {
                Some((self@.status_msg, summary(self@.tools)))
            } else {
                None
            },
    {
        let answer = self.flush_answer();
        let status = match self.status_msg {
            Some(id) => if self.tools.len() > 0 {
                Some(Update { edit: Some(id), text: tool_summary(self.tools.as_slice()) })
            } else {
                None
            },
            None => None,
        };
        Updates { answer, status }
    }
}

// ---- Laws -------------------------------------------------------------------

/// A preview begins with the tool's name, and is at most a little longer.
pub proof fn previews_are_short(
    name: Seq<char>,
    members: Option<Seq<(Seq<char>, json::ScalarView)>>,
)
    ensures
        text::begins_with(preview(name, members), name),
        preview(name, members).len() <= name.len() + 3 + TOOL_PREVIEW_MAX,
{
    reveal_strlit(" · ");
    assert(preview(name, members).take(name.len() as int) =~= name);
}

/// A summary names each tool that was used, and each once.
pub proof fn summaries_name_each_tool_once(names: Seq<Seq<char>>)
    ensures
        distinct(names).no_duplicates(),
        forall|name: Seq<char>| #[trigger] distinct(names).contains(name) <==> names.contains(name),
    decreases names.len(),
{
    if names.len() > 0 {
        let head = names.drop_last();
        let last = names.last();
        summaries_name_each_tool_once(head);
        assert(names =~= head.push(last));
        assert forall|name: Seq<char>| #[trigger] distinct(names).contains(name) <==> names.contains(
            name,
        ) by {
            lemma_contains_push(head, last, name);
            lemma_contains_push(distinct(head), last, name);
            assert(distinct(head).contains(name) <==> head.contains(name));
        }
        if !head.contains(last) {
            assert(!distinct(head).contains(last));
            let list = distinct(head).push(last);
            assert forall|i: int, j: int| 0 <= i < list.len() && 0 <= j < list.len() && i
                != j implies list[i] != list[j] by {
                if i == distinct(head).len() {
                    assert(distinct(head).contains(list[j]));
                }
                if j == distinct(head).len() {
                    assert(distinct(head).contains(list[i]));
                }
            }
        }
    }
}

proof fn lemma_contains_push(list: Seq<Seq<char>>, last: Seq<char>, name: Seq<char>)
    ensures
        list.push(last).contains(name) <==> list.contains(name) || name == last,
{
    if list.contains(name) {
        let i = choose|i: int| 0 <= i < list.len() && list[i] == name;
        assert(list.push(last)[i] == name);
    }
    if name == last {
        assert(list.push(last)[list.len() as int] == name);
    }
    if list.push(last).contains(name) {
        let i = choose|i: int| 0 <= i < list.push(last).len() && list.push(last)[i] == name;
        if i < list.len() {
            assert(list[i] == name);
        }
    }
}

/// Where nothing is left to bring up to date, the whole answer is shown: when a tool
/// starts and when a turn ends, none of it is held back.
pub proof fn boundaries_show_the_whole_answer(t: LiveTurnView)
    ensures
        match flush(t) {
            Some(update) => update.1 == t.answer,
            None => t.answer.len() == 0 || (t.answer_msg is Some && t.written == t.answer.len()),
        },
{
}

/// An answer that was just shown is edited again only after the interval, or when
/// enough has come since.
pub proof fn edits_are_rate_limited(t: LiveTurnView, shown: u64, more: Seq<char>, now: u64)
    requires
        t.answer_msg is Some,
        t.written == t.answer.len(),
        t.last_edit == Some(shown),
        push_update(LiveTurnView { answer: t.answer + more, ..t }, now) is Some,
    ensures
        now - shown >= EDIT_INTERVAL_MS || more.len() >= EDIT_CHAR_THRESHOLD,
{
}

} // verus!
