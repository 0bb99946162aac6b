//! What holds of every turn, of how it is shown, and of who may ask for one.

use crate::generations;
use crate::json;
use crate::json::JsonView;
use crate::telegram::channel;
use crate::telegram::channel::{AttemptView, SendError, Triage};
use crate::telegram::markdown::{ChunkView, ParseMode};
use crate::telegram::session;
use crate::telegram::session::ResetCommand;
use crate::telegram::stream;
use crate::telegram::stream::LiveTurnView;
use crate::telegram::worker;
use crate::telegram::worker::{ConversationView, SessionEvent, Step};
use crate::text;
use crate::text_laws;
use vstd::prelude::*;

verus! {

// ---- Previews ---------------------------------------------------------------

/// Whether there is something to show under a name.
pub open spec fn shows(members: Seq<(Seq<char>, json::ScalarView)>, name: Seq<char>) -> bool {
    json::scalar_under(members, name) is Some && stream::scalar_text(
        json::scalar_under(members, name)->0,
    ) is Some
}

/// A preview shows what stands under the first of the names that has something to show.
pub proof fn the_first_name_with_something_to_show_is_shown(
    members: Seq<(Seq<char>, json::ScalarView)>,
    names: Seq<Seq<char>>,
)
    ensures
        ({
            let good = names.filter(|n: Seq<char>| shows(members, n));
            stream::preferred_text(members, names) == if good.len() == 0 {
                None::<Seq<char>>
            } else {
                stream::scalar_text(json::scalar_under(members, good[0])->0)
            }
        }),
    decreases names.len(),
{
    let good = |n: Seq<char>| shows(members, n);
    if names.len() > 0 {
        the_first_name_with_something_to_show_is_shown(members, names.skip(1));
        text_laws::lemma_filter_front(names, good);
    } else {
        text_laws::lemma_filter_nothing(names, good);
    }
}

/// Where none of the names has, it shows the first of all members that can be shown.
pub proof fn the_first_scalar_is_shown(members: Seq<(Seq<char>, json::ScalarView)>)
    ensures
        ({
            let good = members.filter(
                |m: (Seq<char>, json::ScalarView)| stream::scalar_text(m.1) is Some,
            );
            stream::first_scalar(members) == if good.len() == 0 {
                None::<Seq<char>>
            } else {
                stream::scalar_text(good[0].1)
            }
        }),
    decreases members.len(),
{
    let good = |m: (Seq<char>, json::ScalarView)| stream::scalar_text(m.1) is Some;
    if members.len() > 0 {
        the_first_scalar_is_shown(members.skip(1));
        text_laws::lemma_filter_front(members, good);
    } else {
        text_laws::lemma_filter_nothing(members, good);
    }
}

/// A preview is the name of the tool and, where there is one, its target on one line, of
/// which too long a one is cut and ends with an ellipsis.
pub proof fn previews_show_the_target(
    name: Seq<char>,
    members: Seq<(Seq<char>, json::ScalarView)>,
    target: Seq<char>,
)
    requires
        stream::preferred_text(members, json::identifying_names()) == Some(target) || (
        stream::preferred_text(members, json::identifying_names()) is None && stream::first_scalar(
            members,
        ) == Some(target)),
    ensures
        ({
            let line = text::joined(text::words(target), " "@);
            let shown = stream::preview(name, Some(members));
            &&& line.len() <= stream::TOOL_PREVIEW_MAX ==> shown == name + " · "@ + line
            &&& line.len() > stream::TOOL_PREVIEW_MAX ==> shown == name + " · "@ + line.take(
                stream::TOOL_PREVIEW_MAX - 1,
            ) + seq!['…']
        }),
        stream::preview(name, None) == name,
{
    let line = text::joined(text::words(target), " "@);
    if line.len() > stream::TOOL_PREVIEW_MAX {
        assert(name + " · "@ + line.take(stream::TOOL_PREVIEW_MAX - 1).push('…') =~= name + " · "@
            + line.take(stream::TOOL_PREVIEW_MAX - 1) + seq!['…']);
    }
}

/// The tools of a summary stand in the order in which they were used first: further uses
/// add to the end.
pub proof fn summaries_keep_the_order_of_first_use(a: Seq<Seq<char>>, b: Seq<Seq<char>>)
    ensures
        stream::distinct(a).len() <= stream::distinct(a + b).len(),
        stream::distinct(a + b).take(stream::distinct(a).len() as int) == stream::distinct(a),
        a.no_duplicates() ==> stream::distinct(a) == a,
    decreases b.len(),
{
    if b.len() > 0 {
        summaries_keep_the_order_of_first_use(a, b.drop_last());
        assert((a + b).drop_last() =~= a + b.drop_last());
        let before = stream::distinct(a + b.drop_last());
        let n = stream::distinct(a).len() as int;
        assert(before.push(b.last()).take(n) =~= before.take(n));
    } else {
        assert(a + b =~= a);
        assert(stream::distinct(a).take(stream::distinct(a).len() as int) =~= stream::distinct(a));
        lemma_already_distinct(a);
    }
}

proof fn lemma_already_distinct(a: Seq<Seq<char>>)
    ensures
        a.no_duplicates() ==> stream::distinct(a) == a,
    decreases a.len(),
{
    if a.no_duplicates() && a.len() > 0 {
        let front = a.drop_last();
        assert(front.no_duplicates()) by {
            assert forall|i: int, j: int|
                0 <= i < front.len() && 0 <= j < front.len() && i != j implies front[i]
                != front[j] by {
                assert(a[i] != a[j]);
            }
        }
        lemma_already_distinct(front);
        if front.contains(a.last()) {
            let i = choose|i: int| 0 <= i < front.len() && front[i] == a.last();
            assert(a[i] != a[a.len() - 1]);
        }
        assert(front.push(a.last()) =~= a);
    }
}

/// A summary counts every use of a tool, and names each tool once.
pub proof fn summaries_count_every_use(names: Seq<Seq<char>>)
    ensures
        names.len() == 1 ==> stream::summary(names) == "Used "@ + text::decimal(1) + " tool: "@
            + text::joined(stream::distinct(names), ", "@),
        names.len() > 1 ==> stream::summary(names) == "Used "@ + text::decimal(names.len())
            + " tools: "@ + text::joined(stream::distinct(names), ", "@),
        names.len() == 0 ==> stream::summary(names).len() == 0,
{
}

// ---- Turns ------------------------------------------------------------------

/// A conversation after some events, one after the other.
pub open spec fn after_all(c: ConversationView, events: Seq<SessionEvent>) -> ConversationView
    decreases events.len(),
{
    if events.len() == 0 {
        c
    } else {
        worker::after_event(after_all(c, events.drop_last()), events.last())
    }
}

/// What an event adds to the answer.
pub open spec fn said_by(event: SessionEvent) -> Seq<char> {
    match event {
        SessionEvent::Text { of_answer, text } => if of_answer {
            text@
        } else {
            Seq::empty()
        },
        _ => Seq::empty(),
    }
}

/// The tool that an event calls.
pub open spec fn called_by(event: SessionEvent) -> Seq<Seq<char>> {
    match event {
        SessionEvent::ToolCall { name, args } => seq![name@],
        _ => Seq::empty(),
    }
}

/// Over any events an answer grows by all texts of it, in order, and by nothing else, and
/// every tool that is called is counted, in order.
pub proof fn answers_hold_every_text(c: ConversationView, events: Seq<SessionEvent>)
    ensures
        after_all(c, events).live.answer == c.live.answer + text::concatenated(
            events.map_values(|e: SessionEvent| said_by(e)),
        ),
        after_all(c, events).live.tools == c.live.tools + events.flat_map(
            |e: SessionEvent| called_by(e),
        ),
    decreases events.len(),
{
    let said = |e: SessionEvent| said_by(e);
    let called = |e: SessionEvent| called_by(e);
    let texts = events.map_values(said);
    if events.len() > 0 {
        let front = events.drop_last();
        let last = events.last();
        answers_hold_every_text(c, front);
        assert(texts.drop_last() =~= front.map_values(said));
        events.lemma_flat_map_take_append(called, events.len() - 1);
        assert(events.take(events.len() - 1) =~= front);
        assert(events.take(events.len() as int) =~= events);
        let before = after_all(c, front);
        assert(worker::after_event(before, last).live.answer =~= before.live.answer + said_by(last));
        assert(worker::after_event(before, last).live.tools =~= before.live.tools + called_by(last));
        assert(after_all(c, events).live.answer =~= c.live.answer + text::concatenated(texts));
        assert(after_all(c, events).live.tools =~= c.live.tools + events.flat_map(called));
    } else {
        reveal_with_fuel(Seq::flatten, 2);
        assert(c.live.answer + text::concatenated(texts) =~= c.live.answer);
        assert(c.live.tools + events.flat_map(called) =~= c.live.tools);
    }
}

/// A turn is answered with its answer as it is, however it ended; only where that is blank
/// is it told that there is none, or why.
pub proof fn answers_are_sent_as_they_are(
    answer: Seq<char>,
    ok: bool,
    error: Option<Seq<char>>,
    origin: Option<worker::TurnOrigin>,
)
    ensures
        !text::is_blank(answer) ==> worker::turn_reply(answer, ok, error, origin) == Some(answer),
        text::is_blank(answer) && !ok && error is Some ==> worker::turn_reply(
            answer,
            ok,
            error,
            origin,
        ) == Some("(turn failed: "@ + error->0 + ")"@),
        text::is_blank(answer) && ok && origin != Some(worker::TurnOrigin::Autonomous)
            ==> worker::turn_reply(answer, ok, error, origin) == Some("(no response)"@),
{
}

// ---- Messages ---------------------------------------------------------------

/// A message that is one of the two commands, alone or with the name of a bot, resets the
/// conversation, whatever white space stands around it.
pub proof fn resets_are_commands_alone(blank: Seq<char>, bot: Seq<char>)
    requires
        forall|j: int| 0 <= j < blank.len() ==> text::is_white(#[trigger] blank[j]),
        bot.len() > 0 && text::no_white(bot),
    ensures
        session::reset_command(blank + "/new"@ + blank) == Some(ResetCommand::New),
        session::reset_command(blank + "/reset"@ + blank) == Some(ResetCommand::Reset),
        session::reset_command(blank + "/new"@ + seq!['@'] + bot + blank) == Some(
            ResetCommand::New,
        ),
        session::reset_command(blank + "/reset"@ + seq!['@'] + bot + blank) == Some(
            ResetCommand::Reset,
        ),
{
    reveal_strlit("/new");
    reveal_strlit("/reset");
    assert("/new"@[1] == 'n' && "/reset"@[1] == 'r');
    lemma_ascii("/new"@);
    lemma_ascii("/reset"@);
    lemma_command(blank, "/new"@, bot);
    lemma_command(blank, "/reset"@, bot);
}

proof fn lemma_ascii(word: Seq<char>)
    requires
        forall|i: int| 0 <= i < word.len() ==> '!' <= #[trigger] word[i] <= '~' && word[i] != '@',
    ensures
        text::no_white(word),
        !word.contains('@'),
{
    assert forall|i: int| 0 <= i < word.len() implies !text::is_white(#[trigger] word[i]) by {
        text_laws::ascii_white_space(word[i]);
    }
}

proof fn lemma_command(blank: Seq<char>, word: Seq<char>, bot: Seq<char>)
    requires
        forall|j: int| 0 <= j < blank.len() ==> text::is_white(#[trigger] blank[j]),
        bot.len() > 0 && text::no_white(bot),
        word.len() > 1 && text::no_white(word) && !word.contains('@'),
    ensures
        ({
            let token = text::trimmed(blank + word + blank);
            token == word && text::next_at(token, '@', 0) == token.len() && text::no_white(token)
                && token.take(token.len() as int) == word
        }),
        ({
            let token = text::trimmed(blank + word + seq!['@'] + bot + blank);
            &&& text::no_white(token) && text::next_at(token, '@', 0) == word.len()
            &&& token.len() > word.len() + 1 && token.take(word.len() as int) == word
        }),
{
    text_laws::ascii_white_space('@');
    assert(!text::is_white(word[0]) && !text::is_white(word[word.len() - 1]));
    text_laws::trimmed_text_stays(word);
    text_laws::white_space_around_is_trimmed(blank, word, blank);
    assert forall|j: int| 0 <= j < word.len() implies word[j] != '@' by {
        assert(word.contains(word[j]));
    }
    text_laws::lemma_next_is(word, '@', 0, word.len() as int);
    assert(word.take(word.len() as int) =~= word);
    let named = word + seq!['@'] + bot;
    assert forall|i: int| 0 <= i < named.len() implies !text::is_white(#[trigger] named[i]) by {
        if i < word.len() {
            assert(named[i] == word[i]);
        } else if i > word.len() {
            assert(named[i] == bot[i - word.len() - 1]);
        }
    }
    assert(named.last() == bot[bot.len() - 1]);
    assert(named[0] == word[0]);
    text_laws::trimmed_text_stays(named);
    text_laws::white_space_around_is_trimmed(blank, named, blank);
    assert(blank + word + seq!['@'] + bot + blank =~= blank + named + blank);
    assert forall|j: int| 0 <= j < word.len() implies named[j] != '@' by {
        assert(named[j] == word[j]);
    }
    assert(named[word.len() as int] == '@');
    text_laws::lemma_next_is(named, '@', 0, word.len() as int);
    assert(named.take(word.len() as int) =~= word);
}

/// Anyone who is listed, and everyone where nobody is, is answered, unless the message is a
/// command; what has no text is ignored.
pub proof fn listed_users_are_answered(user_id: i64, said: Seq<char>, allowed: Seq<i64>)
    requires
        allowed.len() == 0 || allowed.contains(user_id),
    ensures
        session::reset_command(said) is None ==> channel::triaged(
            Some(user_id),
            Some(said),
            allowed,
        ) == Triage::Answer,
        session::reset_command(said) matches Some(command) ==> channel::triaged(
            Some(user_id),
            Some(said),
            allowed,
        ) == Triage::Reset(command),
        channel::triaged(Some(user_id), None, allowed) == Triage::Ignore,
{
}

/// A request to send is met exactly where it names a chat by a whole number and has a text
/// that is not blank; the text is sent trimmed.
pub proof fn requests_name_a_chat_and_a_text(args: JsonView, said: Seq<char>, chat: int)
    ensures
        json::integer_of(json::member(args, "chat_id"@)) is None <==> channel::requested_message(
            args,
        ) == Err::<(int, Seq<char>), SendError>(SendError::InvalidChat),
        json::integer_of(json::member(args, "chat_id"@)) is Some && (json::text_member(
            args,
            "text"@,
        ) is None || text::is_blank(json::text_member(args, "text"@)->0))
            <==> channel::requested_message(args) == Err::<(int, Seq<char>), SendError>(
            SendError::EmptyText,
        ),
        json::integer_of(json::member(args, "chat_id"@)) == Some(chat) && json::text_member(
            args,
            "text"@,
        ) == Some(said) && !text::is_blank(said) ==> channel::requested_message(args) == Ok::<
            (int, Seq<char>),
            SendError,
        >((chat, text::trimmed(said))),
{
}

// ---- What is shown ----------------------------------------------------------

/// The first text of an answer is shown at once, as a message of its own. From then on the
/// whole answer so far is shown in that message, when enough of it has come or enough time
/// has passed, and not before.
pub proof fn answers_are_shown_as_they_grow(t: LiveTurnView, now: u64, shown: u64)
    ensures
        t.answer_msg is None ==> stream::push_update(t, now) == Some((None::<i64>, t.answer)),
        t.answer_msg is Some && t.answer.len() > t.written && t.last_edit is None
            ==> stream::push_update(t, now) == Some((t.answer_msg, t.answer)),
        t.answer_msg is Some && t.answer.len() > t.written && t.last_edit == Some(shown) && now
            >= shown + stream::EDIT_INTERVAL_MS ==> stream::push_update(t, now) == Some(
            (t.answer_msg, t.answer),
        ),
        t.answer_msg is Some && t.answer.len() >= t.written + stream::EDIT_CHAR_THRESHOLD
            ==> stream::push_update(t, now) == Some((t.answer_msg, t.answer)),
        t.answer_msg is Some && t.answer.len() <= t.written ==> stream::push_update(t, now)
            is None,
        t.answer_msg is Some && t.answer.len() < t.written + stream::EDIT_CHAR_THRESHOLD
            && t.last_edit == Some(shown) && now < shown + stream::EDIT_INTERVAL_MS
            ==> stream::push_update(t, now) is None,
{
}

/// What is left to show of an answer is the whole of it: in the message that shows it, or
/// in one of its own; nothing is left where it is empty or shown already.
pub proof fn what_is_left_is_the_whole_answer(t: LiveTurnView)
    ensures
        t.answer_msg is None && t.answer.len() > 0 ==> stream::flush(t) == Some(
            (None::<i64>, t.answer),
        ),
        t.answer_msg is None && t.answer.len() == 0 ==> stream::flush(t) is None,
        t.answer_msg is Some && t.answer.len() != t.written ==> stream::flush(t) == Some(
            (t.answer_msg, t.answer),
        ),
        t.answer_msg is Some && t.answer.len() == t.written ==> stream::flush(t) is None,
{
}

/// What an event calls for: text of the answer is shown when it is due; a tool call shows
/// what there is of the answer and the tool; the end of a turn shows the rest, and sums up
/// the tools where one was shown.
pub proof fn events_call_for_what_is_due(c: ConversationView, now: u64, step: Step, said: String)
    ensures
        ({
            let event = SessionEvent::Text { of_answer: true, text: said };
            worker::step_for(c, event, now, step) && said@.len() > 0 ==> step is Show
                && stream::update_view(step->Show_0.answer) == stream::push_update(
                worker::after_event(c, event).live,
                now,
            ) && step->Show_0.status is None
        }),
        worker::step_for(c, SessionEvent::Text { of_answer: false, text: said }, now, step)
            ==> step is Nothing,
        worker::step_for(c, SessionEvent::Other, now, step) ==> step is Nothing,
        worker::step_for(c, SessionEvent::Ended, now, step) ==> step is Stop,
        worker::step_for(
            c,
            SessionEvent::TurnFinished { ok: true, error: None },
            now,
            step,
        ) ==> step is Finish && step->ok && stream::update_view(step->updates.answer)
            == stream::flush(c.live) && (c.live.status_msg is Some && c.live.tools.len() > 0
            ==> stream::update_view(step->updates.status) == Some(
            (c.live.status_msg, stream::summary(c.live.tools)),
        )),
{
}

/// A part of a reply is delivered by an edit where there is a message to edit, else, or
/// where that fails, by a message of the same text, and last by its source in plain text
/// where it is in markup.
pub proof fn parts_are_delivered_one_way_or_another(chunk: ChunkView, id: i64)
    ensures
        ({
            let sent = AttemptView { edit: None, text: chunk.text, parse_mode: chunk.parse_mode };
            let edited = AttemptView {
                edit: Some(id),
                text: chunk.text,
                parse_mode: chunk.parse_mode,
            };
            let plain = AttemptView {
                edit: None,
                text: chunk.source,
                parse_mode: ParseMode::Plain,
            };
            &&& chunk.parse_mode is Plain ==> channel::attempts_for(chunk, None) == seq![sent]
            &&& chunk.parse_mode is Plain ==> channel::attempts_for(chunk, Some(id)) == seq![
                edited,
                sent,
            ]
            &&& chunk.parse_mode is MarkdownV2 ==> channel::attempts_for(chunk, None) == seq![
                sent,
                plain,
            ]
            &&& chunk.parse_mode is MarkdownV2 ==> channel::attempts_for(chunk, Some(id)) == seq![
                edited,
                sent,
                plain,
            ]
        }),
{
    let sent = AttemptView { edit: None, text: chunk.text, parse_mode: chunk.parse_mode };
    let edited = AttemptView { edit: Some(id), text: chunk.text, parse_mode: chunk.parse_mode };
    let plain = AttemptView { edit: None, text: chunk.source, parse_mode: ParseMode::Plain };
    assert(seq![sent].push(plain) =~= seq![sent, plain]);
    assert(seq![edited, sent].push(plain) =~= seq![edited, sent, plain]);
}

/// What a preview shows of a value: a text that is not blank and a number as they are, a
/// truth value by its word, and nothing of what is made of parts.
pub proof fn scalars_are_shown_as_they_are(s: Seq<char>)
    ensures
        !text::is_blank(s) ==> stream::scalar_text(json::ScalarView::Text(s)) == Some(s),
        text::is_blank(s) ==> stream::scalar_text(json::ScalarView::Text(s)) is None,
        stream::scalar_text(json::ScalarView::Number(s)) == Some(s),
        stream::scalar_text(json::ScalarView::Bool(true)) == Some("true"@),
        stream::scalar_text(json::ScalarView::Bool(false)) == Some("false"@),
        stream::scalar_text(json::ScalarView::Compound) is None,
{
}

/// No other message resets the conversation: it is one of the two commands, after which
/// stands nothing, or an at sign and a name.
pub proof fn nothing_else_is_a_reset(message: Seq<char>)
    ensures
        session::reset_command(message) is Some ==> {
            let token = text::trimmed(message);
            ||| token == "/new"@
            ||| token == "/reset"@
            ||| exists|bot: Seq<char>|
                bot.len() > 0 && (token == "/new"@ + seq!['@'] + bot || token == "/reset"@ + seq![
                    '@',
                ] + bot)
        },
        !text::no_white(text::trimmed(message)) ==> session::reset_command(message) is None,
{
    let token = text::trimmed(message);
    text::lemma_next_at(token, '@', 0);
    let at = text::next_at(token, '@', 0);
    if session::reset_command(message) is Some {
        if at == token.len() {
            assert(token.take(at) =~= token);
        } else {
            let bot = token.skip(at + 1);
            assert(token =~= token.take(at) + seq!['@'] + bot);
            assert(bot.len() > 0);
        }
    }
}

/// A conversation is over where the backend closed, for the reason that it gives, or where
/// its events end; nothing else ends one.
pub proof fn conversations_end_with_their_backend(event: SessionEvent, error: String)
    ensures
        event == SessionEvent::Closed(Some(error)) ==> worker::stop_reason(event) == Some(
            "backend closed: "@ + error@,
        ),
        event == SessionEvent::Closed(None) ==> worker::stop_reason(event) == Some(
            "backend closed: "@,
        ),
        event is Ended ==> worker::stop_reason(event) == Some("backend event stream closed"@),
        !(event is Closed) && !(event is Ended) ==> worker::stop_reason(event) is None,
{
}

/// Each entry of a chat's directory from before there were generations is moved, in order:
/// all but the pointer and the generations.
pub proof fn older_files_are_moved_in_order(
    before: Seq<Seq<char>>,
    entry: Seq<char>,
    after: Seq<Seq<char>>,
)
    ensures
        session::old_entries(before.push(entry) + after) == (if entry == "current.json"@
            || generations::names_generation(entry) {
            session::old_entries(before)
        } else {
            session::old_entries(before).push(entry)
        }) + session::old_entries(after),
        session::old_entries(Seq::empty()).len() == 0,
{
    let keep = |e: Seq<char>| session::from_before(e);
    Seq::filter_distributes_over_add(before.push(entry), after, keep);
    reveal(Seq::filter);
    assert(before.push(entry).drop_last() =~= before);
    assert(before.push(entry).last() == entry);
    assert(keep(entry) == session::from_before(entry));
}

/// Whatever comes before the start of a turn was reported starts one for the message that
/// has waited longest; within a turn, text that is no part of the answer changes nothing.
pub proof fn turns_start_with_what_they_bring(c: ConversationView, event: SessionEvent)
    requires
        event is Text || event is ToolCall || event is TurnFinished,
    ensures
        ({
            let next = worker::after_event(c, event);
            &&& c.origin is Some ==> next.origin == c.origin && next.pending == c.pending
                && next.active == c.active
            &&& c.origin is None ==> next.origin == Some(worker::TurnOrigin::Submitted)
            &&& c.origin is None && c.pending.len() > 0 ==> next.active == Some(c.pending[0])
                && next.pending == c.pending.skip(1)
            &&& c.origin is None && c.pending.len() == 0 ==> next.active is None && next.pending
                == c.pending
            &&& event is TurnFinished || (event is Text && !event->of_answer) ==> next.live
                == c.live
        }),
{
}

/// A turn that failed without an answer is answered with the reason in words.
pub proof fn failures_are_told(
    answer: Seq<char>,
    error: Seq<char>,
    origin: Option<worker::TurnOrigin>,
)
    requires
        text::is_blank(answer),
    ensures
        worker::turn_reply(answer, false, Some(error), origin) == Some(
            "(turn failed: "@ + error + ")"@,
        ),
        worker::turn_reply(answer, false, None, origin) == Some(
            "(turn failed: "@ + "unknown"@ + ")"@,
        ),
{
}

} // verus!
