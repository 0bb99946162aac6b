//! What holds of the messages that come in, and of every answer.

use crate::encoding;
use crate::json;
use crate::json::JsonView;
use crate::lines;
use crate::text;
use crate::text_laws;
use crate::whatsapp::channel;
use crate::whatsapp::channel::{SendError, TurnEvent, TurnView};
use crate::whatsapp::graph;
use crate::whatsapp::webhook;
use crate::whatsapp::webhook::InboundView;
use vstd::prelude::*;
use vstd::utf8::*;

verus! {

/// Whether a message is a text that a user sent to this number alone: its type is text,
/// its sender is named by digits, it belongs to no group and to no other chat, and it has
/// an id and a body.
pub open spec fn is_text_message(message: JsonView) -> bool {
    let from = json::text_member(message, "from"@);
    let id = json::text_member(message, "id"@);
    let chat = json::text_member(message, "chat_id"@);
    let body = json::text_of(json::inner_member(message, "text"@, "body"@));
    &&& json::text_member(message, "type"@) == Some("text"@)
    &&& from is Some && from->0.len() > 0
    &&& forall|i: int| 0 <= i < from->0.len() ==> '0' <= #[trigger] from->0[i] <= '9'
    &&& json::member(message, "group_id"@) is None
    &&& chat is None || chat == from
    &&& id is Some && id->0.len() > 0
    &&& body is Some && body->0.len() > 0
}

/// What is read of a text message: its sender, the name of that contact, its id and its
/// body.
pub open spec fn inbound_of(value: JsonView, message: JsonView) -> InboundView {
    InboundView {
        wa_id: json::text_member(message, "from"@)->0,
        name: webhook::contact_name(
            json::elements_of(json::member(value, "contacts"@)),
            json::text_member(message, "from"@)->0,
        ),
        wamid: json::text_member(message, "id"@)->0,
        text: json::text_of(json::inner_member(message, "text"@, "body"@))->0,
    }
}

/// Each text message among those of a change is read, in order, and nothing else: what is
/// read is as long as the list of them, and its elements are what each of them holds.
pub proof fn every_text_message_is_read(value: JsonView, messages: Seq<JsonView>)
    ensures
        webhook::read_messages(value, messages).len() == messages.filter(
            |m: JsonView| is_text_message(m),
        ).len(),
        webhook::read_messages(value, messages) == messages.filter(
            |m: JsonView| is_text_message(m),
        ).map_values(|m: JsonView| inbound_of(value, m)),
    decreases messages.len(),
{
    reveal(Seq::filter);
    let sound = |m: JsonView| is_text_message(m);
    let read = |m: JsonView| inbound_of(value, m);
    if messages.len() > 0 {
        let front = messages.drop_last();
        let last = messages.last();
        every_text_message_is_read(value, front);
        assert(webhook::read_message(value, last) is Some <==> is_text_message(last));
        if is_text_message(last) {
            assert(messages.filter(sound) == front.filter(sound).push(last));
            assert(front.filter(sound).push(last).map_values(read) =~= front.filter(
                sound,
            ).map_values(read).push(inbound_of(value, last)));
        }
    } else {
        assert(webhook::read_messages(value, messages) =~= messages.filter(sound).map_values(read));
    }
}

/// Whether a change tells of messages to the number `wanted`: it is about messages, and its
/// value says that number.
pub open spec fn concerns(change: JsonView, wanted: Seq<char>) -> bool {
    let value = json::member(change, "value"@);
    &&& json::text_member(change, "field"@) == Some("messages"@)
    &&& value is Some
    &&& json::text_of(json::inner_member(value->0, "metadata"@, "phone_number_id"@)) == Some(wanted)
}

/// The messages of a change.
pub open spec fn messages_of(change: JsonView) -> Seq<JsonView> {
    json::elements_of(json::member(json::member(change, "value"@)->0, "messages"@))
}

/// What the changes about a number bring: for each change about it, in order, every text
/// message among its own, in order.
pub proof fn every_change_about_the_number_is_read(changes: Seq<JsonView>, wanted: Seq<char>)
    ensures
        webhook::read_changes(changes, wanted) == changes.filter(
            |c: JsonView| concerns(c, wanted),
        ).flat_map(
            |c: JsonView|
                messages_of(c).filter(|m: JsonView| is_text_message(m)).map_values(
                    |m: JsonView| inbound_of(json::member(c, "value"@)->0, m),
                ),
        ),
    decreases changes.len(),
{
    let about = |c: JsonView| concerns(c, wanted);
    let brings = |c: JsonView|
        messages_of(c).filter(|m: JsonView| is_text_message(m)).map_values(
            |m: JsonView| inbound_of(json::member(c, "value"@)->0, m),
        );
    reveal(Seq::filter);
    if changes.len() > 0 {
        let front = changes.drop_last();
        let last = changes.last();
        every_change_about_the_number_is_read(front, wanted);
        if concerns(last, wanted) {
            let value = json::member(last, "value"@)->0;
            every_text_message_is_read(value, messages_of(last));
            let kept = front.filter(about);
            let all = kept.push(last);
            assert(changes.filter(about) == all);
            all.lemma_flat_map_take_append(brings, kept.len() as int);
            assert(all.take(kept.len() as int) =~= kept);
            assert(all.take(kept.len() as int + 1) =~= all);
            assert(brings(last) =~= webhook::read_change(last, wanted));
        } else {
            assert(webhook::read_change(last, wanted) =~= Seq::<InboundView>::empty());
            assert(webhook::read_changes(changes, wanted) =~= webhook::read_changes(front, wanted));
        }
    } else {
        reveal_with_fuel(Seq::flatten, 2);
        assert(changes.filter(about).flat_map(brings) =~= Seq::<InboundView>::empty());
    }
}

proof fn lemma_entries(entries: Seq<JsonView>, wanted: Seq<char>)
    ensures
        webhook::read_entries(entries, wanted) == webhook::read_changes(
            entries.flat_map(|e: JsonView| webhook::changes_of(e)),
            wanted,
        ),
    decreases entries.len(),
{
    let of = |e: JsonView| webhook::changes_of(e);
    if entries.len() > 0 {
        let front = entries.drop_last();
        let last = entries.last();
        lemma_entries(front, wanted);
        entries.lemma_flat_map_take_append(of, entries.len() - 1);
        assert(entries.take(entries.len() - 1) =~= front);
        assert(entries.take(entries.len() as int) =~= entries);
        lemma_changes_add(front.flat_map(of), webhook::changes_of(last), wanted);
    } else {
        reveal_with_fuel(Seq::flatten, 2);
        assert(entries.flat_map(of) =~= Seq::<JsonView>::empty());
    }
}

proof fn lemma_changes_add(a: Seq<JsonView>, b: Seq<JsonView>, wanted: Seq<char>)
    ensures
        webhook::read_changes(a + b, wanted) == webhook::read_changes(a, wanted)
            + webhook::read_changes(b, wanted),
    decreases b.len(),
{
    if b.len() > 0 {
        lemma_changes_add(a, b.drop_last(), wanted);
        assert((a + b).drop_last() =~= a + b.drop_last());
        assert((a + b).last() == b.last());
        assert(webhook::read_changes(a + b, wanted) =~= webhook::read_changes(a, wanted)
            + webhook::read_changes(b, wanted));
    } else {
        assert(a + b =~= a);
        assert(webhook::read_changes(a, wanted) + webhook::read_changes(b, wanted)
            =~= webhook::read_changes(a, wanted));
    }
}

/// A payload brings every text message of every change about the wanted number, in the
/// order in which they stand in it, and nothing else.
pub proof fn every_message_of_a_payload_is_read(payload: JsonView, wanted: Seq<char>)
    ensures
        webhook::payload_messages(payload, wanted) == json::elements_of(
            json::member(payload, "entry"@),
        ).flat_map(|e: JsonView| json::elements_of(json::member(e, "changes"@))).filter(
            |c: JsonView| concerns(c, wanted),
        ).flat_map(
            |c: JsonView|
                messages_of(c).filter(|m: JsonView| is_text_message(m)).map_values(
                    |m: JsonView| inbound_of(json::member(c, "value"@)->0, m),
                ),
        ),
{
    let entries = json::elements_of(json::member(payload, "entry"@));
    lemma_entries(entries, wanted);
    let one = |e: JsonView| webhook::changes_of(e);
    let two = |e: JsonView| json::elements_of(json::member(e, "changes"@));
    assert(entries.map_values(one) =~= entries.map_values(two));
    every_change_about_the_number_is_read(entries.flat_map(two), wanted);
}

/// The name of a sender is the profile name of the first contact with that id; where there
/// is no such contact, there is none.
pub proof fn the_first_contact_names_the_sender(contacts: Seq<JsonView>, wa_id: Seq<char>)
    ensures
        ({
            let same = contacts.filter(
                |c: JsonView| json::text_member(c, "wa_id"@) == Some(wa_id),
            );
            webhook::contact_name(contacts, wa_id) == if same.len() == 0 {
                None::<Seq<char>>
            } else {
                json::text_of(json::inner_member(same[0], "profile"@, "name"@))
            }
        }),
    decreases contacts.len(),
{
    let is_same = |c: JsonView| json::text_member(c, "wa_id"@) == Some(wa_id);
    if contacts.len() > 0 {
        let rest = contacts.skip(1);
        the_first_contact_names_the_sender(rest, wa_id);
        let one = seq![contacts[0]];
        assert(contacts =~= one + rest);
        Seq::filter_distributes_over_add(one, rest, is_same);
        reveal(Seq::filter);
        reveal_with_fuel(Seq::filter, 2);
        assert(one.drop_last() =~= Seq::<JsonView>::empty());
        if is_same(contacts[0]) {
            assert(one.filter(is_same) =~= one);
            assert(contacts.filter(is_same)[0] == contacts[0]);
        } else {
            assert(one.filter(is_same) =~= Seq::<JsonView>::empty());
            assert(contacts.filter(is_same) =~= rest.filter(is_same));
        }
    } else {
        reveal(Seq::filter);
    }
}

// ---- Duplicates -------------------------------------------------------------

/// What is remembered keeps its order: a new id stands last, and only the oldest is
/// forgotten, and only beyond the capacity. What is forgotten is one id alone.
pub proof fn ids_are_remembered_in_order(ids: Seq<Seq<char>>, id: Seq<char>)
    requires
        ids.len() <= webhook::DEDUP_CAPACITY,
    ensures
        ({
            let next = webhook::remembering(ids, id);
            &&& next.len() == if ids.len() < webhook::DEDUP_CAPACITY {
                ids.len() + 1
            } else {
                ids.len()
            }
            &&& next.last() == id
            &&& forall|i: int|
                0 <= i < next.len() - 1 ==> #[trigger] next[i] == ids[ids.len() - next.len() + 1 + i]
        }),
        webhook::forgetting(ids, id) == ids.filter(|other: Seq<char>| other != id),
{
    lemma_forgetting(ids, id);
}

proof fn lemma_forgetting(ids: Seq<Seq<char>>, id: Seq<char>)
    ensures
        webhook::forgetting(ids, id) == ids.filter(|other: Seq<char>| other != id),
    decreases ids.len(),
{
    reveal(Seq::filter);
    if ids.len() > 0 {
        lemma_forgetting(ids.drop_last(), id);
    } else {
        assert(ids =~= ids.filter(|other: Seq<char>| other != id));
    }
}

// ---- Turns ------------------------------------------------------------------

/// A turn after some events, one after the other.
pub open spec fn turn_after_all(t: TurnView, events: Seq<TurnEvent>) -> TurnView
    decreases events.len(),
{
    if events.len() == 0 {
        t
    } else {
        channel::turn_after(turn_after_all(t, events.drop_last()), events.last())
    }
}

/// What an event adds to the answer.
pub open spec fn said_by(event: TurnEvent) -> Seq<char> {
    match event {
        TurnEvent::Text(s) => s@,
        _ => Seq::empty(),
    }
}

/// Over any events an answer grows by all texts of it, in order, and by nothing else; and
/// nothing but an event that ends a turn ends it.
pub proof fn answers_hold_every_text(t: TurnView, events: Seq<TurnEvent>)
    ensures
        turn_after_all(t, events).answer == t.answer + text::concatenated(
            events.map_values(|e: TurnEvent| said_by(e)),
        ),
        (forall|i: int|
            0 <= i < events.len() ==> #[trigger] events[i] is Text || events[i] is Other)
            ==> turn_after_all(t, events).done == t.done && turn_after_all(t, events).failure
            == t.failure,
    decreases events.len(),
{
    let said = |e: TurnEvent| said_by(e);
    let texts = events.map_values(said);
    if events.len() > 0 {
        let front = events.drop_last();
        answers_hold_every_text(t, front);
        assert(texts.drop_last() =~= front.map_values(said));
        assert(turn_after_all(t, events).answer =~= t.answer + text::concatenated(texts));
        if forall|i: int|
            0 <= i < events.len() ==> #[trigger] events[i] is Text || events[i] is Other {
            assert forall|i: int| 0 <= i < front.len() implies #[trigger] front[i] is Text
                || front[i] is Other by {
                assert(events[i] is Text || events[i] is Other);
            }
            assert(events[events.len() - 1] is Text || events[events.len() - 1] is Other);
        }
    } else {
        assert(t.answer + text::concatenated(texts) =~= t.answer);
    }
}

/// A turn that finishes comes to its answer, and to a word where that is blank; one that
/// fails, closes or ends comes to the reason, whatever was said.
pub proof fn turns_come_to_their_answer(t: TurnView, error: String)
    requires
        t.failure is None,
    ensures
        ({
            let over = channel::turn_after(t, TurnEvent::Finished);
            &&& over.done
            &&& !text::is_blank(t.answer) ==> channel::turn_result(over) == Ok::<
                Seq<char>,
                Seq<char>,
            >(t.answer)
            &&& text::is_blank(t.answer) ==> channel::turn_result(over) == Ok::<
                Seq<char>,
                Seq<char>,
            >("(no response)"@)
        }),
        ({
            let over = channel::turn_after(t, TurnEvent::Failed(Some(error)));
            over.done && channel::turn_result(over) == Err::<Seq<char>, Seq<char>>(error@)
        }),
        ({
            let over = channel::turn_after(t, TurnEvent::Closed(Some(error)));
            over.done && channel::turn_result(over) == Err::<Seq<char>, Seq<char>>(error@)
        }),
        channel::turn_after(t, TurnEvent::Ended).done && channel::turn_result(
            channel::turn_after(t, TurnEvent::Ended),
        ) is Err,
        channel::turn_after(t, TurnEvent::Shutdown).done && channel::turn_result(
            channel::turn_after(t, TurnEvent::Shutdown),
        ) is Err,
{
}

// ---- Answers ----------------------------------------------------------------

/// A text is adapted line by line: there are as many lines as before, and each is adapted
/// as it is alone.
pub proof fn every_line_is_adapted_in_its_place(s: Seq<char>)
    ensures
        ({
            let source = lines::lines(s);
            let shown = text::split_on(channel::adapted(s), '\n');
            &&& source.len() == 0 ==> channel::adapted(s).len() == 0
            &&& source.len() > 0 ==> shown.len() == source.len()
            &&& forall|k: int|
                0 <= k < source.len() ==> #[trigger] shown[k] == channel::adapted_line(source[k])
        }),
{
    reveal_strlit("\n");
    assert("\n"@ =~= seq!['\n']);
    let source = lines::lines(s);
    let list = channel::adapted_lines(s);
    assert forall|k: int| 0 <= k < list.len() implies !(#[trigger] list[k]).contains('\n') by {
        text_laws::lines_hold_no_line_feeds(s, k);
        lemma_one_line(source[k]);
    }
    if source.len() > 0 {
        text_laws::joined_parts_are_split_again(list, '\n');
    } else {
        assert(list =~= Seq::<Seq<char>>::empty());
    }
}

proof fn lemma_one_line(line: Seq<char>)
    requires
        !line.contains('\n'),
    ensures
        !channel::adapted_line(line).contains('\n'),
{
    reveal_strlit("**");
    reveal_strlit("*");
    assert("**"@ =~= seq!['*', '*']);
    assert("*"@ =~= seq!['*']);
    let keep = |c: char| c == '\n';
    let rest = text::trimmed_start(line);
    text_laws::trimming_the_start_takes_white_space_alone(line);
    text_laws::lemma_run(rest, '#', 0);
    let marks = text::run_of(rest, '#', 0) as int;
    let title = text::trimmed_start(rest.skip(marks));
    text_laws::trimming_the_start_takes_white_space_alone(rest.skip(marks));
    assert(!title.contains('\n')) by {
        assert forall|i: int| 0 <= i < title.len() implies title[i] != '\n' by {
            assert(title[i] == line[line.len() - title.len() + i]);
            assert(line.contains(title[i]));
        }
    }
    text_laws::lemma_none_kept("**"@, keep);
    text_laws::lemma_none_kept("*"@, keep);
    assert("**"@.filter(keep) =~= "*"@.filter(keep));
    lemma_no_break(line, keep);
    lemma_no_break(title, keep);
}

proof fn lemma_no_break(s: Seq<char>, keep: spec_fn(char) -> bool)
    requires
        !s.contains('\n'),
        forall|c: char| #[trigger] keep(c) == (c == '\n'),
        "**"@.len() > 0,
        "**"@.filter(keep) == "*"@.filter(keep),
    ensures
        !text::replaced(s, "**"@, "*"@).contains('\n'),
{
    text_laws::what_both_hold_is_kept(s, "**"@, "*"@, keep);
    let out = text::replaced(s, "**"@, "*"@);
    assert forall|i: int| 0 <= i < s.len() implies !keep(#[trigger] s[i]) by {
        assert(s.contains(s[i]));
    }
    text_laws::lemma_none_kept(s, keep);
    text_laws::lemma_none_kept(out, keep);
    assert forall|i: int| 0 <= i < out.len() implies out[i] != '\n' by {
        assert(!keep(out[i]));
    }
}

/// A heading loses its marks and the white space around them, and its title is adapted;
/// bold text is marked by single stars, and the text inside and around it stays; a line
/// without marks stays as it is.
pub proof fn lines_lose_only_marks(
    indent: Seq<char>,
    marks: Seq<char>,
    title: Seq<char>,
    a: Seq<char>,
    b: Seq<char>,
    c: Seq<char>,
)
    requires
        forall|j: int| 0 <= j < indent.len() ==> text::is_white(#[trigger] indent[j]),
        marks.len() > 0,
        forall|j: int| 0 <= j < marks.len() ==> #[trigger] marks[j] == '#',
        title.len() > 0 && !text::is_white(title[0]) && title[0] != '#',
        !a.contains('*') && !b.contains('*') && !c.contains('*'),
        !a.contains('#'),
    ensures
        channel::adapted_line(indent + marks + seq![' '] + title) == text::replaced(
            title,
            "**"@,
            "*"@,
        ),
        channel::adapted_line(a + seq!['*', '*'] + b + seq!['*', '*'] + c) == a + seq!['*'] + b
            + seq!['*'] + c,
        channel::adapted_line(a) == a,
{
    reveal_strlit("**");
    reveal_strlit("*");
    assert("**"@ =~= seq!['*', '*']);
    assert("*"@ =~= seq!['*']);
    text_laws::ascii_white_space('#');
    text_laws::ascii_white_space('*');
    text_laws::ascii_white_space(' ');
    // A heading.
    let content = marks + seq![' '] + title;
    let heading = indent + marks + seq![' '] + title;
    assert(heading =~= indent + content);
    assert(content[0] == marks[0]);
    lemma_blank_start(indent, content);
    let n = marks.len() as int;
    assert forall|j: int| 0 <= j < n implies content[j] == '#' by {
        assert(content[j] == marks[j]);
    }
    assert(content[n] == ' ');
    text_laws::lemma_run_is(content, '#', 0, n);
    assert(content.skip(n) =~= seq![' '] + title);
    lemma_blank_start(seq![' '], title);
    // Bold text.
    let pair = seq!['*', '*'];
    let inner = b + pair + c;
    let line = a + pair + b + pair + c;
    assert(line =~= a + pair + inner);
    lemma_no_heading(a, pair + inner);
    lemma_no_heading(a, Seq::empty());
    assert(a + (pair + inner) =~= line);
    assert(a + Seq::<char>::empty() =~= a);
    assert forall|i: int| 0 <= i < a.len() implies !text_laws::stands_at(line, pair, i) by {
        if text_laws::stands_at(line, pair, i) {
            assert(line.subrange(i, i + 2)[0] == '*');
            assert(line[i] == a[i]);
            assert(a.contains(a[i]));
        }
    }
    text_laws::the_first_occurrence_is_replaced(a, pair, inner, seq!['*']);
    assert forall|i: int| 0 <= i < b.len() implies !text_laws::stands_at(inner, pair, i) by {
        if text_laws::stands_at(inner, pair, i) {
            assert(inner.subrange(i, i + 2)[0] == '*');
            assert(inner[i] == b[i]);
            assert(b.contains(b[i]));
        }
    }
    text_laws::the_first_occurrence_is_replaced(b, pair, c, seq!['*']);
    lemma_no_stars(c);
    lemma_no_stars(a);
    assert(a + seq!['*'] + (b + seq!['*'] + c) =~= a + seq!['*'] + b + seq!['*'] + c);
}

proof fn lemma_no_stars(s: Seq<char>)
    requires
        !s.contains('*'),
    ensures
        text::replaced(s, seq!['*', '*'], seq!['*']) == s,
{
    assert forall|i: int| 0 <= i < s.len() implies !text_laws::stands_at(s, seq!['*', '*'], i) by {
        if text_laws::stands_at(s, seq!['*', '*'], i) {
            assert(s.subrange(i, i + 2)[0] == '*');
            assert(s.contains(s[i]));
        }
    }
    text_laws::text_without_the_pattern_stays(s, seq!['*', '*'], seq!['*']);
}

proof fn lemma_no_heading(a: Seq<char>, rest: Seq<char>)
    requires
        !a.contains('#'),
        rest.len() > 0 ==> !text::is_white(rest[0]) && rest[0] != '#',
    ensures
        text::run_of(text::trimmed_start(a + rest), '#', 0) == 0,
{
    let s = a + rest;
    text_laws::trimming_the_start_takes_white_space_alone(s);
    let t = text::trimmed_start(s);
    let n = s.len() - t.len();
    if t.len() > 0 {
        assert(t[0] == s[n]);
        if n < a.len() {
            assert(a.contains(a[n]));
        } else if n > a.len() {
            assert(text::is_white(s[a.len() as int]));
        }
    }
    text_laws::lemma_run_is(t, '#', 0, 0);
}

proof fn lemma_blank_start(blank: Seq<char>, rest: Seq<char>)
    requires
        forall|j: int| 0 <= j < blank.len() ==> text::is_white(#[trigger] blank[j]),
        rest.len() > 0 ==> !text::is_white(rest[0]),
    ensures
        text::trimmed_start(blank + rest) == rest,
{
    let s = blank + rest;
    text_laws::trimming_the_start_takes_white_space_alone(s);
    let t = text::trimmed_start(s);
    let n = s.len() - t.len();
    if n < blank.len() {
        assert(t[0] == s[n]);
        assert(text::is_white(blank[n]));
    }
    if n > blank.len() {
        assert(text::is_white(s[blank.len() as int]));
    }
    assert(t =~= rest);
}

/// A reply is sent in its parts, each in one message and in order.
pub proof fn every_part_of_a_reply_is_sent(body: Seq<char>, reply_to: Option<Seq<char>>)
    ensures
        text::concatenated(
            graph::reply_parts(body, reply_to).map_values(
                |p: (Seq<char>, Option<Seq<char>>)| p.0,
            ),
        ) == body,
{
    graph::message_parts_make_up_the_text(body);
    assert(graph::reply_parts(body, reply_to).map_values(
        |p: (Seq<char>, Option<Seq<char>>)| p.0,
    ) =~= graph::message_parts(body));
}

// ---- Previews and addresses -------------------------------------------------

/// A preview shows the first text under one of the names.
pub proof fn the_first_text_is_shown(
    members: Seq<(Seq<char>, json::ScalarView)>,
    names: Seq<Seq<char>>,
)
    ensures
        ({
            let good = names.filter(
                |n: Seq<char>|
                    json::scalar_under(members, n) is Some && json::scalar_under(members, n)->0
                        is Text,
            );
            &&& good.len() == 0 ==> channel::first_text(members, names) is None
            &&& good.len() > 0 ==> json::scalar_under(members, good[0]) == Some(
                json::ScalarView::Text(channel::first_text(members, names)->0),
            ) && channel::first_text(members, names) is Some
        }),
    decreases names.len(),
{
    let good = |n: Seq<char>|
        json::scalar_under(members, n) is Some && json::scalar_under(members, n)->0 is Text;
    if names.len() > 0 {
        the_first_text_is_shown(members, names.skip(1));
        text_laws::lemma_filter_front(names, good);
    } else {
        text_laws::lemma_filter_nothing(names, good);
    }
}

/// The address of the webhook is the configured one, without the slashes at its end, and
/// the path.
pub proof fn callbacks_join_origin_and_path(origin: Seq<char>, slashes: Seq<char>, path: Seq<char>)
    requires
        origin.len() > 0 && origin.last() != '/' && !text::is_white(origin[0]),
        forall|j: int| 0 <= j < slashes.len() ==> #[trigger] slashes[j] == '/',
    ensures
        channel::callback(Some(origin + slashes), path) == Some(origin + path),
        channel::callback(None, path) is None,
{
    lemma_unslashed(origin, slashes);
    let s = origin + slashes;
    text::lemma_blank(s);
    assert(s[0] == origin[0]);
    assert(!text::is_blank(s)) by {
        if text::is_blank(s) {
            assert(text::is_white(s[0]));
        }
    }
}

proof fn lemma_unslashed(origin: Seq<char>, slashes: Seq<char>)
    requires
        origin.len() > 0 && origin.last() != '/',
        forall|j: int| 0 <= j < slashes.len() ==> #[trigger] slashes[j] == '/',
    ensures
        channel::unslashed(origin + slashes) == origin,
    decreases slashes.len(),
{
    let s = origin + slashes;
    if slashes.len() > 0 {
        assert(s.last() == slashes[slashes.len() - 1]);
        assert(s.drop_last() =~= origin + slashes.drop_last());
        lemma_unslashed(origin, slashes.drop_last());
    } else {
        assert(s =~= origin);
    }
}

// ---- Signatures -------------------------------------------------------------

proof fn lemma_digit(n: int)
    requires
        0 <= n < 16,
    ensures
        webhook::hex_value(encoding::hex_digit(n)) == Some(n as u8),
{
    if n < 10 {
        assert(encoding::hex_digit(n) as u32 == '0' as u32 + n);
    } else {
        assert(encoding::hex_digit(n) as u32 == 'a' as u32 + n - 10);
    }
}

/// A signature is read as the bytes that were written into it, two hexadecimal digits
/// each, after its name; without that name, or with anything but such digits, there is
/// none.
pub proof fn signatures_are_read_back(code: Seq<u8>, header: Seq<char>)
    ensures
        webhook::header_code("sha256="@ + encoding::hex_text(code)) == Some(code),
        !text::begins_with(header, "sha256="@) ==> webhook::header_code(header) is None,
        webhook::header_code(header) is Some ==> (header.len() - "sha256="@.len()) % 2 == 0,
{
    let digits = encoding::hex_text(code);
    let written = "sha256="@ + digits;
    let n = "sha256="@.len() as int;
    assert(written.take(n) =~= "sha256="@);
    assert(written.skip(n) =~= digits);
    assert forall|i: int| 0 <= i < digits.len() implies webhook::hex_value(
        #[trigger] digits[i],
    ) is Some by {
        lemma_digit(code[i / 2] as int / 16);
        lemma_digit(code[i / 2] as int % 16);
    }
    let read = webhook::hex_bytes(digits);
    assert forall|i: int| 0 <= i < code.len() implies read[i] == code[i] by {
        lemma_digit(code[i] as int / 16);
        lemma_digit(code[i] as int % 16);
        assert((2 * i) / 2 == i && (2 * i + 1) / 2 == i);
    }
    assert(read =~= code);
}

// ---- Requests ---------------------------------------------------------------

/// A request to send is met exactly where it names a user by digits who may be written to,
/// and has a text that is not blank; the text is sent as it is. Each other request is
/// refused for its first fault.
pub proof fn requests_name_a_user_and_a_text(args: JsonView, allowed: Seq<Seq<char>>)
    ensures
        ({
            let user = json::text_member(args, "wa_id"@);
            let said = json::text_member(args, "text"@);
            let named = user is Some && user->0.len() > 0 && forall|i: int|
                0 <= i < user->0.len() ==> '0' <= #[trigger] user->0[i] <= '9';
            let filled = said is Some && !text::is_blank(said->0);
            let may = allowed.len() == 0 || allowed.contains(user->0);
            let r = channel::requested_message(args, allowed);
            &&& !named <==> r == Err::<(Seq<char>, Seq<char>), SendError>(
                SendError::InvalidRecipient,
            )
            &&& named && !filled <==> r == Err::<(Seq<char>, Seq<char>), SendError>(
                SendError::EmptyText,
            )
            &&& named && filled && !may <==> r == Err::<(Seq<char>, Seq<char>), SendError>(
                SendError::NotAuthorized,
            )
            &&& named && filled && may ==> r == Ok::<(Seq<char>, Seq<char>), SendError>(
                (user->0, said->0),
            )
        }),
{
    let user = json::text_member(args, "wa_id"@);
    if user is Some {
        lemma_digits(user->0);
    }
}

proof fn lemma_digits(s: Seq<char>)
    ensures
        text::digits_only(s) <==> forall|i: int|
            0 <= i < s.len() ==> '0' <= #[trigger] s[i] <= '9',
{
    if text::digits_only(s) {
        assert forall|i: int| 0 <= i < s.len() implies '0' <= #[trigger] s[i] <= '9' by {
            assert(text::is_digit(s[i]));
        }
    }
}

/// A body brings messages exactly where it is a JSON object; any other is a bad request.
pub proof fn bodies_are_objects(body: JsonView, wanted: Seq<char>)
    ensures
        body is Object ==> webhook::body_messages(Some(body), wanted) == Ok::<
            Seq<InboundView>,
            u16,
        >(webhook::payload_messages(body, wanted)),
        !(body is Object) ==> webhook::body_messages(Some(body), wanted) == Err::<
            Seq<InboundView>,
            u16,
        >(400),
        webhook::body_messages(None, wanted) == Err::<Seq<InboundView>, u16>(400),
{
}

/// A request is admitted only with a secret, within the size, and with the signature of
/// its body under that secret; another body or another secret would need another.
pub proof fn requests_are_admitted_by_signature(
    secret: Seq<char>,
    body: Seq<u8>,
    signature: Seq<char>,
)
    ensures
        !webhook::is_admitted(None, body, signature),
        secret.len() == 0 ==> !webhook::is_admitted(Some(secret), body, signature),
        body.len() > webhook::MAX_BODY ==> !webhook::is_admitted(Some(secret), body, signature),
        secret.len() > 0 && body.len() <= webhook::MAX_BODY ==> webhook::is_admitted(
            Some(secret),
            body,
            "sha256="@ + encoding::hex_text(webhook::hmac_sha256(encode_utf8(secret), body)),
        ),
        webhook::is_admitted(Some(secret), body, signature) ==> webhook::header_code(signature)
            == Some(webhook::hmac_sha256(encode_utf8(secret), body)),
{
    signatures_are_read_back(webhook::hmac_sha256(encode_utf8(secret), body), signature);
}

/// A tool call is announced by its name and, where there is one, its target on one line, of
/// which too long a one is cut.
pub proof fn previews_show_the_target(
    name: Seq<char>,
    members: Seq<(Seq<char>, json::ScalarView)>,
    target: Seq<char>,
)
    requires
        channel::first_text(members, json::identifying_names()) == Some(target),
    ensures
        ({
            let line = text::joined(text::words(target), " "@);
            let shown = channel::preview(name, Some(members));
            &&& line.len() == 0 ==> shown == name
            &&& 0 < line.len() <= channel::PREVIEW_CHARS ==> shown == name + " · "@ + line
            &&& line.len() > channel::PREVIEW_CHARS ==> shown == name + " · "@ + line.take(
                channel::PREVIEW_CHARS as int,
            )
        }),
        channel::preview(name, None) == name,
{
}

/// Hexadecimal digits stand for their values, in capital and in small letters; no other
/// character is one.
pub proof fn hexadecimal_digits_have_their_values(c: char)
    ensures
        '0' <= c <= '9' ==> webhook::hex_value(c) == Some((c as u32 - '0' as u32) as u8),
        'a' <= c <= 'f' ==> webhook::hex_value(c) == Some((c as u32 - 'a' as u32 + 10) as u8),
        'A' <= c <= 'F' ==> webhook::hex_value(c) == Some((c as u32 - 'A' as u32 + 10) as u8),
        webhook::hex_value(c) is Some ==> '0' <= c <= '9' || 'a' <= c <= 'f' || 'A' <= c <= 'F',
{
}

} // verus!
