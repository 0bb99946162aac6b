//! What holds of every prompt, turn and list.

use crate::irc::channels;
use crate::irc::config;
use crate::irc::worker;
use crate::json::{JsonView, MemberView};
use crate::text;
use vstd::prelude::*;

verus! {

/// A prompt ends with the whole request: every line of it that is not blank, trimmed, in
/// order, with a line break between two of them. Before it stands who asks, after the
/// whole context where there is any.
pub proof fn prompts_hold_the_whole_request(
    ambient: Seq<Seq<char>>,
    sender: Seq<char>,
    lines: Seq<Seq<char>>,
)
    ensures
        ({
            let request = text::joined(
                lines.map_values(|l: Seq<char>| text::trimmed(l)).filter(
                    |l: Seq<char>| l.len() > 0,
                ),
                "\n"@,
            );
            worker::prompt_text(ambient, sender, lines) == if ambient.len() == 0 {
                "<"@ + sender + "> "@ + request
            } else {
                "Recent channel context:\n"@ + text::joined(ambient, "\n"@) + "\n\nNow "@ + sender
                    + " addresses you:\n"@ + request
            }
        }),
{
    lemma_request_lines(lines);
}

proof fn lemma_request_lines(lines: Seq<Seq<char>>)
    ensures
        worker::request_lines(lines) == lines.map_values(|l: Seq<char>| text::trimmed(l)).filter(
            |l: Seq<char>| l.len() > 0,
        ),
    decreases lines.len(),
{
    reveal(Seq::filter);
    let trim = |l: Seq<char>| text::trimmed(l);
    let filled = |l: Seq<char>| l.len() > 0;
    let all = lines.map_values(trim);
    if lines.len() > 0 {
        lemma_request_lines(lines.drop_last());
        assert(all.drop_last() =~= lines.drop_last().map_values(trim));
        assert(all.last() == text::trimmed(lines.last()));
    }
}

/// A further line adds itself, trimmed, after a line break; a blank one adds nothing. So
/// does a line of context, before the request.
pub proof fn further_lines_are_added(
    ambient: Seq<Seq<char>>,
    sender: Seq<char>,
    lines: Seq<Seq<char>>,
    line: Seq<char>,
)
    ensures
        text::trimmed(line).len() == 0 ==> worker::prompt_text(ambient, sender, lines.push(line))
            == worker::prompt_text(ambient, sender, lines),
        text::trimmed(line).len() > 0 && (exists|k: int|
            0 <= k < lines.len() && (#[trigger] text::trimmed(lines[k])).len() > 0)
            ==> worker::prompt_text(ambient, sender, lines.push(line)) == worker::prompt_text(
            ambient,
            sender,
            lines,
        ) + "\n"@ + text::trimmed(line),
{
    assert(lines.push(line).drop_last() =~= lines);
    let before = worker::request_lines(lines);
    if text::trimmed(line).len() > 0 {
        lemma_some_line(lines);
        text::lemma_joined_push(before, text::trimmed(line), "\n"@);
        if before.len() > 0 {
            assert(worker::prompt_text(ambient, sender, lines.push(line)) =~= worker::prompt_text(
                ambient,
                sender,
                lines,
            ) + "\n"@ + text::trimmed(line));
        }
    }
}

proof fn lemma_some_line(lines: Seq<Seq<char>>)
    ensures
        (exists|k: int| 0 <= k < lines.len() && (#[trigger] text::trimmed(lines[k])).len() > 0)
            ==> worker::request_lines(lines).len() > 0,
    decreases lines.len(),
{
    if exists|k: int| 0 <= k < lines.len() && (#[trigger] text::trimmed(lines[k])).len() > 0 {
        let k = choose|k: int|
            0 <= k < lines.len() && (#[trigger] text::trimmed(lines[k])).len() > 0;
        if k < lines.len() - 1 {
            assert(text::trimmed(lines.drop_last()[k]).len() > 0);
            lemma_some_line(lines.drop_last());
        }
    }
}

/// The context keeps the newest lines, in order: as many as there are and as the window
/// holds. To keep them after each line is to keep the newest of all.
pub proof fn the_context_keeps_the_newest_lines(
    entries: Seq<Seq<char>>,
    line: Seq<char>,
    window: nat,
)
    requires
        window > 0,
    ensures
        ({
            let kept = worker::newest(entries, window);
            &&& kept.len() == if entries.len() < window {
                entries.len()
            } else {
                window
            }
            &&& forall|i: int|
                0 <= i < kept.len() ==> #[trigger] kept[i] == entries[entries.len() - kept.len()
                    + i]
            &&& worker::newest(kept.push(line), window) == worker::newest(
                entries.push(line),
                window,
            )
            &&& worker::newest(entries.push(line), window).last() == line
        }),
{
    let kept = worker::newest(entries, window);
    assert(worker::newest(kept.push(line), window) =~= worker::newest(entries.push(line), window));
}

// ---- Turns ------------------------------------------------------------------

/// A turn after some events, one after the other.
pub open spec fn turn_after_all(t: worker::TurnView, events: Seq<worker::TurnEvent>) -> worker::TurnView
    decreases events.len(),
{
    if events.len() == 0 {
        t
    } else {
        worker::turn_after(turn_after_all(t, events.drop_last()), events.last())
    }
}

/// The texts of some events, in order.
pub open spec fn texts_of(events: Seq<worker::TurnEvent>) -> Seq<Seq<char>> {
    events.map_values(
        |e: worker::TurnEvent|
            match e {
                worker::TurnEvent::Text(s) => s@,
                _ => Seq::empty(),
            },
    )
}

/// A reply is made of all texts of its turn, in order; other events than those that end
/// the turn add nothing and end nothing.
pub proof fn replies_hold_every_text(t: worker::TurnView, events: Seq<worker::TurnEvent>)
    requires
        forall|i: int| 0 <= i < events.len() ==> #[trigger] events[i] is Text || events[i] is Other,
    ensures
        turn_after_all(t, events).reply == t.reply + text::concatenated(texts_of(events)),
        turn_after_all(t, events).done == t.done,
        turn_after_all(t, events).drop_session == t.drop_session,
    decreases events.len(),
{
    let texts = texts_of(events);
    if events.len() > 0 {
        let front = events.drop_last();
        assert forall|i: int| 0 <= i < front.len() implies #[trigger] front[i] is Text
            || front[i] is Other by {
            assert(events[i] is Text || events[i] is Other);
        }
        replies_hold_every_text(t, front);
        assert(texts.drop_last() =~= texts_of(front));
        let last = events[events.len() - 1];
        assert(last is Text || last is Other);
        assert(turn_after_all(t, events).reply =~= t.reply + text::concatenated(texts));
    } else {
        assert(t.reply + text::concatenated(texts) =~= t.reply);
    }
}

/// What ends a turn keeps what was said before it. A failure, or a session that closes,
/// is told where nothing was said, with its reason where there is one.
pub proof fn the_end_of_a_turn_keeps_its_reply(t: worker::TurnView, error: Option<String>)
    ensures
        ({
            let failed = worker::turn_after(t, worker::TurnEvent::Failed(error));
            let closed = worker::turn_after(t, worker::TurnEvent::Closed(error));
            &&& failed.done && closed.done && closed.drop_session
            &&& failed.drop_session == t.drop_session
            &&& t.reply.len() > 0 ==> failed.reply == t.reply && closed.reply == t.reply
            &&& t.reply.len() == 0 && error is Some ==> failed.reply == "(turn failed: "@
                + error->0@ + ")"@ && closed.reply == "(session closed: "@ + error->0@ + ")"@
            &&& t.reply.len() == 0 && error is None ==> failed.reply == "(turn failed: "@
                + "unknown"@ + ")"@ && closed.reply == "(session closed: "@ + ")"@
        }),
        worker::turn_after(t, worker::TurnEvent::Finished) == (worker::TurnView {
            done: true,
            ..t
        }),
        worker::turn_after(t, worker::TurnEvent::Shutdown) == (worker::TurnView {
            done: true,
            ..t
        }),
        worker::turn_after(t, worker::TurnEvent::Gone) == (worker::TurnView {
            done: true,
            drop_session: true,
            ..t
        }),
{
    assert("(session closed: "@ + Seq::<char>::empty() + ")"@ =~= "(session closed: "@ + ")"@);
}

// ---- Lists ------------------------------------------------------------------

/// The entries of a comma-separated list are its parts, trimmed, without the empty ones,
/// in order.
pub proof fn lists_hold_every_entry(parts: Seq<Seq<char>>)
    ensures
        config::list_items(parts) == parts.map_values(|p: Seq<char>| text::trimmed(p)).filter(
            |p: Seq<char>| p.len() > 0,
        ),
    decreases parts.len(),
{
    reveal(Seq::filter);
    let trim = |p: Seq<char>| text::trimmed(p);
    let all = parts.map_values(trim);
    if parts.len() > 0 {
        lists_hold_every_entry(parts.drop_last());
        assert(all.drop_last() =~= parts.drop_last().map_values(trim));
        assert(all.last() == text::trimmed(parts.last()));
    }
}

/// The setting of a channel is that of the first entry for it, whatever the case of its
/// letters; without an entry there is none.
pub proof fn the_first_entry_sets_a_channel(entries: Seq<config::ChannelEntry>, channel: Seq<char>)
    ensures
        ({
            let same = entries.filter(
                |e: config::ChannelEntry| text::same_ignoring_case(e.name@, channel),
            );
            config::channel_setting(entries, channel) == if same.len() == 0 {
                None::<bool>
            } else {
                same[0].mention_required
            }
        }),
    decreases entries.len(),
{
    let is_same = |e: config::ChannelEntry| text::same_ignoring_case(e.name@, channel);
    reveal(Seq::filter);
    if entries.len() > 0 {
        let rest = entries.skip(1);
        the_first_entry_sets_a_channel(rest, channel);
        let one = seq![entries[0]];
        assert(entries =~= one + rest);
        Seq::filter_distributes_over_add(one, rest, is_same);
        reveal_with_fuel(Seq::filter, 2);
        assert(one.drop_last() =~= Seq::<config::ChannelEntry>::empty());
        if is_same(entries[0]) {
            assert(one.filter(is_same) =~= one);
            assert(entries.filter(is_same)[0] == entries[0]);
        } else {
            assert(one.filter(is_same) =~= Seq::<config::ChannelEntry>::empty());
            assert(entries.filter(is_same) =~= rest.filter(is_same));
        }
    }
}

/// A list of texts names the channels that stand in it, each, in order and without a
/// setting; a list that holds anything else is refused.
pub proof fn lists_name_every_channel(items: Seq<JsonView>)
    ensures
        channels::named_channels(JsonView::Array(items)) is Some <==> forall|i: int|
            0 <= i < items.len() ==> #[trigger] items[i] is Text,
        channels::named_channels(JsonView::Array(items)) matches Some(list) ==> list.len()
            == items.len() && forall|i: int|
            0 <= i < items.len() ==> (#[trigger] list[i]).1 is None && items[i] == JsonView::Text(
                list[i].0,
            ),
    decreases items.len(),
{
    if items.len() > 0 {
        let front = items.drop_last();
        lists_name_every_channel(front);
        if channels::channels_of_list(items) is Some {
            let list = channels::channels_of_list(items)->0;
            let before = channels::channels_of_list(front)->0;
            assert(items[items.len() - 1] == items.last());
            assert forall|i: int| 0 <= i < items.len() implies #[trigger] items[i] is Text by {
                if i < front.len() {
                    assert(front[i] is Text);
                }
            }
            assert forall|i: int| 0 <= i < items.len() implies (#[trigger] list[i]).1 is None
                && items[i] == JsonView::Text(list[i].0) by {
                if i < front.len() {
                    assert(list[i] == before[i]);
                    assert(front[i] == items[i]);
                }
            }
        } else if forall|i: int| 0 <= i < items.len() ==> #[trigger] items[i] is Text {
            assert forall|i: int| 0 <= i < front.len() implies #[trigger] front[i] is Text by {
                assert(items[i] is Text);
            }
            assert(items[items.len() - 1] is Text);
        }
    }
}

/// Whether the `k`th of some members is the last of its name, and sets what `entry` says.
pub open spec fn sets_last(members: Seq<MemberView>, k: int, entry: (Seq<char>, Option<bool>)) -> bool {
    &&& 0 <= k < members.len()
    &&& members[k].name == entry.0
    &&& channels::setting_of(members[k].value) == Some(entry.1)
    &&& forall|j: int| k < j < members.len() ==> (#[trigger] members[j]).name != entry.0
}

proof fn lemma_placed(
    list: Seq<(Seq<char>, Option<bool>)>,
    name: Seq<char>,
    setting: Option<bool>,
    entry: (Seq<char>, Option<bool>),
)
    requires
        channels::ascending(list),
    ensures
        channels::placed(list, name, setting).contains(entry) <==> entry == (name, setting)
            || entry.0 != name && list.contains(entry),
    decreases list.len(),
{
    let out = channels::placed(list, name, setting);
    if list.len() == 0 || text::stands_before(list.last().0, name) {
        lemma_below(list, name);
        lemma_pushed(list, (name, setting), entry);
    } else if list.last().0 == name {
        let front = list.drop_last();
        lemma_front_ascending(list);
        if front.len() > 0 {
            assert(text::stands_before(list[list.len() - 2].0, list[list.len() - 1].0));
        }
        lemma_below(front, name);
        lemma_pushed(front, (name, setting), entry);
        lemma_pushed(front, list.last(), entry);
        assert(list =~= front.push(list.last()));
    } else {
        let front = list.drop_last();
        lemma_front_ascending(list);
        lemma_placed(front, name, setting, entry);
        lemma_pushed(channels::placed(front, name, setting), list.last(), entry);
        lemma_pushed(front, list.last(), entry);
        assert(list =~= front.push(list.last()));
    }
}

proof fn lemma_front_ascending(list: Seq<(Seq<char>, Option<bool>)>)
    requires
        channels::ascending(list),
        list.len() > 0,
    ensures
        channels::ascending(list.drop_last()),
{
    let front = list.drop_last();
    assert forall|i: int| 0 < i < front.len() implies text::stands_before(
        front[i - 1].0,
        (#[trigger] front[i]).0,
    ) by {
        assert(text::stands_before(list[i - 1].0, list[i].0));
    }
}

proof fn lemma_pushed(
    list: Seq<(Seq<char>, Option<bool>)>,
    last: (Seq<char>, Option<bool>),
    entry: (Seq<char>, Option<bool>),
)
    ensures
        list.push(last).contains(entry) <==> entry == last || list.contains(entry),
{
    let all = list.push(last);
    assert(all[list.len() as int] == last);
    if list.contains(entry) {
        let i = choose|i: int| 0 <= i < list.len() && list[i] == entry;
        assert(all[i] == entry);
    }
}

/// No name of an ascending list that ends before `name` is `name`.
proof fn lemma_below(list: Seq<(Seq<char>, Option<bool>)>, name: Seq<char>)
    requires
        channels::ascending(list),
        list.len() > 0 ==> text::stands_before(list.last().0, name),
    ensures
        forall|i: int| 0 <= i < list.len() ==> (#[trigger] list[i]).0 != name,
    decreases list.len(),
{
    if list.len() > 0 {
        text::lemma_order_is_strict(list.last().0, name);
        lemma_front_ascending(list);
        let front = list.drop_last();
        if front.len() > 0 {
            assert(text::stands_before(list[list.len() - 2].0, list[list.len() - 1].0));
            text::lemma_order_is_transitive(front.last().0, list.last().0, name);
        }
        lemma_below(front, name);
        assert forall|i: int| 0 <= i < list.len() implies (#[trigger] list[i]).0 != name by {
            if i < front.len() {
                assert(front[i].0 != name);
            }
        }
    }
}

/// A map names each of its channels once, with the last setting that it gives it, and no
/// others; a map with a setting that is none is refused.
pub proof fn maps_name_every_channel(
    members: Seq<MemberView>,
    entry: (Seq<char>, Option<bool>),
)
    ensures
        channels::named_channels(JsonView::Object(members)) is Some <==> forall|k: int|
            0 <= k < members.len() ==> channels::setting_of((#[trigger] members[k]).value) is Some,
        channels::named_channels(JsonView::Object(members)) matches Some(list) ==> (list.contains(
            entry,
        ) <==> exists|k: int| #[trigger] sets_last(members, k, entry)),
    decreases members.len(),
{
    if members.len() > 0 {
        let front = members.drop_last();
        let last = members[members.len() - 1];
        maps_name_every_channel(front, entry);
        if channels::channels_of_map(members) is Some {
            let list = channels::channels_of_map(front)->0;
            let setting = channels::setting_of(last.value)->0;
            channels::mapped_channels_stand_in_order(front);
            lemma_placed(list, last.name, setting, entry);
            assert forall|k: int| 0 <= k < members.len() implies channels::setting_of(
                (#[trigger] members[k]).value,
            ) is Some by {
                if k < front.len() {
                    assert(channels::setting_of(front[k].value) is Some);
                }
            }
            if entry == (last.name, setting) {
                assert(sets_last(members, members.len() - 1, entry));
            } else if entry.0 != last.name && list.contains(entry) {
                let k = choose|k: int| #[trigger] sets_last(front, k, entry);
                assert forall|j: int| k < j < members.len() implies (#[trigger] members[j]).name
                    != entry.0 by {
                    if j < front.len() {
                        assert(front[j].name != entry.0);
                    }
                }
                assert(front[k] == members[k]);
                assert(sets_last(members, k, entry));
            }
            if exists|k: int| #[trigger] sets_last(members, k, entry) {
                let k = choose|k: int| #[trigger] sets_last(members, k, entry);
                if k < front.len() {
                    assert(members[members.len() - 1].name != entry.0);
                    assert(front[k] == members[k]);
                    assert forall|j: int| k < j < front.len() implies (#[trigger] front[j]).name
                        != entry.0 by {
                        assert(members[j].name != entry.0);
                    }
                    assert(sets_last(front, k, entry));
                }
            }
        } else if forall|k: int|
            0 <= k < members.len() ==> channels::setting_of((#[trigger] members[k]).value) is Some {
            assert forall|k: int| 0 <= k < front.len() implies channels::setting_of(
                (#[trigger] front[k]).value,
            ) is Some by {
                assert(channels::setting_of(members[k].value) is Some);
            }
            assert(channels::setting_of(members[members.len() - 1].value) is Some);
        }
    } else {
        assert(channels::channels_of_map(members)->0 =~= Seq::empty());
        if exists|k: int| #[trigger] sets_last(members, k, entry) {
            let k = choose|k: int| #[trigger] sets_last(members, k, entry);
        }
    }
}

} // verus!
