//! The channels that settings name.

use crate::irc::config::ChannelEntry;
use crate::json;
use crate::json::{Json, JsonView, Member, MemberView};
use crate::text;
use vstd::prelude::*;
use vstd::string::*;

verus! {

/// What entries hold: the names of channels, and whether they ask for a mention.
pub open spec fn entry_views(entries: Seq<ChannelEntry>) -> Seq<(Seq<char>, Option<bool>)> {
    Seq::new(entries.len(), |i: int| (entries[i].name@, entries[i].mention_required))
}

/// The truth value that an optional value is; none where it is not set. Any other
/// value is refused.
pub open spec fn flag_of(value: Option<JsonView>) -> Option<Option<bool>> {
    match value {
        None => Some(None),
        Some(JsonView::Null) => Some(None),
        Some(JsonView::Bool(b)) => Some(Some(b)),
        Some(_) => None,
    }
}

/// Whether the settings of a channel ask for a mention, where they say so. The
/// setting may stand under its name or, in a list, alone.
pub open spec fn setting_of(value: JsonView) -> Option<Option<bool>> {
    if json::is_record(value, 1) {
        flag_of(json::field(value, "mention_required"@, 0))
    } else {
        None
    }
}

/// A list of channels in the order of their names, with one more. A later setting of
/// a channel replaces an earlier one.
pub open spec fn placed(
    list: Seq<(Seq<char>, Option<bool>)>,
    name: Seq<char>,
    setting: Option<bool>,
) -> Seq<(Seq<char>, Option<bool>)>
    decreases list.len(),
{
    if list.len() == 0 || text::stands_before(list.last().0, name) {
        list.push((name, setting))
    } else if list.last().0 == name {
        list.drop_last().push((name, setting))
    } else {
        placed(list.drop_last(), name, setting).push(list.last())
    }
}

/// The channels that are named one after the other, without settings of their own.
pub open spec fn channels_of_list(items: Seq<JsonView>) -> Option<Seq<(Seq<char>, Option<bool>)>>
    decreases items.len(),
{
    if items.len() == 0 {
        Some(Seq::empty())
    } else {
        match (channels_of_list(items.drop_last()), items.last()) {
            (Some(list), JsonView::Text(name)) => Some(list.push((name, None))),
            _ => None,
        }
    }
}

/// The channels that are named with their settings, in the order of their names.
pub open spec fn channels_of_map(members: Seq<MemberView>) -> Option<Seq<(Seq<char>, Option<bool>)>>
    decreases members.len(),
{
    if members.len() == 0 {
        Some(Seq::empty())
    } else {
        match (channels_of_map(members.drop_last()), setting_of(members.last().value)) {
            (Some(list), Some(setting)) => Some(placed(list, members.last().name, setting)),
            _ => None,
        }
    }
}

/// The channels that a value names: in a list, or in a map to their settings. Any
/// other value is refused.
pub open spec fn named_channels(value: JsonView) -> Option<Seq<(Seq<char>, Option<bool>)>> {
    match value {
        JsonView::Array(items) => channels_of_list(items),
        JsonView::Object(members) => channels_of_map(members),
        _ => None,
    }
}

fn read_flag(value: Option<&Json>) -> (r: Option<Option<bool>>)
    ensures
        r == flag_of(json::opt_view(value)),
{
    match value {
        None => Some(None),
        Some(Json::Null) => Some(None),
        Some(Json::Bool(b)) => Some(Some(*b)),
        Some(_) => None,
    }
}

fn read_setting(value: &Json) -> (r: Option<Option<bool>>)
    ensures
        r == setting_of(value@),
{
    if value.holds_record(1) {
        read_flag(value.get_field("mention_required", 0))
    } else {
        None
    }
}

fn place(list: &mut Vec<ChannelEntry>, name: &str, setting: Option<bool>)
    ensures
        entry_views(final(list)@) == placed(entry_views(old(list)@), name@, setting),
{
    let ghost all = entry_views(list@);
    let chars = text::to_chars(name);
    let mut k: usize = list.len();
    assert(all.take(k as int) =~= all);
    assert(placed(all, name@, setting) =~= placed(all, name@, setting) + all.skip(k as int));
    while k > 0 && !text::precedes(
        text::to_chars(list[k - 1].name.as_str()).as_slice(),
        chars.as_slice(),
    ) && !text::str_eq(list[k - 1].name.as_str(), name)
        invariant
            k <= list@.len(),
            chars@ == name@,
            *list == *old(list),
            all == entry_views(list@),
            placed(all, name@, setting) == placed(all.take(k as int), name@, setting) + all.skip(
                k as int,
            ),
        decreases k,
    {
        let ghost head = all.take(k as int);
        assert(head.last() == all[k - 1]);
        assert(head.drop_last() =~= all.take(k - 1));
        assert(placed(all.take(k - 1), name@, setting).push(head.last()) + all.skip(k as int)
            =~= placed(all.take(k - 1), name@, setting) + all.skip(k - 1));
        k = k - 1;
    }
    let ghost head = all.take(k as int);
    if k > 0 {
        assert(head.last() == all[k - 1]);
    }
    let entry = ChannelEntry { name: name.to_owned(), mention_required: setting };
    if k > 0 && text::str_eq(list[k - 1].name.as_str(), name) {
        proof {
            text::lemma_order_is_strict(name@, name@);
        }
        list.set(k - 1, entry);
        assert(entry_views(list@) =~= head.drop_last().push((name@, setting)) + all.skip(k as int));
    } else {
        list.insert(k, entry);
        assert(entry_views(list@) =~= head.push((name@, setting)) + all.skip(k as int));
    }
}

/// The channels that a value names, where it names any.
pub fn read_channels(value: &Json) -> (r: Option<Vec<ChannelEntry>>)
    ensures
        match r {
            Some(entries) => named_channels(value@) == Some(entry_views(entries@)),
            None => named_channels(value@) is None,
        },
{
    proof {
        json::lemma_parts(*value);
    }
    match value {
        Json::Array(items) => read_list(items),
        Json::Object(members) => read_map(members),
        _ => None,
    }
}

proof fn lemma_list_prefix(items: Seq<JsonView>, n: int)
    requires
        0 <= n <= items.len(),
        channels_of_list(items.take(n)) is None,
    ensures
        channels_of_list(items) is None,
    decreases items.len(),
{
    if n < items.len() {
        assert(items.drop_last().take(n) =~= items.take(n));
        lemma_list_prefix(items.drop_last(), n);
    } else {
        assert(items.take(n) =~= items);
    }
}

fn read_list(items: &Vec<Json>) -> (r: Option<Vec<ChannelEntry>>)
    ensures
        match r {
            Some(entries) => channels_of_list(json::views(items@)) == Some(entry_views(entries@)),
            None => channels_of_list(json::views(items@)) is None,
        },
{
    let ghost all = json::views(items@);
    let mut entries: Vec<ChannelEntry> = Vec::new();
    let mut i: usize = 0;
    assert(entry_views(entries@) =~= Seq::empty());
    while i < items.len()
        invariant
            all == json::views(items@),
            i <= items@.len(),
            channels_of_list(all.take(i as int)) == Some(entry_views(entries@)),
        decreases items@.len() - i,
    {
        let ghost before = entry_views(entries@);
        assert(all.take(i + 1).drop_last() =~= all.take(i as int));
        assert(all.take(i + 1).last() == items@[i as int]@);
        match &items[i] {
            Json::Text(name) => {
                entries.push(
                    ChannelEntry { name: name.as_str().to_owned(), mention_required: None },
                );
                assert(entry_views(entries@) =~= before.push((name@, None)));
            },
            _ => {
                proof {
                    lemma_list_prefix(all, i + 1);
                }
                return None;
            },
        }
        i = i + 1;
    }
    assert(all.take(i as int) =~= all);
    Some(entries)
}

proof fn lemma_map_prefix(members: Seq<MemberView>, n: int)
    requires
        0 <= n <= members.len(),
        channels_of_map(members.take(n)) is None,
    ensures
        channels_of_map(members) is None,
    decreases members.len(),
{
    if n < members.len() {
        assert(members.drop_last().take(n) =~= members.take(n));
        lemma_map_prefix(members.drop_last(), n);
    } else {
        assert(members.take(n) =~= members);
    }
}

fn read_map(members: &Vec<Member>) -> (r: Option<Vec<ChannelEntry>>)
    ensures
        match r {
            Some(entries) => channels_of_map(json::member_views(members@)) == Some(
                entry_views(entries@),
            ),
            None => channels_of_map(json::member_views(members@)) is None,
        },
{
    let ghost all = json::member_views(members@);
    let mut entries: Vec<ChannelEntry> = Vec::new();
    let mut i: usize = 0;
    assert(entry_views(entries@) =~= Seq::empty());
    while i < members.len()
        invariant
            all == json::member_views(members@),
            i <= members@.len(),
            channels_of_map(all.take(i as int)) == Some(entry_views(entries@)),
        decreases members@.len() - i,
    {
        assert(all.take(i + 1).drop_last() =~= all.take(i as int));
        assert(all.take(i + 1).last() == members@[i as int]@);
        match read_setting(&members[i].value) {
            Some(setting) => place(&mut entries, members[i].name.as_str(), setting),
            None => {
                proof {
                    lemma_map_prefix(all, i + 1);
                }
                return None;
            },
        }
        i = i + 1;
    }
    assert(all.take(i as int) =~= all);
    Some(entries)
}

// ---- Laws -------------------------------------------------------------------

/// Whether every name stands before the next.
pub open spec fn ascending(list: Seq<(Seq<char>, Option<bool>)>) -> bool {
    forall|i: int|
        0 < i < list.len() ==> text::stands_before(list[i - 1].0, (#[trigger] list[i]).0)
}

proof fn lemma_placed(list: Seq<(Seq<char>, Option<bool>)>, name: Seq<char>, setting: Option<bool>)
    requires
        ascending(list),
    ensures
        ascending(placed(list, name, setting)),
        placed(list, name, setting).len() > 0,
        placed(list, name, setting).last().0 == name || (list.len() > 0 && placed(
            list,
            name,
            setting,
        ).last().0 == list.last().0),
    decreases list.len(),
{
    if list.len() > 0 && !text::stands_before(list.last().0, name) {
        let init = list.drop_last();
        assert forall|i: int| 0 < i < init.len() implies text::stands_before(
            init[i - 1].0,
            (#[trigger] init[i]).0,
        ) by {
            assert(text::stands_before(list[i - 1].0, list[i].0));
        }
        if init.len() > 0 {
            assert(text::stands_before(list[list.len() - 2].0, list[list.len() - 1].0));
        }
        if list.last().0 != name {
            lemma_placed(init, name, setting);
            text::lemma_order_is_total(name, list.last().0);
        }
    }
}

/// In a map every channel is named once, and the channels stand in the order of their
/// names.
pub proof fn mapped_channels_stand_in_order(members: Seq<MemberView>)
    requires
        channels_of_map(members) is Some,
    ensures
        ascending(channels_of_map(members)->0),
    decreases members.len(),
{
    if members.len() > 0 {
        mapped_channels_stand_in_order(members.drop_last());
        lemma_placed(
            channels_of_map(members.drop_last())->0,
            members.last().name,
            setting_of(members.last().value)->0,
        );
    }
}

} // verus!
