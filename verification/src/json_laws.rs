//! What holds of how values are read and written.

use crate::encoding;
use crate::json;
use crate::json::{JsonView, MemberView, ScalarView};
use crate::text_laws;
use vstd::prelude::*;

verus! {

/// The value under a name is that of the first member with the name; where there is none,
/// and in anything but an object, there is none.
pub proof fn the_first_member_of_a_name_counts(members: Seq<MemberView>, name: Seq<char>)
    ensures
        ({
            let same = members.filter(|m: MemberView| m.name == name);
            json::member(JsonView::Object(members), name) == if same.len() == 0 {
                None::<JsonView>
            } else {
                Some(same[0].value)
            }
        }),
    decreases members.len(),
{
    let is_same = |m: MemberView| m.name == name;
    if members.len() > 0 {
        the_first_member_of_a_name_counts(members.skip(1), name);
        text_laws::lemma_filter_front(members, is_same);
    } else {
        text_laws::lemma_filter_nothing(members, is_same);
    }
}

/// A member is found by its name wherever it stands, as long as no other has the name
/// before it, and the value is what it was written with.
pub proof fn members_are_found_by_name(
    before: Seq<MemberView>,
    name: Seq<char>,
    value: JsonView,
    after: Seq<MemberView>,
)
    requires
        forall|k: int| 0 <= k < before.len() ==> (#[trigger] before[k]).name != name,
    ensures
        json::member(
            JsonView::Object(before + seq![MemberView { name, value }] + after),
            name,
        ) == Some(value),
        json::member(JsonView::Object(before), name) is None,
        value matches JsonView::Text(s) ==> json::text_member(
            JsonView::Object(before + seq![MemberView { name, value }] + after),
            name,
        ) == Some(s),
        value matches JsonView::Array(items) ==> json::elements_of(
            json::member(
                JsonView::Object(before + seq![MemberView { name, value }] + after),
                name,
            ),
        ) == items,
    decreases before.len(),
{
    let all = before + seq![MemberView { name, value }] + after;
    if before.len() > 0 {
        let rest = before.skip(1);
        assert(before[0].name != name);
        assert forall|k: int| 0 <= k < rest.len() implies (#[trigger] rest[k]).name != name by {
            assert(before[k + 1].name != name);
        }
        members_are_found_by_name(rest, name, value, after);
        assert(all.skip(1) =~= rest + seq![MemberView { name, value }] + after);
        assert(all[0] == before[0]);
    } else {
        assert(all[0] == MemberView { name, value });
    }
}

/// Whatever is no object has no members; whatever is no text is read as none; whatever is
/// no list has no elements.
pub proof fn other_values_hold_nothing(value: JsonView, name: Seq<char>)
    ensures
        !(value is Object) ==> json::member(value, name) is None,
        !(value is Text) ==> json::text_of(Some(value)) is None,
        !(value is Array) ==> json::elements_of(Some(value)).len() == 0,
        json::text_of(None) is None,
        json::elements_of(None).len() == 0,
{
}

/// The scalar under a name is that of the first member with the name.
pub proof fn the_first_scalar_of_a_name_counts(
    members: Seq<(Seq<char>, ScalarView)>,
    name: Seq<char>,
)
    ensures
        ({
            let same = members.filter(|m: (Seq<char>, ScalarView)| m.0 == name);
            json::scalar_under(members, name) == if same.len() == 0 {
                None::<ScalarView>
            } else {
                Some(same[0].1)
            }
        }),
    decreases members.len(),
{
    let is_same = |m: (Seq<char>, ScalarView)| m.0 == name;
    if members.len() > 0 {
        the_first_scalar_of_a_name_counts(members.skip(1), name);
        text_laws::lemma_filter_front(members, is_same);
    } else {
        text_laws::lemma_filter_nothing(members, is_same);
    }
}

/// A text is written character by character between quotes: quotes, backslashes and
/// control characters are escaped, and any other character stands for itself.
pub proof fn texts_are_written_character_by_character(a: Seq<char>, b: Seq<char>, c: char)
    ensures
        json::all_escaped(a + b) == json::all_escaped(a) + json::all_escaped(b),
        json::json_string(a) == seq!['"'] + json::all_escaped(a) + seq!['"'],
        c != '"' && c != '\\' && c as u32 >= 0x20 ==> json::all_escaped(seq![c]) == seq![c],
        c == '"' || c == '\\' ==> json::all_escaped(seq![c]) == seq!['\\', c],
        c == '\n' ==> json::all_escaped(seq![c]) == seq!['\\', 'n'],
        c == '\r' ==> json::all_escaped(seq![c]) == seq!['\\', 'r'],
        c == '\t' ==> json::all_escaped(seq![c]) == seq!['\\', 't'],
    decreases b.len(),
{
    reveal_with_fuel(json::all_escaped, 2);
    assert(seq![c].drop_last() =~= Seq::<char>::empty());
    assert(Seq::<char>::empty() + json::escaped(c) =~= json::escaped(c));
    if b.len() > 0 {
        texts_are_written_character_by_character(a, b.drop_last(), c);
        assert((a + b).drop_last() =~= a + b.drop_last());
        assert(json::all_escaped(a) + json::all_escaped(b.drop_last()) + json::escaped(b.last())
            =~= json::all_escaped(a) + (json::all_escaped(b.drop_last()) + json::escaped(
            b.last(),
        )));
    } else {
        assert(a + b =~= a);
        assert(json::all_escaped(a) + json::all_escaped(b) =~= json::all_escaped(a));
    }
}

/// No quote of a text ends the string that it is written in, and no control character
/// stands in it: a quote has a backslash before it.
pub proof fn quotes_are_escaped(s: Seq<char>, i: int)
    requires
        0 <= i < json::all_escaped(s).len(),
    ensures
        json::all_escaped(s)[i] as u32 >= 0x20,
        json::all_escaped(s)[i] == '"' ==> i > 0 && json::all_escaped(s)[i - 1] == '\\',
    decreases s.len(),
{
    if s.len() > 0 {
        let before = json::all_escaped(s.drop_last());
        let last = json::escaped(s.last());
        lemma_digit(s.last());
        if i < before.len() {
            quotes_are_escaped(s.drop_last(), i);
            assert(json::all_escaped(s)[i] == before[i]);
            if i > 0 {
                assert(json::all_escaped(s)[i - 1] == before[i - 1]);
            }
        } else {
            assert(json::all_escaped(s)[i] == last[i - before.len()]);
            if i > before.len() {
                assert(json::all_escaped(s)[i - 1] == last[i - 1 - before.len()]);
            }
        }
    }
}

proof fn lemma_digit(c: char)
    ensures
        (c as u32) < 0x20 ==> encoding::hex_digit(c as int / 16) as u32 >= 0x30
            && encoding::hex_digit(c as int % 16) as u32 >= 0x30 && encoding::hex_digit(
            c as int / 16,
        ) != '"' && encoding::hex_digit(c as int % 16) != '"',
{
    if (c as u32) < 0x20 {
        let high = c as int / 16;
        let low = c as int % 16;
        assert(encoding::hex_digit(high) as u32 == '0' as u32 + high);
        if low < 10 {
            assert(encoding::hex_digit(low) as u32 == '0' as u32 + low);
        } else {
            assert(encoding::hex_digit(low) as u32 == 'a' as u32 + low - 10);
        }
    }
}

} // verus!
