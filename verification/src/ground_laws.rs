//! What holds of times, names, paths, numbers and sizes.

use crate::discord;
use crate::generations;
use crate::irc;
use crate::json;
use crate::json::JsonView;
use crate::paths;
use crate::slack;
use crate::split;
use crate::telegram;
use crate::text;
use crate::text_laws;
use crate::urls;
use vstd::prelude::*;

verus! {

// ---- Times and generations --------------------------------------------------

/// An idle time of so many minutes is sixty times as many seconds, as far as a clock can
/// count.
pub proof fn a_minute_has_sixty_seconds(minutes: u64)
    ensures
        minutes * 60 <= u64::MAX ==> generations::idle_seconds(minutes) == minutes * 60,
        minutes * 60 > u64::MAX ==> generations::idle_seconds(minutes) == u64::MAX,
{
}

/// A generation is named by the time at which it was begun and its number, which has six
/// digits or more.
pub proof fn generations_are_named_by_time_and_number(now: nat, n: nat)
    ensures
        n < 10 ==> generations::generation_at(now, n) == text::decimal(now) + seq![
            '-',
            '0',
            '0',
            '0',
            '0',
            '0',
        ] + text::decimal(n),
        text::decimal(n).len() >= 6 ==> generations::generation_at(now, n) == text::decimal(now)
            + seq!['-'] + text::decimal(n),
        text::zero_padded(n, 6).len() >= 6,
{
    if n < 10 {
        assert(text::decimal(n).len() == 1);
        assert(text::zero_padded(n, 6) =~= seq!['0', '0', '0', '0', '0'] + text::decimal(n));
        assert(generations::generation_at(now, n) =~= text::decimal(now) + seq![
            '-',
            '0',
            '0',
            '0',
            '0',
            '0',
        ] + text::decimal(n));
    }
}

/// Digits, a dash and digits name a generation; nothing without a dash, and nothing with
/// any other character, does.
pub proof fn generations_have_their_form(a: Seq<char>, b: Seq<char>, name: Seq<char>)
    requires
        a.len() > 0 && b.len() > 0,
        text::digits_only(a),
        text::digits_only(b),
    ensures
        generations::names_generation(a + seq!['-'] + b),
        generations::names_generation(name) ==> name.contains('-') && forall|i: int|
            0 <= i < name.len() ==> '0' <= #[trigger] name[i] <= '9' || name[i] == '-',
{
    let s = a + seq!['-'] + b;
    let n = a.len() as int;
    assert forall|j: int| 0 <= j < n implies s[j] != '-' by {
        assert(s[j] == a[j]);
        assert(text::is_digit(a[j]));
    }
    assert(s[n] == '-');
    text_laws::lemma_next_is(s, '-', 0, n);
    assert(s.take(n) =~= a);
    assert(s.skip(n + 1) =~= b);
    text::lemma_next_at(name, '-', 0);
    let dash = text::next_at(name, '-', 0);
    if generations::names_generation(name) {
        assert(name.contains(name[dash]));
        assert forall|i: int| 0 <= i < name.len() implies '0' <= #[trigger] name[i] <= '9'
            || name[i] == '-' by {
            if i < dash {
                assert(text::is_digit(name.take(dash)[i]));
            } else if i > dash {
                assert(text::is_digit(name.skip(dash + 1)[i - dash - 1]));
            }
        }
    }
}

// ---- Paths ------------------------------------------------------------------

/// A name stands below its directory after one slash, which the directory may end with;
/// an absolute path stands for itself.
pub proof fn names_follow_a_slash(directory: Seq<char>, name: Seq<char>)
    requires
        directory.len() > 0,
    ensures
        (name.len() == 0 || name[0] != '/') && directory.last() != '/' ==> paths::joined(
            directory,
            name,
        ) == directory + seq!['/'] + name,
        (name.len() == 0 || name[0] != '/') && directory.last() == '/' ==> paths::joined(
            directory,
            name,
        ) == directory + name,
        name.len() > 0 && name[0] == '/' ==> paths::joined(directory, name) == name,
{
    if directory.last() != '/' {
        assert(directory.push('/') + name =~= directory + seq!['/'] + name);
    }
}

/// A name without a slash that leads neither up nor nowhere is a single name; so is one
/// with slashes after it.
pub proof fn plain_names_are_single(name: Seq<char>)
    requires
        name.len() > 0,
        !name.contains('/'),
        name != "."@,
        name != ".."@,
    ensures
        paths::single_name(name) == Some(name),
        paths::single_name(name + seq!['/']) == Some(name),
        paths::single_name(seq!['/'] + name) is None,
{
    let none = Seq::<char>::empty();
    text_laws::joining_puts_separators_between(seq![name], seq![none], name, seq!['/']);
    text_laws::joining_puts_separators_between(seq![name], seq![none], none, seq!['/']);
    text_laws::joining_puts_separators_between(seq![none], seq![name], name, seq!['/']);
    text_laws::joining_puts_separators_between(seq![none], seq![name], none, seq!['/']);
    text_laws::joined_parts_are_split_again(seq![name], '/');
    let after = seq![name] + seq![none];
    let before = seq![none] + seq![name];
    assert forall|k: int| 0 <= k < after.len() implies !(#[trigger] after[k]).contains('/') by {}
    assert forall|k: int| 0 <= k < before.len() implies !(#[trigger] before[k]).contains('/') by {}
    text_laws::joined_parts_are_split_again(after, '/');
    text_laws::joined_parts_are_split_again(before, '/');
    assert(name + seq!['/'] + none =~= name + seq!['/']);
    assert(none + seq!['/'] + name =~= seq!['/'] + name);
}

/// A text ends with whatever it was put before.
pub proof fn endings_are_found(a: Seq<char>, b: Seq<char>, s: Seq<char>)
    ensures
        urls::ends_with(a + b, b),
        urls::ends_with(s, b) ==> s == s.take(s.len() - b.len()) + b,
{
    assert((a + b).skip(a.len() as int) =~= b);
    if urls::ends_with(s, b) {
        assert(s =~= s.take(s.len() - b.len()) + s.skip(s.len() - b.len()));
    }
}

// ---- Keys -------------------------------------------------------------------

/// The sessions of chats, channels and users have the keys and the directories that they
/// are known by.
pub proof fn sessions_have_their_keys(
    a: Seq<char>,
    b: Seq<char>,
    c: Seq<char>,
    root: Seq<char>,
    chat: int,
)
    requires
        root.len() > 0 && root.last() != '/',
    ensures
        discord::session::dm_key(a) == "dm:"@ + a,
        discord::session::channel_key(a, b) == "guild:"@ + a + ":channel:"@ + b,
        discord::session::thread_key(a, b) == "guild:"@ + a + ":thread:"@ + b,
        slack::session::key_text(
            a,
            slack::addressing::ConversationKind::DirectMessage,
            b,
            c,
            None,
        ) == "workspace:"@ + a + ":dm:"@ + b + ":"@ + "root"@,
        slack::session::key_text(
            a,
            slack::addressing::ConversationKind::Channel,
            b,
            c,
            None,
        ) == "workspace:"@ + a + ":channel:"@ + c + ":"@ + "root"@,
        irc::addressing::guard_key_of(irc::addressing::ConversationView::Channel(a)) == a,
        irc::addressing::guard_key_of(irc::addressing::ConversationView::Dm(a)) == "dm:"@ + a,
        chat >= 0 ==> telegram::session::chat_directory(root, chat) == root + seq!['/']
            + text::decimal(chat as nat),
        chat < 0 ==> telegram::session::chat_directory(root, chat) == root + seq!['/', '-']
            + text::decimal((-chat) as nat),
{
    if chat >= 0 {
        text::lemma_decimal_digits(chat as nat);
        let name = text::decimal(chat as nat);
        assert(text::is_digit(name[0]));
        names_follow_a_slash(root, name);
    } else {
        let name = seq!['-'] + text::decimal((-chat) as nat);
        names_follow_a_slash(root, name);
        assert(root + seq!['/'] + name =~= root + seq!['/', '-'] + text::decimal((-chat) as nat));
    }
}

/// The directory of a conversation on IRC is its name: letters and digits stay in their
/// places, and any other character is an underscore.
pub proof fn directories_keep_letters_and_digits(name: Seq<char>, i: int)
    requires
        0 <= i < name.len(),
    ensures
        irc::addressing::sanitized(name).len() == name.len(),
        irc::addressing::sanitized(name)[i] == if 'a' <= name[i] <= 'z' || 'A' <= name[i] <= 'Z'
            || '0' <= name[i] <= '9' {
            name[i]
        } else {
            '_'
        },
        irc::addressing::session_key(irc::addressing::ConversationView::Channel(name)) == "chan_"@
            + irc::addressing::sanitized(name),
        irc::addressing::session_key(irc::addressing::ConversationView::Dm(name)) == "dm_"@
            + irc::addressing::sanitized(name),
{
}

/// A nick that is taken gets an underscore more for each of the first collisions, and then
/// the number of them.
pub proof fn taken_nicks_get_a_suffix(attempt: nat)
    ensures
        irc::conn::collision_suffix(1) == seq!['_'],
        irc::conn::collision_suffix(2) == seq!['_', '_'],
        irc::conn::collision_suffix(3) == seq!['_', '_', '_'],
        attempt > 3 ==> irc::conn::collision_suffix(attempt) == text::decimal(attempt),
{
    assert(irc::conn::collision_suffix(1) =~= seq!['_']);
    assert(irc::conn::collision_suffix(2) =~= seq!['_', '_']);
    assert(irc::conn::collision_suffix(3) =~= seq!['_', '_', '_']);
}

// ---- Numbers ----------------------------------------------------------------

/// A number is read from its digits, with or without a plus sign, and from nothing else;
/// what is written is read back.
pub proof fn numbers_are_read_from_digits(n: nat, s: Seq<char>)
    ensures
        text::numeral(text::decimal(n)) == Some(n),
        text::numeral(seq!['+'] + text::decimal(n)) == Some(n),
        text::numeral(s) is Some ==> s.len() > 0 && forall|i: int|
            0 <= i < s.len() ==> '0' <= #[trigger] s[i] <= '9' || i == 0 && s[i] == '+',
        text::signed_decimal(n as int) == text::decimal(n),
        n > 0 ==> text::signed_decimal(-(n as int)) == seq!['-'] + text::decimal(n),
{
    text::lemma_numeral_of_decimal(n);
    text::lemma_decimal_digits(n);
    text::lemma_decimal_value(n);
    let d = text::decimal(n);
    let t = seq!['+'] + d;
    assert(t.skip(1) =~= d);
    if text::numeral(s) is Some {
        let digits = if s.len() > 0 && s[0] == '+' {
            s.skip(1)
        } else {
            s
        };
        assert forall|i: int| 0 <= i < s.len() implies '0' <= #[trigger] s[i] <= '9' || i == 0
            && s[i] == '+' by {
            if s[0] == '+' && i > 0 {
                assert(text::is_digit(digits[i - 1]));
            } else if s[0] != '+' {
                assert(text::is_digit(digits[i]));
            }
        }
    }
}

/// A whole number is read as what it is where it fits, and a text, a truth value or a list
/// is none.
pub proof fn whole_numbers_are_read(n: u64, k: i64, s: Seq<char>, b: bool, items: Seq<JsonView>)
    ensures
        json::unsigned_of(Some(JsonView::Unsigned(n))) == Some(n as nat),
        n <= i64::MAX ==> json::integer_of(Some(JsonView::Unsigned(n))) == Some(n as int),
        n > i64::MAX ==> json::integer_of(Some(JsonView::Unsigned(n))) is None,
        json::integer_of(Some(JsonView::Negative(k))) == Some(k as int),
        json::unsigned_of(Some(JsonView::Negative(k))) is None,
        json::integer_of(Some(JsonView::Text(s))) is None && json::unsigned_of(
            Some(JsonView::Text(s)),
        ) is None,
        json::integer_of(Some(JsonView::Bool(b))) is None,
        json::integer_of(Some(JsonView::Array(items))) is None,
        json::integer_of(None) is None && json::unsigned_of(None) is None,
{
}

/// A record is read by name from an object and by place from a list.
pub proof fn records_are_read_by_name_or_place(
    items: Seq<JsonView>,
    members: Seq<json::MemberView>,
    name: Seq<char>,
    place: int,
    count: nat,
)
    requires
        0 <= place,
    ensures
        json::field(JsonView::Object(members), name, place) == json::member(
            JsonView::Object(members),
            name,
        ),
        place < items.len() ==> json::field(JsonView::Array(items), name, place) == Some(
            items[place],
        ),
        place >= items.len() ==> json::field(JsonView::Array(items), name, place) is None,
        json::is_record(JsonView::Object(members), count),
        json::is_record(JsonView::Array(items), count) <==> items.len() <= count,
        !json::is_record(JsonView::Text(name), count),
        !json::is_record(JsonView::Null, count),
{
}

/// The setting of a channel is the truth value that its settings hold, or none where they
/// hold none; anything else is refused.
pub proof fn settings_are_truth_values(members: Seq<json::MemberView>, b: bool)
    ensures
        ({
            let value = JsonView::Object(members);
            let set = json::member(value, "mention_required"@);
            &&& set == Some(JsonView::Bool(b)) ==> irc::channels::setting_of(value) == Some(Some(b))
            &&& set is None || set == Some(JsonView::Null) ==> irc::channels::setting_of(value)
                == Some(None::<bool>)
            &&& set is Some && !(set->0 is Bool) && !(set->0 is Null)
                ==> irc::channels::setting_of(value) is None
        }),
        irc::channels::setting_of(JsonView::Bool(b)) is None,
{
}

/// At most so many characters of a text are kept, from its beginning; a text that is blank
/// counts as none.
pub proof fn texts_are_capped_from_the_beginning(s: Seq<char>, n: nat)
    ensures
        s.len() <= n ==> text::capped(s, n) == s,
        s.len() > n ==> text::capped(s, n).len() == n && text::begins_with(s, text::capped(s, n)),
        text::is_blank(s) ==> text::when_filled(Some(s)) is None,
        !text::is_blank(s) ==> text::when_filled(Some(s)) == Some(s),
        text::when_filled(None) is None,
{
}

/// The first word of a text is what stands before its first white space, after any that it
/// begins with.
pub proof fn the_first_word_ends_at_white_space(
    blank: Seq<char>,
    word: Seq<char>,
    rest: Seq<char>,
)
    requires
        forall|j: int| 0 <= j < blank.len() ==> text::is_white(#[trigger] blank[j]),
        word.len() > 0 && text::no_white(word),
        rest.len() > 0 ==> text::is_white(rest[0]),
    ensures
        text::first_word(blank + word + rest) == word,
        text::first_word(blank).len() == 0,
{
    let s = blank + word + rest;
    let t = word + rest;
    assert(s =~= blank + t);
    assert(!text::is_white(word[0]));
    text_laws::trimming_the_start_takes_white_space_alone(s);
    let u = text::trimmed_start(s);
    let n = s.len() - u.len();
    if n < blank.len() {
        assert(u[0] == s[n]);
        assert(text::is_white(blank[n]));
    }
    if n > blank.len() {
        assert(text::is_white(s[blank.len() as int]));
    }
    assert(u =~= t);
    lemma_word_end(t, 0, word.len() as int);
    assert(t.take(word.len() as int) =~= word);
    text_laws::trimming_the_start_takes_white_space_alone(blank);
    let v = text::trimmed_start(blank);
    if v.len() > 0 {
        assert(v[0] == blank[blank.len() - v.len()]);
    }
}

proof fn lemma_word_end(t: Seq<char>, i: int, end: int)
    requires
        0 <= i <= end <= t.len(),
        forall|j: int| i <= j < end ==> !text::is_white(t[j]),
        end < t.len() ==> text::is_white(t[end]),
    ensures
        text::word_end(t, i) == end,
    decreases end - i,
{
    if i < end {
        lemma_word_end(t, i + 1, end);
    }
}

// ---- Sizes ------------------------------------------------------------------

/// A line to a target has as much room as the protocol leaves it, but no more than it may
/// ever have, and never less than one hundred bytes.
pub proof fn lines_have_the_room_that_is_left(target: Seq<char>)
    ensures
        ({
            let left = 512 - text::utf8_units(target) - 12;
            &&& left >= split::MAX_BYTES ==> split::byte_budget(target) == split::MAX_BYTES
            &&& 100 <= left <= split::MAX_BYTES ==> split::byte_budget(target) == left
            &&& left < 100 ==> split::byte_budget(target) == 100
        }),
{
}

/// A message on Discord has room for all that the limit leaves beside its fences.
pub proof fn messages_have_the_room_that_is_left(language: Seq<char>)
    requires
        language.len() <= discord::markdown::MAX_CARRIED_LANGUAGE,
    ensures
        discord::markdown::room(None) == discord::markdown::MESSAGE_LIMIT - 4,
        discord::markdown::room(Some(language)) == discord::markdown::MESSAGE_LIMIT - (language.len()
            + 4) - 4,
{
    reveal_strlit("```");
    reveal_strlit("\n");
}

/// A word that fits no line is cut into pieces that are as long as they can be.
pub proof fn pieces_of_words_are_as_long_as_they_can_be(word: Seq<char>, budget: nat)
    requires
        budget >= 4,
        word.len() > 0,
    ensures
        ({
            let pieces = split::word_pieces(word, budget);
            let first = pieces[0];
            &&& pieces.len() > 0
            &&& first.len() <= word.len() && first == word.take(first.len() as int)
            &&& first.len() < word.len() ==> first.len() >= split::MAX_CHARS || text::utf8_units(
                word.take(first.len() as int + 1),
            ) > budget
            &&& pieces == seq![first] + split::word_pieces(word.skip(first.len() as int), budget)
        }),
{
    lemma_fit(word, budget as int, split::MAX_CHARS as int, 0);
    let n = split::fit(word, budget);
    assert(word.subrange(0, n) =~= word.take(n));
    assert(word.take(n).len() == n);
    if n < word.len() {
        assert(word.subrange(0, n + 1) =~= word.take(n + 1));
    }
}

proof fn lemma_fit(s: Seq<char>, bytes: int, chars: int, k: int)
    requires
        0 <= k <= s.len(),
        0 <= chars,
        0 <= bytes,
    ensures
        k <= split::fit_end(s, bytes, chars, k) <= s.len(),
        split::fit_end(s, bytes, chars, k) < s.len() ==> split::fit_end(s, bytes, chars, k) - k
            >= chars || text::utf8_units(s.subrange(k, split::fit_end(s, bytes, chars, k) + 1))
            > bytes,
    decreases s.len() - k,
{
    let end = split::fit_end(s, bytes, chars, k);
    if k < s.len() && chars > 0 && text::utf8_width(s[k]) <= bytes {
        lemma_fit(s, bytes - text::utf8_width(s[k]), chars - 1, k + 1);
        if end < s.len() {
            assert(s.subrange(k, end + 1) =~= seq![s[k]] + s.subrange(k + 1, end + 1));
            text::lemma_units_add(seq![s[k]], s.subrange(k + 1, end + 1));
            text::lemma_units_one(s[k]);
        }
    } else if k < s.len() && chars > 0 {
        assert(s.subrange(k, k + 1) =~= seq![s[k]]);
        text::lemma_units_one(s[k]);
    }
}

/// An overlong line on Telegram is cut into pieces that are as long as they can be, and
/// make up the line.
pub proof fn pieces_of_lines_are_as_long_as_they_can_be(s: Seq<char>, limit: int)
    requires
        limit >= 2,
    ensures
        text::utf16_units(s) <= limit ==> telegram::source::full_pieces(s, limit).len() == 0
            && telegram::source::last_piece(s, limit) == s,
        text::utf16_units(s) > limit ==> {
            let first = telegram::source::full_pieces(s, limit)[0];
            &&& 0 < first.len() < s.len() && first == s.take(first.len() as int)
            &&& text::utf16_units(first) <= limit
            &&& text::utf16_units(s.take(first.len() as int + 1)) > limit
            &&& telegram::source::full_pieces(s, limit) == seq![first]
                + telegram::source::full_pieces(s.skip(first.len() as int), limit)
            &&& telegram::source::last_piece(s, limit) == telegram::source::last_piece(
                s.skip(first.len() as int),
                limit,
            )
        },
{
    telegram::source::lemma_fit_end(s, limit, 0);
    let n = telegram::source::fit(s, limit);
    assert(s.subrange(0, n) =~= s.take(n));
    if text::utf16_units(s) > limit {
        if s.len() == 0 {
            assert(text::utf16_units(s) == 0);
        }
        if n == s.len() {
            assert(s.take(n) =~= s);
        }
        assert(s.subrange(0, n + 1) =~= s.take(n + 1));
        assert(s.take(n).len() == n);
    }
}

/// A character takes one to four bytes, and one unit or two, by its place in Unicode.
pub proof fn characters_have_their_width(c: char)
    ensures
        (c as u32) < 0x80 ==> text::utf8_units(seq![c]) == 1,
        0x80 <= (c as u32) < 0x800 ==> text::utf8_units(seq![c]) == 2,
        0x800 <= (c as u32) < 0x10000 ==> text::utf8_units(seq![c]) == 3,
        (c as u32) >= 0x10000 ==> text::utf8_units(seq![c]) == 4,
        (c as u32) < 0x10000 ==> text::utf16_units(seq![c]) == 1,
        (c as u32) >= 0x10000 ==> text::utf16_units(seq![c]) == 2,
{
    text::lemma_units_one(c);
}

} // verus!
