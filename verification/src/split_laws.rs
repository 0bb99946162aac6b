//! What holds of every reply that is stripped of its markdown and packed into lines.

use crate::split;
use crate::text;
use crate::text_laws;
use vstd::prelude::*;

verus! {

// ---- Markdown ---------------------------------------------------------------

proof fn lemma_link_shift(s: Seq<char>, d: int, i: int)
    requires
        0 <= d,
        0 <= i,
        d + i < s.len(),
    ensures
        split::link_at(s, d + i) == match split::link_at(s.skip(d), i) {
            Some((close, end)) => Some((d + close, d + end)),
            None => None::<(int, int)>,
        },
{
    let t = s.skip(d);
    text_laws::lemma_next_shift(s, ']', d, i + 1);
    text::lemma_next_at(t, ']', i + 1);
    let close = text::next_at(t, ']', i + 1);
    if close + 1 < t.len() {
        assert(t[close + 1] == s[d + close + 1]);
        text_laws::lemma_next_shift(s, ')', d, close + 2);
    }
}

proof fn lemma_autolink_shift(s: Seq<char>, d: int, i: int)
    requires
        0 <= d,
        0 <= i,
        d + i < s.len(),
    ensures
        split::autolink_at(s, d + i) == match split::autolink_at(s.skip(d), i) {
            Some(end) => Some(d + end),
            None => None::<int>,
        },
{
    let t = s.skip(d);
    text_laws::lemma_next_shift(s, '>', d, i + 1);
    text::lemma_next_at(t, '>', i + 1);
    let end = text::next_at(t, '>', i + 1);
    if end < t.len() {
        assert(s.subrange(d + i + 1, d + end) =~= t.subrange(i + 1, end));
    }
}

proof fn lemma_run_shift(s: Seq<char>, c: char, d: int, i: int)
    requires
        0 <= d,
        0 <= i,
        d + i <= s.len(),
    ensures
        text::run_of(s, c, d + i) == text::run_of(s.skip(d), c, i),
{
    let t = s.skip(d);
    text_laws::lemma_run(t, c, i);
    let n = text::run_of(t, c, i) as int;
    assert forall|j: int| d + i <= j < d + i + n implies s[j] == c by {
        assert(s[j] == t[j - d]);
    }
    if d + i + n < s.len() {
        assert(s[d + i + n] == t[i + n]);
    }
    text_laws::lemma_run_is(s, c, d + i, d + i + n);
}

/// What is stripped from an index on depends on nothing before it but on whether a line
/// begins there.
proof fn lemma_stripped_shift(s: Seq<char>, d: int, i: int, fresh: bool)
    requires
        0 <= d,
        0 <= i,
        d + i <= s.len(),
    ensures
        split::stripped_from(s, d + i, fresh) == split::stripped_from(s.skip(d), i, fresh),
    decreases s.len() - d - i,
{
    let t = s.skip(d);
    if d + i < s.len() {
        let c = s[d + i];
        assert(t[i] == c);
        lemma_run_shift(s, c, d, i);
        text_laws::lemma_run(t, c, i);
        let j = i + text::run_of(t, c, i) as int;
        if split::is_marker(c) {
            assert(j > i);
            lemma_stripped_shift(s, d, j, false);
        } else if c == '#' && fresh {
            assert(j > i);
            lemma_run_shift(s, ' ', d, j);
            text_laws::lemma_run(t, ' ', j);
            lemma_stripped_shift(s, d, j + text::run_of(t, ' ', j), false);
        } else {
            lemma_link_shift(s, d, i);
            lemma_autolink_shift(s, d, i);
            text::lemma_next_at(t, ']', i + 1);
            text::lemma_next_at(t, '>', i + 1);
            if c == '[' && split::link_at(t, i) is Some {
                let (close, end) = split::link_at(t, i)->0;
                text::lemma_next_at(t, ')', close + 2);
                assert(s.subrange(d + i + 1, d + close) =~= t.subrange(i + 1, close));
                lemma_stripped_shift(s, d, end + 1, false);
            } else if c == '<' && split::autolink_at(t, i) is Some {
                let end = split::autolink_at(t, i)->0;
                assert(s.subrange(d + i + 1, d + end) =~= t.subrange(i + 1, end));
                lemma_stripped_shift(s, d, end + 1, false);
            } else {
                lemma_stripped_shift(s, d, i + 1, c == '\n');
            }
        }
    }
}

/// Where no heading begins, it makes no difference whether a line does.
proof fn lemma_fresh(s: Seq<char>, fresh: bool)
    requires
        s.len() > 0 ==> s[0] != '#',
    ensures
        split::stripped_from(s, 0, fresh) == split::stripped(s),
{
}

/// Whether a text is made of characters that are no markdown of any kind.
pub open spec fn all_plain(s: Seq<char>) -> bool {
    forall|k: int| 0 <= k < s.len() ==> split::is_plain(#[trigger] s[k])
}

proof fn lemma_plain_prefix(a: Seq<char>, x: Seq<char>, i: int, fresh: bool)
    requires
        0 <= i <= a.len(),
        all_plain(a),
        i == 0 ==> fresh,
        i > 0 ==> fresh == (a[i - 1] == '\n'),
    ensures
        split::stripped_from(a + x, i, fresh) == a.skip(i) + split::stripped_from(
            x,
            0,
            a.len() == 0 || a.last() == '\n',
        ),
    decreases a.len() - i,
{
    let s = a + x;
    if i < a.len() {
        assert(s[i] == a[i]);
        assert(split::is_plain(a[i]));
        lemma_plain_prefix(a, x, i + 1, a[i] == '\n');
        assert(a.skip(i) =~= seq![a[i]] + a.skip(i + 1));
        assert(split::stripped_from(s, i, fresh) == seq![a[i]] + split::stripped_from(
            s,
            i + 1,
            a[i] == '\n',
        ));
        assert(split::stripped_from(s, i, fresh) =~= a.skip(i) + split::stripped_from(
            x,
            0,
            a.last() == '\n',
        ));
    } else {
        lemma_stripped_shift(s, i, 0, fresh);
        assert(s.skip(i) =~= x);
        assert(a.skip(i) =~= Seq::<char>::empty());
        assert(a.skip(i) + split::stripped_from(x, 0, fresh) =~= split::stripped_from(x, 0, fresh));
    }
}

/// Marks of emphasis and of code are dropped, and the text around them stays.
pub proof fn marks_are_dropped(a: Seq<char>, marks: Seq<char>, rest: Seq<char>)
    requires
        all_plain(a),
        marks.len() > 0,
        marks[0] == '*' || marks[0] == '_' || marks[0] == '`',
        forall|j: int| 0 <= j < marks.len() ==> #[trigger] marks[j] == marks[0],
        rest.len() > 0 ==> rest[0] != marks[0] && rest[0] != '#',
    ensures
        split::stripped(a + marks + rest) == a + split::stripped(rest),
{
    let x = marks + rest;
    assert(a + marks + rest =~= a + x);
    lemma_plain_prefix(a, x, 0, true);
    assert(a.skip(0) =~= a);
    let fresh = a.len() == 0 || a.last() == '\n';
    let n = marks.len() as int;
    assert forall|j: int| 0 <= j < n implies x[j] == marks[0] by {
        assert(x[j] == marks[j]);
    }
    if n < x.len() {
        assert(x[n] == rest[0]);
    }
    text_laws::lemma_run_is(x, marks[0], 0, n);
    assert(x[0] == marks[0]);
    assert(split::stripped_from(x, 0, fresh) == split::stripped_from(x, n, false));
    lemma_stripped_shift(x, n, 0, false);
    assert(x.skip(n) =~= rest);
    lemma_fresh(rest, false);
}

/// The marks of a heading and the spaces after them are dropped at the beginning of a
/// line; anywhere else such a mark is text.
pub proof fn headings_lose_their_marks(
    a: Seq<char>,
    marks: Seq<char>,
    spaces: Seq<char>,
    rest: Seq<char>,
)
    requires
        all_plain(a),
        marks.len() > 0,
        forall|j: int| 0 <= j < marks.len() ==> #[trigger] marks[j] == '#',
        forall|j: int| 0 <= j < spaces.len() ==> #[trigger] spaces[j] == ' ',
        rest.len() > 0 ==> rest[0] != '#' && rest[0] != ' ',
    ensures
        a.len() == 0 || a.last() == '\n' ==> split::stripped(a + marks + spaces + rest) == a
            + split::stripped(rest),
        a.len() > 0 && a.last() != '\n' ==> split::stripped(a + marks + spaces + rest) == a + marks
            + spaces + split::stripped(rest),
{
    let x = marks + spaces + rest;
    assert(a + marks + spaces + rest =~= a + x);
    lemma_plain_prefix(a, x, 0, true);
    assert(a.skip(0) =~= a);
    let n = marks.len() as int;
    let m = n + spaces.len();
    assert forall|j: int| 0 <= j < n implies x[j] == '#' by {
        assert(x[j] == marks[j]);
    }
    assert forall|j: int| n <= j < m implies x[j] == ' ' by {
        assert(x[j] == spaces[j - n]);
    }
    if m < x.len() {
        assert(x[m] == rest[0]);
    }
    assert(x.skip(m) =~= rest);
    if a.len() == 0 || a.last() == '\n' {
        if n < x.len() {
            assert(n < m || n == m);
        }
        text_laws::lemma_run_is(x, '#', 0, n);
        text_laws::lemma_run_is(x, ' ', n, m);
        assert(x[0] == '#');
        assert(split::stripped_from(x, 0, true) == split::stripped_from(x, m, false));
        lemma_stripped_shift(x, m, 0, false);
        lemma_fresh(rest, false);
    } else {
        lemma_marks_stay(x, 0, m);
        assert(x.subrange(0, m) =~= marks + spaces);
        lemma_stripped_shift(x, m, 0, false);
        lemma_fresh(rest, false);
        assert(a + ((marks + spaces) + split::stripped(rest)) =~= a + marks + spaces
            + split::stripped(rest));
    }
}

proof fn lemma_marks_stay(x: Seq<char>, i: int, m: int)
    requires
        0 <= i <= m <= x.len(),
        forall|j: int| 0 <= j < m ==> x[j] == '#' || x[j] == ' ',
    ensures
        split::stripped_from(x, i, false) == x.subrange(i, m) + split::stripped_from(x, m, false),
    decreases m - i,
{
    if i < m {
        assert(x[i] == '#' || x[i] == ' ');
        lemma_marks_stay(x, i + 1, m);
        assert(x.subrange(i, m) =~= seq![x[i]] + x.subrange(i + 1, m));
        assert(split::stripped_from(x, i, false) =~= x.subrange(i, m) + split::stripped_from(
            x,
            m,
            false,
        ));
    } else {
        assert(x.subrange(i, m) =~= Seq::<char>::empty());
        assert(Seq::<char>::empty() + split::stripped_from(x, m, false) =~= split::stripped_from(
            x,
            m,
            false,
        ));
    }
}

/// Of a link its label is left, of an address in angle brackets the address; the text
/// around them stays.
pub proof fn links_leave_their_label(
    a: Seq<char>,
    label: Seq<char>,
    url: Seq<char>,
    rest: Seq<char>,
)
    requires
        all_plain(a),
        rest.len() > 0 ==> rest[0] != '#',
    ensures
        !label.contains(']') && !url.contains(')') ==> split::stripped(
            a + seq!['['] + label + seq![']', '('] + url + seq![')'] + rest,
        ) == a + label + split::stripped(rest),
        !url.contains('>') && (text::begins_with(url, "http://"@) || text::begins_with(
            url,
            "https://"@,
        )) ==> split::stripped(a + seq!['<'] + url + seq!['>'] + rest) == a + url + split::stripped(
            rest,
        ),
{
    if !label.contains(']') && !url.contains(')') {
        lemma_label(a, label, url, rest);
    }
    if !url.contains('>') && (text::begins_with(url, "http://"@) || text::begins_with(
        url,
        "https://"@,
    )) {
        lemma_address(a, url, rest);
    }
}

proof fn lemma_label(a: Seq<char>, label: Seq<char>, url: Seq<char>, rest: Seq<char>)
    requires
        all_plain(a),
        rest.len() > 0 ==> rest[0] != '#',
        !label.contains(']') && !url.contains(')'),
    ensures
        split::stripped(a + seq!['['] + label + seq![']', '('] + url + seq![')'] + rest) == a
            + label + split::stripped(rest),
{
    let x = seq!['['] + label + seq![']', '('] + url + seq![')'] + rest;
    assert(a + seq!['['] + label + seq![']', '('] + url + seq![')'] + rest =~= a + x);
    lemma_plain_prefix(a, x, 0, true);
    assert(a.skip(0) =~= a);
    let fresh = a.len() == 0 || a.last() == '\n';
    let close = 1 + label.len() as int;
    let end = close + 2 + url.len();
    assert(x[0] == '[');
    assert forall|j: int| 1 <= j < close implies x[j] != ']' by {
        assert(x[j] == label[j - 1]);
        assert(label.contains(label[j - 1]));
    }
    assert(x[close] == ']' && x[close + 1] == '(');
    text_laws::lemma_next_is(x, ']', 1, close);
    assert forall|j: int| close + 2 <= j < end implies x[j] != ')' by {
        assert(x[j] == url[j - close - 2]);
        assert(url.contains(url[j - close - 2]));
    }
    assert(x[end] == ')');
    text_laws::lemma_next_is(x, ')', close + 2, end);
    assert(split::link_at(x, 0) == Some((close, end)));
    assert(x.subrange(1, close) =~= label);
    assert(x.skip(end + 1) =~= rest);
    lemma_stripped_shift(x, end + 1, 0, false);
    lemma_fresh(rest, false);
    assert(split::stripped_from(x, 0, fresh) == label + split::stripped(rest));
    assert(a + (label + split::stripped(rest)) =~= a + label + split::stripped(rest));
}

proof fn lemma_address(a: Seq<char>, url: Seq<char>, rest: Seq<char>)
    requires
        all_plain(a),
        rest.len() > 0 ==> rest[0] != '#',
        !url.contains('>'),
        text::begins_with(url, "http://"@) || text::begins_with(url, "https://"@),
    ensures
        split::stripped(a + seq!['<'] + url + seq!['>'] + rest) == a + url + split::stripped(rest),
{
    let x = seq!['<'] + url + seq!['>'] + rest;
    assert(a + seq!['<'] + url + seq!['>'] + rest =~= a + x);
    lemma_plain_prefix(a, x, 0, true);
    assert(a.skip(0) =~= a);
    let fresh = a.len() == 0 || a.last() == '\n';
    let end = 1 + url.len() as int;
    assert(x[0] == '<');
    assert forall|j: int| 1 <= j < end implies x[j] != '>' by {
        assert(x[j] == url[j - 1]);
        assert(url.contains(url[j - 1]));
    }
    assert(x[end] == '>');
    text_laws::lemma_next_is(x, '>', 1, end);
    assert(x.subrange(1, end) =~= url);
    assert(split::autolink_at(x, 0) == Some(end));
    assert(x.skip(end + 1) =~= rest);
    lemma_stripped_shift(x, end + 1, 0, false);
    lemma_fresh(rest, false);
    assert(split::stripped_from(x, 0, fresh) == url + split::stripped(rest));
    assert(a + (url + split::stripped(rest)) =~= a + url + split::stripped(rest));
}

/// A bracket that opens no link, and an angle bracket that opens no address, is text.
pub proof fn other_brackets_stay(a: Seq<char>, rest: Seq<char>)
    requires
        all_plain(a),
        rest.len() > 0 ==> rest[0] != '#',
    ensures
        !rest.contains(']') ==> split::stripped(a + seq!['['] + rest) == a + seq!['[']
            + split::stripped(rest),
        !rest.contains('>') || !(text::begins_with(rest, "http://"@) || text::begins_with(
            rest,
            "https://"@,
        )) ==> split::stripped(a + seq!['<'] + rest) == a + seq!['<'] + split::stripped(rest),
{
    let fresh = a.len() == 0 || a.last() == '\n';
    assert(a.skip(0) =~= a);
    lemma_fresh(rest, false);
    if !rest.contains(']') {
        let x = seq!['['] + rest;
        assert(a + seq!['['] + rest =~= a + x);
        lemma_plain_prefix(a, x, 0, true);
        assert forall|j: int| 1 <= j < x.len() implies x[j] != ']' by {
            assert(x[j] == rest[j - 1]);
            assert(rest.contains(rest[j - 1]));
        }
        text_laws::lemma_next_is(x, ']', 1, x.len() as int);
        assert(x[0] == '[');
        lemma_stripped_shift(x, 1, 0, false);
        assert(x.skip(1) =~= rest);
        assert(split::stripped_from(x, 0, fresh) == seq!['['] + split::stripped_from(x, 1, false));
        assert(a + (seq!['['] + split::stripped(rest)) =~= a + seq!['['] + split::stripped(rest));
    }
    if !rest.contains('>') || !(text::begins_with(rest, "http://"@) || text::begins_with(
        rest,
        "https://"@,
    )) {
        let x = seq!['<'] + rest;
        assert(a + seq!['<'] + rest =~= a + x);
        lemma_plain_prefix(a, x, 0, true);
        assert(x[0] == '<');
        lemma_no_address(rest);
        lemma_stripped_shift(x, 1, 0, false);
        assert(x.skip(1) =~= rest);
        assert(split::stripped_from(x, 0, fresh) == seq!['<'] + split::stripped_from(x, 1, false));
        assert(a + (seq!['<'] + split::stripped(rest)) =~= a + seq!['<'] + split::stripped(rest));
    }
}

proof fn lemma_no_address(rest: Seq<char>)
    requires
        !rest.contains('>') || !(text::begins_with(rest, "http://"@) || text::begins_with(
            rest,
            "https://"@,
        )),
    ensures
        split::autolink_at(seq!['<'] + rest, 0) is None,
{
    let x = seq!['<'] + rest;
    text::lemma_next_at(x, '>', 1);
    let end = text::next_at(x, '>', 1);
    if end < x.len() {
        assert(rest[end - 1] == x[end]);
        assert(rest.contains('>'));
        let token = x.subrange(1, end);
        assert(token =~= rest.take(end - 1));
        lemma_prefix_of_take(rest, end - 1, "http://"@);
        lemma_prefix_of_take(rest, end - 1, "https://"@);
    }
}

proof fn lemma_prefix_of_take(s: Seq<char>, n: int, prefix: Seq<char>)
    requires
        0 <= n <= s.len(),
    ensures
        text::begins_with(s.take(n), prefix) ==> text::begins_with(s, prefix),
{
    if text::begins_with(s.take(n), prefix) {
        assert(s.take(n).take(prefix.len() as int) =~= s.take(prefix.len() as int));
    }
}

// ---- Lines ------------------------------------------------------------------

proof fn lemma_first_word(current: Seq<char>, word: Seq<char>)
    requires
        word.len() > 0,
        text::no_white(word),
        current.len() > 0 ==> !text::is_white(current[0]),
    ensures
        text::first_word(word) == word,
        current.len() > 0 ==> text::first_word(split::with_word(current, word))
            == text::first_word(current),
        current.len() == 0 ==> split::with_word(current, word) == word,
{
    assert(!text::is_white(word[0]));
    assert(text::trimmed_start(word) == word);
    lemma_word_end_is(word, 0, word.len() as int);
    assert(word.take(word.len() as int) =~= word);
    if current.len() > 0 {
        let s = split::with_word(current, word);
        assert(s[0] == current[0]);
        assert(text::trimmed_start(s) == s);
        assert(text::trimmed_start(current) == current);
        text::lemma_word_end(current, 0);
        let end = text::word_end(current, 0);
        assert forall|j: int| 0 <= j < end implies !text::is_white(s[j]) by {
            assert(s[j] == current[j]);
        }
        text_laws::ascii_white_space(' ');
        lemma_word_ends_white(current, 0);
        if end < current.len() {
            assert(s[end] == current[end]);
        } else {
            assert(s[end] == ' ');
        }
        lemma_word_end_is(s, 0, end);
        assert(s.take(end) =~= current.take(end));
    }
}

proof fn lemma_word_ends_white(s: Seq<char>, i: int)
    requires
        0 <= i <= s.len(),
    ensures
        text::word_end(s, i) < s.len() ==> text::is_white(s[text::word_end(s, i)]),
    decreases s.len() - i,
{
    if i < s.len() && !text::is_white(s[i]) {
        lemma_word_ends_white(s, i + 1);
    }
}

proof fn lemma_word_end_is(s: Seq<char>, i: int, end: int)
    requires
        0 <= i <= end <= s.len(),
        forall|j: int| i <= j < end ==> !text::is_white(s[j]),
        end < s.len() ==> text::is_white(s[end]),
    ensures
        text::word_end(s, i) == end,
    decreases end - i,
{
    if i < end {
        lemma_word_end_is(s, i + 1, end);
    }
}

/// Whether no line could have taken the first word of the next one.
pub open spec fn is_greedy(lines: Seq<Seq<char>>, budget: nat) -> bool {
    forall|i: int|
        0 <= i < lines.len() - 1 ==> !split::in_budget(
            #[trigger] lines[i] + seq![' '] + text::first_word(lines[i + 1]),
            budget,
        )
}

proof fn lemma_greedy(words: Seq<Seq<char>>, k: int, current: Seq<char>, budget: nat)
    requires
        0 <= k <= words.len(),
        forall|j: int|
            0 <= j < words.len() ==> (#[trigger] words[j]).len() > 0 && text::no_white(words[j])
                && split::in_budget(words[j], budget),
        current.len() > 0 ==> !text::is_white(current[0]),
    ensures
        ({
            let out = split::packed(words, k, current, budget);
            &&& is_greedy(out, budget)
            &&& text::joined(out, seq![' ']) == text::joined(
                split::finished(current) + words.skip(k),
                seq![' '],
            )
            &&& current.len() > 0 ==> out.len() > 0 && text::first_word(out[0])
                == text::first_word(current)
            &&& current.len() == 0 && k < words.len() ==> out.len() > 0 && text::first_word(out[0])
                == words[k]
            &&& current.len() == 0 && k == words.len() ==> out.len() == 0
        }),
    decreases words.len() - k,
{
    let out = split::packed(words, k, current, budget);
    let sep = seq![' '];
    if k < words.len() {
        let word = words[k];
        let rest = words.skip(k + 1);
        assert(words.skip(k) =~= seq![word] + rest);
        lemma_first_word(current, word);
        if split::in_budget(split::with_word(current, word), budget) {
            let next = split::with_word(current, word);
            if current.len() > 0 {
                assert(next[0] == current[0]);
            } else {
                assert(!text::is_white(word[0]));
            }
            lemma_greedy(words, k + 1, next, budget);
            text::lemma_joined_front(next, rest, sep);
            assert(split::finished(next) + rest =~= seq![next] + rest);
            text::lemma_joined_front(word, rest, sep);
            if current.len() > 0 {
                text::lemma_joined_front(current, seq![word] + rest, sep);
                assert(split::finished(current) + words.skip(k) =~= seq![current] + (seq![word]
                    + rest));
                assert(text::joined(seq![next] + rest, sep) =~= text::joined(
                    seq![current] + (seq![word] + rest),
                    sep,
                ));
            } else {
                assert(split::finished(current) + words.skip(k) =~= seq![word] + rest);
            }
        } else {
            assert(current.len() > 0);
            assert(!text::is_white(word[0]));
            lemma_greedy(words, k + 1, word, budget);
            let later = split::packed(words, k + 1, word, budget);
            assert(out =~= seq![current] + later);
            text::lemma_joined_front(current, later, sep);
            text::lemma_joined_front(current, seq![word] + rest, sep);
            assert(split::finished(current) + words.skip(k) =~= seq![current] + (seq![word]
                + rest));
            assert(split::finished(word) + rest =~= seq![word] + rest);
            assert forall|i: int| 0 <= i < out.len() - 1 implies !split::in_budget(
                #[trigger] out[i] + seq![' '] + text::first_word(out[i + 1]),
                budget,
            ) by {
                assert(out[i + 1] == later[i]);
                if i > 0 {
                    assert(out[i] == later[i - 1]);
                }
            }
        }
    } else {
        assert(words.skip(k) =~= Seq::<Seq<char>>::empty());
        assert(split::finished(current) + words.skip(k) =~= out);
    }
}

/// The lines of a line whose words fit hold as many words as they can: joined by spaces
/// they are the words joined by spaces, and none could have taken a word more.
pub proof fn lines_hold_as_many_words_as_they_can(line: Seq<char>, target: Seq<char>)
    requires
        forall|j: int|
            0 <= j < text::words(line).len() ==> split::in_budget(
                #[trigger] text::words(line)[j],
                split::byte_budget(target),
            ),
    ensures
        ({
            let parts = split::line_parts(line, split::byte_budget(target));
            &&& text::joined(parts, seq![' ']) == text::joined(text::words(line), seq![' '])
            &&& is_greedy(parts, split::byte_budget(target))
        }),
{
    let words = text::words(line);
    text::lemma_words(line, 0);
    lemma_greedy(words, 0, Seq::empty(), split::byte_budget(target));
    assert(words.skip(0) =~= words);
    assert(split::finished(Seq::<char>::empty()) + words =~= words);
}

} // verus!
