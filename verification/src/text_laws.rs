//! What joining, splitting, trimming and replacing do to a text.

use crate::lines;
use crate::markup;
use crate::text;
use vstd::prelude::*;

verus! {

// ---- Joining and splitting --------------------------------------------------

/// Joining puts the separator between any two neighbours and nowhere else: nothing of
/// nothing, one part as it is, and two runs of parts joined are the two joined texts
/// with a separator between.
pub proof fn joining_puts_separators_between(
    a: Seq<Seq<char>>,
    b: Seq<Seq<char>>,
    part: Seq<char>,
    sep: Seq<char>,
)
    ensures
        text::joined(Seq::empty(), sep) == Seq::<char>::empty(),
        text::joined(seq![part], sep) == part,
        a.len() > 0 && b.len() > 0 ==> text::joined(a + b, sep) == text::joined(a, sep) + sep
            + text::joined(b, sep),
    decreases b.len(),
{
    if b.len() == 1 {
        assert((a + b).drop_last() =~= a);
        assert(b =~= seq![b[0]]);
    } else if b.len() > 1 {
        joining_puts_separators_between(a, b.drop_last(), part, sep);
        assert((a + b).drop_last() =~= a + b.drop_last());
        if a.len() > 0 {
            assert(text::joined(a + b, sep) =~= text::joined(a, sep) + sep + text::joined(b, sep));
        }
    }
}

/// The parts of a text hold no separator, and joined by it they are the text again.
pub proof fn parts_joined_are_the_text(s: Seq<char>, c: char)
    ensures
        text::joined(text::split_on(s, c), seq![c]) == s,
        text::split_on(s, c).len() >= 1,
        forall|k: int|
            0 <= k < text::split_on(s, c).len() ==> !(#[trigger] text::split_on(s, c)[k]).contains(
                c,
            ),
{
    lemma_parts_joined(s, c, 0);
    assert(s.skip(0) =~= s);
}

proof fn lemma_parts_joined(s: Seq<char>, c: char, i: int)
    requires
        0 <= i <= s.len(),
    ensures
        text::joined(text::split_from(s, c, i), seq![c]) == s.skip(i),
        text::split_from(s, c, i).len() >= 1,
        forall|k: int|
            0 <= k < text::split_from(s, c, i).len() ==> !(#[trigger] text::split_from(
                s,
                c,
                i,
            )[k]).contains(c),
    decreases s.len() - i,
{
    text::lemma_next_at(s, c, i);
    let end = text::next_at(s, c, i);
    let all = text::split_from(s, c, i);
    let first = s.subrange(i, end);
    assert(!first.contains(c)) by {
        assert forall|j: int| 0 <= j < first.len() implies first[j] != c by {
            assert(first[j] == s[i + j]);
        }
    }
    if end >= s.len() {
        assert(first =~= s.skip(i));
    } else {
        lemma_parts_joined(s, c, end + 1);
        let rest = text::split_from(s, c, end + 1);
        text::lemma_joined_front(first, rest, seq![c]);
        assert(first + seq![c] + s.skip(end + 1) =~= s.skip(i));
        assert forall|k: int| 0 <= k < all.len() implies !(#[trigger] all[k]).contains(c) by {
            if k > 0 {
                assert(all[k] == rest[k - 1]);
            }
        }
    }
}

/// Parts without a separator that are joined by it are the parts of the joined text.
pub proof fn joined_parts_are_split_again(parts: Seq<Seq<char>>, c: char)
    requires
        parts.len() > 0,
        forall|k: int| 0 <= k < parts.len() ==> !(#[trigger] parts[k]).contains(c),
    ensures
        text::split_on(text::joined(parts, seq![c]), c) == parts,
    decreases parts.len(),
{
    let first = parts[0];
    let rest = parts.skip(1);
    assert(parts =~= seq![first] + rest);
    text::lemma_joined_front(first, rest, seq![c]);
    if rest.len() == 0 {
        lemma_next_is(first, c, 0, first.len() as int);
        assert(first.subrange(0, first.len() as int) =~= first);
        assert(text::split_on(first, c) =~= seq![first]);
    } else {
        let s = text::joined(parts, seq![c]);
        let tail = text::joined(rest, seq![c]);
        let n = first.len() as int;
        assert forall|k: int| 0 <= k < rest.len() implies !(#[trigger] rest[k]).contains(c) by {
            assert(rest[k] == parts[k + 1]);
        }
        joined_parts_are_split_again(rest, c);
        assert forall|j: int| 0 <= j < n implies s[j] != c by {
            assert(s[j] == first[j]);
            assert(!first.contains(c));
        }
        assert(s[n] == c);
        lemma_next_is(s, c, 0, n);
        assert(s.subrange(0, n) =~= first);
        lemma_split_shift(s, c, n + 1, 0);
        assert(s.skip(n + 1) =~= tail);
    }
}

/// The next occurrence is where one is, and none is before it.
pub(crate) proof fn lemma_next_is(s: Seq<char>, c: char, i: int, end: int)
    requires
        0 <= i <= end <= s.len(),
        end < s.len() ==> s[end] == c,
        forall|j: int| i <= j < end ==> s[j] != c,
    ensures
        text::next_at(s, c, i) == end,
{
    text::lemma_next_at(s, c, i);
    let r = text::next_at(s, c, i);
    if r < end {
        assert(s[r] != c);
    }
    if end < r {
        assert(s[end] != c);
    }
}

pub(crate) proof fn lemma_next_shift(s: Seq<char>, c: char, d: int, i: int)
    requires
        0 <= d,
        0 <= i,
        d + i <= s.len(),
    ensures
        text::next_at(s, c, d + i) == d + text::next_at(s.skip(d), c, i),
{
    let t = s.skip(d);
    text::lemma_next_at(t, c, i);
    let end = text::next_at(t, c, i);
    assert forall|j: int| d + i <= j < d + end implies s[j] != c by {
        assert(s[j] == t[j - d]);
    }
    if end < t.len() {
        assert(s[d + end] == t[end]);
    }
    lemma_next_is(s, c, d + i, d + end);
}

pub(crate) proof fn lemma_split_shift(s: Seq<char>, c: char, d: int, i: int)
    requires
        0 <= d,
        0 <= i,
        d + i <= s.len(),
    ensures
        text::split_from(s, c, d + i) == text::split_from(s.skip(d), c, i),
    decreases s.len() - i,
{
    let t = s.skip(d);
    lemma_next_shift(s, c, d, i);
    text::lemma_next_at(t, c, i);
    let end = text::next_at(t, c, i);
    assert(s.subrange(d + i, d + end) =~= t.subrange(i, end));
    if end < t.len() {
        lemma_split_shift(s, c, d, end + 1);
    }
}

// ---- Lines ------------------------------------------------------------------

/// The lines of a text: a line feed ends a line, with the carriage return before it;
/// what follows has lines of its own. A text without a line feed is one line, and the
/// empty text has none.
pub proof fn lines_end_at_line_feeds(line: Seq<char>, rest: Seq<char>)
    requires
        !line.contains('\n'),
    ensures
        lines::lines(Seq::<char>::empty()) == Seq::<Seq<char>>::empty(),
        line.len() > 0 ==> lines::lines(line) == seq![line],
        lines::lines(line + seq!['\n'] + rest) == seq![
            if line.len() > 0 && line.last() == '\r' {
                line.drop_last()
            } else {
                line
            },
        ] + lines::lines(rest),
{
    let n = line.len() as int;
    assert(lines::lines(Seq::<char>::empty()) =~= Seq::<Seq<char>>::empty());
    if n > 0 {
        assert forall|j: int| 0 <= j < n implies line[j] != '\n' by {
            assert(!line.contains('\n'));
        }
        lemma_next_is(line, '\n', 0, n);
        assert(line.skip(0) =~= line);
        assert(lines::lines(line) =~= seq![line]);
    }
    let s = line + seq!['\n'] + rest;
    assert forall|j: int| 0 <= j < n implies s[j] != '\n' by {
        assert(s[j] == line[j]);
        assert(!line.contains('\n'));
    }
    assert(s[n] == '\n');
    lemma_next_is(s, '\n', 0, n);
    assert(s.subrange(0, n) =~= line);
    lemma_lines_shift(s, n + 1, 0);
    assert(s.skip(n + 1) =~= rest);
}

proof fn lemma_lines_shift(s: Seq<char>, d: int, i: int)
    requires
        0 <= d,
        0 <= i,
        d + i <= s.len(),
    ensures
        lines::lines_from(s, d + i) == lines::lines_from(s.skip(d), i),
    decreases s.len() - i,
{
    let t = s.skip(d);
    lemma_next_shift(s, '\n', d, i);
    text::lemma_next_at(t, '\n', i);
    let end = text::next_at(t, '\n', i);
    if i < t.len() {
        if end < t.len() {
            assert(s.subrange(d + i, d + end) =~= t.subrange(i, end));
            lemma_lines_shift(s, d, end + 1);
        } else {
            assert(s.skip(d + i) =~= t.skip(i));
        }
    }
}

/// No line holds a line feed.
pub proof fn lines_hold_no_line_feeds(s: Seq<char>, k: int)
    requires
        0 <= k < lines::lines(s).len(),
    ensures
        !lines::lines(s)[k].contains('\n'),
{
    lemma_lines_unbroken(s, 0, k);
}

proof fn lemma_lines_unbroken(s: Seq<char>, i: int, k: int)
    requires
        0 <= i <= s.len(),
        0 <= k < lines::lines_from(s, i).len(),
    ensures
        !lines::lines_from(s, i)[k].contains('\n'),
    decreases s.len() - i,
{
    text::lemma_next_at(s, '\n', i);
    let end = text::next_at(s, '\n', i);
    let all = lines::lines_from(s, i);
    if i < s.len() {
        let line = if end >= s.len() {
            s.skip(i)
        } else {
            lines::without_return(s.subrange(i, end))
        };
        assert forall|j: int| 0 <= j < line.len() implies line[j] != '\n' by {
            assert(line[j] == s[i + j]);
        }
        if k > 0 {
            lemma_lines_unbroken(s, end + 1, k - 1);
            assert(all[k] == lines::lines_from(s, end + 1)[k - 1]);
        }
    }
}

// ---- Trimming ---------------------------------------------------------------

/// Trimming takes white space from the start and nothing else, and leaves none there.
pub proof fn trimming_the_start_takes_white_space_alone(s: Seq<char>)
    ensures
        ({
            let t = text::trimmed_start(s);
            let n = s.len() - t.len();
            &&& 0 <= n && t == s.skip(n)
            &&& forall|j: int| 0 <= j < n ==> text::is_white(#[trigger] s[j])
            &&& t.len() > 0 ==> !text::is_white(t[0])
        }),
    decreases s.len(),
{
    if s.len() > 0 && text::is_white(s[0]) {
        let rest = s.skip(1);
        trimming_the_start_takes_white_space_alone(rest);
        let t = text::trimmed_start(s);
        let n = s.len() - t.len();
        assert(t =~= s.skip(n));
        assert forall|j: int| 0 <= j < n implies text::is_white(#[trigger] s[j]) by {
            if j > 0 {
                assert(s[j] == rest[j - 1]);
            }
        }
    } else {
        assert(s.skip(0) =~= s);
    }
}

/// Trimming takes white space from the end and nothing else, and leaves none there.
pub proof fn trimming_the_end_takes_white_space_alone(s: Seq<char>)
    ensures
        ({
            let t = text::trimmed_end(s);
            &&& t.len() <= s.len() && t == s.take(t.len() as int)
            &&& forall|j: int| t.len() <= j < s.len() ==> text::is_white(#[trigger] s[j])
            &&& t.len() > 0 ==> !text::is_white(t.last())
        }),
    decreases s.len(),
{
    if s.len() > 0 && text::is_white(s.last()) {
        let rest = s.drop_last();
        trimming_the_end_takes_white_space_alone(rest);
        let t = text::trimmed_end(s);
        assert(t =~= s.take(t.len() as int));
        assert forall|j: int| t.len() <= j < s.len() implies text::is_white(#[trigger] s[j]) by {
            if j < s.len() - 1 {
                assert(s[j] == rest[j]);
            }
        }
    } else {
        assert(s.take(s.len() as int) =~= s);
    }
}

/// A trimmed text is the part of the text between the white space at its two ends: it
/// neither begins nor ends with any, and nothing but white space is around it.
pub proof fn trimming_takes_white_space_alone(s: Seq<char>)
    ensures
        exists|i: int|
            0 <= i && i + text::trimmed(s).len() <= s.len() && text::trimmed(s)
                == #[trigger] s.subrange(i, i + text::trimmed(s).len()) && (forall|j: int|
                0 <= j < s.len() && !(i <= j < i + text::trimmed(s).len()) ==> text::is_white(
                    #[trigger] s[j],
                )),
        text::trimmed(s).len() > 0 ==> !text::is_white(text::trimmed(s)[0]) && !text::is_white(
            text::trimmed(s).last(),
        ),
{
    let u = text::trimmed_start(s);
    let t = text::trimmed(s);
    trimming_the_start_takes_white_space_alone(s);
    trimming_the_end_takes_white_space_alone(u);
    let i = s.len() - u.len();
    assert(t =~= s.subrange(i, i + t.len()));
    assert forall|j: int| 0 <= j < s.len() && !(i <= j < i + t.len()) implies text::is_white(
        #[trigger] s[j],
    ) by {
        if j >= i {
            assert(s[j] == u[j - i]);
        }
    }
}

/// A text that neither begins nor ends with white space keeps all of it.
pub proof fn trimmed_text_stays(s: Seq<char>)
    requires
        s.len() > 0 ==> !text::is_white(s[0]) && !text::is_white(s.last()),
    ensures
        text::trimmed(s) == s,
        text::trimmed_start(s) == s,
        text::trimmed_end(s) == s,
{
}

/// White space at the two ends of a text makes no difference to it once it is trimmed.
pub proof fn white_space_around_is_trimmed(a: Seq<char>, s: Seq<char>, b: Seq<char>)
    requires
        forall|j: int| 0 <= j < a.len() ==> text::is_white(#[trigger] a[j]),
        forall|j: int| 0 <= j < b.len() ==> text::is_white(#[trigger] b[j]),
    ensures
        text::trimmed(a + s + b) == text::trimmed(s),
    decreases a.len() + b.len(),
{
    let all = a + s + b;
    if a.len() > 0 {
        assert(all[0] == a[0]);
        assert(all.skip(1) =~= a.skip(1) + s + b);
        assert forall|j: int| 0 <= j < a.skip(1).len() implies text::is_white(
            #[trigger] a.skip(1)[j],
        ) by {
            assert(a.skip(1)[j] == a[j + 1]);
        }
        white_space_around_is_trimmed(a.skip(1), s, b);
    } else if b.len() > 0 {
        let less = s + b.drop_last();
        assert(a + s + b.drop_last() =~= less);
        white_space_around_is_trimmed(a, s, b.drop_last());
        lemma_end_trimmed(less, b.last());
        assert(all =~= less.push(b.last()));
    } else {
        assert(all =~= s);
    }
}

proof fn lemma_end_trimmed(s: Seq<char>, c: char)
    requires
        text::is_white(c),
    ensures
        text::trimmed(s.push(c)) == text::trimmed(s),
    decreases s.len(),
{
    let t = s.push(c);
    if s.len() > 0 && text::is_white(s[0]) {
        assert(t.skip(1) =~= s.skip(1).push(c));
        lemma_end_trimmed(s.skip(1), c);
    } else if s.len() > 0 {
        assert(t.drop_last() =~= s);
        assert(text::trimmed_start(t) == t);
    } else {
        assert(t.skip(1) =~= Seq::<char>::empty());
        assert(s =~= Seq::<char>::empty());
    }
}

/// Line breaks, tabs and spaces are white space; what ASCII prints is not.
pub proof fn ascii_white_space(c: char)
    ensures
        c == ' ' || c == '\t' || c == '\n' || c == '\r' ==> text::is_white(c),
        '!' <= c <= '~' ==> !text::is_white(c),
{
}

// ---- Replacing --------------------------------------------------------------

/// Whether `pattern` stands in `s` at index `i`.
pub open spec fn stands_at(s: Seq<char>, pattern: Seq<char>, i: int) -> bool {
    0 <= i && i + pattern.len() <= s.len() && s.subrange(i, i + pattern.len()) == pattern
}

pub(crate) proof fn lemma_stands(s: Seq<char>, pattern: Seq<char>, i: int)
    requires
        0 <= i <= s.len(),
    ensures
        text::begins_with(s.skip(i), pattern) == stands_at(s, pattern, i),
{
    if i + pattern.len() <= s.len() {
        assert(s.skip(i).take(pattern.len() as int) =~= s.subrange(i, i + pattern.len()));
    }
}

/// Text in which a pattern does not stand stays as it is.
pub proof fn text_without_the_pattern_stays(s: Seq<char>, pattern: Seq<char>, with: Seq<char>)
    requires
        pattern.len() > 0,
        forall|i: int| 0 <= i < s.len() ==> !stands_at(s, pattern, i),
    ensures
        text::replaced(s, pattern, with) == s,
{
    lemma_absent(s, pattern, with, 0);
    assert(s.skip(0) =~= s);
}

proof fn lemma_absent(s: Seq<char>, pattern: Seq<char>, with: Seq<char>, i: int)
    requires
        0 <= i <= s.len(),
        pattern.len() > 0,
        forall|j: int| i <= j < s.len() ==> !stands_at(s, pattern, j),
    ensures
        text::replaced_from(s, pattern, with, i) == s.skip(i),
    decreases s.len() - i,
{
    if i < s.len() {
        lemma_stands(s, pattern, i);
        lemma_absent(s, pattern, with, i + 1);
        assert(seq![s[i]] + s.skip(i + 1) =~= s.skip(i));
    } else {
        assert(s.skip(i) =~= Seq::<char>::empty());
    }
}

/// The first occurrence of a pattern is replaced, what stands before it stays, and
/// what stands after it is replaced likewise.
pub proof fn the_first_occurrence_is_replaced(
    a: Seq<char>,
    pattern: Seq<char>,
    b: Seq<char>,
    with: Seq<char>,
)
    requires
        pattern.len() > 0,
        forall|i: int| 0 <= i < a.len() ==> !stands_at(a + pattern + b, pattern, i),
    ensures
        text::replaced(a + pattern + b, pattern, with) == a + with + text::replaced(
            b,
            pattern,
            with,
        ),
{
    lemma_first(a, pattern, b, with, 0);
    assert(a.skip(0) =~= a);
}

proof fn lemma_first(
    a: Seq<char>,
    pattern: Seq<char>,
    b: Seq<char>,
    with: Seq<char>,
    i: int,
)
    requires
        0 <= i <= a.len(),
        pattern.len() > 0,
        forall|j: int| 0 <= j < a.len() ==> !stands_at(a + pattern + b, pattern, j),
    ensures
        text::replaced_from(a + pattern + b, pattern, with, i) == a.skip(i) + with
            + text::replaced(b, pattern, with),
    decreases a.len() - i,
{
    let s = a + pattern + b;
    lemma_stands(s, pattern, i);
    if i < a.len() {
        lemma_first(a, pattern, b, with, i + 1);
        assert(s[i] == a[i]);
        assert(seq![s[i]] + (a.skip(i + 1) + with + text::replaced(b, pattern, with)) =~= a.skip(i)
            + with + text::replaced(b, pattern, with));
    } else {
        let n = i + pattern.len();
        assert(s.subrange(i, n) =~= pattern);
        lemma_replaced_shift(s, pattern, with, n, 0);
        assert(s.skip(n) =~= b);
        assert(a.skip(i) + with =~= with);
    }
}

pub(crate) proof fn lemma_replaced_shift(
    s: Seq<char>,
    pattern: Seq<char>,
    with: Seq<char>,
    d: int,
    i: int,
)
    requires
        0 <= d <= s.len(),
        0 <= i,
    ensures
        text::replaced_from(s, pattern, with, d + i) == text::replaced_from(
            s.skip(d),
            pattern,
            with,
            i,
        ),
    decreases s.len() - d - i,
{
    let t = s.skip(d);
    if d + i < s.len() && pattern.len() > 0 {
        assert(s.skip(d + i) =~= t.skip(i));
        if text::begins_with(t.skip(i), pattern) {
            lemma_replaced_shift(s, pattern, with, d, i + pattern.len());
        } else {
            lemma_replaced_shift(s, pattern, with, d, i + 1);
        }
    }
}

/// Where a pattern and what replaces it hold the same of some kind of characters, the
/// replaced text holds the same of them as the text, in the same order.
pub proof fn what_both_hold_is_kept(
    s: Seq<char>,
    pattern: Seq<char>,
    with: Seq<char>,
    keep: spec_fn(char) -> bool,
)
    requires
        pattern.len() > 0,
        pattern.filter(keep) == with.filter(keep),
    ensures
        text::replaced(s, pattern, with).filter(keep) == s.filter(keep),
{
    lemma_kept(s, pattern, with, keep, 0);
    assert(s.skip(0) =~= s);
}

proof fn lemma_kept(
    s: Seq<char>,
    pattern: Seq<char>,
    with: Seq<char>,
    keep: spec_fn(char) -> bool,
    i: int,
)
    requires
        0 <= i <= s.len(),
        pattern.len() > 0,
        pattern.filter(keep) == with.filter(keep),
    ensures
        text::replaced_from(s, pattern, with, i).filter(keep) == s.skip(i).filter(keep),
    decreases s.len() - i,
{
    if i < s.len() {
        lemma_stands(s, pattern, i);
        if stands_at(s, pattern, i) {
            let n = i + pattern.len();
            lemma_kept(s, pattern, with, keep, n);
            Seq::filter_distributes_over_add(
                with,
                text::replaced_from(s, pattern, with, n),
                keep,
            );
            Seq::filter_distributes_over_add(pattern, s.skip(n), keep);
            assert(s.skip(i) =~= pattern + s.skip(n));
        } else {
            lemma_kept(s, pattern, with, keep, i + 1);
            Seq::filter_distributes_over_add(
                seq![s[i]],
                text::replaced_from(s, pattern, with, i + 1),
                keep,
            );
            Seq::filter_distributes_over_add(seq![s[i]], s.skip(i + 1), keep);
            assert(s.skip(i) =~= seq![s[i]] + s.skip(i + 1));
        }
    } else {
        assert(s.skip(i) =~= Seq::<char>::empty());
    }
}

/// Whether a text is a word behind an at sign: no other at sign is in it.
pub open spec fn is_call(word: Seq<char>) -> bool {
    &&& word.len() > 1
    &&& word[0] == '@'
    &&& forall|j: int| 0 < j < word.len() ==> #[trigger] word[j] != '@'
}

/// Where a call is replaced by another that differs right after the at sign, it stands
/// nowhere any more, and no other call that differs there too has come up.
pub proof fn replaced_calls_are_gone(
    s: Seq<char>,
    pattern: Seq<char>,
    with: Seq<char>,
    call: Seq<char>,
)
    requires
        is_call(pattern),
        is_call(with),
        is_call(call),
        with[1] != call[1],
        call == pattern || forall|i: int| !stands_at(s, call, i),
    ensures
        forall|i: int| !stands_at(text::replaced(s, pattern, with), call, i),
{
    assert forall|k: int| !stands_at(text::replaced(s, pattern, with), call, k) by {
        lemma_call_gone(s, pattern, with, call, 0, k);
    }
}

proof fn lemma_call_gone(
    s: Seq<char>,
    pattern: Seq<char>,
    with: Seq<char>,
    call: Seq<char>,
    i: int,
    k: int,
)
    requires
        0 <= i,
        is_call(pattern),
        is_call(with),
        is_call(call),
        with[1] != call[1],
        call == pattern || forall|j: int| !stands_at(s, call, j),
    ensures
        !stands_at(text::replaced_from(s, pattern, with, i), call, k),
    decreases s.len() - i,
{
    let r = text::replaced_from(s, pattern, with, i);
    if i < s.len() && 0 <= k && k + call.len() <= r.len() {
        lemma_stands(s, pattern, i);
        let found = r.subrange(k, k + call.len());
        assert(found[0] == r[k] && found[1] == r[k + 1]);
        if stands_at(s, pattern, i) {
            let rest = text::replaced_from(s, pattern, with, i + pattern.len());
            if k == 0 {
                assert(r[1] == with[1]);
            } else if k < with.len() {
                assert(r[k] == with[k]);
            } else {
                lemma_call_gone(s, pattern, with, call, i + pattern.len(), k - with.len());
                assert(found =~= rest.subrange(k - with.len(), k - with.len() + call.len()));
            }
        } else {
            let rest = text::replaced_from(s, pattern, with, i + 1);
            if k == 0 {
                if stands_at(r, call, 0) {
                    let tail = call.skip(1);
                    assert(rest.take(tail.len() as int) =~= found.skip(1));
                    assert forall|j: int| 0 <= j < tail.len() implies tail[j] != '@' by {
                        assert(tail[j] == call[j + 1]);
                    }
                    lemma_front(s, pattern, with, i + 1, tail);
                    assert(s.subrange(i, i + call.len()) =~= call) by {
                        assert(s[i] == call[0]);
                        assert(s.skip(i + 1).take(tail.len() as int) == tail);
                        assert forall|j: int| 0 <= j < call.len() implies s[i + j] == call[j] by {
                            if j > 0 {
                                assert(s.skip(i + 1).take(tail.len() as int)[j - 1] == tail[j - 1]);
                            }
                        }
                    }
                    assert(stands_at(s, call, i));
                }
            } else {
                lemma_call_gone(s, pattern, with, call, i + 1, k - 1);
                assert(found =~= rest.subrange(k - 1, k - 1 + call.len()));
            }
        }
    }
}

/// What a replaced text begins with, up to the next at sign, the text began with.
proof fn lemma_front(
    s: Seq<char>,
    pattern: Seq<char>,
    with: Seq<char>,
    i: int,
    q: Seq<char>,
)
    requires
        0 <= i <= s.len(),
        is_call(pattern),
        is_call(with),
        text::begins_with(text::replaced_from(s, pattern, with, i), q),
        forall|j: int| 0 <= j < q.len() ==> #[trigger] q[j] != '@',
    ensures
        text::begins_with(s.skip(i), q),
    decreases q.len(),
{
    let r = text::replaced_from(s, pattern, with, i);
    if q.len() > 0 {
        assert(r.take(q.len() as int)[0] == q[0]);
        assert(r[0] == q[0]);
        if text::begins_with(s.skip(i), pattern) {
            assert(r[0] == with[0]);
        } else {
            let rest = text::replaced_from(s, pattern, with, i + 1);
            let tail = q.skip(1);
            assert(rest.take(tail.len() as int) =~= r.take(q.len() as int).skip(1));
            assert forall|j: int| 0 <= j < tail.len() implies #[trigger] tail[j] != '@' by {
                assert(tail[j] == q[j + 1]);
            }
            lemma_front(s, pattern, with, i + 1, tail);
            assert(s.skip(i).take(q.len() as int) =~= q) by {
                assert forall|j: int| 0 <= j < q.len() implies s[i + j] == q[j] by {
                    if j > 0 {
                        assert(s.skip(i + 1).take(tail.len() as int)[j - 1] == tail[j - 1]);
                    }
                }
            }
        }
    } else {
        assert(s.skip(i).take(0) =~= q);
    }
}

/// A text of which nothing of some kind is kept holds none of it, and the other way
/// round.
pub(crate) proof fn lemma_none_kept(s: Seq<char>, keep: spec_fn(char) -> bool)
    ensures
        s.filter(keep).len() == 0 <==> forall|i: int| 0 <= i < s.len() ==> !keep(#[trigger] s[i]),
{
    broadcast use vstd::seq_lib::group_filter_ensures;

    if s.filter(keep).len() == 0 {
        assert forall|i: int| 0 <= i < s.len() implies !keep(#[trigger] s[i]) by {
            if keep(s[i]) {
                assert(s.filter(keep).contains(s[i]));
            }
        }
    }
    if forall|i: int| 0 <= i < s.len() ==> !keep(#[trigger] s[i]) {
        s.lemma_all_neg_filter_empty(keep);
    }
}

/// A text of which all is of the kind that is kept is kept whole.
pub(crate) proof fn lemma_all_kept(s: Seq<char>, keep: spec_fn(char) -> bool)
    requires
        forall|i: int| 0 <= i < s.len() ==> keep(#[trigger] s[i]),
    ensures
        s.filter(keep) == s,
    decreases s.len(),
{
    reveal(Seq::filter);
    if s.len() > 0 {
        let rest = s.drop_last();
        assert forall|i: int| 0 <= i < rest.len() implies keep(#[trigger] rest[i]) by {
            assert(rest[i] == s[i]);
        }
        lemma_all_kept(rest, keep);
        assert(s[s.len() - 1] == s.last());
        assert(s =~= rest.push(s.last()));
    }
}

// ---- Headings and fences ----------------------------------------------------

/// A line of marks, a space and a title loses the marks and the space; any other line
/// stays as it is.
pub proof fn headings_lose_their_marks(marks: Seq<char>, title: Seq<char>, line: Seq<char>)
    requires
        marks.len() > 0,
        forall|j: int| 0 <= j < marks.len() ==> #[trigger] marks[j] == '#',
        !is_heading(line),
    ensures
        markup::without_heading(marks + seq![' '] + title) == title,
        markup::without_heading(line) == line,
{
    let s = marks + seq![' '] + title;
    let n = marks.len() as int;
    lemma_run_is(s, '#', 0, n);
    assert(s.skip(n + 1) =~= title);
    let m = text::run_of(line, '#', 0) as int;
    lemma_run(line, '#', 0);
    if 0 < m < line.len() && line[m] == ' ' {
        assert(is_heading(line));
    }
}

/// Whether a line begins with marks and a space after them.
pub open spec fn is_heading(line: Seq<char>) -> bool {
    exists|n: int|
        0 < n < line.len() && #[trigger] line[n] == ' ' && forall|j: int|
            0 <= j < n ==> line[j] == '#'
}

/// A run is made of its character, and ends where that is not repeated.
pub proof fn lemma_run(s: Seq<char>, c: char, i: int)
    requires
        0 <= i <= s.len(),
    ensures
        i + text::run_of(s, c, i) <= s.len(),
        forall|j: int| i <= j < i + text::run_of(s, c, i) ==> s[j] == c,
        i + text::run_of(s, c, i) < s.len() ==> s[i + text::run_of(s, c, i)] != c,
    decreases s.len() - i,
{
    if i < s.len() && s[i] == c {
        lemma_run(s, c, i + 1);
    }
}

pub(crate) proof fn lemma_run_is(s: Seq<char>, c: char, i: int, end: int)
    requires
        0 <= i <= end <= s.len(),
        forall|j: int| i <= j < end ==> s[j] == c,
        end < s.len() ==> s[end] != c,
    ensures
        text::run_of(s, c, i) == end - i,
{
    lemma_run(s, c, i);
    let r = i + text::run_of(s, c, i);
    if r < end {
        assert(s[r] == c);
    }
    if end < r {
        assert(s[end] == c);
    }
}

/// A line opens or closes a fenced block if three backticks stand in it with nothing
/// but white space before them, and only then.
pub proof fn fences_begin_with_three_backticks(line: Seq<char>)
    ensures
        markup::is_fence(line) <==> exists|i: int|
            0 <= i && i + 3 <= line.len() && #[trigger] line[i] == '`' && line[i + 1] == '`'
                && line[i + 2] == '`' && forall|j: int|
                0 <= j < i ==> text::is_white(#[trigger] line[j]),
{
    reveal_strlit("```");
    trimming_the_start_takes_white_space_alone(line);
    let t = text::trimmed_start(line);
    let n = line.len() - t.len();
    if markup::is_fence(line) {
        assert(t.take(3)[0] == '`' && t.take(3)[1] == '`' && t.take(3)[2] == '`');
        assert(line[n] == '`' && line[n + 1] == '`' && line[n + 2] == '`');
    }
    if exists|i: int|
        0 <= i && i + 3 <= line.len() && #[trigger] line[i] == '`' && line[i + 1] == '`'
            && line[i + 2] == '`' && forall|j: int|
            0 <= j < i ==> text::is_white(#[trigger] line[j]) {
        let i = choose|i: int|
            0 <= i && i + 3 <= line.len() && #[trigger] line[i] == '`' && line[i + 1] == '`'
                && line[i + 2] == '`' && forall|j: int|
                0 <= j < i ==> text::is_white(#[trigger] line[j]);
        if n < i {
            assert(text::is_white(line[n]));
            assert(t[0] == line[n]);
        }
        if i < n {
            assert(text::is_white(line[i]));
        }
        assert(t.take(3) =~= "```"@);
    }
}

/// Whether the `k`th line is inside a fenced block: an odd number of lines before it
/// open or close one.
pub open spec fn is_inside(list: Seq<Seq<char>>, k: int) -> bool {
    list.take(k).filter(|line: Seq<char>| markup::is_fence(line)).len() % 2 == 1
}

/// After a line that opens or closes a block, the next line is inside where the line
/// was outside, and the other way round; after any other line it is where the line was.
pub(crate) proof fn lemma_inside_next(list: Seq<Seq<char>>, k: int)
    requires
        0 <= k < list.len(),
    ensures
        is_inside(list, k + 1) == if markup::is_fence(list[k]) {
            !is_inside(list, k)
        } else {
            is_inside(list, k)
        },
        !is_inside(list, 0),
{
    reveal(Seq::filter);
    assert(list.take(k + 1).drop_last() =~= list.take(k));
    assert(list.take(k + 1).last() == list[k]);
    assert(list.take(0) =~= Seq::<Seq<char>>::empty());
}

/// What is kept of a list is what is kept of its first element and of the others.
pub(crate) proof fn lemma_filter_front<A>(s: Seq<A>, keep: spec_fn(A) -> bool)
    requires
        s.len() > 0,
    ensures
        keep(s[0]) ==> s.filter(keep) == seq![s[0]] + s.skip(1).filter(keep) && s.filter(keep).len()
            > 0 && s.filter(keep)[0] == s[0],
        !keep(s[0]) ==> s.filter(keep) == s.skip(1).filter(keep),
{
    let one = seq![s[0]];
    let rest = s.skip(1);
    assert(s =~= one + rest);
    Seq::filter_distributes_over_add(one, rest, keep);
    reveal(Seq::filter);
    reveal_with_fuel(Seq::filter, 2);
    assert(one.drop_last() =~= Seq::<A>::empty());
    if keep(s[0]) {
        assert(one.filter(keep) =~= one);
    } else {
        assert(one.filter(keep) =~= Seq::<A>::empty());
        assert(s.filter(keep) =~= rest.filter(keep));
    }
}

/// Nothing is kept of nothing.
pub(crate) proof fn lemma_filter_nothing<A>(s: Seq<A>, keep: spec_fn(A) -> bool)
    requires
        s.len() == 0,
    ensures
        s.filter(keep) == Seq::<A>::empty(),
{
    reveal(Seq::filter);
    assert(s.filter(keep) =~= Seq::<A>::empty());
}

} // verus!
