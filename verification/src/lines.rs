//! Cutting text into lines and into pieces of one size.

use crate::text;
use vstd::prelude::*;
use vstd::slice::slice_subrange;

verus! {

/// A line without the carriage return at its end.
pub open spec fn without_return(line: Seq<char>) -> Seq<char> {
    if line.len() > 0 && line.last() == '\r' {
        line.drop_last()
    } else {
        line
    }
}

/// The lines of `s` from index `i` on.
pub open spec fn lines_from(s: Seq<char>, i: int) -> Seq<Seq<char>>
    decreases s.len() - i,
    when 0 <= i <= s.len()
    via lines_from_decreases
{
    let end = text::next_at(s, '\n', i);
    if i == s.len() {
        Seq::empty()
    } else if end >= s.len() {
        seq![s.skip(i)]
    } else {
        seq![without_return(s.subrange(i, end))] + lines_from(s, end + 1)
    }
}

#[via_fn]
proof fn lines_from_decreases(s: Seq<char>, i: int) {
    text::lemma_next_at(s, '\n', i);
}

/// The lines of `s`: each ends with a line feed, or a carriage return and a line
/// feed, that do not belong to it; the last one may end with the text.
pub open spec fn lines(s: Seq<char>) -> Seq<Seq<char>> {
    lines_from(s, 0)
}

/// The lines of `s`.
pub fn split_lines<'a>(s: &'a [char]) -> (list: Vec<&'a [char]>)
    ensures
        text::slice_views(list@) == lines(s@),
{
    let mut list: Vec<&'a [char]> = Vec::new();
    let n: usize = s.len();
    let mut i: usize = 0;
    while i < n
        invariant
            n == s@.len(),
            i <= n,
            text::slice_views(list@) + lines_from(s@, i as int) =~= lines(s@),
        decreases n - i,
    {
        let end: usize = text::find_char(s, '\n', i);
        let ghost before = list@;
        if end >= n {
            let line = slice_subrange(s, i, n);
            list.push(line);
            assert(line@ =~= s@.skip(i as int));
            assert(lines_from(s@, n as int) =~= Seq::<Seq<char>>::empty());
            assert(text::slice_views(list@) =~= text::slice_views(before) + seq![s@.skip(i as int)]);
            i = n;
        } else {
            let stop: usize = if end > i && s[end - 1] == '\r' {
                end - 1
            } else {
                end
            };
            let line = slice_subrange(s, i, stop);
            list.push(line);
            assert(line@ =~= without_return(s@.subrange(i as int, end as int)));
            assert(text::slice_views(list@) + lines_from(s@, end + 1) =~= text::slice_views(before)
                + (seq![line@] + lines_from(s@, end + 1)));
            i = end + 1;
        }
    }
    assert(lines_from(s@, n as int) =~= Seq::<Seq<char>>::empty());
    list
}

/// Lines joined again are the text, where it has no carriage return and does not
/// end with a line feed.
pub proof fn lemma_joined_lines(s: Seq<char>, i: int)
    requires
        0 <= i <= s.len(),
        i < s.len() ==> s.last() != '\n',
        forall|j: int| 0 <= j < s.len() ==> s[j] != '\r',
    ensures
        text::joined(lines_from(s, i), seq!['\n']) == s.skip(i),
        i < s.len() ==> lines_from(s, i).len() > 0,
    decreases s.len() - i,
{
    text::lemma_next_at(s, '\n', i);
    let end = text::next_at(s, '\n', i);
    if i == s.len() {
        assert(s.skip(i) =~= Seq::empty());
    } else if end < s.len() {
        let line = s.subrange(i, end);
        if line.len() > 0 {
            assert(line.last() == s[end - 1]);
        }
        lemma_joined_lines(s, end + 1);
        text::lemma_joined_front(line, lines_from(s, end + 1), seq!['\n']);
        assert(line + seq!['\n'] + s.skip(end + 1) =~= s.skip(i));
    }
}

/// `s` in pieces of `n` characters, of which the last may be shorter.
pub open spec fn pieces(s: Seq<char>, n: nat) -> Seq<Seq<char>>
    decreases s.len(),
{
    if s.len() == 0 {
        Seq::empty()
    } else if n == 0 || s.len() <= n {
        seq![s]
    } else {
        seq![s.take(n as int)] + pieces(s.skip(n as int), n)
    }
}

/// `s` in pieces of `n` characters.
pub fn split_pieces(s: &[char], n: usize) -> (list: Vec<String>)
    requires
        n > 0,
    ensures
        text::views(list@) == pieces(s@, n as nat),
{
    let mut list: Vec<String> = Vec::new();
    let len: usize = s.len();
    let mut i: usize = 0;
    assert(s@.skip(0) =~= s@);
    while i < len
        invariant
            n > 0,
            len == s@.len(),
            i <= len,
            text::views(list@) + pieces(s@.skip(i as int), n as nat) =~= pieces(s@, n as nat),
        decreases len - i,
    {
        let ghost before = list@;
        let ghost rest = s@.skip(i as int);
        let end: usize = if len - i <= n {
            len
        } else {
            i + n
        };
        let piece = text::from_chars(slice_subrange(s, i, end));
        list.push(piece);
        assert(text::views(list@) =~= text::views(before) + seq![piece@]);
        assert(s@.skip(end as int) =~= rest.skip(end - i));
        assert(piece@ =~= rest.take(end - i));
        if len - i <= n {
            assert(rest.take(end - i) =~= rest);
            assert(pieces(s@.skip(end as int), n as nat) =~= Seq::<Seq<char>>::empty());
        } else {
            assert(text::views(before) + (seq![piece@] + pieces(s@.skip(end as int), n as nat))
                =~= text::views(list@) + pieces(s@.skip(end as int), n as nat));
        }
        i = end;
    }
    assert(pieces(s@.skip(len as int), n as nat) =~= Seq::<Seq<char>>::empty());
    list
}

/// Pieces put together are the text; each is at most `n` characters long and holds
/// something, and all but the last are full.
pub proof fn pieces_make_up_the_text(s: Seq<char>, n: nat)
    requires
        n > 0,
    ensures
        text::concatenated(pieces(s, n)) == s,
        forall|i: int|
            0 <= i < pieces(s, n).len() ==> 0 < (#[trigger] pieces(s, n)[i]).len() <= n,
        forall|i: int|
            0 <= i < pieces(s, n).len() - 1 ==> (#[trigger] pieces(s, n)[i]).len() == n,
    decreases s.len(),
{
    if s.len() == 0 {
    } else if s.len() <= n {
        text::lemma_concatenated_one(s);
    } else {
        let head = s.take(n as int);
        let rest = s.skip(n as int);
        pieces_make_up_the_text(rest, n);
        text::lemma_concatenated_add(seq![head], pieces(rest, n));
        text::lemma_concatenated_one(head);
        assert(head + rest =~= s);
        assert forall|i: int| 0 <= i < pieces(s, n).len() implies 0 < (
        #[trigger] pieces(s, n)[i]).len() <= n by {
            if i > 0 {
                assert(pieces(s, n)[i] == pieces(rest, n)[i - 1]);
            }
        }
        assert forall|i: int| 0 <= i < pieces(s, n).len() - 1 implies (
        #[trigger] pieces(s, n)[i]).len() == n by {
            if i > 0 {
                assert(pieces(s, n)[i] == pieces(rest, n)[i - 1]);
            }
        }
    }
}

/// How many characters at the beginning of `s` take at most `limit` bytes.
pub open spec fn fitting(s: Seq<char>, limit: nat) -> nat
    decreases s.len(),
{
    if s.len() == 0 || text::utf8_width(s[0]) > limit {
        0
    } else {
        1 + fitting(s.skip(1), (limit - text::utf8_width(s[0])) as nat)
    }
}

/// The characters that fit take no more than the limit, and one more would.
pub proof fn lemma_fitting(s: Seq<char>, limit: nat)
    ensures
        fitting(s, limit) <= s.len(),
        text::utf8_units(s.take(fitting(s, limit) as int)) <= limit,
        fitting(s, limit) < s.len() ==> text::utf8_units(s.take(fitting(s, limit) as int + 1)) > limit,
    decreases s.len(),
{
    let n = fitting(s, limit);
    if n == 0 {
        assert(s.take(0) =~= Seq::<char>::empty());
        if s.len() > 0 {
            assert(s.take(1) =~= seq![s[0]]);
            text::lemma_units_one(s[0]);
        }
    } else {
        let rest = s.skip(1);
        lemma_fitting(rest, (limit - text::utf8_width(s[0])) as nat);
        assert(s.take(n as int) =~= seq![s[0]] + rest.take(n - 1));
        text::lemma_units_add(seq![s[0]], rest.take(n - 1));
        text::lemma_units_one(s[0]);
        if n < s.len() {
            assert(s.take(n as int + 1) =~= seq![s[0]] + rest.take(n as int));
            text::lemma_units_add(seq![s[0]], rest.take(n as int));
        }
    }
}

/// How many characters at the beginning of `s` take at most `limit` bytes.
pub fn count_fitting(s: &[char], limit: usize) -> (n: usize)
    ensures
        n == fitting(s@, limit as nat),
        n <= s@.len(),
{
    let mut n: usize = 0;
    let mut left: usize = limit;
    assert(s@.skip(0) =~= s@);
    while n < s.len()
        invariant_except_break
            n <= s@.len(),
            fitting(s@, limit as nat) == n + fitting(s@.skip(n as int), left as nat),
        ensures
            n <= s@.len(),
            n == fitting(s@, limit as nat),
        decreases s@.len() - n,
    {
        let width: usize = text::len_utf8(s[n]);
        assert(s@.skip(n as int)[0] == s@[n as int]);
        if width > left {
            break;
        }
        assert(s@.skip(n as int).skip(1) =~= s@.skip(n + 1));
        left = left - width;
        n = n + 1;
    }
    n
}

} // verus!
