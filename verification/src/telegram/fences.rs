//! Fenced code blocks stay closed when a reply is cut.

use crate::telegram::blocks;
use crate::telegram::source;
use crate::text;
use vstd::prelude::*;

verus! {

/// The fence that is open after `lines`, when `open` is open before them.
pub open spec fn fence_over(lines: Seq<Seq<char>>, open: Option<char>) -> Option<char>
    decreases lines.len(),
{
    if lines.len() == 0 {
        open
    } else {
        source::fence_after(fence_over(lines.drop_last(), open), lines.last())
    }
}

/// The fence that is still open at the end of a text.
pub open spec fn left_open(s: Seq<char>) -> Option<char> {
    fence_over(text::split_on(s, '\n'), None)
}

/// Whether no header, delimiter or data row of a table begins a fence.
pub open spec fn tables_hold_no_fence(lines: Seq<Seq<char>>) -> bool {
    forall|i: int, j: int|
        #![trigger blocks::table_starts(lines, i), lines[j]]
        blocks::table_starts(lines, i) && i <= j < blocks::table_end(lines, i + 2)
            ==> blocks::fence_at(lines[j]) is None
}

/// Whether every line, with a fence line above it, is within the budget.
pub open spec fn short_lines(lines: Seq<Seq<char>>) -> bool {
    forall|i: int|
        0 <= i < lines.len() ==> text::utf16_units(#[trigger] lines[i]) + 4 <= source::SOURCE_BUDGET
}

proof fn lemma_next_at_is(s: Seq<char>, c: char, i: int, k: int)
    requires
        0 <= i <= k <= s.len(),
        k < s.len() ==> s[k] == c,
        forall|j: int| i <= j < k ==> s[j] != c,
    ensures
        text::next_at(s, c, i) == k,
    decreases k - i,
{
    if i < k {
        lemma_next_at_is(s, c, i + 1, k);
    }
}

proof fn lemma_split_push(a: Seq<char>, b: Seq<char>, start: int)
    requires
        0 <= start <= a.len(),
        text::one_line(b),
    ensures
        text::split_from(a + seq!['\n'] + b, '\n', start) == text::split_from(a, '\n', start).push(
            b,
        ),
    decreases a.len() - start,
{
    let s = a + seq!['\n'] + b;
    let end = text::next_at(a, '\n', start);
    text::lemma_next_at(a, '\n', start);
    if end < a.len() {
        lemma_next_at_is(s, '\n', start, end);
        lemma_split_push(a, b, end + 1);
        assert(s.subrange(start, end) =~= a.subrange(start, end));
        assert(text::split_from(s, '\n', start) =~= text::split_from(a, '\n', start).push(b));
    } else {
        let n = a.len() as int;
        lemma_next_at_is(s, '\n', start, n);
        assert(forall|j: int| n + 1 <= j < s.len() ==> s[j] == b[j - n - 1]);
        lemma_next_at_is(s, '\n', n + 1, s.len() as int);
        assert(s.subrange(start, n) =~= a.subrange(start, n));
        assert(s.subrange(n + 1, s.len() as int) =~= b);
        assert(text::split_from(s, '\n', n + 1) =~= seq![b]);
        assert(text::split_from(s, '\n', start) =~= text::split_from(a, '\n', start).push(b));
    }
}

proof fn lemma_split_one(b: Seq<char>)
    requires
        text::one_line(b),
    ensures
        text::split_on(b, '\n') == seq![b],
{
    lemma_next_at_is(b, '\n', 0, b.len() as int);
    assert(b.subrange(0, b.len() as int) =~= b);
}

proof fn lemma_fence_over_add(a: Seq<Seq<char>>, b: Seq<Seq<char>>, open: Option<char>)
    ensures
        fence_over(a + b, open) == fence_over(b, fence_over(a, open)),
    decreases b.len(),
{
    if b.len() == 0 {
        assert(a + b =~= a);
    } else {
        assert((a + b).drop_last() =~= a + b.drop_last());
        lemma_fence_over_add(a, b.drop_last(), open);
    }
}

proof fn lemma_fence_over_one(line: Seq<char>, open: Option<char>)
    ensures
        fence_over(seq![line], open) == source::fence_after(open, line),
{
    reveal_with_fuel(fence_over, 2);
    assert(seq![line].drop_last() =~= Seq::<Seq<char>>::empty());
}

proof fn lemma_empty_is_closed()
    ensures
        left_open(Seq::empty()) is None,
{
    let none = Seq::<char>::empty();
    lemma_split_one(none);
    lemma_fence_over_one(none, None);
    assert(!text::begins_with(none, seq!['`', '`', '`']));
    assert(!text::begins_with(none, seq!['~', '~', '~']));
}

/// Adding a line to a chunk moves its open fence on as the line says.
proof fn lemma_left_open_with_line(current: Seq<char>, line: Seq<char>)
    requires
        text::one_line(line),
    ensures
        left_open(source::with_line(current, line)) == source::fence_after(left_open(current), line),
{
    if current.len() == 0 {
        assert(current =~= Seq::empty());
        lemma_empty_is_closed();
        lemma_split_one(line);
        lemma_fence_over_one(line, None);
    } else {
        lemma_split_push(current, line, 0);
        let lines = text::split_on(current, '\n');
        assert(lines.push(line).drop_last() =~= lines);
    }
}

proof fn lemma_fence_line(f: char)
    requires
        f == '`' || f == '~',
    ensures
        text::one_line(source::fence_line(f)),
        blocks::fence_at(source::fence_line(f)) == Some(f),
        left_open(source::fence_line(f)) == Some(f),
        text::utf16_units(source::fence_line(f)) == 3,
{
    let line = source::fence_line(f);
    assert(text::trimmed_start(line) == line);
    assert(line.take(3) =~= line);
    assert('`' != '~');
    if f == '~' {
        assert(line[0] != seq!['`', '`', '`'][0]);
    }
    lemma_split_one(line);
    lemma_fence_over_one(line, None);
    text::lemma_units_one(f);
    assert(line =~= seq![f] + seq![f] + seq![f]);
    text::lemma_units_add(seq![f], seq![f]);
    text::lemma_units_add(seq![f] + seq![f], seq![f]);
}

proof fn lemma_with_line_units(current: Seq<char>, line: Seq<char>)
    ensures
        text::utf16_units(source::with_line(current, line)) == text::utf16_units(line) + (
        if current.len() == 0 {
            0
        } else {
            text::utf16_units(current) + 1
        }),
{
    if current.len() > 0 {
        text::lemma_units_one('\n');
        text::lemma_units_add(current, seq!['\n']);
        text::lemma_units_add(current + seq!['\n'], line);
    }
}

/// The fence that is open is one that a line can open.
spec fn known_fence(open: Option<char>) -> bool {
    open matches Some(f) ==> f == '`' || f == '~'
}

/// Every chunk but the last is closed, and the last is left as `end` says.
spec fn closed_up(chunks: Seq<Seq<char>>, end: Option<char>) -> bool {
    &&& forall|k: int| 0 <= k < chunks.len() - 1 ==> left_open(#[trigger] chunks[k]) is None
    &&& chunks.len() > 0 ==> left_open(chunks.last()) == end
    &&& chunks.len() == 0 ==> end is None
}

proof fn lemma_closed_up_add(front: Seq<Seq<char>>, rest: Seq<Seq<char>>, end: Option<char>)
    requires
        closed_up(front, None),
        closed_up(rest, end),
    ensures
        closed_up(front + rest, end),
{
    let all = front + rest;
    assert forall|k: int| 0 <= k < all.len() - 1 implies left_open(#[trigger] all[k]) is None by {
        if k < front.len() {
            if k < front.len() - 1 {
                assert(left_open(front[k]) is None);
            } else {
                assert(left_open(front.last()) is None);
            }
        } else {
            assert(left_open(rest[k - front.len()]) is None);
        }
    }
    if rest.len() > 0 {
        assert(all.last() == rest.last());
    } else if front.len() > 0 {
        assert(all.last() == front.last());
    }
}

proof fn lemma_table_parts_closed(
    prefix: Seq<char>,
    rows: Seq<Seq<char>>,
    i: int,
    current: Seq<char>,
)
    requires
        0 <= i <= rows.len(),
        prefix.len() > 0,
        current.len() > 0,
        left_open(prefix) is None,
        left_open(current) is None,
        forall|k: int|
            0 <= k < rows.len() ==> text::one_line(#[trigger] rows[k]) && blocks::fence_at(
                rows[k],
            ) is None,
    ensures
        closed_up(source::table_parts(prefix, rows, i, current), None),
    decreases rows.len() - i,
{
    if i < rows.len() {
        let row = rows[i];
        lemma_left_open_with_line(prefix, row);
        lemma_left_open_with_line(current, row);
        if current.len() > prefix.len() && text::utf16_units(current) + 1 + text::utf16_units(row)
            > source::SOURCE_BUDGET {
            let next = prefix + seq!['\n'] + row;
            lemma_table_parts_closed(prefix, rows, i + 1, next);
            lemma_closed_up_add(
                seq![current],
                source::table_parts(prefix, rows, i + 1, next),
                None,
            );
        } else {
            lemma_table_parts_closed(prefix, rows, i + 1, current + seq!['\n'] + row);
        }
    }
}

proof fn lemma_no_fence(lines: Seq<Seq<char>>)
    requires
        forall|k: int| 0 <= k < lines.len() ==> blocks::fence_at(#[trigger] lines[k]) is None,
    ensures
        fence_over(lines, None) is None,
    decreases lines.len(),
{
    if lines.len() > 0 {
        let front = lines.drop_last();
        assert forall|k: int| 0 <= k < front.len() implies blocks::fence_at(
            #[trigger] front[k],
        ) is None by {
            assert(front[k] == lines[k]);
        }
        lemma_no_fence(front);
        assert(blocks::fence_at(lines[lines.len() - 1]) is None);
    }
}

proof fn lemma_chunks_closed(
    lines: Seq<Seq<char>>,
    i: int,
    current: Seq<char>,
    open: Option<char>,
)
    requires
        0 <= i <= lines.len(),
        forall|k: int| 0 <= k < lines.len() ==> text::one_line(#[trigger] lines[k]),
        short_lines(lines),
        tables_hold_no_fence(lines),
        left_open(current) == open,
        known_fence(open),
        text::utf16_units(current) <= source::SOURCE_BUDGET,
    ensures
        closed_up(
            source::chunks_from(lines, i, current, open),
            fence_over(lines.skip(i), open),
        ),
    decreases lines.len() - i,
{
    if i >= lines.len() {
        assert(lines.skip(i) =~= Seq::empty());
        if current.len() == 0 {
            assert(current =~= Seq::empty());
            lemma_empty_is_closed();
        }
    } else if open is None && blocks::table_starts(lines, i) {
        blocks::lemma_table_end(lines, i + 2);
        let end = blocks::table_end(lines, i + 2);
        let rows = lines.subrange(i + 2, end);
        let prefix = source::table_prefix(lines[i], lines[i + 1]);
        let pieces = source::table_pieces(lines[i], lines[i + 1], rows);
        let rest = source::chunks_from(lines, end, Seq::empty(), None);
        assert(blocks::fence_at(lines[i]) is None);
        assert(blocks::fence_at(lines[i + 1]) is None);
        assert forall|k: int| 0 <= k < rows.len() implies text::one_line(#[trigger] rows[k])
            && blocks::fence_at(rows[k]) is None by {
            assert(rows[k] == lines[i + 2 + k]);
        }
        assert(lines[i].len() > 0);
        lemma_split_one(lines[i]);
        lemma_fence_over_one(lines[i], None);
        lemma_left_open_with_line(lines[i], lines[i + 1]);
        lemma_table_parts_closed(prefix, rows, 0, prefix);
        lemma_empty_is_closed();
        lemma_chunks_closed(lines, end, Seq::empty(), None);
        let head = lines.subrange(i, end);
        assert forall|k: int| 0 <= k < head.len() implies blocks::fence_at(
            #[trigger] head[k],
        ) is None by {
            assert(head[k] == lines[i + k]);
        }
        lemma_no_fence(head);
        assert(lines.skip(i) =~= head + lines.skip(end));
        lemma_fence_over_add(head, lines.skip(end), None);
        let last = fence_over(lines.skip(end), None);
        lemma_closed_up_add(pieces, rest, last);
        lemma_closed_up_add(source::flushed(current), pieces + rest, last);
        assert(source::flushed(current) + pieces + rest =~= source::flushed(current) + (pieces
            + rest));
    } else {
        let line = lines[i];
        assert(text::one_line(line));
        let kept = source::kept_before(current, open, line);
        let closed = source::closed_before(current, open, line);
        let next = source::grown(current, open, line);
        let after = source::fence_after(open, line);
        if source::overflows(current, line) {
            match open {
                None => {
                    lemma_empty_is_closed();
                },
                Some(f) => {
                    lemma_fence_line(f);
                    lemma_left_open_with_line(current, source::fence_line(f));
                },
            }
        }
        assert(closed_up(closed, None));
        assert(left_open(kept) == open);
        lemma_left_open_with_line(kept, line);
        lemma_with_line_units(kept, line);
        assert(text::utf16_units(next) <= source::SOURCE_BUDGET);
        let full = source::full_pieces(next, source::SOURCE_BUDGET as int);
        let rest = source::chunks_from(lines, i + 1, next, after);
        assert(full =~= Seq::empty());
        lemma_chunks_closed(lines, i + 1, next, after);
        assert(lines.skip(i) =~= seq![line] + lines.skip(i + 1));
        lemma_fence_over_add(seq![line], lines.skip(i + 1), open);
        lemma_fence_over_one(line, open);
        lemma_closed_up_add(closed, rest, fence_over(lines.skip(i), open));
        assert(closed + full + rest =~= closed + rest);
    }
}

/// A reply without overlong lines is cut so that every chunk is a text with its
/// fences closed; the last one is left as the reply itself ends.
pub proof fn cutting_keeps_fences_closed(reply: Seq<char>, k: int)
    requires
        short_lines(text::split_on(reply, '\n')),
        tables_hold_no_fence(text::split_on(reply, '\n')),
        0 <= k < source::source_chunks(reply).len(),
    ensures
        k < source::source_chunks(reply).len() - 1 ==> left_open(
            source::source_chunks(reply)[k],
        ) is None,
        k == source::source_chunks(reply).len() - 1 ==> left_open(source::source_chunks(reply)[k])
            == left_open(reply),
{
    let lines = text::split_on(reply, '\n');
    text::lemma_lines_from(reply, 0);
    lemma_empty_is_closed();
    lemma_chunks_closed(lines, 0, Seq::empty(), None);
    assert(lines.skip(0) =~= lines);
}

} // verus!
