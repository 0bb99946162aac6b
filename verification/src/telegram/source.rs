//! Cutting the raw markdown of a long reply into source chunks.
//!
//! The source is cut at line boundaries. A fenced code block that has to be cut
//! is closed at the end of one chunk and opened again in the next, a table keeps
//! its header with every part of its rows, and only a line that is itself over
//! the budget is cut inside.

use crate::telegram::blocks;
use crate::text;
use vstd::prelude::*;
use vstd::slice::slice_subrange;

verus! {

/// Telegram caps a single message at this many UTF-16 code units.
pub const TELEGRAM_MAX_UTF16: usize = 4096;

/// Room kept free for the `(N/M)` indicator of a chunk and its separator.
pub const INDICATOR_RESERVE: usize = 16;

/// The most UTF-16 code units that the body of a chunk may have.
pub const BODY_BUDGET: usize = 4080;

/// The most UTF-16 code units of source that go into one chunk. Escaping at most
/// doubles a text, so half of the body budget is safe.
pub const SOURCE_BUDGET: usize = 2040;

// ---- Cutting by size --------------------------------------------------------

/// How many characters of `s` from index `k` on fit into `limit` code units, counted
/// as the index at which the fit ends.
pub open spec fn fit_end(s: Seq<char>, limit: int, k: int) -> int
    decreases s.len() - k,
{
    if k < 0 || k >= s.len() || text::utf16_width(s[k]) > limit {
        k
    } else {
        fit_end(s, limit - text::utf16_width(s[k]), k + 1)
    }
}

/// The length of the longest prefix of `s` that has at most `limit` code units.
pub open spec fn fit(s: Seq<char>, limit: int) -> int {
    fit_end(s, limit, 0)
}

pub proof fn lemma_fit_end(s: Seq<char>, limit: int, k: int)
    requires
        0 <= k <= s.len(),
        limit >= 0,
    ensures
        k <= fit_end(s, limit, k) <= s.len(),
        text::utf16_units(s.subrange(k, fit_end(s, limit, k))) <= limit,
        fit_end(s, limit, k) < s.len() ==> text::utf16_units(
            s.subrange(k, fit_end(s, limit, k) + 1),
        ) > limit,
        k < s.len() && limit >= 2 ==> fit_end(s, limit, k) > k,
    decreases s.len() - k,
{
    if k < s.len() {
        text::lemma_units_one(s[k]);
        assert(s.subrange(k, k + 1) =~= seq![s[k]]);
        if text::utf16_width(s[k]) <= limit {
            let rest = limit - text::utf16_width(s[k]);
            lemma_fit_end(s, rest, k + 1);
            let e = fit_end(s, rest, k + 1);
            assert(s.subrange(k, e) =~= seq![s[k]] + s.subrange(k + 1, e));
            text::lemma_units_add(seq![s[k]], s.subrange(k + 1, e));
            if e < s.len() {
                assert(s.subrange(k, e + 1) =~= seq![s[k]] + s.subrange(k + 1, e + 1));
                text::lemma_units_add(seq![s[k]], s.subrange(k + 1, e + 1));
            }
        } else {
            assert(s.subrange(k, k) =~= Seq::empty());
        }
    } else {
        assert(s.subrange(k, k) =~= Seq::empty());
    }
}

/// The full pieces that are cut from the front of `s` while it is over `limit`.
pub open spec fn full_pieces(s: Seq<char>, limit: int) -> Seq<Seq<char>>
    decreases s.len(),
    when limit >= 2
    via full_pieces_decreases
{
    if text::utf16_units(s) > limit {
        seq![s.take(fit(s, limit))] + full_pieces(s.skip(fit(s, limit)), limit)
    } else {
        Seq::empty()
    }
}

#[via_fn]
proof fn full_pieces_decreases(s: Seq<char>, limit: int) {
    lemma_fit_end(s, limit, 0);
    if s.len() == 0 {
        assert(text::utf16_units(s) == 0);
    }
}

/// What is left of `s` when the full pieces are cut from its front.
pub open spec fn last_piece(s: Seq<char>, limit: int) -> Seq<char>
    decreases s.len(),
    when limit >= 2
    via last_piece_decreases
{
    if text::utf16_units(s) > limit {
        last_piece(s.skip(fit(s, limit)), limit)
    } else {
        s
    }
}

#[via_fn]
proof fn last_piece_decreases(s: Seq<char>, limit: int) {
    lemma_fit_end(s, limit, 0);
    if s.len() == 0 {
        assert(text::utf16_units(s) == 0);
    }
}

/// The length of the longest prefix of `s` that has at most `limit` code units.
pub fn split_at_utf16(s: &[char], limit: usize) -> (k: usize)
    ensures
        k == fit(s@, limit as int),
        k <= s@.len(),
        s@.len() > 0 && limit >= 2 ==> k > 0,
{
    let mut left: usize = limit;
    let mut k: usize = 0;
    proof {
        lemma_fit_end(s@, limit as int, 0);
    }
    while k < s.len() && text::len_utf16(s[k]) <= left
        invariant
            k <= s@.len(),
            fit(s@, limit as int) == fit_end(s@, left as int, k as int),
        decreases s@.len() - k,
    {
        left = left - text::len_utf16(s[k]);
        k = k + 1;
    }
    k
}

/// Appends the full pieces of `s` to `chunks` and returns what is left.
pub fn cut_pieces(chunks: &mut Vec<Vec<char>>, s: &[char], limit: usize) -> (rest: Vec<char>)
    requires
        2 <= limit < usize::MAX,
    ensures
        text::vec_views(final(chunks)@) == text::vec_views(old(chunks)@) + full_pieces(
            s@,
            limit as int,
        ),
        rest@ == last_piece(s@, limit as int),
{
    let n: usize = s.len();
    let mut from: usize = 0;
    let ghost begin = text::vec_views(chunks@);
    assert(s@.skip(0) =~= s@);
    assert(begin + full_pieces(s@, limit as int) =~= begin + full_pieces(s@.skip(0), limit as int));
    while text::utf16_capped(text::skip(s, from), limit + 1) > limit
        invariant
            2 <= limit < usize::MAX,
            n == s@.len(),
            from <= n,
            begin + full_pieces(s@, limit as int) == text::vec_views(chunks@) + full_pieces(
                s@.skip(from as int),
                limit as int,
            ),
            last_piece(s@, limit as int) == last_piece(s@.skip(from as int), limit as int),
        decreases s@.len() - from,
    {
        let rest = text::skip(s, from);
        proof {
            if rest@.len() == 0 {
                assert(text::utf16_units(rest@) == 0);
            }
        }
        let k: usize = split_at_utf16(rest, limit);
        let ghost before = text::vec_views(chunks@);
        chunks.push(text::copy_chars(text::take(rest, k)));
        assert(text::vec_views(chunks@) =~= before + seq![rest@.take(k as int)]);
        assert(s@.skip(from + k) =~= rest@.skip(k as int));
        proof {
            vstd::seq_lib::lemma_concat_associative(
                before,
                seq![rest@.take(k as int)],
                full_pieces(s@.skip(from + k), limit as int),
            );
        }
        from = from + k;
    }
    assert(text::vec_views(chunks@) + Seq::<Seq<char>>::empty() =~= text::vec_views(chunks@));
    text::copy_chars(text::skip(s, from))
}

// ---- Lines ------------------------------------------------------------------

/// `current` with `line` below it.
pub open spec fn with_line(current: Seq<char>, line: Seq<char>) -> Seq<char> {
    if current.len() == 0 {
        line
    } else {
        current + seq!['\n'] + line
    }
}

/// The line that opens and closes a fenced block.
pub open spec fn fence_line(fence: char) -> Seq<char> {
    seq![fence, fence, fence]
}

/// The fence that is open after `line`, when `open` is open before it.
pub open spec fn fence_after(open: Option<char>, line: Seq<char>) -> Option<char> {
    match (open, blocks::fence_at(line)) {
        (None, marker) => marker,
        (Some(f), Some(m)) => if m == f {
            None
        } else {
            open
        },
        (Some(f), None) => open,
    }
}

/// Whether `line` does not fit below `current`.
pub open spec fn overflows(current: Seq<char>, line: Seq<char>) -> bool {
    current.len() > 0 && text::utf16_units(current) + 1 + text::utf16_units(line) > SOURCE_BUDGET
}

/// The chunk that has to be closed before `line` can be added: an open fence gets
/// its closing line.
pub open spec fn closed_before(current: Seq<char>, open: Option<char>, line: Seq<char>) -> Seq<
    Seq<char>,
> {
    if overflows(current, line) {
        match open {
            None => seq![current],
            Some(f) => seq![with_line(current, fence_line(f))],
        }
    } else {
        Seq::empty()
    }
}

/// What stands above `line` in its chunk: an open fence is opened again.
pub open spec fn kept_before(current: Seq<char>, open: Option<char>, line: Seq<char>) -> Seq<char> {
    if overflows(current, line) {
        match open {
            None => Seq::empty(),
            Some(f) => fence_line(f),
        }
    } else {
        current
    }
}

/// The chunk under construction once `line` is added, before it is cut by size.
pub open spec fn grown(current: Seq<char>, open: Option<char>, line: Seq<char>) -> Seq<char> {
    with_line(kept_before(current, open, line), line)
}

// ---- Tables -----------------------------------------------------------------

/// The parts of a table from row `i` on, with `current` begun.
pub open spec fn table_parts(
    prefix: Seq<char>,
    rows: Seq<Seq<char>>,
    i: int,
    current: Seq<char>,
) -> Seq<Seq<char>>
    decreases rows.len() - i,
{
    if i >= rows.len() {
        seq![current]
    } else if current.len() > prefix.len() && text::utf16_units(current) + 1 + text::utf16_units(
        rows[i],
    ) > SOURCE_BUDGET {
        seq![current] + table_parts(prefix, rows, i + 1, prefix + seq!['\n'] + rows[i])
    } else {
        table_parts(prefix, rows, i + 1, current + seq!['\n'] + rows[i])
    }
}

/// The header and the delimiter row of a table.
pub open spec fn table_prefix(header: Seq<char>, delimiter: Seq<char>) -> Seq<char> {
    header + seq!['\n'] + delimiter
}

/// The parts of a table: each repeats the header and the delimiter row.
pub open spec fn table_pieces(
    header: Seq<char>,
    delimiter: Seq<char>,
    rows: Seq<Seq<char>>,
) -> Seq<Seq<char>> {
    table_parts(table_prefix(header, delimiter), rows, 0, table_prefix(header, delimiter))
}

// ---- Documents --------------------------------------------------------------

/// `current` as a chunk, unless it is empty.
pub open spec fn flushed(current: Seq<char>) -> Seq<Seq<char>> {
    if current.len() > 0 {
        seq![current]
    } else {
        Seq::empty()
    }
}

/// The source chunks of the lines from `i` on, with `current` under construction
/// and the fence in `open` open.
pub open spec fn chunks_from(
    lines: Seq<Seq<char>>,
    i: int,
    current: Seq<char>,
    open: Option<char>,
) -> Seq<Seq<char>>
    decreases lines.len() - i,
    when 0 <= i <= lines.len()
    via chunks_from_decreases
{
    if i >= lines.len() {
        flushed(current)
    } else if open is None && blocks::table_starts(lines, i) {
        let end = blocks::table_end(lines, i + 2);
        flushed(current) + table_pieces(lines[i], lines[i + 1], lines.subrange(i + 2, end))
            + chunks_from(lines, end, Seq::empty(), None)
    } else {
        let next = grown(current, open, lines[i]);
        closed_before(current, open, lines[i]) + full_pieces(next, SOURCE_BUDGET as int)
            + chunks_from(
            lines,
            i + 1,
            last_piece(next, SOURCE_BUDGET as int),
            fence_after(open, lines[i]),
        )
    }
}

#[via_fn]
proof fn chunks_from_decreases(
    lines: Seq<Seq<char>>,
    i: int,
    current: Seq<char>,
    open: Option<char>,
) {
    if i < lines.len() && blocks::table_starts(lines, i) {
        blocks::lemma_table_end(lines, i + 2);
    }
}

/// The source chunks of a reply: at least one, possibly empty.
pub open spec fn source_chunks(markdown: Seq<char>) -> Seq<Seq<char>> {
    let chunks = chunks_from(text::split_on(markdown, '\n'), 0, Seq::empty(), None);
    if chunks.len() == 0 {
        seq![Seq::empty()]
    } else {
        chunks
    }
}

/// Appends `line` below `current`.
fn push_source_line(current: &mut Vec<char>, line: &[char])
    ensures
        final(current)@ == with_line(old(current)@, line@),
{
    if current.len() > 0 {
        current.push('\n');
    }
    text::push_all(current, line);
    assert(current@ =~= with_line(old(current)@, line@));
}

/// Whether `line` does not fit below `current`.
fn line_overflows(current: &Vec<char>, line: &[char]) -> (b: bool)
    ensures
        b == overflows(current@, line@),
{
    current.len() > 0 && text::utf16_capped(current.as_slice(), TELEGRAM_MAX_UTF16) + 1
        + text::utf16_capped(line, TELEGRAM_MAX_UTF16) > SOURCE_BUDGET
}

/// The line that opens and closes a fenced block.
fn fence_chars(fence: char) -> (out: Vec<char>)
    ensures
        out@ == fence_line(fence),
{
    let mut out: Vec<char> = Vec::new();
    out.push(fence);
    out.push(fence);
    out.push(fence);
    assert(out@ =~= fence_line(fence));
    out
}

/// Appends the parts of a table to `chunks`.
fn push_table_parts(chunks: &mut Vec<Vec<char>>, header: &[char], delimiter: &[char], rows: &[&[char]])
    ensures
        text::vec_views(final(chunks)@) == text::vec_views(old(chunks)@) + table_pieces(
            header@,
            delimiter@,
            text::slice_views(rows@),
        ),
{
    let ghost all = text::slice_views(rows@);
    let mut prefix = text::copy_chars(header);
    prefix.push('\n');
    text::push_all(&mut prefix, delimiter);
    assert(prefix@ =~= table_prefix(header@, delimiter@));
    let mut current = text::copy_chars(prefix.as_slice());
    let ghost begin = text::vec_views(chunks@);
    let ghost whole = table_pieces(header@, delimiter@, all);
    let mut i: usize = 0;
    while i < rows.len()
        invariant
            all == text::slice_views(rows@),
            i <= rows@.len(),
            text::vec_views(chunks@) + table_parts(prefix@, all, i as int, current@) == begin
                + whole,
        decreases rows@.len() - i,
    {
        let row = rows[i];
        assert(all[i as int] == row@);
        let ghost before = text::vec_views(chunks@);
        let ghost shown = current@;
        if current.len() > prefix.len() && text::utf16_capped(
            current.as_slice(),
            TELEGRAM_MAX_UTF16,
        ) + 1 + text::utf16_capped(row, TELEGRAM_MAX_UTF16) > SOURCE_BUDGET {
            chunks.push(current);
            current = text::copy_chars(prefix.as_slice());
            current.push('\n');
            text::push_all(&mut current, row);
            assert(current@ =~= prefix@ + seq!['\n'] + row@);
            assert(text::vec_views(chunks@) =~= before + seq![shown]);
            proof {
                vstd::seq_lib::lemma_concat_associative(
                    before,
                    seq![shown],
                    table_parts(prefix@, all, i + 1, current@),
                );
            }
        } else {
            current.push('\n');
            text::push_all(&mut current, row);
            assert(current@ =~= shown + seq!['\n'] + row@);
        }
        i = i + 1;
    }
    let ghost before = text::vec_views(chunks@);
    let ghost shown = current@;
    chunks.push(current);
    assert(text::vec_views(chunks@) =~= before + seq![shown]);
}

/// The source chunks of a reply.
pub fn split_source(markdown: &[char]) -> (chunks: Vec<Vec<char>>)
    ensures
        text::vec_views(chunks@) == source_chunks(markdown@),
        chunks@.len() >= 1,
{
    let lines = text::split_char(markdown, '\n');
    let ghost all = text::slice_views(lines@);
    let ghost whole = chunks_from(all, 0, Seq::empty(), None);
    let mut chunks: Vec<Vec<char>> = Vec::new();
    let mut current: Vec<char> = Vec::new();
    let mut open: Option<char> = None;
    let mut i: usize = 0;
    assert(current@ =~= Seq::empty());
    assert(text::vec_views(chunks@) + whole =~= whole);
    while i < lines.len()
        invariant
            all == text::slice_views(lines@),
            i <= lines@.len(),
            text::vec_views(chunks@) + chunks_from(all, i as int, current@, open) == whole,
        decreases lines@.len() - i,
    {
        let line = lines[i];
        assert(all[i as int] == line@);
        let ghost before = text::vec_views(chunks@);
        let ghost shown = current@;
        let ghost was_open = open;
        let ghost from = i as int;
        if open.is_none() && blocks::starts_table(&lines, i) {
            assert(all[i + 1] == lines@[i + 1]@);
            if current.len() > 0 {
                chunks.push(current);
            }
            assert(text::vec_views(chunks@) =~= before + flushed(shown));
            current = Vec::new();
            let end: usize = blocks::find_table_end(&lines, i + 2);
            let rows = slice_subrange(lines.as_slice(), i + 2, end);
            assert(text::slice_views(rows@) =~= all.subrange(i + 2, end as int));
            push_table_parts(&mut chunks, line, lines[i + 1], rows);
            proof {
                assert(current@ =~= Seq::empty());
                let pieces = table_pieces(line@, all[i + 1], all.subrange(i + 2, end as int));
                let rest = chunks_from(all, end as int, Seq::empty(), None);
                assert(chunks_from(all, from, shown, was_open) == flushed(shown) + pieces + rest);
                assert(before + (flushed(shown) + pieces + rest) =~= before + flushed(shown)
                    + pieces + rest);
            }
            i = end;
        } else {
            if line_overflows(&current, line) {
                if let Some(f) = open {
                    let fence = fence_chars(f);
                    push_source_line(&mut current, fence.as_slice());
                    chunks.push(current);
                    current = fence;
                } else {
                    chunks.push(current);
                    current = Vec::new();
                    assert(current@ =~= Seq::empty());
                }
                assert(text::vec_views(chunks@) =~= before + closed_before(shown, was_open, line@));
            } else {
                assert(before + Seq::<Seq<char>>::empty() =~= before);
            }
            push_source_line(&mut current, line);
            let ghost next = current@;
            assert(next == grown(shown, was_open, line@));
            current = cut_pieces(&mut chunks, current.as_slice(), SOURCE_BUDGET);
            let marker = blocks::line_fence(line);
            open =
            match open {
                None => marker,
                Some(f) => match marker {
                    Some(m) => if m == f {
                        None
                    } else {
                        Some(f)
                    },
                    None => Some(f),
                },
            };
            proof {
                let closed = closed_before(shown, was_open, line@);
                let pieces = full_pieces(next, SOURCE_BUDGET as int);
                let rest = chunks_from(all, i + 1, current@, open);
                assert(open == fence_after(was_open, line@));
                assert(chunks_from(all, from, shown, was_open) == closed + pieces + rest);
                assert(before + (closed + pieces + rest) =~= before + closed + pieces + rest);
            }
            i = i + 1;
        }
    }
    let ghost before = text::vec_views(chunks@);
    let ghost shown = current@;
    if current.len() > 0 {
        chunks.push(current);
    }
    assert(text::vec_views(chunks@) =~= before + flushed(shown));
    if chunks.len() == 0 {
        assert(whole.len() == 0);
        chunks.push(Vec::new());
        assert(text::vec_views(chunks@) =~= seq![Seq::empty()]);
    }
    chunks
}

} // verus!
