//! What holds of every reply that is cut into chunks.

use crate::telegram::blocks;
use crate::telegram::markdown;
use crate::telegram::markdown::{ChunkView, ParseMode};
use crate::telegram::source;
use crate::telegram::spans;
use crate::telegram::spans::Place;
use crate::text;
use crate::text_laws;
use vstd::prelude::*;

verus! {

// ---- Lines ------------------------------------------------------------------

proof fn lemma_units_with_line(current: Seq<char>, line: Seq<char>)
    ensures
        current.len() > 0 ==> text::utf16_units(source::with_line(current, line))
            == text::utf16_units(current) + 1 + text::utf16_units(line),
        current.len() == 0 ==> source::with_line(current, line) == line,
{
    if current.len() > 0 {
        text::lemma_units_add(current + seq!['\n'], line);
        text::lemma_units_add(current, seq!['\n']);
        text::lemma_units_one('\n');
    }
}

proof fn lemma_fits(s: Seq<char>)
    requires
        text::utf16_units(s) <= source::SOURCE_BUDGET,
    ensures
        source::full_pieces(s, source::SOURCE_BUDGET as int) == Seq::<Seq<char>>::empty(),
        source::last_piece(s, source::SOURCE_BUDGET as int) == s,
{
}

/// The first line of a text.
pub open spec fn first_line(s: Seq<char>) -> Seq<char> {
    text::split_on(s, '\n')[0]
}

proof fn lemma_first_line(current: Seq<char>, line: Seq<char>)
    requires
        !line.contains('\n'),
    ensures
        first_line(line) == line,
        current.len() > 0 ==> first_line(source::with_line(current, line)) == first_line(current),
{
    text_laws::joined_parts_are_split_again(seq![line], '\n');
    text_laws::joining_puts_separators_between(seq![line], seq![line], line, seq!['\n']);
    if current.len() > 0 {
        let parts = text::split_on(current, '\n');
        text_laws::parts_joined_are_the_text(current, '\n');
        let all = parts.push(line);
        assert forall|k: int| 0 <= k < all.len() implies !(#[trigger] all[k]).contains('\n') by {
            if k < parts.len() {
                assert(all[k] == parts[k]);
            }
        }
        text::lemma_joined_push(parts, line, seq!['\n']);
        text_laws::joined_parts_are_split_again(all, '\n');
        assert(all[0] == parts[0]);
    }
}

/// Whether no chunk could have taken the first line of the next one.
pub open spec fn is_greedy(chunks: Seq<Seq<char>>) -> bool {
    forall|k: int|
        0 <= k < chunks.len() - 1 ==> text::utf16_units(#[trigger] chunks[k]) + 1
            + text::utf16_units(first_line(chunks[k + 1])) > source::SOURCE_BUDGET
}

/// Whether lines are neither empty nor too long, begin no fence and no table.
pub open spec fn are_plain(lines: Seq<Seq<char>>) -> bool {
    forall|j: int|
        0 <= j < lines.len() ==> (#[trigger] lines[j]).len() > 0 && !lines[j].contains('\n')
            && text::utf16_units(lines[j]) <= source::SOURCE_BUDGET && blocks::fence_at(
            lines[j],
        ) is None && !blocks::table_starts(lines, j)
}

/// What becomes of the next line: it opens a chunk of its own where it does not fit, and
/// stands below the others else.
proof fn lemma_plain_step(lines: Seq<Seq<char>>, i: int, current: Seq<char>)
    requires
        0 <= i < lines.len(),
        are_plain(lines),
        text::utf16_units(current) <= source::SOURCE_BUDGET,
    ensures
        source::overflows(current, lines[i]) ==> source::chunks_from(lines, i, current, None)
            == seq![current] + source::chunks_from(lines, i + 1, lines[i], None),
        !source::overflows(current, lines[i]) ==> source::chunks_from(lines, i, current, None)
            == source::chunks_from(lines, i + 1, source::with_line(current, lines[i]), None)
            && text::utf16_units(source::with_line(current, lines[i])) <= source::SOURCE_BUDGET,
{
    let line = lines[i];
    assert(line.len() > 0);
    lemma_units_with_line(current, line);
    let next = source::grown(current, None, line);
    let none = Seq::<Seq<char>>::empty();
    let rest = source::chunks_from(lines, i + 1, next, None);
    if source::overflows(current, line) {
        lemma_units_with_line(Seq::empty(), line);
        assert(next == line);
        lemma_fits(next);
        assert(seq![current] + none + rest =~= seq![current] + rest);
    } else {
        lemma_fits(next);
        assert(none + none + rest =~= rest);
    }
}

proof fn lemma_plain_chunks(lines: Seq<Seq<char>>, i: int, current: Seq<char>)
    requires
        0 <= i <= lines.len(),
        are_plain(lines),
        text::utf16_units(current) <= source::SOURCE_BUDGET,
    ensures
        ({
            let out = source::chunks_from(lines, i, current, None);
            &&& is_greedy(out)
            &&& text::joined(out, seq!['\n']) == text::joined(
                source::flushed(current) + lines.skip(i),
                seq!['\n'],
            )
            &&& current.len() > 0 ==> out.len() > 0 && first_line(out[0]) == first_line(current)
            &&& current.len() == 0 && i < lines.len() ==> out.len() > 0 && first_line(out[0])
                == lines[i]
        }),
    decreases lines.len() - i,
{
    let out = source::chunks_from(lines, i, current, None);
    let sep = seq!['\n'];
    if i < lines.len() {
        let line = lines[i];
        let rest = lines.skip(i + 1);
        assert(lines.skip(i) =~= seq![line] + rest);
        lemma_first_line(current, line);
        lemma_units_with_line(current, line);
        text::lemma_joined_front(line, rest, sep);
        lemma_plain_step(lines, i, current);
        if source::overflows(current, line) {
            lemma_plain_chunks(lines, i + 1, line);
            let later = source::chunks_from(lines, i + 1, line, None);
            assert(out =~= seq![current] + later);
            text::lemma_joined_front(current, later, sep);
            text::lemma_joined_front(current, seq![line] + rest, sep);
            assert(source::flushed(current) + lines.skip(i) =~= seq![current] + (seq![line]
                + rest));
            assert(source::flushed(line) + rest =~= seq![line] + rest);
            assert forall|k: int| 0 <= k < out.len() - 1 implies text::utf16_units(
                #[trigger] out[k],
            ) + 1 + text::utf16_units(first_line(out[k + 1])) > source::SOURCE_BUDGET by {
                assert(out[k + 1] == later[k]);
                if k > 0 {
                    assert(out[k] == later[k - 1]);
                }
            }
        } else {
            let next = source::with_line(current, line);
            lemma_plain_chunks(lines, i + 1, next);
            let later = source::chunks_from(lines, i + 1, next, None);
            assert(out =~= later);
            text::lemma_joined_front(next, rest, sep);
            assert(source::flushed(next) + rest =~= seq![next] + rest);
            if current.len() > 0 {
                text::lemma_joined_front(current, seq![line] + rest, sep);
                assert(source::flushed(current) + lines.skip(i) =~= seq![current] + (seq![line]
                    + rest));
                assert(text::joined(seq![next] + rest, sep) =~= text::joined(
                    seq![current] + (seq![line] + rest),
                    sep,
                ));
            } else {
                assert(source::flushed(current) + lines.skip(i) =~= seq![line] + rest);
            }
        }
    } else {
        assert(source::flushed(current) + lines.skip(i) =~= out);
    }
}

/// A reply of plain lines is cut between lines alone: the chunks, with a line break between
/// two of them, are the reply, and none could have taken a line more.
pub proof fn plain_replies_are_cut_between_lines(reply: Seq<char>)
    requires
        are_plain(text::split_on(reply, '\n')),
    ensures
        text::joined(source::source_chunks(reply), seq!['\n']) == reply,
        is_greedy(source::source_chunks(reply)),
{
    let lines = text::split_on(reply, '\n');
    text_laws::parts_joined_are_the_text(reply, '\n');
    lemma_plain_chunks(lines, 0, Seq::empty());
    assert(lines.skip(0) =~= lines);
    assert(source::flushed(Seq::<char>::empty()) + lines =~= lines);
}

proof fn lemma_short(lines: Seq<Seq<char>>, i: int, current: Seq<char>, open: Option<char>)
    requires
        0 <= i <= lines.len(),
        current.len() > 0,
        forall|j: int| 0 <= j < lines.len() ==> !#[trigger] blocks::table_starts(lines, j),
        text::utf16_units(text::joined(seq![current] + lines.skip(i), seq!['\n']))
            <= source::SOURCE_BUDGET,
    ensures
        source::chunks_from(lines, i, current, open) == seq![
            text::joined(seq![current] + lines.skip(i), seq!['\n']),
        ],
    decreases lines.len() - i,
{
    let sep = seq!['\n'];
    if i < lines.len() {
        let line = lines[i];
        let rest = lines.skip(i + 1);
        assert(lines.skip(i) =~= seq![line] + rest);
        let next = source::with_line(current, line);
        lemma_units_with_line(current, line);
        text::lemma_joined_front(next, rest, sep);
        text::lemma_joined_front(line, rest, sep);
        text::lemma_joined_front(current, seq![line] + rest, sep);
        let whole = text::joined(seq![current] + lines.skip(i), sep);
        assert(seq![current] + lines.skip(i) =~= seq![current] + (seq![line] + rest));
        assert(whole =~= text::joined(seq![next] + rest, sep));
        if rest.len() > 0 {
            text::lemma_units_add(next + sep, text::joined(rest, sep));
            text::lemma_units_add(next, sep);
        }
        assert(text::utf16_units(next) <= text::utf16_units(whole));
        assert(!source::overflows(current, line));
        lemma_fits(next);
        assert(!blocks::table_starts(lines, i));
        lemma_short(lines, i + 1, next, source::fence_after(open, line));
        assert(source::chunks_from(lines, i, current, open) =~= source::chunks_from(
            lines,
            i + 1,
            next,
            source::fence_after(open, line),
        ));
    } else {
        assert(seq![current] + lines.skip(i) =~= seq![current]);
        text_laws::joining_puts_separators_between(seq![current], seq![current], current, sep);
        assert(source::chunks_from(lines, i, current, open) =~= seq![current]);
    }
}

/// A reply that fits a chunk, begins with a line that is not empty and holds no table is
/// one chunk as it is; where its rendering fits a message, it is one message, which shows
/// that and nothing else.
pub proof fn short_replies_are_one_message(reply: Seq<char>)
    requires
        reply.len() > 0 && reply[0] != '\n',
        text::utf16_units(reply) <= source::SOURCE_BUDGET,
        forall|j: int|
            0 <= j < text::split_on(reply, '\n').len() ==> !#[trigger] blocks::table_starts(
                text::split_on(reply, '\n'),
                j,
            ),
    ensures
        source::source_chunks(reply) == seq![reply],
        text::utf16_units(blocks::markdown_v2(reply)) <= source::BODY_BUDGET
            ==> markdown::rich_chunks(reply) == seq![
            ChunkView {
                text: blocks::markdown_v2(reply),
                parse_mode: ParseMode::MarkdownV2,
                source: reply,
            },
        ],
        markdown::plain_text_chunks(reply) == seq![
            ChunkView { text: reply, parse_mode: ParseMode::Plain, source: reply },
        ],
{
    let lines = text::split_on(reply, '\n');
    let sep = seq!['\n'];
    text_laws::parts_joined_are_the_text(reply, '\n');
    let line = lines[0];
    let rest = lines.skip(1);
    assert(lines =~= seq![line] + rest);
    text::lemma_joined_front(line, rest, sep);
    assert(line.len() > 0) by {
        if line.len() == 0 {
            if rest.len() == 0 {
                assert(reply.len() == 0);
            } else {
                assert(reply[0] == '\n');
            }
        }
    }
    if rest.len() > 0 {
        text::lemma_units_add(line + sep, text::joined(rest, sep));
        text::lemma_units_add(line, sep);
    }
    assert(text::utf16_units(line) <= source::SOURCE_BUDGET);
    let none = Seq::<char>::empty();
    lemma_units_with_line(none, line);
    assert(source::grown(none, None, line) == line);
    lemma_fits(line);
    assert(!blocks::table_starts(lines, 0));
    lemma_short(lines, 1, line, source::fence_after(None, line));
    let open: Option<char> = None;
    assert(source::closed_before(none, open, line) =~= Seq::<Seq<char>>::empty());
    assert(source::chunks_from(lines, 0, none, open) =~= seq![reply]);
    reveal_with_fuel(markdown::bodies_before, 2);
    let bodies = markdown::bodies_of(reply);
    assert(markdown::all_bodies(reply) =~= bodies);
    if text::utf16_units(blocks::markdown_v2(reply)) <= source::BODY_BUDGET {
        assert(markdown::rich_chunks(reply) =~= seq![
            ChunkView {
                text: blocks::markdown_v2(reply),
                parse_mode: ParseMode::MarkdownV2,
                source: reply,
            },
        ]);
    }
    assert(markdown::plain_text_chunks(reply) =~= seq![
        ChunkView { text: reply, parse_mode: ParseMode::Plain, source: reply },
    ]);
}

// ---- Tables -----------------------------------------------------------------

proof fn lemma_table_rows(
    prefix: Seq<char>,
    rows: Seq<Seq<char>>,
    i: int,
    current: Seq<char>,
)
    requires
        0 <= i <= rows.len(),
        text::begins_with(current, prefix),
    ensures
        ({
            let parts = source::table_parts(prefix, rows, i, current);
            &&& forall|k: int|
                0 <= k < parts.len() ==> text::begins_with(#[trigger] parts[k], prefix)
            &&& text::concatenated(
                parts.map_values(|p: Seq<char>| p.skip(prefix.len() as int)),
            ) == current.skip(prefix.len() as int) + text::concatenated(
                rows.skip(i).map_values(|r: Seq<char>| seq!['\n'] + r),
            )
        }),
    decreases rows.len() - i,
{
    let parts = source::table_parts(prefix, rows, i, current);
    let n = prefix.len() as int;
    let body = |p: Seq<char>| p.skip(prefix.len() as int);
    let below = |r: Seq<char>| seq!['\n'] + r;
    if i < rows.len() {
        let line = seq!['\n'] + rows[i];
        let tail = rows.skip(i + 1).map_values(below);
        assert(rows.skip(i).map_values(below) =~= seq![line] + tail);
        text::lemma_concatenated_add(seq![line], tail);
        text::lemma_concatenated_one(line);
        if current.len() > prefix.len() && text::utf16_units(current) + 1 + text::utf16_units(
            rows[i],
        ) > source::SOURCE_BUDGET {
            let next = prefix + seq!['\n'] + rows[i];
            assert(next.take(n) =~= prefix);
            assert(next.skip(n) =~= line);
            lemma_table_rows(prefix, rows, i + 1, next);
            let later = source::table_parts(prefix, rows, i + 1, next);
            assert(parts =~= seq![current] + later);
            assert(parts.map_values(body) =~= seq![current.skip(n)] + later.map_values(body));
            text::lemma_concatenated_add(seq![current.skip(n)], later.map_values(body));
            text::lemma_concatenated_one(current.skip(n));
            assert forall|k: int| 0 <= k < parts.len() implies text::begins_with(
                #[trigger] parts[k],
                prefix,
            ) by {
                if k > 0 {
                    assert(parts[k] == later[k - 1]);
                }
            }
        } else {
            let next = current + seq!['\n'] + rows[i];
            assert(next.take(n) =~= current.take(n));
            assert(next.skip(n) =~= current.skip(n) + line);
            lemma_table_rows(prefix, rows, i + 1, next);
            assert(current.skip(n) + line + text::concatenated(tail) =~= current.skip(n) + (line
                + text::concatenated(tail)));
        }
    } else {
        assert(rows.skip(i).map_values(below) =~= Seq::<Seq<char>>::empty());
        assert(parts.map_values(body) =~= seq![current.skip(n)]);
        text::lemma_concatenated_one(current.skip(n));
        assert(current.skip(n) + Seq::<char>::empty() =~= current.skip(n));
    }
}

/// The parts of a table hold its rows, each once and in order: after the header and the
/// delimiter row, with which every part begins, they are the rows one below the other.
pub proof fn the_parts_of_a_table_hold_its_rows(
    header: Seq<char>,
    delimiter: Seq<char>,
    rows: Seq<Seq<char>>,
)
    ensures
        ({
            let prefix = header + seq!['\n'] + delimiter;
            let parts = source::table_pieces(header, delimiter, rows);
            &&& forall|k: int|
                0 <= k < parts.len() ==> text::begins_with(#[trigger] parts[k], prefix)
            &&& text::concatenated(
                parts.map_values(|p: Seq<char>| p.skip(prefix.len() as int)),
            ) == text::concatenated(rows.map_values(|r: Seq<char>| seq!['\n'] + r))
        }),
{
    let prefix = header + seq!['\n'] + delimiter;
    assert(prefix.take(prefix.len() as int) =~= prefix);
    lemma_table_rows(prefix, rows, 0, prefix);
    assert(rows.skip(0) =~= rows);
    let all = text::concatenated(rows.map_values(|r: Seq<char>| seq!['\n'] + r));
    assert(prefix.skip(prefix.len() as int) + all =~= all);
}

// ---- Messages ---------------------------------------------------------------

/// Each message of several says below its text which it is, and of how many.
pub proof fn messages_say_their_place(body: Seq<char>, index: nat, total: nat)
    requires
        total > 1,
    ensures
        markdown::labelled(body, ParseMode::Plain, index, total) == body + seq!['\n', '\n', '(']
            + text::decimal(index + 1) + seq!['/'] + text::decimal(total) + seq![')'],
        markdown::labelled(body, ParseMode::MarkdownV2, index, total) == body + seq![
            '\n',
            '\n',
            '\\',
            '(',
        ] + text::decimal(index + 1) + seq!['/'] + text::decimal(total) + seq!['\\', ')'],
{
    let a = text::decimal(index + 1);
    let b = text::decimal(total);
    text::lemma_decimal_digits(index + 1);
    text::lemma_decimal_digits(total);
    lemma_digits_stay(a);
    lemma_digits_stay(b);
    lemma_escaped_one('(');
    lemma_escaped_one('/');
    lemma_escaped_one(')');
    lemma_escaped_add(seq!['('] + a + seq!['/'] + b, seq![')']);
    lemma_escaped_add(seq!['('] + a + seq!['/'], b);
    lemma_escaped_add(seq!['('] + a, seq!['/']);
    lemma_escaped_add(seq!['('], a);
    assert(body + seq!['\n', '\n'] + (seq!['('] + a + seq!['/'] + b + seq![')']) =~= body + seq![
        '\n',
        '\n',
        '(',
    ] + a + seq!['/'] + b + seq![')']);
    assert(body + seq!['\n', '\n'] + (seq!['\\', '('] + a + seq!['/'] + b + seq!['\\', ')'])
        =~= body + seq!['\n', '\n', '\\', '('] + a + seq!['/'] + b + seq!['\\', ')']);
}

proof fn lemma_escaped_add(a: Seq<char>, b: Seq<char>)
    ensures
        spans::escaped(a + b, Place::Body) == spans::escaped(a, Place::Body) + spans::escaped(
            b,
            Place::Body,
        ),
{
    crate::telegram::laws::lemma_escaped_add(a, b, Place::Body);
}

proof fn lemma_escaped_one(c: char)
    ensures
        spans::escaped(seq![c], Place::Body) == spans::escaped_char(c, Place::Body),
{
    crate::telegram::laws::lemma_escaped_one(c, Place::Body);
}

proof fn lemma_digits_stay(s: Seq<char>)
    requires
        text::digits_only(s),
    ensures
        spans::escaped(s, Place::Body) == s,
    decreases s.len(),
{
    if s.len() > 0 {
        let front = s.drop_last();
        assert forall|i: int| 0 <= i < front.len() implies text::is_digit(#[trigger] front[i]) by {
            assert(text::is_digit(s[i]));
        }
        lemma_digits_stay(front);
        assert(text::is_digit(s[s.len() - 1]));
        assert(front + seq![s.last()] =~= s);
    }
}

/// A message in markup shows the rendering of its source, below which stands nothing but
/// its place among the messages.
pub proof fn messages_in_markup_show_their_source(reply: Seq<char>, i: int)
    requires
        0 <= i < markdown::rich_chunks(reply).len(),
        markdown::rich_chunks(reply)[i].parse_mode == ParseMode::MarkdownV2,
    ensures
        markdown::rich_chunks(reply)[i].text == markdown::labelled(
            blocks::markdown_v2(markdown::rich_chunks(reply)[i].source),
            ParseMode::MarkdownV2,
            i as nat,
            markdown::rich_chunks(reply).len(),
        ),
{
    let chunks = source::source_chunks(reply);
    lemma_bodies(chunks, chunks.len() as int);
    assert(markdown::rich_chunks(reply)[i].parse_mode == markdown::all_bodies(reply)[i].mode);
}

proof fn lemma_bodies(chunks: Seq<Seq<char>>, n: int)
    requires
        0 <= n <= chunks.len(),
    ensures
        forall|i: int|
            0 <= i < markdown::bodies_before(chunks, n).len() ==> (#[trigger] markdown::bodies_before(
                chunks,
                n,
            )[i]).mode == ParseMode::MarkdownV2 ==> markdown::bodies_before(chunks, n)[i].text
                == blocks::markdown_v2(markdown::bodies_before(chunks, n)[i].source),
    decreases n,
{
    if n > 0 {
        lemma_bodies(chunks, n - 1);
        let before = markdown::bodies_before(chunks, n - 1);
        let all = markdown::bodies_before(chunks, n);
        let last = markdown::bodies_of(chunks[n - 1]);
        assert forall|i: int| 0 <= i < all.len() implies ((#[trigger] all[i]).mode
            == ParseMode::MarkdownV2 ==> all[i].text == blocks::markdown_v2(all[i].source)) by {
            if i < before.len() {
                assert(all[i] == before[i]);
            } else {
                assert(all[i] == last[i - before.len()]);
            }
        }
    }
}

// ---- Fences -----------------------------------------------------------------

/// A fence is open from the line that opens it to the first line that begins with the same
/// three marks; lines with other marks, or with none, leave it as it is.
pub proof fn fences_close_by_their_own_mark(line: Seq<char>, fence: char, other: char)
    requires
        fence != other,
    ensures
        source::fence_after(None, line) == blocks::fence_at(line),
        blocks::fence_at(line) == Some(fence) ==> source::fence_after(Some(fence), line) is None,
        blocks::fence_at(line) == Some(other) ==> source::fence_after(Some(fence), line) == Some(
            fence,
        ),
        blocks::fence_at(line) is None ==> source::fence_after(Some(fence), line) == Some(fence),
{
}

/// Where a line does not fit below the others, the chunk ends before it: with a line that
/// closes the fence that is open, and the next chunk begins with a line that opens it
/// again. A line that fits stands below the others.
pub proof fn open_fences_are_closed_and_opened_again(
    current: Seq<char>,
    line: Seq<char>,
    fence: char,
)
    requires
        current.len() > 0,
    ensures
        ({
            let fits = text::utf16_units(current) + 1 + text::utf16_units(line)
                <= source::SOURCE_BUDGET;
            let marks = seq![fence, fence, fence];
            let below = current + seq!['\n'] + line;
            &&& fits ==> source::closed_before(current, None, line).len() == 0
                && source::closed_before(current, Some(fence), line).len() == 0 && source::grown(
                current,
                None,
                line,
            ) == below && source::grown(current, Some(fence), line) == below
            &&& !fits ==> source::closed_before(current, None, line) == seq![current]
                && source::grown(current, None, line) == line
            &&& !fits ==> source::closed_before(current, Some(fence), line) == seq![
                current + seq!['\n'] + marks,
            ] && source::grown(current, Some(fence), line) == marks + seq!['\n'] + line
        }),
{
}

/// A table that fits a chunk is one part, which is the table as it stands.
pub proof fn short_tables_are_one_part(
    header: Seq<char>,
    delimiter: Seq<char>,
    rows: Seq<Seq<char>>,
)
    requires
        text::utf16_units(text::joined(seq![header, delimiter] + rows, seq!['\n']))
            <= source::SOURCE_BUDGET,
    ensures
        source::table_pieces(header, delimiter, rows) == seq![
            text::joined(seq![header, delimiter] + rows, seq!['\n']),
        ],
{
    let prefix = header + seq!['\n'] + delimiter;
    let sep = seq!['\n'];
    text_laws::joining_puts_separators_between(seq![header], seq![delimiter], header, sep);
    text_laws::joining_puts_separators_between(seq![header], seq![delimiter], delimiter, sep);
    assert(seq![header] + seq![delimiter] =~= seq![header, delimiter]);
    assert(text::joined(seq![header, delimiter], sep) == prefix);
    if rows.len() > 0 {
        text_laws::joining_puts_separators_between(seq![header, delimiter], rows, header, sep);
        text::lemma_joined_front(prefix, rows, sep);
    } else {
        assert(seq![header, delimiter] + rows =~= seq![header, delimiter]);
        text::lemma_joined_front(prefix, rows, sep);
    }
    assert(text::joined(seq![prefix] + rows, sep) == text::joined(
        seq![header, delimiter] + rows,
        sep,
    ));
    assert(rows.skip(0) =~= rows);
    lemma_short_table(prefix, rows, 0, prefix);
}

proof fn lemma_short_table(
    prefix: Seq<char>,
    rows: Seq<Seq<char>>,
    i: int,
    current: Seq<char>,
)
    requires
        0 <= i <= rows.len(),
        text::utf16_units(text::joined(seq![current] + rows.skip(i), seq!['\n']))
            <= source::SOURCE_BUDGET,
    ensures
        source::table_parts(prefix, rows, i, current) == seq![
            text::joined(seq![current] + rows.skip(i), seq!['\n']),
        ],
    decreases rows.len() - i,
{
    let sep = seq!['\n'];
    if i < rows.len() {
        let row = rows[i];
        let rest = rows.skip(i + 1);
        let next = current + sep + row;
        assert(rows.skip(i) =~= seq![row] + rest);
        text::lemma_joined_front(current, seq![row] + rest, sep);
        text::lemma_joined_front(row, rest, sep);
        text::lemma_joined_front(next, rest, sep);
        assert(seq![current] + rows.skip(i) =~= seq![current] + (seq![row] + rest));
        let whole = text::joined(seq![current] + rows.skip(i), sep);
        assert(whole =~= text::joined(seq![next] + rest, sep));
        text::lemma_units_add(current + sep, row);
        text::lemma_units_add(current, sep);
        text::lemma_units_one('\n');
        if rest.len() > 0 {
            text::lemma_units_add(next + sep, text::joined(rest, sep));
            text::lemma_units_add(next, sep);
        }
        assert(text::utf16_units(next) <= text::utf16_units(whole));
        lemma_short_table(prefix, rows, i + 1, next);
    } else {
        assert(seq![current] + rows.skip(i) =~= seq![current]);
        text_laws::joining_puts_separators_between(seq![current], seq![current], current, sep);
    }
}

/// What becomes of a chunk stands for all of it and nothing else: its rendering for the
/// whole chunk, or pieces that make it up.
pub proof fn bodies_stand_for_their_chunk(chunk: Seq<char>)
    ensures
        ({
            let bodies = markdown::bodies_of(chunk);
            &&& text::concatenated(
                bodies.map_values(|b: markdown::Body| b.source),
            ) == chunk
            &&& text::utf16_units(blocks::markdown_v2(chunk)) <= source::BODY_BUDGET
                ==> bodies.len() == 1 && bodies[0].text == blocks::markdown_v2(chunk)
                && bodies[0].mode == ParseMode::MarkdownV2
            &&& text::utf16_units(blocks::markdown_v2(chunk)) > source::BODY_BUDGET ==> forall|
                i: int,
            |
                0 <= i < bodies.len() ==> (#[trigger] bodies[i]).text == bodies[i].source
                    && bodies[i].mode == ParseMode::Plain
        }),
{
    let bodies = markdown::bodies_of(chunk);
    let of = |b: markdown::Body| b.source;
    if text::utf16_units(blocks::markdown_v2(chunk)) <= source::BODY_BUDGET {
        assert(bodies.map_values(of) =~= seq![chunk]);
        text::lemma_concatenated_one(chunk);
    } else {
        let limit = source::BODY_BUDGET as int;
        let full = source::full_pieces(chunk, limit);
        let last = source::last_piece(chunk, limit);
        assert(bodies.map_values(of) =~= full + source::flushed(last));
        lemma_pieces(chunk, limit);
        text::lemma_concatenated_add(full, source::flushed(last));
        if last.len() > 0 {
            text::lemma_concatenated_one(last);
        } else {
            assert(text::concatenated(source::flushed(last)) =~= last);
        }
    }
}

proof fn lemma_pieces(s: Seq<char>, limit: int)
    requires
        limit >= 2,
    ensures
        text::concatenated(source::full_pieces(s, limit)) + source::last_piece(s, limit) == s,
    decreases s.len(),
{
    if text::utf16_units(s) > limit {
        source::lemma_fit_end(s, limit, 0);
        let n = source::fit(s, limit);
        if s.len() == 0 {
            assert(text::utf16_units(s) == 0);
        }
        lemma_pieces(s.skip(n), limit);
        let rest = source::full_pieces(s.skip(n), limit);
        text::lemma_concatenated_add(seq![s.take(n)], rest);
        text::lemma_concatenated_one(s.take(n));
        assert(s =~= s.take(n) + s.skip(n));
        assert(text::concatenated(source::full_pieces(s, limit)) + source::last_piece(s, limit)
            =~= s.take(n) + (text::concatenated(rest) + source::last_piece(s.skip(n), limit)));
    } else {
        assert(text::concatenated(source::full_pieces(s, limit)) + s =~= s);
    }
}

} // verus!
