//! What holds of every document that is rendered: its blocks, one after the other.

use crate::telegram::blocks;
use crate::telegram::spans;
use crate::telegram::spans::Place;
use crate::text;
use crate::text_laws;
use vstd::prelude::*;

verus! {

// ---- Lines of a document ----------------------------------------------------

proof fn lemma_break()
    ensures
        "\n"@ == seq!['\n'],
{
    reveal_strlit("\n");
    assert("\n"@ =~= seq!['\n']);
}

/// The lines of a text that is made of `first` and of `rest`.
proof fn lemma_split_lines(first: Seq<Seq<char>>, rest: Seq<char>)
    requires
        first.len() > 0,
        forall|k: int| 0 <= k < first.len() ==> !(#[trigger] first[k]).contains('\n'),
    ensures
        text::split_on(text::joined(first, seq!['\n']), '\n') == first,
        text::split_on(text::joined(first, seq!['\n']) + seq!['\n'] + rest, '\n') == first
            + text::split_on(rest, '\n'),
{
    let later = text::split_on(rest, '\n');
    text_laws::parts_joined_are_the_text(rest, '\n');
    let all = first + later;
    assert forall|k: int| 0 <= k < all.len() implies !(#[trigger] all[k]).contains('\n') by {
        if k >= first.len() {
            assert(all[k] == later[k - first.len()]);
        }
    }
    text_laws::joined_parts_are_split_again(all, '\n');
    text_laws::joined_parts_are_split_again(first, '\n');
    text_laws::joining_puts_separators_between(first, later, first[0], seq!['\n']);
}

proof fn lemma_fence_shift(lines: Seq<Seq<char>>, fence: char, d: int, i: int)
    requires
        0 <= d,
        0 <= i,
        d + i <= lines.len(),
    ensures
        blocks::fence_end(lines, fence, d + i) == d + blocks::fence_end(lines.skip(d), fence, i),
    decreases lines.len() - d - i,
{
    if d + i < lines.len() {
        assert(lines.skip(d)[i] == lines[d + i]);
        if blocks::fence_at(lines[d + i]) != Some(fence) {
            lemma_fence_shift(lines, fence, d, i + 1);
        }
    }
}

proof fn lemma_table_shift(lines: Seq<Seq<char>>, d: int, i: int)
    requires
        0 <= d,
        0 <= i,
        d + i <= lines.len(),
    ensures
        blocks::table_end(lines, d + i) == d + blocks::table_end(lines.skip(d), i),
    decreases lines.len() - d - i,
{
    if d + i < lines.len() {
        assert(lines.skip(d)[i] == lines[d + i]);
        if blocks::table_row(lines[d + i]) {
            lemma_table_shift(lines, d, i + 1);
        }
    }
}

/// The blocks from a line on depend on nothing before it.
proof fn lemma_blocks_shift(lines: Seq<Seq<char>>, d: int, i: int)
    requires
        0 <= d,
        0 <= i,
        d + i <= lines.len(),
    ensures
        blocks::blocks_from(lines, d + i) == blocks::blocks_from(lines.skip(d), i),
    decreases lines.len() - d - i,
{
    let t = lines.skip(d);
    if d + i < lines.len() {
        assert(t[i] == lines[d + i]);
        if let Some(fence) = blocks::fence_at(t[i]) {
            lemma_fence_shift(lines, fence, d, i + 1);
            blocks::lemma_fence_end(t, fence, i + 1);
            let end = blocks::fence_end(t, fence, i + 1);
            assert(lines.subrange(d + i + 1, d + end) =~= t.subrange(i + 1, end));
            if end < t.len() {
                lemma_blocks_shift(lines, d, end + 1);
            } else {
                lemma_blocks_shift(lines, d, end);
            }
        } else {
            if i + 1 < t.len() {
                assert(t[i + 1] == lines[d + i + 1]);
            }
            if blocks::table_starts(t, i) {
                lemma_table_shift(lines, d, i + 2);
                blocks::lemma_table_end(t, i + 2);
                let end = blocks::table_end(t, i + 2);
                assert(lines.subrange(d + i + 2, d + end) =~= t.subrange(i + 2, end));
                lemma_blocks_shift(lines, d, end);
            } else {
                lemma_blocks_shift(lines, d, i + 1);
            }
        }
    }
}

proof fn lemma_fence_end_is(lines: Seq<Seq<char>>, fence: char, i: int, end: int)
    requires
        0 <= i <= end <= lines.len(),
        forall|j: int| i <= j < end ==> blocks::fence_at(#[trigger] lines[j]) != Some(fence),
        end < lines.len() ==> blocks::fence_at(lines[end]) == Some(fence),
    ensures
        blocks::fence_end(lines, fence, i) == end,
    decreases end - i,
{
    if i < end {
        assert(blocks::fence_at(lines[i]) != Some(fence));
        lemma_fence_end_is(lines, fence, i + 1, end);
    }
}

proof fn lemma_table_end_is(lines: Seq<Seq<char>>, i: int, end: int)
    requires
        0 <= i <= end <= lines.len(),
        forall|j: int| i <= j < end ==> blocks::table_row(#[trigger] lines[j]),
        end < lines.len() ==> !blocks::table_row(lines[end]),
    ensures
        blocks::table_end(lines, i) == end,
    decreases end - i,
{
    if i < end {
        assert(blocks::table_row(lines[i]));
        lemma_table_end_is(lines, i + 1, end);
    }
}

/// What one block makes of the lines before `rest`.
proof fn lemma_one_block(first: Seq<Seq<char>>, rest: Seq<char>, block: Seq<char>)
    requires
        first.len() > 0,
        forall|k: int| 0 <= k < first.len() ==> !(#[trigger] first[k]).contains('\n'),
        blocks::blocks_from(first + text::split_on(rest, '\n'), 0) == seq![block]
            + blocks::blocks_from(first + text::split_on(rest, '\n'), first.len() as int),
        blocks::blocks_from(first, 0) == seq![block] + blocks::blocks_from(
            first,
            first.len() as int,
        ),
    ensures
        blocks::markdown_v2(text::joined(first, seq!['\n'])) == block,
        blocks::markdown_v2(text::joined(first, seq!['\n']) + seq!['\n'] + rest) == block + seq![
            '\n',
        ] + blocks::markdown_v2(rest),
{
    lemma_break();
    lemma_split_lines(first, rest);
    let later = text::split_on(rest, '\n');
    let all = first + later;
    lemma_blocks_shift(all, first.len() as int, 0);
    assert(all.skip(first.len() as int) =~= later);
    text_laws::parts_joined_are_the_text(rest, '\n');
    let tail = blocks::blocks_from(later, 0);
    assert(tail.len() > 0);
    text::lemma_joined_front(block, tail, seq!['\n']);
    assert(blocks::blocks_from(first, 0) =~= seq![block]);
    text::lemma_joined_front(block, Seq::empty(), seq!['\n']);
    assert(seq![block] + Seq::<Seq<char>>::empty() =~= seq![block]);
}

// ---- Blocks -----------------------------------------------------------------

/// A line that opens no fenced block and, with the line below it, no table is a block of
/// its own: it is rendered as it is alone, and the lines after it are rendered as they
/// are alone.
pub proof fn a_line_is_a_block_of_its_own(line: Seq<char>, rest: Seq<char>)
    requires
        !line.contains('\n'),
        blocks::fence_at(line) is None,
        !(blocks::table_row(line) && blocks::table_delimiter(text::split_on(rest, '\n')[0])),
    ensures
        blocks::markdown_v2(line + seq!['\n'] + rest) == blocks::markdown_v2(line) + seq!['\n']
            + blocks::markdown_v2(rest),
        blocks::markdown_v2(line) == blocks::line_text(line),
{
    let first = seq![line];
    text_laws::parts_joined_are_the_text(rest, '\n');
    text_laws::joining_puts_separators_between(first, first, line, seq!['\n']);
    let all = first + text::split_on(rest, '\n');
    assert(all[0] == line);
    assert(all[1] == text::split_on(rest, '\n')[0]);
    lemma_one_block(first, rest, blocks::line_text(line));
}

/// A fenced block becomes one code block with the language of its fence and with all
/// lines up to the fence that closes it, and the line after that fence is the first of
/// what follows. A block that nothing closes goes to the end of the document.
pub proof fn a_fenced_block_ends_at_its_fence(
    open: Seq<char>,
    body: Seq<Seq<char>>,
    close: Seq<char>,
    rest: Seq<char>,
    fence: char,
)
    requires
        !open.contains('\n') && !close.contains('\n'),
        forall|k: int| 0 <= k < body.len() ==> !(#[trigger] body[k]).contains('\n'),
        blocks::fence_at(open) == Some(fence),
        blocks::fence_at(close) == Some(fence),
        forall|k: int| 0 <= k < body.len() ==> blocks::fence_at(#[trigger] body[k]) != Some(fence),
    ensures
        ({
            let source = seq![open] + body;
            let shown = "```"@ + text::first_word(text::trimmed_start(open).skip(3)) + "\n"@
                + spans::escaped(text::joined(body, "\n"@), Place::Code) + "\n```"@;
            &&& blocks::markdown_v2(text::joined(source, "\n"@)) == shown
            &&& blocks::markdown_v2(text::joined(source + seq![close], "\n"@)) == shown
            &&& blocks::markdown_v2(text::joined(source + seq![close], "\n"@) + "\n"@ + rest)
                == shown + "\n"@ + blocks::markdown_v2(rest)
        }),
{
    lemma_break();
    let n = body.len() as int;
    let source = seq![open] + body;
    let first = source + seq![close];
    let lang = text::first_word(text::trimmed_start(open).skip(3));
    let shown = blocks::code_block(lang, body);
    let all = first + text::split_on(rest, '\n');
    text_laws::parts_joined_are_the_text(rest, '\n');
    assert forall|k: int| 0 <= k < first.len() implies !(#[trigger] first[k]).contains('\n') by {
        if 1 <= k <= n {
            assert(first[k] == body[k - 1]);
        }
    }
    assert forall|j: int| 1 <= j < n + 1 implies blocks::fence_at(#[trigger] all[j])
        != Some(fence) by {
        assert(all[j] == body[j - 1]);
    }
    assert forall|j: int| 1 <= j < n + 1 implies blocks::fence_at(#[trigger] first[j])
        != Some(fence) by {
        assert(first[j] == body[j - 1]);
    }
    assert(all[n + 1] == close && first[n + 1] == close);
    assert(all[0] == open && first[0] == open);
    lemma_fence_end_is(all, fence, 1, n + 1);
    lemma_fence_end_is(first, fence, 1, n + 1);
    assert(all.subrange(1, n + 1) =~= body);
    assert(first.subrange(1, n + 1) =~= body);
    lemma_one_block(first, rest, shown);
    // The block that nothing closes.
    assert forall|k: int| 0 <= k < source.len() implies !(#[trigger] source[k]).contains('\n') by {
        if 1 <= k {
            assert(source[k] == body[k - 1]);
        }
    }
    assert forall|j: int| 1 <= j < n + 1 implies blocks::fence_at(#[trigger] source[j])
        != Some(fence) by {
        assert(source[j] == body[j - 1]);
    }
    assert(source[0] == open);
    lemma_fence_end_is(source, fence, 1, n + 1);
    assert(source.subrange(1, n + 1) =~= body);
    lemma_split_lines(source, rest);
    assert(blocks::blocks_from(source, n + 1) =~= Seq::<Seq<char>>::empty());
    assert(blocks::blocks_from(source, 0) =~= seq![shown]);
    text_laws::joining_puts_separators_between(seq![shown], seq![shown], shown, seq!['\n']);
}

/// A header row above a delimiter row begins a table, which goes on as long as there are
/// rows: it becomes one block, and the first line that is no row is the first of what
/// follows.
pub proof fn a_table_ends_where_its_rows_end(
    header: Seq<char>,
    delimiter: Seq<char>,
    rows: Seq<Seq<char>>,
    rest: Seq<char>,
)
    requires
        !header.contains('\n') && !delimiter.contains('\n'),
        forall|k: int| 0 <= k < rows.len() ==> !(#[trigger] rows[k]).contains('\n'),
        blocks::fence_at(header) is None,
        header.contains('|'),
        blocks::table_delimiter(delimiter),
        forall|k: int| 0 <= k < rows.len() ==> (#[trigger] rows[k]).contains('|'),
        !text::split_on(rest, '\n')[0].contains('|'),
    ensures
        ({
            let source = text::joined(seq![header, delimiter] + rows, "\n"@);
            &&& blocks::markdown_v2(source) == blocks::table_text(header, rows)
            &&& blocks::markdown_v2(source + "\n"@ + rest) == blocks::table_text(header, rows)
                + "\n"@ + blocks::markdown_v2(rest)
        }),
{
    lemma_break();
    let n = rows.len() as int;
    let first = seq![header, delimiter] + rows;
    let all = first + text::split_on(rest, '\n');
    text_laws::parts_joined_are_the_text(rest, '\n');
    assert forall|k: int| 0 <= k < first.len() implies !(#[trigger] first[k]).contains('\n') by {
        if 2 <= k {
            assert(first[k] == rows[k - 2]);
        }
    }
    assert forall|j: int| 2 <= j < n + 2 implies blocks::table_row(#[trigger] all[j]) by {
        assert(all[j] == rows[j - 2]);
    }
    assert forall|j: int| 2 <= j < n + 2 implies blocks::table_row(#[trigger] first[j]) by {
        assert(first[j] == rows[j - 2]);
    }
    assert(all[0] == header && first[0] == header);
    assert(all[1] == delimiter && first[1] == delimiter);
    assert(all[n + 2] == text::split_on(rest, '\n')[0]);
    lemma_table_end_is(all, 2, n + 2);
    lemma_table_end_is(first, 2, n + 2);
    assert(all.subrange(2, n + 2) =~= rows);
    assert(first.subrange(2, n + 2) =~= rows);
    lemma_one_block(first, rest, blocks::table_text(header, rows));
}

/// A line opens a fenced block, or closes one, if three backticks or three tildes stand
/// in it with nothing but white space before them, and only then.
pub proof fn fences_are_three_marks(line: Seq<char>, fence: char)
    ensures
        blocks::fence_at(line) == Some(fence) <==> (fence == '`' || fence == '~') && exists|i: int|
            0 <= i && i + 3 <= line.len() && #[trigger] line[i] == fence && line[i + 1] == fence
                && line[i + 2] == fence && forall|j: int|
                0 <= j < i ==> text::is_white(#[trigger] line[j]),
{
    text_laws::trimming_the_start_takes_white_space_alone(line);
    text_laws::ascii_white_space('`');
    text_laws::ascii_white_space('~');
    let t = text::trimmed_start(line);
    let n = line.len() - t.len();
    if blocks::fence_at(line) == Some(fence) {
        let p = seq![fence, fence, fence];
        assert(t.take(3) == p);
        assert(t.take(3)[0] == t[0] && t.take(3)[1] == t[1] && t.take(3)[2] == t[2]);
        assert(line[n] == fence);
        assert(line[n + 1] == t[1] && line[n + 2] == t[2]);
    }
    if (fence == '`' || fence == '~') && exists|i: int|
        0 <= i && i + 3 <= line.len() && #[trigger] line[i] == fence && line[i + 1] == fence
            && line[i + 2] == fence && forall|j: int|
            0 <= j < i ==> text::is_white(#[trigger] line[j]) {
        let i = choose|i: int|
            0 <= i && i + 3 <= line.len() && #[trigger] line[i] == fence && line[i + 1] == fence
                && line[i + 2] == fence && forall|j: int|
                0 <= j < i ==> text::is_white(#[trigger] line[j]);
        if n < i {
            assert(text::is_white(line[n]));
            assert(t[0] == line[n]);
        }
        if i < n {
            assert(text::is_white(line[i]));
        }
        assert(t.take(3) =~= seq![fence, fence, fence]);
        if fence == '~' {
            assert(t.take(3)[0] != seq!['`', '`', '`'][0]);
        }
    }
}

// ---- Lines ------------------------------------------------------------------

/// What a line begins with, after its indentation, decides how it is shown: a heading is
/// bold, a quote keeps its mark, a task gets a box, an item of a list a dash; its
/// indentation stays, and its text is rendered.
pub proof fn lines_are_shown_by_their_marks(
    indent: Seq<char>,
    marks: Seq<char>,
    body: Seq<char>,
    bullet: char,
)
    requires
        forall|j: int| 0 <= j < indent.len() ==> text::is_white(#[trigger] indent[j]),
        forall|j: int| 0 <= j < marks.len() ==> #[trigger] marks[j] == '#',
        1 <= marks.len() <= 6,
        bullet == '-' || bullet == '*' || bullet == '+',
    ensures
        blocks::line_text(indent + marks + seq![' '] + body) == indent + seq!['*']
            + spans::rendered(text::trimmed_end(body)) + seq!['*'],
        blocks::line_text(indent + marks) == indent + seq!['*', '*'],
        blocks::line_text(indent + seq!['>', ' '] + body) == indent + seq!['>'] + spans::rendered(
            body,
        ),
        blocks::line_text(indent + seq!['>']) == indent + seq!['>'],
        blocks::line_text(indent + seq![bullet, ' ', '[', ' ', ']', ' '] + body) == indent + seq![
            '☐',
            ' ',
        ] + spans::rendered(body),
        blocks::line_text(indent + seq![bullet, ' ', '[', 'x', ']', ' '] + body) == indent + seq![
            '☑',
            ' ',
        ] + spans::rendered(body),
        blocks::line_text(indent + seq![bullet, ' ', '[', 'X', ']', ' '] + body) == indent + seq![
            '☑',
            ' ',
        ] + spans::rendered(body),
        !(body.len() >= 4 && body[0] == '[' && (body[1] == ' ' || body[1] == 'x' || body[1] == 'X')
            && body[2] == ']' && body[3] == ' ') ==> blocks::line_text(
            indent + seq![bullet, ' '] + body,
        ) == indent + seq!['\\', '-', ' '] + spans::rendered(body),
{
    text_laws::ascii_white_space('#');
    text_laws::ascii_white_space('>');
    text_laws::ascii_white_space(bullet);
    lemma_headings(indent, marks, body);
    lemma_quotes(indent, body);
    lemma_items(indent, body, bullet);
}

proof fn lemma_indent(indent: Seq<char>, content: Seq<char>)
    requires
        forall|j: int| 0 <= j < indent.len() ==> text::is_white(#[trigger] indent[j]),
        content.len() > 0 ==> !text::is_white(content[0]),
    ensures
        text::trimmed_start(indent + content) == content,
        blocks::line_text(indent + content) == indent + blocks::content_text(content),
{
    let line = indent + content;
    text_laws::trimming_the_start_takes_white_space_alone(line);
    let t = text::trimmed_start(line);
    let n = line.len() - t.len();
    if n < indent.len() {
        assert(t[0] == line[n]);
        assert(text::is_white(indent[n]));
    }
    if n > indent.len() {
        assert(text::is_white(line[indent.len() as int]));
    }
    assert(t =~= content);
    assert(line.take(n) =~= indent);
}

proof fn lemma_headings(indent: Seq<char>, marks: Seq<char>, body: Seq<char>)
    requires
        forall|j: int| 0 <= j < indent.len() ==> text::is_white(#[trigger] indent[j]),
        forall|j: int| 0 <= j < marks.len() ==> #[trigger] marks[j] == '#',
        1 <= marks.len() <= 6,
        !text::is_white('#'),
    ensures
        blocks::line_text(indent + marks + seq![' '] + body) == indent + seq!['*']
            + spans::rendered(text::trimmed_end(body)) + seq!['*'],
        blocks::line_text(indent + marks) == indent + seq!['*', '*'],
{
    let n = marks.len() as int;
    let a = marks + seq![' '] + body;
    assert(a[0] == marks[0]);
    assert forall|j: int| 0 <= j < n implies a[j] == '#' by {
        assert(a[j] == marks[j]);
    }
    text_laws::lemma_run_is(a, '#', 0, n);
    text_laws::lemma_run_is(marks, '#', 0, n);
    assert(a.skip(n + 1) =~= body);
    lemma_indent(indent, a);
    lemma_indent(indent, marks);
    assert(indent + marks + seq![' '] + body =~= indent + a);
    assert(spans::rendered(Seq::<char>::empty()) =~= Seq::<char>::empty());
    assert(seq!['*'] + Seq::<char>::empty() + seq!['*'] =~= seq!['*', '*']);
    assert(indent + (seq!['*'] + spans::rendered(text::trimmed_end(body)) + seq!['*']) =~= indent
        + seq!['*'] + spans::rendered(text::trimmed_end(body)) + seq!['*']);
}

proof fn lemma_no_heading(content: Seq<char>)
    requires
        content.len() == 0 || content[0] != '#',
    ensures
        blocks::heading_of(content) is None,
{
    text_laws::lemma_run_is(content, '#', 0, 0);
}

proof fn lemma_quotes(indent: Seq<char>, body: Seq<char>)
    requires
        forall|j: int| 0 <= j < indent.len() ==> text::is_white(#[trigger] indent[j]),
        !text::is_white('>'),
    ensures
        blocks::line_text(indent + seq!['>', ' '] + body) == indent + seq!['>'] + spans::rendered(
            body,
        ),
        blocks::line_text(indent + seq!['>']) == indent + seq!['>'],
{
    let a = seq!['>', ' '] + body;
    lemma_no_heading(a);
    lemma_no_heading(seq!['>']);
    lemma_indent(indent, a);
    lemma_indent(indent, seq!['>']);
    assert(a.skip(2) =~= body);
    assert(indent + seq!['>', ' '] + body =~= indent + a);
    assert(indent + (seq!['>'] + spans::rendered(body)) =~= indent + seq!['>'] + spans::rendered(
        body,
    ));
}

proof fn lemma_items(indent: Seq<char>, body: Seq<char>, bullet: char)
    requires
        forall|j: int| 0 <= j < indent.len() ==> text::is_white(#[trigger] indent[j]),
        bullet == '-' || bullet == '*' || bullet == '+',
        !text::is_white(bullet),
    ensures
        blocks::line_text(indent + seq![bullet, ' ', '[', ' ', ']', ' '] + body) == indent + seq![
            '☐',
            ' ',
        ] + spans::rendered(body),
        blocks::line_text(indent + seq![bullet, ' ', '[', 'x', ']', ' '] + body) == indent + seq![
            '☑',
            ' ',
        ] + spans::rendered(body),
        blocks::line_text(indent + seq![bullet, ' ', '[', 'X', ']', ' '] + body) == indent + seq![
            '☑',
            ' ',
        ] + spans::rendered(body),
        !(body.len() >= 4 && body[0] == '[' && (body[1] == ' ' || body[1] == 'x' || body[1] == 'X')
            && body[2] == ']' && body[3] == ' ') ==> blocks::line_text(
            indent + seq![bullet, ' '] + body,
        ) == indent + seq!['\\', '-', ' '] + spans::rendered(body),
{
    lemma_task(indent, body, bullet, ' ', '☐');
    lemma_task(indent, body, bullet, 'x', '☑');
    lemma_task(indent, body, bullet, 'X', '☑');
    let d = seq![bullet, ' '] + body;
    lemma_no_heading(d);
    assert(d != seq!['>']) by {
        assert(d[0] == bullet);
    }
    lemma_indent(indent, d);
    assert(d.skip(2) =~= body);
    assert(indent + seq![bullet, ' '] + body =~= indent + d);
    assert(indent + (seq!['\\', '-', ' '] + spans::rendered(body)) =~= indent + seq!['\\', '-', ' ']
        + spans::rendered(body));
}

proof fn lemma_task(indent: Seq<char>, body: Seq<char>, bullet: char, inner: char, glyph: char)
    requires
        forall|j: int| 0 <= j < indent.len() ==> text::is_white(#[trigger] indent[j]),
        bullet == '-' || bullet == '*' || bullet == '+',
        !text::is_white(bullet),
        inner == ' ' && glyph == '☐' || (inner == 'x' || inner == 'X') && glyph == '☑',
    ensures
        blocks::line_text(indent + seq![bullet, ' ', '[', inner, ']', ' '] + body) == indent + seq![
            glyph,
            ' ',
        ] + spans::rendered(body),
{
    let a = seq![bullet, ' ', '[', inner, ']', ' '] + body;
    lemma_no_heading(a);
    assert(a != seq!['>']) by {
        assert(a[0] == bullet);
    }
    lemma_indent(indent, a);
    let rest = a.skip(2);
    assert(rest[0] == '[' && rest[1] == inner && rest[2] == ']' && rest[3] == ' ');
    assert(rest.skip(4) =~= body);
    assert(indent + seq![bullet, ' ', '[', inner, ']', ' '] + body =~= indent + a);
    assert(indent + (seq![glyph, ' '] + spans::rendered(body)) =~= indent + seq![glyph, ' ']
        + spans::rendered(body));
}

/// Whether a text begins with the marks of a heading: one to six, with a space or nothing
/// after them.
pub open spec fn begins_heading(content: Seq<char>) -> bool {
    exists|k: int|
        1 <= k <= 6 && k <= content.len() && #[trigger] only_marks(content.take(k)) && (k
            == content.len() || content[k] == ' ')
}

/// Whether a text is made of the marks of headings.
pub open spec fn only_marks(s: Seq<char>) -> bool {
    forall|j: int| 0 <= j < s.len() ==> #[trigger] s[j] == '#'
}

/// A line without such a mark keeps its indentation, and the rest of it is rendered.
pub proof fn unmarked_lines_are_only_rendered(indent: Seq<char>, content: Seq<char>)
    requires
        forall|j: int| 0 <= j < indent.len() ==> text::is_white(#[trigger] indent[j]),
        content.len() > 0 ==> !text::is_white(content[0]),
        !(content.len() == 1 && content[0] == '>'),
        !(content.len() >= 2 && content[0] == '>' && content[1] == ' '),
        !begins_heading(content),
        content.len() >= 2 && content[1] == ' ' ==> content[0] != '-' && content[0] != '*'
            && content[0] != '+',
    ensures
        blocks::line_text(indent + content) == indent + spans::rendered(content),
{
    lemma_indent(indent, content);
    text_laws::lemma_run(content, '#', 0);
    let n = text::run_of(content, '#', 0) as int;
    if 1 <= n <= 6 {
        assert forall|j: int| 0 <= j < content.take(n).len() implies #[trigger] content.take(n)[j]
            == '#' by {
            assert(content[j] == '#');
        }
        assert(only_marks(content.take(n)));
    }
    assert(blocks::heading_of(content) is None);
    assert(content != seq!['>']) by {
        if content == seq!['>'] {
            assert(content.len() == 1 && content[0] == '>');
        }
    }
}

} // verus!
