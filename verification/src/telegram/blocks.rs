//! Block structure of a markdown reply: fenced code, tables, headings, quotes
//! and lists, each turned into MarkdownV2.

use crate::telegram::spans;
use crate::telegram::spans::Place;
use crate::text;
use vstd::prelude::*;
use vstd::slice::slice_subrange;

verus! {

/// A table with more data rows than this becomes a code block.
pub const TABLE_ROW_BULLET_LIMIT: usize = 8;

// ---- Fenced code ------------------------------------------------------------

/// The fence that a line begins with: three backticks or three tildes.
pub open spec fn fence_of(line: Seq<char>) -> Option<char> {
    if text::begins_with(line, seq!['`', '`', '`']) {
        Some('`')
    } else if text::begins_with(line, seq!['~', '~', '~']) {
        Some('~')
    } else {
        None
    }
}

/// The fence that a line, leaving its indentation aside, begins with.
pub open spec fn fence_at(line: Seq<char>) -> Option<char> {
    fence_of(text::trimmed_start(line))
}

/// The fence that a line begins with.
fn fence_marker(line: &[char]) -> (r: Option<char>)
    ensures
        r == fence_of(line@),
        r is Some ==> line@.len() >= 3,
{
    if line.len() >= 3 && line[0] == line[1] && line[1] == line[2] {
        assert(line@.take(3) =~= seq![line@[0], line@[0], line@[0]]);
        if line[0] == '`' {
            return Some('`');
        }
        if line[0] == '~' {
            assert(line@.take(3)[0] != seq!['`', '`', '`'][0]);
            return Some('~');
        }
    }
    proof {
        if text::begins_with(line@, seq!['`', '`', '`']) {
            assert(line@.take(3)[0] == '`' && line@.take(3)[1] == '`' && line@.take(3)[2] == '`');
        }
        if text::begins_with(line@, seq!['~', '~', '~']) {
            assert(line@.take(3)[0] == '~' && line@.take(3)[1] == '~' && line@.take(3)[2] == '~');
        }
    }
    None
}

/// The fence that a line, leaving its indentation aside, begins with.
pub fn line_fence(line: &[char]) -> (r: Option<char>)
    ensures
        r == fence_at(line@),
{
    fence_marker(text::trim_start(line))
}

/// A code block with a language tag (empty for none) and the lines of its body.
pub open spec fn code_block(lang: Seq<char>, body: Seq<Seq<char>>) -> Seq<char> {
    "```"@ + lang + "\n"@ + spans::escaped(text::joined(body, "\n"@), Place::Code) + "\n```"@
}

/// A code block around an already joined body.
fn render_code_block(lang: &[char], body: &[char]) -> (out: Vec<char>)
    ensures
        out@ == "```"@ + lang@ + "\n"@ + spans::escaped(body@, Place::Code) + "\n```"@,
{
    let mut out: Vec<char> = text::to_chars("```");
    text::push_all(&mut out, lang);
    text::push_str(&mut out, "\n");
    spans::push_escaped(&mut out, body, Place::Code);
    text::push_str(&mut out, "\n```");
    out
}

// ---- Lines ------------------------------------------------------------------

/// The text of an ATX heading: one to six `#` and a space, or nothing after them.
pub open spec fn heading_of(content: Seq<char>) -> Option<Seq<char>> {
    let hashes = text::run_of(content, '#', 0) as int;
    if 1 <= hashes <= 6 {
        if hashes == content.len() {
            Some(Seq::empty())
        } else if content[hashes] == ' ' {
            Some(text::trimmed_end(content.skip(hashes + 1)))
        } else {
            None
        }
    } else {
        None
    }
}

/// What follows the marker of an unordered list item.
pub open spec fn bullet_of(content: Seq<char>) -> Option<Seq<char>> {
    if content.len() >= 2 && (content[0] == '-' || content[0] == '*' || content[0] == '+')
        && content[1] == ' ' {
        Some(content.skip(2))
    } else {
        None
    }
}

/// The checkbox of a task list item and what follows it.
pub open spec fn task_of(content: Seq<char>) -> Option<(char, Seq<char>)> {
    match bullet_of(content) {
        Some(rest) => if rest.len() >= 4 && rest[0] == '[' && rest[2] == ']' && rest[3] == ' ' {
            if rest[1] == ' ' {
                Some(('☐', rest.skip(4)))
            } else if rest[1] == 'x' || rest[1] == 'X' {
                Some(('☑', rest.skip(4)))
            } else {
                None
            }
        } else {
            None
        },
        None => None,
    }
}

/// The rendering of a line after its indentation.
pub open spec fn content_text(content: Seq<char>) -> Seq<char> {
    if let Some(title) = heading_of(content) {
        seq!['*'] + spans::rendered(title) + seq!['*']
    } else if content.len() >= 2 && content[0] == '>' && content[1] == ' ' {
        seq!['>'] + spans::rendered(content.skip(2))
    } else if content == seq!['>'] {
        seq!['>']
    } else if let Some((glyph, rest)) = task_of(content) {
        seq![glyph, ' '] + spans::rendered(rest)
    } else if let Some(rest) = bullet_of(content) {
        seq!['\\', '-', ' '] + spans::rendered(rest)
    } else {
        spans::rendered(content)
    }
}

/// The indentation of a line.
pub open spec fn indent_of(line: Seq<char>) -> Seq<char> {
    line.take(line.len() - text::trimmed_start(line).len())
}

/// The rendering of a line that is neither fenced nor part of a table.
pub open spec fn line_text(line: Seq<char>) -> Seq<char> {
    indent_of(line) + content_text(text::trimmed_start(line))
}

/// The text of an ATX heading.
fn heading_text<'a>(content: &'a [char]) -> (r: Option<&'a [char]>)
    ensures
        match r {
            Some(title) => heading_of(content@) == Some(title@),
            None => heading_of(content@) == None::<Seq<char>>,
        },
{
    let hashes: usize = text::run_len(content, '#', 0);
    if 1 <= hashes && hashes <= 6 {
        if hashes == content.len() {
            let rest = text::skip(content, hashes);
            assert(rest@ =~= Seq::empty());
            return Some(rest);
        }
        if content[hashes] == ' ' {
            return Some(text::trim_end(text::skip(content, hashes + 1)));
        }
    }
    None
}

/// What follows the marker of an unordered list item.
fn bullet_item<'a>(content: &'a [char]) -> (r: Option<&'a [char]>)
    ensures
        match r {
            Some(rest) => bullet_of(content@) == Some(rest@),
            None => bullet_of(content@) == None::<Seq<char>>,
        },
{
    if content.len() >= 2 && (content[0] == '-' || content[0] == '*' || content[0] == '+')
        && content[1] == ' ' {
        Some(text::skip(content, 2))
    } else {
        None
    }
}

/// The checkbox of a task list item and what follows it.
fn task_list_item<'a>(content: &'a [char]) -> (r: Option<(char, &'a [char])>)
    ensures
        match r {
            Some((glyph, rest)) => task_of(content@) == Some((glyph, rest@)),
            None => task_of(content@) == None::<(char, Seq<char>)>,
        },
{
    match bullet_item(content) {
        Some(rest) => {
            if rest.len() >= 4 && rest[0] == '[' && rest[2] == ']' && rest[3] == ' ' {
                if rest[1] == ' ' {
                    return Some(('☐', text::skip(rest, 4)));
                }
                if rest[1] == 'x' || rest[1] == 'X' {
                    return Some(('☑', text::skip(rest, 4)));
                }
            }
            None
        },
        None => None,
    }
}

/// Appends the rendering of a line after its indentation.
fn push_content(out: &mut Vec<char>, content: &[char])
    ensures
        final(out)@ == old(out)@ + content_text(content@),
{
    if let Some(title) = heading_text(content) {
        let body = spans::render_inline(title);
        out.push('*');
        text::push_all(out, body.as_slice());
        out.push('*');
        assert(out@ =~= old(out)@ + (seq!['*'] + body@ + seq!['*']));
        return ;
    }
    if content.len() >= 2 && content[0] == '>' && content[1] == ' ' {
        let body = spans::render_inline(text::skip(content, 2));
        out.push('>');
        text::push_all(out, body.as_slice());
        assert(out@ =~= old(out)@ + (seq!['>'] + body@));
        return ;
    }
    if content.len() == 1 && content[0] == '>' {
        assert(content@ =~= seq!['>']);
        out.push('>');
        assert(out@ =~= old(out)@ + seq!['>']);
        return ;
    }
    assert(content@ != seq!['>']) by {
        if content@ == seq!['>'] {
            assert(content@.len() == 1 && content@[0] == '>');
        }
    }
    if let Some((glyph, rest)) = task_list_item(content) {
        let body = spans::render_inline(rest);
        out.push(glyph);
        out.push(' ');
        text::push_all(out, body.as_slice());
        assert(out@ =~= old(out)@ + (seq![glyph, ' '] + body@));
        return ;
    }
    if let Some(rest) = bullet_item(content) {
        let body = spans::render_inline(rest);
        out.push('\\');
        out.push('-');
        out.push(' ');
        text::push_all(out, body.as_slice());
        assert(out@ =~= old(out)@ + (seq!['\\', '-', ' '] + body@));
        return ;
    }
    let body = spans::render_inline(content);
    text::push_all(out, body.as_slice());
}

/// The rendering of a line that is neither fenced nor part of a table.
fn render_line(line: &[char]) -> (out: Vec<char>)
    ensures
        out@ == line_text(line@),
{
    let content = text::trim_start(line);
    let mut out = text::copy_chars(text::take(line, line.len() - content.len()));
    push_content(&mut out, content);
    out
}

// ---- Tables -----------------------------------------------------------------

/// Whether a line can be a row of a table: it holds a pipe.
pub open spec fn table_row(line: Seq<char>) -> bool {
    line.contains('|')
}

/// Whether a line separates the header of a table from its rows: dashes, pipes,
/// colons and spaces between its outer white space, and at least one dash.
pub open spec fn table_delimiter(line: Seq<char>) -> bool {
    let t = text::trimmed(line);
    &&& t.contains('-')
    &&& forall|i: int| 0 <= i < t.len() ==> t[i] == '-' || t[i] == '|' || t[i] == ':' || t[i] == ' '
}

/// The cells of a row, without the pipes at its ends.
pub open spec fn row_cells(row: Seq<char>) -> Seq<Seq<char>> {
    let parts = text::split_on(inner_row(row), '|');
    Seq::new(parts.len(), |i: int| text::trimmed(parts[i]))
}

/// A row without its outer white space and without a pipe at either end.
pub open spec fn inner_row(row: Seq<char>) -> Seq<char> {
    let t = text::trimmed(row);
    let u = if t.len() > 0 && t[0] == '|' {
        t.skip(1)
    } else {
        t
    };
    if u.len() > 0 && u.last() == '|' {
        u.drop_last()
    } else {
        u
    }
}

/// Entry `i` of `cells`, or nothing.
pub open spec fn cell_at(cells: Seq<Seq<char>>, i: int) -> Seq<char> {
    if 0 <= i < cells.len() {
        cells[i]
    } else {
        Seq::empty()
    }
}

/// One cell as a bullet, under its column's header where that is not empty.
pub open spec fn cell_bullet(header: Seq<char>, cell: Seq<char>) -> Seq<char> {
    if header.len() == 0 {
        "\\- "@ + spans::rendered(cell)
    } else {
        "\\- *"@ + spans::rendered(header) + ":* "@ + spans::rendered(cell)
    }
}

/// The bullets of one row.
pub open spec fn row_bullets(headers: Seq<Seq<char>>, row: Seq<char>) -> Seq<char> {
    let cells = row_cells(row);
    text::joined(
        Seq::new(cells.len(), |i: int| cell_bullet(cell_at(headers, i), cells[i])),
        "\n"@,
    )
}

/// The largest number of cells in a row of `grid`.
pub open spec fn column_count(grid: Seq<Seq<Seq<char>>>) -> nat
    decreases grid.len(),
{
    if grid.len() == 0 {
        0
    } else {
        let before = column_count(grid.drop_last());
        if grid.last().len() > before {
            grid.last().len()
        } else {
            before
        }
    }
}

/// The length of the longest cell in column `c` of `grid`.
pub open spec fn column_width(grid: Seq<Seq<Seq<char>>>, c: int) -> nat
    decreases grid.len(),
{
    if grid.len() == 0 {
        0
    } else {
        let before = column_width(grid.drop_last(), c);
        if cell_at(grid.last(), c).len() > before {
            cell_at(grid.last(), c).len()
        } else {
            before
        }
    }
}

/// `cell` followed by as many spaces as make it `width` characters long.
pub open spec fn padded(cell: Seq<char>, width: nat) -> Seq<char> {
    if cell.len() >= width {
        cell
    } else {
        cell + Seq::new((width - cell.len()) as nat, |i: int| ' ')
    }
}

/// One line of a table that is laid out as a grid.
pub open spec fn grid_line(grid: Seq<Seq<Seq<char>>>, r: int) -> Seq<char> {
    text::trimmed_end(
        text::joined(
            Seq::new(
                column_count(grid),
                |c: int| padded(cell_at(grid[r], c), column_width(grid, c)),
            ),
            "  "@,
        ),
    )
}

/// The cells of the header and of all rows of a table.
pub open spec fn table_grid(header: Seq<char>, rows: Seq<Seq<char>>) -> Seq<Seq<Seq<char>>> {
    Seq::new(
        rows.len() + 1,
        |r: int|
            if r == 0 {
                row_cells(header)
            } else {
                row_cells(rows[r - 1])
            },
    )
}

/// A table as a code block with aligned columns.
pub open spec fn table_code(header: Seq<char>, rows: Seq<Seq<char>>) -> Seq<char> {
    let grid = table_grid(header, rows);
    code_block(Seq::empty(), Seq::new(grid.len(), |r: int| grid_line(grid, r)))
}

/// The rendering of a table: bullets per row where it is small, else a code block.
pub open spec fn table_text(header: Seq<char>, rows: Seq<Seq<char>>) -> Seq<char> {
    if rows.len() > TABLE_ROW_BULLET_LIMIT {
        table_code(header, rows)
    } else {
        text::joined(
            Seq::new(rows.len(), |r: int| row_bullets(row_cells(header), rows[r])),
            "\n\n"@,
        )
    }
}

/// Whether a line can be a row of a table.
pub fn is_table_row(line: &[char]) -> (b: bool)
    ensures
        b == table_row(line@),
{
    text::contains_char(line, '|')
}

/// Whether a line separates the header of a table from its rows.
pub fn is_table_delimiter(line: &[char]) -> (b: bool)
    ensures
        b == table_delimiter(line@),
{
    let t = text::trim(line);
    let mut i: usize = 0;
    while i < t.len()
        invariant
            t@ == text::trimmed(line@),
            i <= t@.len(),
            forall|j: int|
                0 <= j < i ==> t@[j] == '-' || t@[j] == '|' || t@[j] == ':' || t@[j] == ' ',
        decreases t@.len() - i,
    {
        let c = t[i];
        if !(c == '-' || c == '|' || c == ':' || c == ' ') {
            return false;
        }
        i = i + 1;
    }
    text::contains_char(t, '-')
}

/// The cells of a row.
fn table_cells(row: &[char]) -> (cells: Vec<Vec<char>>)
    ensures
        text::vec_views(cells@) == row_cells(row@),
{
    let t = text::trim(row);
    let u = if t.len() > 0 && t[0] == '|' {
        text::skip(t, 1)
    } else {
        t
    };
    let v = if u.len() > 0 && u[u.len() - 1] == '|' {
        text::take(u, u.len() - 1)
    } else {
        u
    };
    assert(v@ =~= inner_row(row@));
    let parts = text::split_char(v, '|');
    let ghost all = text::split_on(v@, '|');
    let mut cells: Vec<Vec<char>> = Vec::new();
    let mut i: usize = 0;
    while i < parts.len()
        invariant
            text::slice_views(parts@) == all,
            i <= parts@.len(),
            cells@.len() == i,
            forall|j: int| 0 <= j < i ==> (#[trigger] cells@[j])@ == text::trimmed(all[j]),
        decreases parts@.len() - i,
    {
        assert(text::slice_views(parts@)[i as int] == parts@[i as int]@);
        cells.push(text::copy_chars(text::trim(parts[i])));
        i = i + 1;
    }
    assert(text::vec_views(cells@) =~= row_cells(row@));
    cells
}

/// One cell as a bullet.
fn render_cell(header: &[char], cell: &[char]) -> (out: Vec<char>)
    ensures
        out@ == cell_bullet(header@, cell@),
{
    let body = spans::render_inline(cell);
    if header.len() == 0 {
        let mut out = text::to_chars("\\- ");
        text::push_all(&mut out, body.as_slice());
        out
    } else {
        let key = spans::render_inline(header);
        let mut out = text::to_chars("\\- *");
        text::push_all(&mut out, key.as_slice());
        text::push_str(&mut out, ":* ");
        text::push_all(&mut out, body.as_slice());
        out
    }
}

/// Entry `i` of `cells`, or nothing.
fn get_cell<'a>(cells: &'a Vec<Vec<char>>, i: usize) -> (r: &'a [char])
    ensures
        r@ == cell_at(text::vec_views(cells@), i as int),
{
    if i < cells.len() {
        cells[i].as_slice()
    } else {
        let empty: &[char] = &[];
        assert(empty@ =~= Seq::empty());
        empty
    }
}

/// The bullets of one row.
fn render_row(headers: &Vec<Vec<char>>, row: &[char]) -> (out: Vec<char>)
    ensures
        out@ == row_bullets(text::vec_views(headers@), row@),
{
    let cells = table_cells(row);
    let ghost heads = text::vec_views(headers@);
    let ghost all = row_cells(row@);
    let mut lines: Vec<Vec<char>> = Vec::new();
    let mut i: usize = 0;
    while i < cells.len()
        invariant
            heads == text::vec_views(headers@),
            all == text::vec_views(cells@),
            i <= cells@.len(),
            lines@.len() == i,
            forall|j: int|
                0 <= j < i ==> (#[trigger] lines@[j])@ == cell_bullet(cell_at(heads, j), all[j]),
        decreases cells@.len() - i,
    {
        assert(all[i as int] == cells@[i as int]@);
        lines.push(render_cell(get_cell(headers, i), cells[i].as_slice()));
        i = i + 1;
    }
    assert(text::vec_views(lines@) =~= Seq::new(
        all.len(),
        |i: int| cell_bullet(cell_at(heads, i), all[i]),
    ));
    text::join(&lines, "\n")
}

/// What a grid of cells holds.
spec fn grid_views(grid: Seq<Vec<Vec<char>>>) -> Seq<Seq<Seq<char>>> {
    Seq::new(grid.len(), |r: int| text::vec_views(grid[r]@))
}

/// The cells of the header and of all rows of a table.
fn build_grid(header: &[char], rows: &[&[char]]) -> (grid: Vec<Vec<Vec<char>>>)
    ensures
        grid_views(grid@) == table_grid(header@, text::slice_views(rows@)),
{
    let ghost all = text::slice_views(rows@);
    let mut grid: Vec<Vec<Vec<char>>> = Vec::new();
    grid.push(table_cells(header));
    let mut i: usize = 0;
    while i < rows.len()
        invariant
            all == text::slice_views(rows@),
            i <= rows@.len(),
            grid@.len() == i + 1,
            text::vec_views(grid@[0]@) == row_cells(header@),
            forall|j: int|
                1 <= j <= i ==> text::vec_views((#[trigger] grid@[j])@) == row_cells(all[j - 1]),
        decreases rows@.len() - i,
    {
        assert(all[i as int] == rows@[i as int]@);
        grid.push(table_cells(rows[i]));
        i = i + 1;
    }
    assert(grid_views(grid@) =~= table_grid(header@, all));
    grid
}

/// The largest number of cells in a row of `grid`.
fn count_columns(grid: &Vec<Vec<Vec<char>>>) -> (n: usize)
    ensures
        n == column_count(grid_views(grid@)),
{
    let ghost g = grid_views(grid@);
    let mut n: usize = 0;
    let mut i: usize = 0;
    while i < grid.len()
        invariant
            g == grid_views(grid@),
            i <= grid@.len(),
            n == column_count(g.take(i as int)),
        decreases grid@.len() - i,
    {
        assert(g.take(i + 1).drop_last() =~= g.take(i as int));
        assert(g.take(i + 1).last() == text::vec_views(grid@[i as int]@));
        if grid[i].len() > n {
            n = grid[i].len();
        }
        i = i + 1;
    }
    assert(g.take(grid@.len() as int) =~= g);
    n
}

/// The length of the longest cell in column `c` of `grid`.
fn measure_column(grid: &Vec<Vec<Vec<char>>>, c: usize) -> (n: usize)
    ensures
        n == column_width(grid_views(grid@), c as int),
{
    let ghost g = grid_views(grid@);
    let mut n: usize = 0;
    let mut i: usize = 0;
    while i < grid.len()
        invariant
            g == grid_views(grid@),
            i <= grid@.len(),
            n == column_width(g.take(i as int), c as int),
        decreases grid@.len() - i,
    {
        assert(g.take(i + 1).drop_last() =~= g.take(i as int));
        assert(g.take(i + 1).last() == text::vec_views(grid@[i as int]@));
        let cell = get_cell(&grid[i], c);
        if cell.len() > n {
            n = cell.len();
        }
        i = i + 1;
    }
    assert(g.take(grid@.len() as int) =~= g);
    n
}

/// `cell` followed by as many spaces as make it `width` characters long.
fn pad(cell: &[char], width: usize) -> (out: Vec<char>)
    ensures
        out@ == padded(cell@, width as nat),
{
    let mut out = text::copy_chars(cell);
    while out.len() < width
        invariant
            out@.len() <= width || out@.len() == cell@.len(),
            cell@.len() <= out@.len(),
            out@ =~= cell@ + Seq::new((out@.len() - cell@.len()) as nat, |i: int| ' '),
        decreases width - out@.len(),
    {
        out.push(' ');
    }
    assert(out@ =~= padded(cell@, width as nat));
    out
}

/// One line of a table that is laid out as a grid.
fn render_grid_line(grid: &Vec<Vec<Vec<char>>>, widths: &Vec<usize>, r: usize) -> (out: Vec<char>)
    requires
        r < grid@.len(),
        widths@.len() == column_count(grid_views(grid@)),
        forall|c: int|
            0 <= c < widths@.len() ==> widths@[c] == column_width(grid_views(grid@), c),
    ensures
        out@ == grid_line(grid_views(grid@), r as int),
{
    let ghost g = grid_views(grid@);
    let mut cells: Vec<Vec<char>> = Vec::new();
    let mut c: usize = 0;
    while c < widths.len()
        invariant
            g == grid_views(grid@),
            r < grid@.len(),
            c <= widths@.len(),
            forall|k: int| 0 <= k < widths@.len() ==> widths@[k] == column_width(g, k),
            cells@.len() == c,
            forall|k: int|
                0 <= k < c ==> (#[trigger] cells@[k])@ == padded(
                    cell_at(g[r as int], k),
                    column_width(g, k),
                ),
        decreases widths@.len() - c,
    {
        cells.push(pad(get_cell(&grid[r], c), widths[c]));
        c = c + 1;
    }
    assert(text::vec_views(cells@) =~= Seq::new(
        column_count(g),
        |c: int| padded(cell_at(g[r as int], c), column_width(g, c)),
    ));
    let line = text::join(&cells, "  ");
    text::copy_chars(text::trim_end(line.as_slice()))
}

/// A table as a code block with aligned columns.
fn render_table_as_code(header: &[char], rows: &[&[char]]) -> (out: Vec<char>)
    ensures
        out@ == table_code(header@, text::slice_views(rows@)),
{
    let grid = build_grid(header, rows);
    let ghost g = grid_views(grid@);
    let cols: usize = count_columns(&grid);
    let mut widths: Vec<usize> = Vec::new();
    while widths.len() < cols
        invariant
            g == grid_views(grid@),
            widths@.len() <= cols,
            forall|c: int| 0 <= c < widths@.len() ==> widths@[c] == column_width(g, c),
        decreases cols - widths@.len(),
    {
        let w: usize = measure_column(&grid, widths.len());
        widths.push(w);
    }
    let mut lines: Vec<Vec<char>> = Vec::new();
    let mut r: usize = 0;
    while r < grid.len()
        invariant
            g == grid_views(grid@),
            widths@.len() == column_count(g),
            forall|c: int| 0 <= c < widths@.len() ==> widths@[c] == column_width(g, c),
            r <= grid@.len(),
            lines@.len() == r,
            forall|k: int| 0 <= k < r ==> (#[trigger] lines@[k])@ == grid_line(g, k),
        decreases grid@.len() - r,
    {
        lines.push(render_grid_line(&grid, &widths, r));
        r = r + 1;
    }
    assert(text::vec_views(lines@) =~= Seq::new(g.len(), |r: int| grid_line(g, r)));
    let body = text::join(&lines, "\n");
    let none: &[char] = &[];
    assert(none@ =~= Seq::empty());
    render_code_block(none, body.as_slice())
}

/// The rendering of a table.
fn render_table(header: &[char], rows: &[&[char]]) -> (out: Vec<char>)
    ensures
        out@ == table_text(header@, text::slice_views(rows@)),
{
    if rows.len() > TABLE_ROW_BULLET_LIMIT {
        return render_table_as_code(header, rows);
    }
    let headers = table_cells(header);
    let ghost heads = row_cells(header@);
    let ghost all = text::slice_views(rows@);
    let mut groups: Vec<Vec<char>> = Vec::new();
    let mut i: usize = 0;
    while i < rows.len()
        invariant
            heads == text::vec_views(headers@),
            all == text::slice_views(rows@),
            i <= rows@.len(),
            groups@.len() == i,
            forall|j: int| 0 <= j < i ==> (#[trigger] groups@[j])@ == row_bullets(heads, all[j]),
        decreases rows@.len() - i,
    {
        assert(all[i as int] == rows@[i as int]@);
        groups.push(render_row(&headers, rows[i]));
        i = i + 1;
    }
    assert(text::vec_views(groups@) =~= Seq::new(
        all.len(),
        |r: int| row_bullets(row_cells(header@), all[r]),
    ));
    text::join(&groups, "\n\n")
}

// ---- Documents --------------------------------------------------------------

/// The first line from `i` on that closes `fence`, or the number of lines.
pub open spec fn fence_end(lines: Seq<Seq<char>>, fence: char, i: int) -> int
    decreases lines.len() - i,
{
    if i >= lines.len() {
        lines.len() as int
    } else if fence_at(lines[i]) == Some(fence) {
        i
    } else {
        fence_end(lines, fence, i + 1)
    }
}

/// The first line from `i` on that is no row of a table, or the number of lines.
pub open spec fn table_end(lines: Seq<Seq<char>>, i: int) -> int
    decreases lines.len() - i,
{
    if i >= lines.len() {
        lines.len() as int
    } else if !table_row(lines[i]) {
        i
    } else {
        table_end(lines, i + 1)
    }
}

pub proof fn lemma_fence_end(lines: Seq<Seq<char>>, fence: char, i: int)
    requires
        0 <= i <= lines.len(),
    ensures
        i <= fence_end(lines, fence, i) <= lines.len(),
    decreases lines.len() - i,
{
    if i < lines.len() && fence_at(lines[i]) != Some(fence) {
        lemma_fence_end(lines, fence, i + 1);
    }
}

pub proof fn lemma_table_end(lines: Seq<Seq<char>>, i: int)
    requires
        0 <= i <= lines.len(),
    ensures
        i <= table_end(lines, i) <= lines.len(),
        forall|j: int| i <= j < table_end(lines, i) ==> table_row(#[trigger] lines[j]),
    decreases lines.len() - i,
{
    if i < lines.len() && table_row(lines[i]) {
        lemma_table_end(lines, i + 1);
    }
}

/// Whether a table begins at line `i`: a header row above a delimiter row.
pub open spec fn table_starts(lines: Seq<Seq<char>>, i: int) -> bool {
    0 <= i < lines.len() - 1 && table_row(lines[i]) && table_delimiter(lines[i + 1])
}

/// The rendered blocks of a document from line `i` on.
pub open spec fn blocks_from(lines: Seq<Seq<char>>, i: int) -> Seq<Seq<char>>
    decreases lines.len() - i,
    when 0 <= i <= lines.len()
    via blocks_from_decreases
{
    if i >= lines.len() {
        Seq::empty()
    } else if let Some(fence) = fence_at(lines[i]) {
        let end = fence_end(lines, fence, i + 1);
        let next = if end < lines.len() {
            end + 1
        } else {
            end
        };
        seq![
            code_block(
                text::first_word(text::trimmed_start(lines[i]).skip(3)),
                lines.subrange(i + 1, end),
            ),
        ] + blocks_from(lines, next)
    } else if table_starts(lines, i) {
        let end = table_end(lines, i + 2);
        seq![table_text(lines[i], lines.subrange(i + 2, end))] + blocks_from(lines, end)
    } else {
        seq![line_text(lines[i])] + blocks_from(lines, i + 1)
    }
}

#[via_fn]
proof fn blocks_from_decreases(lines: Seq<Seq<char>>, i: int) {
    if i < lines.len() {
        if let Some(fence) = fence_at(lines[i]) {
            lemma_fence_end(lines, fence, i + 1);
        }
        if table_starts(lines, i) {
            lemma_table_end(lines, i + 2);
        }
    }
}

/// A markdown document in MarkdownV2.
pub open spec fn markdown_v2(markdown: Seq<char>) -> Seq<char> {
    text::joined(blocks_from(text::split_on(markdown, '\n'), 0), "\n"@)
}

/// The first line from `from` on that closes `fence`, or the number of lines.
fn find_fence_end(lines: &Vec<&[char]>, fence: char, from: usize) -> (r: usize)
    requires
        from <= lines@.len(),
    ensures
        r == fence_end(text::slice_views(lines@), fence, from as int),
        from <= r <= lines@.len(),
{
    let ghost all = text::slice_views(lines@);
    let mut i: usize = from;
    while i < lines.len()
        invariant
            all == text::slice_views(lines@),
            from <= i <= lines@.len(),
            fence_end(all, fence, from as int) == fence_end(all, fence, i as int),
        decreases lines@.len() - i,
    {
        assert(all[i as int] == lines@[i as int]@);
        if let Some(f) = line_fence(lines[i]) {
            if f == fence {
                return i;
            }
        }
        i = i + 1;
    }
    i
}

/// The first line from `from` on that is no row of a table, or the number of lines.
pub fn find_table_end(lines: &Vec<&[char]>, from: usize) -> (r: usize)
    requires
        from <= lines@.len(),
    ensures
        r == table_end(text::slice_views(lines@), from as int),
        from <= r <= lines@.len(),
{
    let ghost all = text::slice_views(lines@);
    let mut i: usize = from;
    while i < lines.len()
        invariant
            all == text::slice_views(lines@),
            from <= i <= lines@.len(),
            table_end(all, from as int) == table_end(all, i as int),
        decreases lines@.len() - i,
    {
        assert(all[i as int] == lines@[i as int]@);
        if !is_table_row(lines[i]) {
            return i;
        }
        i = i + 1;
    }
    i
}

/// Whether a table begins at line `i`.
pub fn starts_table(lines: &Vec<&[char]>, i: usize) -> (b: bool)
    requires
        i < lines@.len(),
    ensures
        b == table_starts(text::slice_views(lines@), i as int),
{
    let ghost all = text::slice_views(lines@);
    assert(all[i as int] == lines@[i as int]@);
    if i < lines.len() - 1 {
        assert(all[i + 1] == lines@[i + 1]@);
        is_table_row(lines[i]) && is_table_delimiter(lines[i + 1])
    } else {
        false
    }
}

/// A markdown document in MarkdownV2.
pub fn render_document(markdown: &[char]) -> (out: Vec<char>)
    ensures
        out@ == markdown_v2(markdown@),
{
    let lines = text::split_char(markdown, '\n');
    let ghost all = text::slice_views(lines@);
    let mut out: Vec<Vec<char>> = Vec::new();
    let mut i: usize = 0;
    assert(text::vec_views(out@) + blocks_from(all, 0) =~= blocks_from(all, 0));
    while i < lines.len()
        invariant
            all == text::slice_views(lines@),
            i <= lines@.len(),
            text::vec_views(out@) + blocks_from(all, i as int) == blocks_from(all, 0),
        decreases lines@.len() - i,
    {
        let ghost before = text::vec_views(out@);
        let ghost from = i as int;
        assert(all[i as int] == lines@[i as int]@);
        let fence = line_fence(lines[i]);
        if let Some(f) = fence {
            let trimmed = text::trim_start(lines[i]);
            proof {
                let p: Seq<char> = if f == '`' {
                    seq!['`', '`', '`']
                } else {
                    seq!['~', '~', '~']
                };
                assert(text::begins_with(trimmed@, p));
                assert(p.len() == 3);
            }
            let lang = text::find_first_word(text::skip(trimmed, 3));
            let end: usize = find_fence_end(&lines, f, i + 1);
            let body = text::join_slices(slice_subrange(lines.as_slice(), i + 1, end), "\n");
            assert(text::slice_views(lines@.subrange(i + 1, end as int)) =~= all.subrange(
                i + 1,
                end as int,
            ));
            out.push(render_code_block(lang, body.as_slice()));
            i = if end < lines.len() {
                end + 1
            } else {
                end
            };
        } else if starts_table(&lines, i) {
            let end: usize = find_table_end(&lines, i + 2);
            let rows = slice_subrange(lines.as_slice(), i + 2, end);
            assert(text::slice_views(rows@) =~= all.subrange(i + 2, end as int));
            out.push(render_table(lines[i], rows));
            i = end;
        } else {
            out.push(render_line(lines[i]));
            i = i + 1;
        }
        proof {
            let piece = seq![out@.last()@];
            assert(text::vec_views(out@) =~= before + piece);
            assert(blocks_from(all, from) == piece + blocks_from(all, i as int));
            vstd::seq_lib::lemma_concat_associative(before, piece, blocks_from(all, i as int));
        }
    }
    assert(text::vec_views(out@) + Seq::<Seq<char>>::empty() =~= text::vec_views(out@));
    text::join(&out, "\n")
}

} // verus!
