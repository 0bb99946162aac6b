//! What holds of every table that is rendered.

use crate::telegram::blocks;
use crate::telegram::spans;
use crate::telegram::spans::Place;
use crate::text;
use crate::text_laws;
use vstd::prelude::*;

verus! {

// ---- Cells ------------------------------------------------------------------

/// The cells of a row are what stands between its pipes, without white space around it;
/// pipes at the two ends of a row, and white space around it, make no difference.
pub proof fn cells_stand_between_pipes(cells: Seq<Seq<char>>, blank: Seq<char>)
    requires
        cells.len() > 0,
        forall|k: int| 0 <= k < cells.len() ==> !(#[trigger] cells[k]).contains('|'),
        forall|k: int|
            0 <= k < cells.len() ==> (#[trigger] cells[k]).len() > 0 ==> !text::is_white(cells[k][0])
                && !text::is_white(cells[k].last()),
        forall|j: int| 0 <= j < blank.len() ==> text::is_white(#[trigger] blank[j]),
    ensures
        blocks::row_cells(
            blank + seq!['|'] + text::joined(cells, seq!['|']) + seq!['|'] + blank,
        ) == cells,
        cells[0].len() > 0 && cells.last().len() > 0 ==> blocks::row_cells(
            blank + text::joined(cells, seq!['|']) + blank,
        ) == cells,
{
    let inner = text::joined(cells, seq!['|']);
    let framed = seq!['|'] + inner + seq!['|'];
    text_laws::ascii_white_space('|');
    assert(framed[0] == '|' && framed.last() == '|');
    text_laws::trimmed_text_stays(framed);
    text_laws::white_space_around_is_trimmed(blank, framed, blank);
    assert(blank + seq!['|'] + inner + seq!['|'] + blank =~= blank + framed + blank);
    assert(framed.skip(1) =~= inner + seq!['|']);
    assert((inner + seq!['|']).drop_last() =~= inner);
    text_laws::joined_parts_are_split_again(cells, '|');
    assert forall|k: int| 0 <= k < cells.len() implies text::trimmed(#[trigger] cells[k])
        == cells[k] by {
        text_laws::trimmed_text_stays(cells[k]);
    }
    assert(blocks::row_cells(blank + framed + blank) =~= cells);
    if cells[0].len() > 0 && cells.last().len() > 0 {
        lemma_ends(cells);
        assert(cells[0].contains(cells[0][0]));
        assert(cells[cells.len() - 1].contains(cells.last().last()));
        text_laws::trimmed_text_stays(inner);
        text_laws::white_space_around_is_trimmed(blank, inner, blank);
        assert(blocks::row_cells(blank + inner + blank) =~= cells);
    }
}

proof fn lemma_ends(cells: Seq<Seq<char>>)
    requires
        cells.len() > 0,
        cells[0].len() > 0,
        cells.last().len() > 0,
    ensures
        text::joined(cells, seq!['|']).len() > 0,
        text::joined(cells, seq!['|'])[0] == cells[0][0],
        text::joined(cells, seq!['|']).last() == cells.last().last(),
{
    let rest = cells.skip(1);
    assert(cells =~= seq![cells[0]] + rest);
    text::lemma_joined_front(cells[0], rest, seq!['|']);
    let front = cells.drop_last();
    assert(cells =~= front.push(cells.last()));
    text::lemma_joined_push(front, cells.last(), seq!['|']);
}

// ---- Small tables -----------------------------------------------------------

/// A small table becomes bullets: one for each cell of each row, under the header of its
/// column where that is not empty, with an empty line between two rows.
pub proof fn small_tables_become_bullets(
    header: Seq<char>,
    row: Seq<char>,
    a: Seq<Seq<char>>,
    b: Seq<Seq<char>>,
)
    requires
        a.len() > 0 && b.len() > 0,
        a.len() + b.len() <= blocks::TABLE_ROW_BULLET_LIMIT,
    ensures
        blocks::table_text(header, Seq::empty()) == Seq::<char>::empty(),
        blocks::table_text(header, a + b) == blocks::table_text(header, a) + "\n\n"@
            + blocks::table_text(header, b),
        ({
            let heads = blocks::row_cells(header);
            let cells = blocks::row_cells(row);
            blocks::table_text(header, seq![row]) == text::joined(
                Seq::new(
                    cells.len(),
                    |i: int|
                        if i < heads.len() && heads[i].len() > 0 {
                            "\\- *"@ + spans::rendered(heads[i]) + ":* "@ + spans::rendered(
                                cells[i],
                            )
                        } else {
                            "\\- "@ + spans::rendered(cells[i])
                        },
                ),
                "\n"@,
            )
        }),
{
    let heads = blocks::row_cells(header);
    let shown = |rows: Seq<Seq<char>>|
        Seq::new(rows.len(), |r: int| blocks::row_bullets(heads, rows[r]));
    assert(shown(a + b) =~= shown(a) + shown(b));
    text_laws::joining_puts_separators_between(shown(a), shown(b), row, "\n\n"@);
    assert(shown(seq![row]) =~= seq![blocks::row_bullets(heads, row)]);
    text_laws::joining_puts_separators_between(
        shown(a),
        shown(b),
        blocks::row_bullets(heads, row),
        "\n\n"@,
    );
    assert(shown(Seq::<Seq<char>>::empty()) =~= Seq::<Seq<char>>::empty());
    let cells = blocks::row_cells(row);
    assert(Seq::new(
        cells.len(),
        |i: int| blocks::cell_bullet(blocks::cell_at(heads, i), cells[i]),
    ) =~= Seq::new(
        cells.len(),
        |i: int|
            if i < heads.len() && heads[i].len() > 0 {
                "\\- *"@ + spans::rendered(heads[i]) + ":* "@ + spans::rendered(cells[i])
            } else {
                "\\- "@ + spans::rendered(cells[i])
            },
    ));
}

// ---- Large tables -----------------------------------------------------------

/// A larger table becomes a code block with a line for its header and one for each row.
pub proof fn larger_tables_become_code(header: Seq<char>, rows: Seq<Seq<char>>)
    requires
        rows.len() > blocks::TABLE_ROW_BULLET_LIMIT,
    ensures
        ({
            let grid = blocks::table_grid(header, rows);
            &&& grid.len() == rows.len() + 1
            &&& grid[0] == blocks::row_cells(header)
            &&& forall|r: int|
                0 <= r < rows.len() ==> grid[r + 1] == blocks::row_cells(#[trigger] rows[r])
            &&& blocks::table_text(header, rows) == "```"@ + "\n"@ + spans::escaped(
                text::joined(Seq::new(grid.len(), |r: int| blocks::grid_line(grid, r)), "\n"@),
                Place::Code,
            ) + "\n```"@
        }),
{
    assert("```"@ + Seq::<char>::empty() + "\n"@ =~= "```"@ + "\n"@);
}

/// The widest row decides how many columns there are, and the longest cell of a column how
/// wide it is.
pub proof fn columns_are_as_wide_as_their_longest_cell(
    grid: Seq<Seq<Seq<char>>>,
    r: int,
    c: int,
)
    requires
        0 <= r < grid.len(),
        0 <= c,
    ensures
        grid[r].len() <= blocks::column_count(grid),
        exists|k: int| 0 <= k < grid.len() && (#[trigger] grid[k]).len() == blocks::column_count(
            grid,
        ),
        c < grid[r].len() ==> grid[r][c].len() <= blocks::column_width(grid, c),
        blocks::column_width(grid, c) > 0 ==> exists|k: int|
            0 <= k < grid.len() && c < (#[trigger] grid[k]).len() && grid[k][c].len()
                == blocks::column_width(grid, c),
    decreases grid.len(),
{
    let front = grid.drop_last();
    if front.len() > 0 {
        let k = if r < front.len() {
            r
        } else {
            0
        };
        columns_are_as_wide_as_their_longest_cell(front, k, c);
        assert(front[k] == grid[k]);
        let m = choose|m: int|
            0 <= m < front.len() && (#[trigger] front[m]).len() == blocks::column_count(front);
        assert(grid[m] == front[m]);
        assert(grid[grid.len() - 1] == grid.last());
        if blocks::column_width(front, c) > 0 {
            let n = choose|n: int|
                0 <= n < front.len() && c < (#[trigger] front[n]).len() && front[n][c].len()
                    == blocks::column_width(front, c);
            assert(grid[n] == front[n]);
        }
    } else {
        assert(grid[0] == grid.last());
        assert(blocks::column_count(front) == 0);
        assert(blocks::column_width(front, c) == 0);
        assert(grid[0].len() == blocks::column_count(grid));
        if blocks::column_width(grid, c) > 0 {
            assert(grid[0][c].len() == blocks::column_width(grid, c));
        }
    }
}

/// Where a column begins: after the columns before it and two spaces each.
pub open spec fn column_start(grid: Seq<Seq<Seq<char>>>, c: int) -> nat
    decreases c,
{
    if c <= 0 {
        0
    } else {
        column_start(grid, c - 1) + blocks::column_width(grid, c - 1) + 2
    }
}

/// Every cell stands in its line where its column begins, which is the same in every line.
pub proof fn columns_are_aligned(grid: Seq<Seq<Seq<char>>>, r: int, c: int)
    requires
        0 <= r < grid.len(),
        0 <= c < grid[r].len(),
        grid[r][c].len() > 0,
        !text::is_white(grid[r][c].last()),
    ensures
        text_laws::stands_at(
            blocks::grid_line(grid, r),
            grid[r][c],
            column_start(grid, c) as int,
        ),
{
    reveal_strlit("  ");
    columns_are_as_wide_as_their_longest_cell(grid, r, c);
    let cell = grid[r][c];
    let parts = Seq::new(
        blocks::column_count(grid),
        |k: int| blocks::padded(blocks::cell_at(grid[r], k), blocks::column_width(grid, k)),
    );
    lemma_start(grid, r, parts, c);
    let whole = text::joined(parts, "  "@);
    let start = column_start(grid, c) as int;
    let later = parts.skip(c + 1);
    assert(parts.skip(c) =~= seq![parts[c]] + later);
    text::lemma_joined_front(parts[c], later, "  "@);
    assert(whole.skip(start).take(cell.len() as int) =~= cell);
    let end = start + cell.len();
    assert forall|j: int| 0 <= j < cell.len() implies whole[start + j] == cell[j] by {
        assert(whole.skip(start).take(cell.len() as int)[j] == cell[j]);
    }
    assert(whole[end - 1] == cell.last());
    text_laws::trimming_the_end_takes_white_space_alone(whole);
    let line = text::trimmed_end(whole);
    if line.len() < end {
        assert(text::is_white(whole[end - 1]));
    }
    assert(line.subrange(start, end) =~= cell) by {
        assert forall|j: int| 0 <= j < cell.len() implies line.subrange(start, end)[j]
            == cell[j] by {
            assert(line[start + j] == whole[start + j]);
        }
    }
}

proof fn lemma_start(grid: Seq<Seq<Seq<char>>>, r: int, parts: Seq<Seq<char>>, c: int)
    requires
        0 <= r < grid.len(),
        0 <= c < parts.len(),
        parts.len() == blocks::column_count(grid),
        forall|k: int|
            0 <= k < parts.len() ==> #[trigger] parts[k] == blocks::padded(
                blocks::cell_at(grid[r], k),
                blocks::column_width(grid, k),
            ),
    ensures
        text::joined(parts, "  "@).skip(column_start(grid, c) as int) == text::joined(
            parts.skip(c),
            "  "@,
        ),
        column_start(grid, c) + text::joined(parts.skip(c), "  "@).len() == text::joined(
            parts,
            "  "@,
        ).len(),
    decreases c,
{
    reveal_strlit("  ");
    let whole = text::joined(parts, "  "@);
    if c > 0 {
        lemma_start(grid, r, parts, c - 1);
        let before = parts.skip(c - 1);
        let after = parts.skip(c);
        assert(before =~= seq![parts[c - 1]] + after);
        text::lemma_joined_front(parts[c - 1], after, "  "@);
        columns_are_as_wide_as_their_longest_cell(grid, r, c - 1);
        assert(parts[c - 1].len() == blocks::column_width(grid, c - 1));
        let start = column_start(grid, c - 1) as int;
        let width = blocks::column_width(grid, c - 1) as int;
        assert(whole.skip(start + width + 2) =~= whole.skip(start).skip(width + 2));
        assert((parts[c - 1] + "  "@ + text::joined(after, "  "@)).skip(width + 2) =~= text::joined(
            after,
            "  "@,
        ));
    } else {
        assert(parts.skip(0) =~= parts);
        assert(whole.skip(0) =~= whole);
    }
}

/// A cell is followed by spaces alone, as many as its column needs.
pub proof fn cells_are_padded_with_spaces(cell: Seq<char>, width: nat)
    ensures
        text::begins_with(blocks::padded(cell, width), cell),
        blocks::padded(cell, width).len() == if cell.len() >= width {
            cell.len()
        } else {
            width
        },
        forall|j: int|
            cell.len() <= j < blocks::padded(cell, width).len() ==> blocks::padded(cell, width)[j]
                == ' ',
{
    assert(blocks::padded(cell, width).take(cell.len() as int) =~= cell);
}

/// A delimiter row is made of dashes, pipes, colons and spaces between its outer white
/// space, and holds a dash.
pub proof fn delimiters_hold_dashes(blank: Seq<char>, row: Seq<char>)
    requires
        forall|j: int| 0 <= j < blank.len() ==> text::is_white(#[trigger] blank[j]),
        row.len() > 0 && !text::is_white(row[0]) && !text::is_white(row.last()),
    ensures
        blocks::table_delimiter(blank + row + blank) <==> row.contains('-') && forall|i: int|
            0 <= i < row.len() ==> row[i] == '-' || row[i] == '|' || row[i] == ':' || row[i] == ' ',
{
    text_laws::trimmed_text_stays(row);
    text_laws::white_space_around_is_trimmed(blank, row, blank);
}

} // verus!
