//! Choosing the cells that must be wrapped after the columns were narrowed.

use vstd::prelude::*;

verus! {

/// The width left for the content of a cell in column `col`: the column's
/// width without its horizontal padding.
pub open spec fn content_limit(widths: Seq<usize>, paddings: Seq<usize>, col: int) -> usize {
    if widths[col] > paddings[col] {
        (widths[col] - paddings[col]) as usize
    } else {
        0
    }
}

/// The work items of column `col` among its first `rows` cells: each cell
/// whose content is wider than what is left for it, with that width.
pub open spec fn column_items(
    widths: Seq<usize>,
    mins: Seq<usize>,
    paddings: Seq<usize>,
    cells: Seq<Vec<usize>>,
    col: int,
    rows: int,
) -> Seq<((usize, usize), usize)>
    decreases rows,
{
    if rows <= 0 {
        Seq::empty()
    } else {
        let limit = content_limit(widths, paddings, col);
        let rest = column_items(widths, mins, paddings, cells, col, rows - 1);
        if widths[col] >= mins[col] && cells[rows - 1]@[col] > limit {
            rest.push((((rows - 1) as usize, col as usize), limit))
        } else {
            rest
        }
    }
}

/// The work items of the first `cols` columns, column by column.
pub open spec fn decrease_list(
    widths: Seq<usize>,
    mins: Seq<usize>,
    paddings: Seq<usize>,
    cells: Seq<Vec<usize>>,
    cols: int,
) -> Seq<((usize, usize), usize)>
    decreases cols,
{
    if cols <= 0 {
        Seq::empty()
    } else {
        decrease_list(widths, mins, paddings, cells, cols - 1) + column_items(
            widths,
            mins,
            paddings,
            cells,
            cols - 1,
            cells.len() as int,
        )
    }
}

/// Whether every row of `cells` has one width per column.
pub open spec fn rows_match(cells: Seq<Vec<usize>>, cols: nat) -> bool {
    forall|r: int| 0 <= r < cells.len() ==> (#[trigger] cells[r])@.len() == cols
}

/// The cells, given by the content width of each (row by row), that no longer
/// fit the narrowed `widths`, each with the width its content must be wrapped
/// to; cells that still fit are left out.
pub fn get_decrease_cell_list(
    widths: &Vec<usize>,
    min_widths: &Vec<usize>,
    paddings: &Vec<usize>,
    cell_widths: &Vec<Vec<usize>>,
) -> (r: Vec<((usize, usize), usize)>)
    requires
        min_widths@.len() == widths@.len(),
        paddings@.len() == widths@.len(),
        rows_match(cell_widths@, widths@.len()),
    ensures
        r@ == decrease_list(
            widths@,
            min_widths@,
            paddings@,
            cell_widths@,
            widths@.len() as int,
        ),
{
    let mut points: Vec<((usize, usize), usize)> = Vec::new();
    let ncols = widths.len();
    let nrows = cell_widths.len();
    let mut col: usize = 0;
    while col < ncols
        invariant
            ncols == widths@.len(),
            nrows == cell_widths@.len(),
            min_widths@.len() == ncols,
            paddings@.len() == ncols,
            rows_match(cell_widths@, ncols as nat),
            col <= ncols,
            points@ == decrease_list(widths@, min_widths@, paddings@, cell_widths@, col as int),
        decreases ncols - col,
    {
        let limit = if widths[col] > paddings[col] {
            widths[col] - paddings[col]
        } else {
            0
        };
        let ghost before = points@;
        let mut row: usize = 0;
        while row < nrows
            invariant
                ncols == widths@.len(),
                nrows == cell_widths@.len(),
                min_widths@.len() == ncols,
                paddings@.len() == ncols,
                rows_match(cell_widths@, ncols as nat),
                col < ncols,
                row <= nrows,
                limit == content_limit(widths@, paddings@, col as int),
                points@ == before + column_items(
                    widths@,
                    min_widths@,
                    paddings@,
                    cell_widths@,
                    col as int,
                    row as int,
                ),
            decreases nrows - row,
        {
            assert(cell_widths@[row as int]@.len() == ncols);
            if widths[col] >= min_widths[col] && cell_widths[row][col] > limit {
                points.push(((row, col), limit));
            }
            row += 1;
            assert(points@ =~= before + column_items(
                widths@,
                min_widths@,
                paddings@,
                cell_widths@,
                col as int,
                row as int,
            ));
        }
        col += 1;
    }
    points
}

} // verus!
