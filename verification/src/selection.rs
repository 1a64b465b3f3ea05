//! Selection and hit-testing vocabulary, and the predicates that paint,
//! input and copy code share to decide what is highlighted.
use vstd::prelude::*;

verus! {

/// What is currently selected, in display-row coordinates.
#[derive(Clone, Copy, Debug, PartialEq, Eq, Structural)]
pub enum Selection {
    Nothing,
    Cell(usize, usize),
    Row(usize),
    Column(usize),
    /// Inclusive `(r1, c1)` to `(r2, c2)`.
    CellRange(usize, usize, usize, usize),
    /// Inclusive `[r1, r2]`.
    RowRange(usize, usize),
}

pub open spec fn min_of(a: usize, b: usize) -> usize {
    if a <= b { a } else { b }
}

pub open spec fn max_of(a: usize, b: usize) -> usize {
    if a <= b { b } else { a }
}

fn min_usize(a: usize, b: usize) -> (r: usize)
    ensures r == min_of(a, b),
{
    if a <= b { a } else { b }
}

fn max_usize(a: usize, b: usize) -> (r: usize)
    ensures r == max_of(a, b),
{
    if a <= b { b } else { a }
}

impl Selection {
    /// `(min_row, min_col, max_row, max_col)` covered by the selection; whole
    /// rows span every column (`0..=usize::MAX`) and whole columns every row.
    pub open spec fn bounds(self) -> Option<(usize, usize, usize, usize)> {
        match self {
            Selection::Nothing => None,
            Selection::Cell(r, c) => Some((r, c, r, c)),
            Selection::Row(r) => Some((r, 0, r, usize::MAX)),
            Selection::Column(c) => Some((0, c, usize::MAX, c)),
            Selection::CellRange(r1, c1, r2, c2) => Some(
                (min_of(r1, r2), min_of(c1, c2), max_of(r1, r2), max_of(c1, c2)),
            ),
            Selection::RowRange(r1, r2) => Some((min_of(r1, r2), 0, max_of(r1, r2), usize::MAX)),
        }
    }

    /// Whether the cell `(row, col)` lies inside the selection's bounds.
    pub open spec fn covers(self, row: int, col: int) -> bool {
        match self.bounds() {
            None => false,
            Some((r0, c0, r1, c1)) => r0 <= row <= r1 && c0 <= col <= c1,
        }
    }

    /// Returns `(min_row, min_col, max_row, max_col)`; `None` for
    /// `Selection::Nothing`.
    pub fn normalized_bounds(&self) -> (b: Option<(usize, usize, usize, usize)>)
        ensures
            b == self.bounds(),
    {
        match *self {
            Selection::Nothing => None,
            Selection::Cell(r, c) => Some((r, c, r, c)),
            Selection::Row(r) => Some((r, 0, r, usize::MAX)),
            Selection::Column(c) => Some((0, c, usize::MAX, c)),
            Selection::CellRange(r1, c1, r2, c2) => Some(
                (min_usize(r1, r2), min_usize(c1, c2), max_usize(r1, r2), max_usize(c1, c2)),
            ),
            Selection::RowRange(r1, r2) => Some(
                (min_usize(r1, r2), 0, max_usize(r1, r2), usize::MAX),
            ),
        }
    }
}

/// Sort direction of a column.
#[derive(Clone, Copy, Debug, PartialEq, Eq, Hash, Structural)]
pub enum SortDirection {
    Ascending,
    Descending,
}

/// What a mouse hit-test resolved to.
#[derive(Clone, Copy, Debug, PartialEq, Eq, Structural)]
pub enum HitResult {
    Nothing,
    ColumnHeader(usize),
    SortButton(usize),
    ColumnBorder(usize),
    RowHeader(usize),
    Cell(usize, usize),
    Corner,
    ContextMenuItem(usize),
    /// A section header of a grouped grid, by section index.
    GroupHeader(usize),
    VerticalScrollbar,
    HorizontalScrollbar,
}

/// Which scrollbar a drag is moving.
#[derive(Clone, Copy, Debug, PartialEq, Eq, Structural)]
pub enum ScrollbarAxis {
    Vertical,
    Horizontal,
}

/// Whether the selection highlights a whole row.
pub open spec fn row_selected(sel: Selection, row: int) -> bool {
    (sel is Row || sel is RowRange) && sel.covers(row, 0)
}

/// Whether the selection is exactly the given column.
pub open spec fn column_selected(sel: Selection, col: int) -> bool {
    sel matches Selection::Column(c) && c == col
}

/// `true` if the selection visually highlights the given cell.
pub fn is_cell_selected(sel: &Selection, row: usize, col: usize) -> (b: bool)
    ensures
        b == sel.covers(row as int, col as int),
{
    match *sel {
        Selection::Nothing => false,
        Selection::Cell(r, c) => r == row && c == col,
        Selection::CellRange(r1, c1, r2, c2) => {
            let rmin = min_usize(r1, r2);
            let cmin = min_usize(c1, c2);
            let rmax = max_usize(r1, r2);
            let cmax = max_usize(c1, c2);
            row >= rmin && row <= rmax && col >= cmin && col <= cmax
        },
        Selection::Row(r) => r == row,
        Selection::RowRange(r1, r2) => {
            let rmin = min_usize(r1, r2);
            let rmax = max_usize(r1, r2);
            row >= rmin && row <= rmax
        },
        Selection::Column(c) => c == col,
    }
}

/// `true` when a row or row-range selection contains `row`.
pub fn is_row_selected(sel: &Selection, row: usize) -> (b: bool)
    ensures
        b == row_selected(*sel, row as int),
{
    match *sel {
        Selection::Row(r) => r == row,
        Selection::RowRange(r1, r2) => {
            let rmin = min_usize(r1, r2);
            let rmax = max_usize(r1, r2);
            row >= rmin && row <= rmax
        },
        _ => false,
    }
}

/// `true` only for a whole-column selection of `col`.
pub fn is_column_selected(sel: &Selection, col: usize) -> (b: bool)
    ensures
        b == column_selected(*sel, col as int),
{
    match *sel {
        Selection::Column(c) => c == col,
        _ => false,
    }
}

/// The normalized bounds are ordered: minimum corner first.
pub proof fn lemma_bounds_ordered(sel: Selection)
    ensures
        sel.bounds() matches Some((r0, c0, r1, c1)) ==> r0 <= r1 && c0 <= c1,
        sel.bounds() is None <==> sel is Nothing,
{
}

/// A selected row highlights every cell of that row.
pub proof fn lemma_selected_row_covers_its_cells(sel: Selection, row: usize, col: usize)
    requires
        row_selected(sel, row as int),
    ensures
        sel.covers(row as int, col as int),
{
}

/// A selected column highlights every cell of that column.
pub proof fn lemma_selected_column_covers_its_cells(sel: Selection, row: usize, col: usize)
    requires
        column_selected(sel, col as int),
    ensures
        sel.covers(row as int, col as int),
{
}

/// A range is insensitive to the order in which its corners were given.
pub proof fn lemma_range_corners_commute(r1: usize, c1: usize, r2: usize, c2: usize)
    ensures
        Selection::CellRange(r1, c1, r2, c2).bounds() == Selection::CellRange(r2, c2, r1, c1).bounds(),
        Selection::CellRange(r1, c1, r2, c2).bounds() == Selection::CellRange(r1, c2, r2, c1).bounds(),
        Selection::RowRange(r1, r2).bounds() == Selection::RowRange(r2, r1).bounds(),
{
}

} // verus!
