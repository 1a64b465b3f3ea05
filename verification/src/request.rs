//! The snapshot handed to a context-menu provider on right-click: the target
//! and selection mapped into the request's own row space (the resident
//! rows of a windowed grid, the data rows of a grouped one), the clamped
//! selection bounds, and owned copies of the selected cells and rows.
use vstd::prelude::*;
use crate::context_menu::{ColumnContext, ContextMenuRequest, ContextMenuSelection, ContextMenuTarget, SelectedCellContext, SelectedRowContext};
use crate::data::{copy_cell, CellValue};
use crate::grouping::GridDisplayRow;
use crate::navigation::{lex_increasing, lex_lt};
use crate::order::increasing;
use crate::selection::{min_of, Selection};
use crate::state::GridState;

verus! {

/// Number of data rows among `rows`.
pub open spec fn count_data(rows: Seq<GridDisplayRow>) -> nat
    decreases rows.len(),
{
    if rows.len() == 0 {
        0
    } else {
        count_data(rows.drop_last()) + if rows.last() is Data { 1nat } else { 0nat }
    }
}

/// Source rows of the data rows among `rows`, in order.
pub open spec fn data_sources(rows: Seq<GridDisplayRow>) -> Seq<usize>
    decreases rows.len(),
{
    if rows.len() == 0 {
        seq![]
    } else {
        let p = data_sources(rows.drop_last());
        match rows.last() {
            GridDisplayRow::Data { source_row, .. } => p.push(source_row),
            _ => p,
        }
    }
}

proof fn lemma_data_sources_bounded(rows: Seq<GridDisplayRow>, n: nat)
    requires
        forall|i: int| 0 <= i < rows.len() ==> (#[trigger] rows[i] matches GridDisplayRow::Data { source_row, .. } ==> source_row < n),
    ensures
        forall|k: int| 0 <= k < data_sources(rows).len() ==> #[trigger] data_sources(rows)[k] < n,
    decreases rows.len(),
{
    if rows.len() > 0 {
        let t = rows.drop_last();
        assert forall|i: int| 0 <= i < t.len() implies (#[trigger] t[i] matches GridDisplayRow::Data { source_row, .. } ==> source_row < n) by {
            assert(t[i] == rows[i]);
        }
        lemma_data_sources_bounded(t, n);
        assert(rows.last() == rows[rows.len() - 1]);
        let p = data_sources(t);
        let q = data_sources(rows);
        assert forall|k: int| 0 <= k < q.len() implies #[trigger] q[k] < n by {
            if k < p.len() {
                assert(q[k] == p[k]);
            }
        }
    }
}

/// The cells of the rectangle `(r1, c1)..=(r2, c2)` that exist in an
/// `nrows` by `ncols` grid.
pub open spec fn in_rect(b: (usize, usize, usize, usize), nrows: nat, ncols: nat, r: int, c: int) -> bool {
    b.0 <= r <= b.2 && r < nrows && b.1 <= c <= b.3 && c < ncols
}

/// Row-major positions of cell snapshots.
pub open spec fn cell_keys(cells: Seq<SelectedCellContext>) -> Seq<(usize, usize)> {
    cells.map_values(|c: SelectedCellContext| (c.display_row_index, c.column_index))
}

/// Display rows of row snapshots.
pub open spec fn row_keys(rows: Seq<SelectedRowContext>) -> Seq<usize> {
    rows.map_values(|r: SelectedRowContext| r.display_row_index)
}

/// A right-click on a column header or sort button, or a whole-column
/// selection, is about a column: the request carries no row snapshots.
pub open spec fn column_oriented(t: ContextMenuTarget, s: Selection) -> bool {
    t is ColumnHeader || t is SortButton || s is Column
}

impl GridState {
    /// Data rows among the first `e` display rows.
    pub open spec fn data_before(&self, e: int) -> nat {
        count_data(self.display_rows@.take(e))
    }

    /// A grouped grid's display row `dr` as an index among its data rows: the
    /// row itself, else the next data row after it, else the last one before
    /// it, else 0.
    pub open spec fn data_index(&self, dr: usize) -> usize {
        let n = self.display_rows@.len();
        if dr < n && self.display_rows@[dr as int] is Data {
            self.data_before(dr as int) as usize
        } else if dr < n && self.data_before(n as int) > self.data_before(dr + 1) {
            self.data_before(dr + 1) as usize
        } else if self.data_before(if dr < n { dr as int } else { n as int }) > 0 {
            (self.data_before(if dr < n { dr as int } else { n as int }) - 1) as usize
        } else {
            0
        }
    }

    /// Whether the request re-indexes rows among the data rows.
    pub open spec fn request_grouped(&self) -> bool {
        self.grouped_column is Some && self.window is None
    }

    /// Source rows of the request's rows, in request order.
    pub open spec fn request_rows(&self) -> Seq<usize> {
        if self.request_grouped() { data_sources(self.display_rows@) } else { self.display_indices@ }
    }

    /// A display row in the request's row space: windowed rows become
    /// resident offsets (clamped to the resident rows), grouped rows data
    /// indices.
    pub open spec fn request_row(&self, dr: usize) -> usize {
        match self.window {
            Some(w) => {
                let last = if self.nrows() == 0 { 0usize } else { (self.nrows() - 1) as usize };
                min_of(if dr >= w.offset { (dr - w.offset) as usize } else { 0usize }, last)
            },
            None => if self.grouped_column is Some { self.data_index(dr) } else { dr },
        }
    }

    /// The target in the request's row space.
    pub open spec fn request_target(&self, t: ContextMenuTarget) -> ContextMenuTarget {
        match t {
            ContextMenuTarget::Cell { display_row_index, source_row_index, column_index } => ContextMenuTarget::Cell {
                display_row_index: self.request_row(display_row_index),
                source_row_index,
                column_index,
            },
            ContextMenuTarget::RowHeader { display_row_index, source_row_index } => ContextMenuTarget::RowHeader {
                display_row_index: self.request_row(display_row_index),
                source_row_index,
            },
            _ => t,
        }
    }

    /// The selection in the request's row space (a windowed row range is
    /// passed through as it is).
    pub open spec fn request_selection(&self, s: Selection) -> Selection {
        match s {
            Selection::Cell(r, c) => Selection::Cell(self.request_row(r), c),
            Selection::Row(r) => Selection::Row(self.request_row(r)),
            Selection::CellRange(r1, c1, r2, c2) => Selection::CellRange(self.request_row(r1), c1, self.request_row(r2), c2),
            Selection::RowRange(r1, r2) => if self.request_grouped() {
                Selection::RowRange(self.request_row(r1), self.request_row(r2))
            } else {
                s
            },
            _ => s,
        }
    }

    /// Inclusive `(r1, c1, r2, c2)` the request covers: the selection clamped
    /// to the request's rows and the columns, or without a selection the
    /// clicked cell, row or column.
    pub open spec fn request_bounds(&self, t: ContextMenuTarget, s: Selection) -> (usize, usize, usize, usize) {
        let n = self.request_rows().len();
        let lr = if n == 0 { 0usize } else { (n - 1) as usize };
        let lc = if self.ncols() == 0 { 0usize } else { (self.ncols() - 1) as usize };
        match s.bounds() {
            Some((r1, c1, r2, c2)) => (min_of(r1, lr), min_of(c1, lc), min_of(r2, lr), min_of(c2, lc)),
            None => match t {
                ContextMenuTarget::Cell { display_row_index, column_index, .. } => (display_row_index, column_index, display_row_index, column_index),
                ContextMenuTarget::RowHeader { display_row_index, .. } => (display_row_index, 0usize, display_row_index, lc),
                ContextMenuTarget::ColumnHeader { column_index } => (0usize, column_index, lr, column_index),
                ContextMenuTarget::SortButton { column_index } => (0usize, column_index, lr, column_index),
            },
        }
    }

    /// `c` is the snapshot of request row `r` at column `col`.
    pub open spec fn cell_snapshot(&self, c: SelectedCellContext) -> bool {
        let src = self.request_rows()[c.display_row_index as int];
        &&& c.source_row_index == src
        &&& c.column_name@ == self.data.columns@[c.column_index as int].name@
        &&& c.value == self.data.rows@[src as int]@[c.column_index as int]
    }

    /// `r` is the snapshot of its request row: every value and every column.
    pub open spec fn row_snapshot(&self, r: SelectedRowContext) -> bool {
        let src = self.request_rows()[r.display_row_index as int];
        &&& r.source_row_index == src
        &&& r.values@ == self.data.rows@[src as int]@
        &&& r.columns@.len() == self.ncols()
        &&& forall|k: int| 0 <= k < self.ncols() ==> {
            &&& (#[trigger] r.columns@[k]).index == k
            &&& r.columns@[k].name@ == self.data.columns@[k].name@
            &&& r.columns@[k].kind == self.data.columns@[k].kind
        }
    }

    /// Number of data rows before display row `e`, with the matching prefix
    /// counts for every row.
    fn data_counts(&self) -> (r: (Vec<usize>, Vec<usize>))
        requires
            self.wf(),
        ensures
            r.0@.len() == self.display_rows@.len() + 1,
            forall|e: int| 0 <= e <= self.display_rows@.len() ==> #[trigger] r.0@[e] == self.data_before(e),
            r.1@ == data_sources(self.display_rows@),
            forall|k: int| 0 <= k < r.1@.len() ==> #[trigger] r.1@[k] < self.nrows(),
    {
        let n = self.display_rows.len();
        let mut counts: Vec<usize> = Vec::new();
        let mut sources: Vec<usize> = Vec::new();
        counts.push(0);
        proof {
            assert(self.display_rows@.take(0) =~= Seq::<GridDisplayRow>::empty());
        }
        let mut e: usize = 0;
        while e < n
            invariant
                self.wf(),
                n == self.display_rows@.len(),
                e <= n,
                counts@.len() == e + 1,
                forall|x: int| 0 <= x <= e ==> #[trigger] counts@[x] == self.data_before(x),
                sources@ == data_sources(self.display_rows@.take(e as int)),
                counts@[e as int] <= e,
            decreases n - e,
        {
            proof {
                assert(self.display_rows@.take(e as int + 1).drop_last() =~= self.display_rows@.take(e as int));
                assert(self.display_rows@.take(e as int + 1).last() == self.display_rows@[e as int]);
            }
            let c = counts[e];
            let next = match self.display_rows[e] {
                GridDisplayRow::Data { source_row, .. } => {
                    sources.push(source_row);
                    c + 1
                },
                _ => c,
            };
            counts.push(next);
            e += 1;
        }
        proof {
            assert(self.display_rows@.take(n as int) =~= self.display_rows@);
            lemma_data_sources_bounded(self.display_rows@, self.nrows());
        }
        (counts, sources)
    }

    /// [`Self::data_index`] from the prefix counts.
    fn data_index_exec(&self, counts: &Vec<usize>, dr: usize) -> (r: usize)
        requires
            counts@.len() == self.display_rows@.len() + 1,
            forall|e: int| 0 <= e <= self.display_rows@.len() ==> #[trigger] counts@[e] == self.data_before(e),
        ensures
            r == self.data_index(dr),
    {
        let n = self.display_rows.len();
        let is_data = dr < n && match self.display_rows[dr] {
            GridDisplayRow::Data { .. } => true,
            _ => false,
        };
        if is_data {
            counts[dr]
        } else if dr < n && counts[n] > counts[dr + 1] {
            counts[dr + 1]
        } else {
            let m = if dr < n { dr } else { n };
            if counts[m] > 0 {
                counts[m] - 1
            } else {
                0
            }
        }
    }

    /// [`Self::request_row`] in executable form.
    fn request_row_exec(&self, counts: &Vec<usize>, dr: usize) -> (r: usize)
        requires
            counts@.len() == self.display_rows@.len() + 1,
            forall|e: int| 0 <= e <= self.display_rows@.len() ==> #[trigger] counts@[e] == self.data_before(e),
        ensures
            r == self.request_row(dr),
    {
        match self.window {
            Some(w) => {
                let nrows = self.data.rows.len();
                let last = if nrows == 0 { 0 } else { nrows - 1 };
                let d = if dr >= w.offset { dr - w.offset } else { 0 };
                if d <= last { d } else { last }
            },
            None => if self.grouped_column.is_some() {
                self.data_index_exec(counts, dr)
            } else {
                dr
            },
        }
    }

    /// Context of every column, in order.
    fn column_contexts(&self) -> (r: Vec<ColumnContext>)
        ensures
            r@.len() == self.ncols(),
            forall|k: int| 0 <= k < self.ncols() ==> {
                &&& (#[trigger] r@[k]).index == k
                &&& r@[k].name@ == self.data.columns@[k].name@
                &&& r@[k].kind == self.data.columns@[k].kind
            },
    {
        let mut out: Vec<ColumnContext> = Vec::new();
        let mut k: usize = 0;
        while k < self.data.columns.len()
            invariant
                k <= self.ncols(),
                out@.len() == k,
                forall|j: int| 0 <= j < k ==> {
                    &&& (#[trigger] out@[j]).index == j
                    &&& out@[j].name@ == self.data.columns@[j].name@
                    &&& out@[j].kind == self.data.columns@[j].kind
                },
            decreases self.ncols() - k,
        {
            out.push(ColumnContext { index: k, name: self.data.columns[k].name.clone(), kind: self.data.columns[k].kind });
            k += 1;
        }
        out
    }

    /// A copy of resident row `src`.
    fn row_values(&self, src: usize) -> (r: Vec<CellValue>)
        requires
            src < self.nrows(),
        ensures
            r@ == self.data.rows@[src as int]@,
    {
        let row = &self.data.rows[src];
        let mut out: Vec<CellValue> = Vec::new();
        let mut k: usize = 0;
        while k < row.len()
            invariant
                *row == self.data.rows@[src as int],
                k <= row@.len(),
                out@ == row@.take(k as int),
            decreases row@.len() - k,
        {
            out.push(copy_cell(&row[k]));
            assert(out@ =~= row@.take(k as int + 1));
            k += 1;
        }
        assert(row@.take(k as int) =~= row@);
        out
    }

    /// `r` is the snapshot of a right-click on `target` acting on
    /// `selection` (see [`Self::build_context_menu_request`]).
    pub open spec fn request_for(&self, r: ContextMenuRequest, target: ContextMenuTarget, selection: Selection) -> bool {
        let t = self.request_target(target);
        let s = self.request_selection(selection);
        let b = self.request_bounds(t, s);
        let n = self.request_rows().len();
        &&& r.target == t
        &&& r.selection == Some(ContextMenuSelection { row_start: b.0, row_end: b.2, column_start: b.1, column_end: b.3 })
        &&& lex_increasing(cell_keys(r.selected_cells@))
        &&& forall|p: (usize, usize)| cell_keys(r.selected_cells@).contains(p) <==> in_rect(b, n, self.ncols(), p.0 as int, p.1 as int)
        &&& forall|k: int| 0 <= k < r.selected_cells@.len() ==> self.cell_snapshot(#[trigger] r.selected_cells@[k])
        &&& increasing(row_keys(r.selected_rows@))
        &&& forall|x: usize| row_keys(r.selected_rows@).contains(x) <==> (!column_oriented(t, s) && b.0 <= x <= b.2 && x < n)
        &&& forall|k: int| 0 <= k < r.selected_rows@.len() ==> self.row_snapshot(#[trigger] r.selected_rows@[k])
    }

    /// Build the right-click snapshot for `target` with the effective
    /// `selection`: both mapped into the request's row space, the
    /// clamped bounds, a snapshot of every selected cell (row-major) and,
    /// unless the click is about a column, of every selected row.
    pub fn build_context_menu_request(&self, target: ContextMenuTarget, selection: &Selection) -> (r: ContextMenuRequest)
        requires
            self.wf(),
        ensures
            self.request_for(r, target, *selection),
    {
        let (counts, sources) = self.data_counts();
        let t = match target {
            ContextMenuTarget::Cell { display_row_index, source_row_index, column_index } => ContextMenuTarget::Cell {
                display_row_index: self.request_row_exec(&counts, display_row_index),
                source_row_index,
                column_index,
            },
            ContextMenuTarget::RowHeader { display_row_index, source_row_index } => ContextMenuTarget::RowHeader {
                display_row_index: self.request_row_exec(&counts, display_row_index),
                source_row_index,
            },
            other => other,
        };
        let grouped = self.grouped_column.is_some() && self.window.is_none();
        let s = match *selection {
            Selection::Cell(r, c) => Selection::Cell(self.request_row_exec(&counts, r), c),
            Selection::Row(r) => Selection::Row(self.request_row_exec(&counts, r)),
            Selection::CellRange(r1, c1, r2, c2) => Selection::CellRange(
                self.request_row_exec(&counts, r1),
                c1,
                self.request_row_exec(&counts, r2),
                c2,
            ),
            Selection::RowRange(r1, r2) => if grouped {
                Selection::RowRange(self.request_row_exec(&counts, r1), self.request_row_exec(&counts, r2))
            } else {
                Selection::RowRange(r1, r2)
            },
            other => other,
        };
        let rows: &Vec<usize> = if grouped { &sources } else { &self.display_indices };
        proof {
            if grouped {
                assert(rows@ == self.request_rows());
            }
        }
        let n = rows.len();
        let ncols = self.data.columns.len();
        let lr = if n == 0 { 0 } else { n - 1 };
        let lc = if ncols == 0 { 0 } else { ncols - 1 };
        let b = match s.normalized_bounds() {
            Some((r1, c1, r2, c2)) => (
                if r1 <= lr { r1 } else { lr },
                if c1 <= lc { c1 } else { lc },
                if r2 <= lr { r2 } else { lr },
                if c2 <= lc { c2 } else { lc },
            ),
            None => match t {
                ContextMenuTarget::Cell { display_row_index, column_index, .. } => (display_row_index, column_index, display_row_index, column_index),
                ContextMenuTarget::RowHeader { display_row_index, .. } => (display_row_index, 0, display_row_index, lc),
                ContextMenuTarget::ColumnHeader { column_index } => (0, column_index, lr, column_index),
                ContextMenuTarget::SortButton { column_index } => (0, column_index, lr, column_index),
            },
        };
        assert(b == self.request_bounds(t, s));
        let column_only = match t {
            ContextMenuTarget::ColumnHeader { .. } | ContextMenuTarget::SortButton { .. } => true,
            _ => match s {
                Selection::Column(_) => true,
                _ => false,
            },
        };
        let mut cells: Vec<SelectedCellContext> = Vec::new();
        let mut r = b.0;
        while r <= b.2 && r < n
            invariant
                self.wf(),
                rows@ == self.request_rows(),
                forall|k: int| 0 <= k < rows@.len() ==> #[trigger] rows@[k] < self.nrows(),
                n == rows@.len(),
                ncols == self.ncols(),
                b.0 <= r,
                r == b.0 || (r <= b.2 + 1 && r <= n),
                lex_increasing(cell_keys(cells@)),
                forall|i: int| 0 <= i < cells@.len() ==> (#[trigger] cells@[i]).display_row_index < r,
                forall|p: (usize, usize)| cell_keys(cells@).contains(p) <==> (p.0 < r && in_rect(b, n as nat, ncols as nat, p.0 as int, p.1 as int)),
                forall|k: int| 0 <= k < cells@.len() ==> self.cell_snapshot(#[trigger] cells@[k]),
            decreases n - r,
        {
            let src = rows[r];
            proof {
                assert(src < self.nrows());
                assert(self.data.rows@[src as int].len() == ncols);
            }
            let mut c = b.1;
            while c <= b.3 && c < ncols
                invariant
                    self.wf(),
                    rows@ == self.request_rows(),
                    n == rows@.len(),
                    ncols == self.ncols(),
                    b.0 <= r <= b.2,
                    r < n,
                    src == rows@[r as int],
                    src < self.nrows(),
                    self.data.rows@[src as int].len() == ncols,
                    b.1 <= c,
                    c == b.1 || (c <= b.3 + 1 && c <= ncols),
                    lex_increasing(cell_keys(cells@)),
                    forall|i: int| 0 <= i < cells@.len() ==> lex_lt(#[trigger] cell_keys(cells@)[i], (r, c)),
                    forall|p: (usize, usize)| cell_keys(cells@).contains(p) <==> ((p.0 < r || (p.0 == r && p.1 < c))
                        && in_rect(b, n as nat, ncols as nat, p.0 as int, p.1 as int)),
                    forall|k: int| 0 <= k < cells@.len() ==> self.cell_snapshot(#[trigger] cells@[k]),
                decreases ncols - c,
            {
                let ghost before = cells@;
                let cell = SelectedCellContext {
                    display_row_index: r,
                    source_row_index: src,
                    column_index: c,
                    column_name: self.data.columns[c].name.clone(),
                    value: copy_cell(&self.data.rows[src][c]),
                };
                cells.push(cell);
                proof {
                    assert(cell_keys(cells@) =~= cell_keys(before).push((r, c)));
                    assert forall|p: (usize, usize)| cell_keys(cells@).contains(p) <==> ((p.0 < r || (p.0 == r && p.1 < c + 1))
                        && in_rect(b, n as nat, ncols as nat, p.0 as int, p.1 as int)) by {
                        vstd::seq_lib::lemma_seq_contains_after_push(cell_keys(before), (r, c), p);
                    }
                    assert forall|i: int, j: int| 0 <= i < j < cell_keys(cells@).len() implies
                        lex_lt(#[trigger] cell_keys(cells@)[i], #[trigger] cell_keys(cells@)[j]) by {
                        if j == before.len() {
                            assert(lex_lt(cell_keys(before)[i], (r, c)));
                        } else {
                            assert(cell_keys(cells@)[i] == cell_keys(before)[i] && cell_keys(cells@)[j] == cell_keys(before)[j]);
                        }
                    }
                    assert forall|i: int| 0 <= i < cells@.len() implies lex_lt(#[trigger] cell_keys(cells@)[i], (r, (c + 1) as usize)) by {
                        if i < before.len() {
                            assert(lex_lt(cell_keys(before)[i], (r, c)));
                        }
                    }
                    assert forall|k: int| 0 <= k < cells@.len() implies self.cell_snapshot(#[trigger] cells@[k]) by {
                        if k < before.len() {
                            assert(cells@[k] == before[k]);
                        }
                    }
                }
                c += 1;
            }
            proof {
                assert forall|i: int| 0 <= i < cells@.len() implies (#[trigger] cells@[i]).display_row_index < r + 1 by {
                    assert(lex_lt(cell_keys(cells@)[i], (r, c)));
                }
                assert forall|p: (usize, usize)| cell_keys(cells@).contains(p) <==> (p.0 < r + 1 && in_rect(b, n as nat, ncols as nat, p.0 as int, p.1 as int)) by {
                    if p.0 == r && in_rect(b, n as nat, ncols as nat, p.0 as int, p.1 as int) {
                        assert(p.1 <= b.3 && p.1 < ncols);
                    }
                }
            }
            r += 1;
        }
        proof {
            assert forall|p: (usize, usize)| cell_keys(cells@).contains(p) <==> in_rect(b, n as nat, ncols as nat, p.0 as int, p.1 as int) by {
                if in_rect(b, n as nat, ncols as nat, p.0 as int, p.1 as int) {
                    assert(p.0 <= b.2 && p.0 < n);
                }
            }
        }
        let mut snapshots: Vec<SelectedRowContext> = Vec::new();
        if !column_only {
            let mut r = b.0;
            while r <= b.2 && r < n
                invariant
                    self.wf(),
                    rows@ == self.request_rows(),
                    forall|k: int| 0 <= k < rows@.len() ==> #[trigger] rows@[k] < self.nrows(),
                    n == rows@.len(),
                    b.0 <= r,
                    r == b.0 || (r <= b.2 + 1 && r <= n),
                    increasing(row_keys(snapshots@)),
                    forall|i: int| 0 <= i < snapshots@.len() ==> (#[trigger] snapshots@[i]).display_row_index < r,
                    forall|x: usize| row_keys(snapshots@).contains(x) <==> (b.0 <= x < r && x <= b.2 && x < n),
                    forall|k: int| 0 <= k < snapshots@.len() ==> self.row_snapshot(#[trigger] snapshots@[k]),
                decreases n - r,
            {
                let src = rows[r];
                let ghost before = snapshots@;
                let snap = SelectedRowContext {
                    display_row_index: r,
                    source_row_index: src,
                    values: self.row_values(src),
                    columns: self.column_contexts(),
                };
                snapshots.push(snap);
                proof {
                    assert(row_keys(snapshots@) =~= row_keys(before).push(r));
                    assert forall|x: usize| row_keys(snapshots@).contains(x) <==> (b.0 <= x < r + 1 && x <= b.2 && x < n) by {
                        vstd::seq_lib::lemma_seq_contains_after_push(row_keys(before), r, x);
                    }
                    assert forall|i: int, j: int| 0 <= i < j < row_keys(snapshots@).len() implies
                        #[trigger] row_keys(snapshots@)[i] < #[trigger] row_keys(snapshots@)[j] by {
                        if j < before.len() {
                            assert(row_keys(snapshots@)[i] == row_keys(before)[i] && row_keys(snapshots@)[j] == row_keys(before)[j]);
                        } else {
                            assert(before[i].display_row_index < r);
                        }
                    }
                    assert forall|k: int| 0 <= k < snapshots@.len() implies self.row_snapshot(#[trigger] snapshots@[k]) by {
                        if k < before.len() {
                            assert(snapshots@[k] == before[k]);
                        }
                    }
                }
                r += 1;
            }
        } else {
            assert(row_keys(snapshots@) =~= Seq::<usize>::empty());
        }
        ContextMenuRequest {
            target: t,
            selection: Some(ContextMenuSelection { row_start: b.0, row_end: b.2, column_start: b.1, column_end: b.3 }),
            selected_cells: cells,
            selected_rows: snapshots,
        }
    }
}


proof fn lemma_data_sources_len(rows: Seq<GridDisplayRow>)
    ensures
        data_sources(rows).len() == count_data(rows),
    decreases rows.len(),
{
    if rows.len() > 0 {
        lemma_data_sources_len(rows.drop_last());
    }
}

/// One more display row adds one to the count when it is a data row.
proof fn lemma_count_step(rows: Seq<GridDisplayRow>, e: int)
    requires
        0 <= e < rows.len(),
    ensures
        count_data(rows.take(e + 1)) == count_data(rows.take(e)) + if rows[e] is Data { 1nat } else { 0nat },
{
    assert(rows.take(e + 1).drop_last() =~= rows.take(e));
    assert(rows.take(e + 1).last() == rows[e]);
}

proof fn lemma_count_le_len(rows: Seq<GridDisplayRow>)
    ensures
        count_data(rows) <= rows.len(),
    decreases rows.len(),
{
    if rows.len() > 0 {
        lemma_count_le_len(rows.drop_last());
    }
}

/// Counting data rows over a longer prefix never gives less.
proof fn lemma_count_monotone(rows: Seq<GridDisplayRow>, a: int, b: int)
    requires
        0 <= a <= b <= rows.len(),
    ensures
        count_data(rows.take(a)) <= count_data(rows.take(b)),
    decreases b - a,
{
    if a < b {
        lemma_count_monotone(rows, a, b - 1);
        lemma_count_step(rows, b - 1);
    }
}

impl GridState {
    /// The data index of a display row is the data rows before it, capped at
    /// the last data row.
    proof fn lemma_data_index_closed_form(&self, d: usize)
        ensures
            ({
                let n = self.display_rows@.len() as int;
                let m = if d < n { d as int } else { n };
                let last: int = if self.data_before(n) > 0 { self.data_before(n) - 1 } else { 0 };
                self.data_index(d) == if self.data_before(m) <= last { self.data_before(m) as int } else { last }
            }),
    {
        let rows = self.display_rows@;
        let n = rows.len() as int;
        assert(n == self.display_rows.len());
        let m = if d < n { d as int } else { n };
        lemma_count_monotone(rows, m, n);
        lemma_count_le_len(rows.take(n));
        let cbn = self.data_before(n);
        let cbm = self.data_before(m);
        let last: int = if cbn > 0 { cbn - 1 } else { 0 };
        if d < n {
            lemma_count_step(rows, d as int);
            lemma_count_monotone(rows, d as int + 1, n);
            let cb1 = self.data_before(d as int + 1);
            if rows[d as int] is Data {
                assert(cb1 == cbm + 1);
                assert(self.data_index(d) == cbm);
            } else {
                assert(cb1 == cbm);
                if cbn > cb1 {
                    assert(self.data_index(d) == cb1);
                } else {
                    assert(cbm == cbn);
                    assert(self.data_index(d) == last);
                }
            }
        } else {
            assert(self.data_index(d) == last);
        }
    }

    /// Mapping display rows to data indices keeps their order.
    proof fn lemma_data_index_monotone(&self, d1: usize, d2: usize)
        requires
            d1 <= d2,
        ensures
            self.data_index(d1) <= self.data_index(d2),
    {
        self.lemma_data_index_closed_form(d1);
        self.lemma_data_index_closed_form(d2);
        let n = self.display_rows@.len() as int;
        let m1 = if d1 < n { d1 as int } else { n };
        let m2 = if d2 < n { d2 as int } else { n };
        lemma_count_monotone(self.display_rows@, m1, m2);
    }

    /// Mapping display rows into the request's row space keeps their order.
    proof fn lemma_request_row_monotone(&self, d1: usize, d2: usize)
        requires
            d1 <= d2,
            self.window is None,
        ensures
            self.request_row(d1) <= self.request_row(d2),
    {
        if self.grouped_column is Some {
            self.lemma_data_index_monotone(d1, d2);
        }
    }
}

/// A right-click on a data cell of a grid that is not windowed snapshots the
/// clicked cell: it is among the request's selected cells, at the target's
/// position in the request's row space, whatever the selection was.
pub proof fn lemma_request_contains_clicked_cell(g: GridState, t: ContextMenuTarget, r: ContextMenuRequest)
    requires
        g.wf(),
        g.window is None,
        t matches ContextMenuTarget::Cell { display_row_index: d, column_index: c, .. } && {
            &&& c < g.ncols()
            &&& g.data_row(d as int)
            &&& !g.request_grouped() ==> d < g.display_indices@.len()
        },
        g.request_for(r, t, g.effective_for(t)),
    ensures
        t matches ContextMenuTarget::Cell { display_row_index: d, column_index: c, .. }
            && cell_keys(r.selected_cells@).contains((g.request_row(d), c)),
{
    if let ContextMenuTarget::Cell { display_row_index: d, column_index: c, .. } = t {
        let k = g.request_row(d);
        let n = g.request_rows().len();
        if g.request_grouped() {
            lemma_data_sources_len(g.display_rows@);
            let rows = g.display_rows@;
            lemma_count_step(rows, d as int);
            lemma_count_monotone(rows, d as int + 1, rows.len() as int);
            assert(rows.take(rows.len() as int) =~= rows);
            g.lemma_data_index_closed_form(d);
        }
        assert(k < n);
        assert(n <= usize::MAX) by {
            if g.request_grouped() {
                lemma_data_sources_len(g.display_rows@);
                lemma_count_le_len(g.display_rows@);
                assert(g.display_rows@.len() == g.display_rows.len());
            } else {
                assert(g.display_indices@.len() == g.display_indices.len());
            }
        }
        assert(g.ncols() == g.data.columns.len());
        let eff = g.effective_for(t);
        let s = g.request_selection(eff);
        let b = g.request_bounds(g.request_target(t), s);
        assert(b.0 <= k <= b.2 && b.1 <= c <= b.3) by {
            match eff {
                Selection::CellRange(r1, c1, r2, c2) => {
                    if r1 <= r2 {
                        g.lemma_request_row_monotone(r1, d);
                        g.lemma_request_row_monotone(d, r2);
                    } else {
                        g.lemma_request_row_monotone(r2, d);
                        g.lemma_request_row_monotone(d, r1);
                    }
                },
                Selection::RowRange(r1, r2) => {
                    if r1 <= r2 {
                        g.lemma_request_row_monotone(r1, d);
                        g.lemma_request_row_monotone(d, r2);
                    } else {
                        g.lemma_request_row_monotone(r2, d);
                        g.lemma_request_row_monotone(d, r1);
                    }
                },
                _ => {},
            }
        }
        assert(in_rect(b, n, g.ncols(), k as int, c as int));
    }
}

} // verus!
