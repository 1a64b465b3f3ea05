//! Keyboard-style selection commands: extending a range with the anchor held
//! fixed, select-all, paging, and the expansion of a selection into the rows
//! and cells it covers.
use vstd::prelude::*;
use crate::order::increasing;
use crate::selection::{column_selected, max_of, min_of, row_selected, Selection};
use crate::state::{clamp_step, clamp_step_exec, GridState};

verus! {

/// The selection spanned by an anchor corner and an active corner: the cell
/// itself when they coincide, else the rectangle between them.
pub open spec fn span(a: (usize, usize), b: (usize, usize)) -> Selection {
    if a == b {
        Selection::Cell(b.0, b.1)
    } else {
        Selection::CellRange(min_of(a.0, b.0), min_of(a.1, b.1), max_of(a.0, b.0), max_of(a.1, b.1))
    }
}

/// The range spanned by two corners covers exactly the cells between them,
/// whichever corner is the anchor.
pub proof fn lemma_span_covers(a: (usize, usize), b: (usize, usize), r: int, c: int)
    ensures
        span(a, b).covers(r, c) <==> (min_of(a.0, b.0) <= r <= max_of(a.0, b.0) && min_of(a.1, b.1) <= c <= max_of(a.1, b.1)),
        span(a, b).covers(a.0 as int, a.1 as int),
        span(a, b).covers(b.0 as int, b.1 as int),
        span(a, b).bounds() == span(b, a).bounds(),
{
}

/// `a` comes strictly before `b` in row-major order.
pub open spec fn lex_lt(a: (usize, usize), b: (usize, usize)) -> bool {
    a.0 < b.0 || (a.0 == b.0 && a.1 < b.1)
}

/// Strictly increasing in row-major order.
pub open spec fn lex_increasing(s: Seq<(usize, usize)>) -> bool {
    forall|i: int, j: int| 0 <= i < j < s.len() ==> lex_lt(#[trigger] s[i], #[trigger] s[j])
}

impl GridState {
    /// Anchor and active corner that a shift+arrow starts from: the recorded
    /// corners, else those of a cell or cell range, else the first data cell.
    pub open spec fn range_seed(&self) -> Option<((usize, usize), (usize, usize))> {
        match (self.range_anchor, self.range_active) {
            (Some(a), Some(b)) => Some((a, b)),
            _ => match self.selection {
                Selection::Cell(r, c) => Some(((r, c), (r, c))),
                Selection::CellRange(r1, c1, r2, c2) => Some(((r1, c1), (r2, c2))),
                _ => match self.first_data_row_spec() {
                    Some(d) => Some(((d, 0usize), (d, 0usize))),
                    None => None,
                },
            },
        }
    }

    /// Display row `r` is a data row inside a row selection.
    pub open spec fn row_in_selection(&self, r: int) -> bool {
        row_selected(self.selection, r) && self.data_row(r)
    }

    /// Cell `(r, c)` is on a data row, inside the columns, and selected.
    pub open spec fn cell_in_selection(&self, r: int, c: int) -> bool {
        self.data_row(r) && 0 <= c < self.ncols() && self.selection.covers(r, c)
    }

    /// `after` is `self` after a shift+arrow by `dx` columns and `dy` rows:
    /// the active corner moves (over data rows), the anchor corner stays, and
    /// the selection is the range between them. Nothing changes on an empty
    /// grid or without a corner to start from.
    pub open spec fn extended(&self, after: Self, dx: int, dy: int) -> bool {
        if self.row_count() == 0 || self.ncols() == 0 {
            after == *self
        } else {
            match self.range_seed() {
                Some((a, b)) => {
                    let nb = (self.moved_row(b.0 as int, dy) as usize, clamp_step(b.1 as int, dx, self.ncols() as int) as usize);
                    after == (GridState { selection: span(a, nb), range_anchor: Some(a), range_active: Some(nb), ..*self })
                },
                None => after == *self,
            }
        }
    }

    /// `after` is `self` after a plain arrow key (see
    /// [`GridState::moved_selection`]); nothing changes on an empty grid.
    pub open spec fn arrow_moved(&self, after: Self, dx: int, dy: int) -> bool {
        if self.row_count() == 0 || self.ncols() == 0 {
            after == *self
        } else {
            self.moved_selection(after, dx, dy)
        }
    }

    /// Extend the selection with shift+arrow (see [`Self::extended`]). Once a
    /// range is started its anchor corner never moves.
    pub fn extend_selection(&mut self, dx: i32, dy: i32)
        requires
            old(self).wf(),
        ensures
            final(self).wf(),
            old(self).extended(*final(self), dx as int, dy as int),
            old(self).range_anchor is Some && old(self).range_active is Some && old(self).row_count() > 0 && old(self).ncols() > 0
                ==> final(self).range_anchor == old(self).range_anchor,
    {
        let nrows = self.display_row_count();
        let ncols = self.data.columns.len();
        if nrows == 0 || ncols == 0 {
            return;
        }
        let seed = match (self.range_anchor, self.range_active) {
            (Some(a), Some(b)) => Some((a, b)),
            _ => match self.selection {
                Selection::Cell(r, c) => Some(((r, c), (r, c))),
                Selection::CellRange(r1, c1, r2, c2) => Some(((r1, c1), (r2, c2))),
                _ => match self.first_data_row() {
                    Some(d) => Some(((d, 0usize), (d, 0usize))),
                    None => None,
                },
            },
        };
        let (anchor, active) = match seed {
            Some(s) => s,
            None => {
                return;
            },
        };
        let nr = self.move_data_row(active.0, dy);
        let nc = clamp_step_exec(active.1, dx, ncols);
        self.range_anchor = Some(anchor);
        self.range_active = Some((nr, nc));
        self.selection = if nr == anchor.0 && nc == anchor.1 {
            Selection::Cell(nr, nc)
        } else {
            Selection::CellRange(
                if anchor.0 <= nr { anchor.0 } else { nr },
                if anchor.1 <= nc { anchor.1 } else { nc },
                if anchor.0 <= nr { nr } else { anchor.0 },
                if anchor.1 <= nc { nc } else { anchor.1 },
            )
        };
    }

    /// Select every cell; no-op on an empty grid.
    pub fn select_all(&mut self)
        requires
            old(self).wf(),
        ensures
            final(self).wf(),
            old(self).row_count() == 0 || old(self).ncols() == 0 ==> *final(self) == *old(self),
            old(self).row_count() > 0 && old(self).ncols() > 0 ==> *final(self) == (GridState {
                selection: Selection::CellRange(0, 0, (old(self).row_count() - 1) as usize, (old(self).ncols() - 1) as usize),
                ..*old(self)
            }),
            old(self).row_count() > 0 && old(self).ncols() > 0 ==> forall|r: int, c: int|
                final(self).selection.covers(r, c) <==> (0 <= r < old(self).row_count() && 0 <= c < old(self).ncols()),
    {
        let nrows = self.display_row_count();
        let ncols = self.data.columns.len();
        if nrows > 0 && ncols > 0 {
            self.selection = Selection::CellRange(0, 0, nrows - 1, ncols - 1);
        }
    }

    /// Move the selection a page up: `rows` rows, as many as fit the viewport.
    pub fn page_up(&mut self, rows: i32)
        requires
            old(self).wf(),
            rows > i32::MIN,
        ensures
            final(self).wf(),
            old(self).row_count() == 0 || old(self).ncols() == 0 ==> *final(self) == *old(self),
            old(self).row_count() > 0 && old(self).ncols() > 0 ==> old(self).moved_selection(*final(self), 0, -rows),
    {
        self.move_selection(0, -rows);
    }

    /// Move the selection a page down: `rows` rows, as many as fit the viewport.
    pub fn page_down(&mut self, rows: i32)
        requires
            old(self).wf(),
        ensures
            final(self).wf(),
            old(self).row_count() == 0 || old(self).ncols() == 0 ==> *final(self) == *old(self),
            old(self).row_count() > 0 && old(self).ncols() > 0 ==> old(self).moved_selection(*final(self), 0, rows as int),
    {
        self.move_selection(0, rows);
    }

    /// Display rows fully selected by a row or row-range selection, ascending,
    /// section headers and rows past the end left out.
    pub fn selected_rows(&self) -> (r: Vec<usize>)
        ensures
            increasing(r@),
            forall|x: usize| r@.contains(x) <==> self.row_in_selection(x as int),
    {
        broadcast use vstd::seq_lib::lemma_seq_contains_after_push;
        let mut out: Vec<usize> = Vec::new();
        match self.selection {
            Selection::Row(r) => {
                if self.is_data_display_row(r) {
                    out.push(r);
                }
                assert forall|x: usize| out@.contains(x) <==> self.row_in_selection(x as int) by {
                    if out@.contains(x) {
                        assert(out@[0] == x);
                    }
                }
            },
            Selection::RowRange(r1, r2) => {
                let lo = if r1 <= r2 { r1 } else { r2 };
                let hi = if r1 <= r2 { r2 } else { r1 };
                let nrows = self.display_row_count();
                let mut r = lo;
                while r <= hi && r < nrows
                    invariant
                        lo == min_of(r1, r2),
                        hi == max_of(r1, r2),
                        self.selection == Selection::RowRange(r1, r2),
                        nrows == self.row_count(),
                        lo <= r,
                        r == lo || (r <= hi + 1 && r <= nrows),
                        increasing(out@),
                        forall|i: int| 0 <= i < out@.len() ==> #[trigger] out@[i] < r,
                        forall|x: usize| out@.contains(x) <==> (x < r && self.row_in_selection(x as int)),
                    decreases nrows - r,
                {
                    let ghost before = out@;
                    if self.is_data_display_row(r) {
                        out.push(r);
                    }
                    proof {
                        assert forall|x: usize| out@.contains(x) <==> (x < r + 1 && self.row_in_selection(x as int)) by {
                            vstd::seq_lib::lemma_seq_contains_after_push(before, r, x);
                            if x == r {
                                assert(row_selected(self.selection, r as int));
                            }
                        }
                    }
                    r += 1;
                }
                assert forall|x: usize| out@.contains(x) <==> self.row_in_selection(x as int) by {
                    if self.row_in_selection(x as int) {
                        assert(x <= hi);
                        assert(self.data_row(x as int));
                        assert(x < nrows);
                    }
                }
            },
            _ => {},
        }
        out
    }

    /// Every selected `(display_row, column)` cell on a data row and inside
    /// the columns, in row-major order.
    pub fn selected_cells(&self) -> (r: Vec<(usize, usize)>)
        requires
            self.wf(),
        ensures
            lex_increasing(r@),
            forall|p: (usize, usize)| r@.contains(p) <==> self.cell_in_selection(p.0 as int, p.1 as int),
    {
        let mut out: Vec<(usize, usize)> = Vec::new();
        let nrows = self.display_row_count();
        let ncols = self.data.columns.len();
        let bounds = self.selection.normalized_bounds();
        let (r0, c0, r1, c1) = match bounds {
            Some(b) => b,
            None => {
                return out;
            },
        };
        proof {
            crate::selection::lemma_bounds_ordered(self.selection);
        }
        let mut r = r0;
        while r <= r1 && r < nrows
            invariant
                self.selection.bounds() == Some((r0, c0, r1, c1)),
                nrows == self.row_count(),
                ncols == self.ncols(),
                r0 <= r,
                r == r0 || (r <= r1 + 1 && r <= nrows),
                lex_increasing(out@),
                forall|i: int| 0 <= i < out@.len() ==> (#[trigger] out@[i]).0 < r,
                forall|p: (usize, usize)| out@.contains(p) <==> (p.0 < r && self.cell_in_selection(p.0 as int, p.1 as int)),
            decreases nrows - r,
        {
            if self.is_data_display_row(r) {
                let mut c = c0;
                while c <= c1 && c < ncols
                    invariant
                        self.selection.bounds() == Some((r0, c0, r1, c1)),
                        nrows == self.row_count(),
                        ncols == self.ncols(),
                        r0 <= r <= r1,
                        r < nrows,
                        self.data_row(r as int),
                        c0 <= c,
                        c == c0 || (c <= c1 + 1 && c <= ncols),
                        lex_increasing(out@),
                        forall|i: int| 0 <= i < out@.len() ==> lex_lt(#[trigger] out@[i], (r, c)),
                        forall|p: (usize, usize)| out@.contains(p) <==> ((p.0 < r || (p.0 == r && p.1 < c))
                            && self.cell_in_selection(p.0 as int, p.1 as int)),
                    decreases ncols - c,
                {
                    let ghost before = out@;
                    out.push((r, c));
                    proof {
                        assert forall|p: (usize, usize)| out@.contains(p) <==> ((p.0 < r || (p.0 == r && p.1 < c + 1))
                            && self.cell_in_selection(p.0 as int, p.1 as int)) by {
                            vstd::seq_lib::lemma_seq_contains_after_push(before, (r, c), p);
                        }
                        assert forall|i: int, j: int| 0 <= i < j < out@.len() implies lex_lt(#[trigger] out@[i], #[trigger] out@[j]) by {
                            if j == before.len() {
                                assert(lex_lt(before[i], (r, c)));
                            } else {
                                assert(out@[i] == before[i] && out@[j] == before[j]);
                            }
                        }
                        assert forall|i: int| 0 <= i < out@.len() implies lex_lt(#[trigger] out@[i], (r, (c + 1) as usize)) by {
                            if i < before.len() {
                                assert(lex_lt(before[i], (r, c)));
                            }
                        }
                    }
                    c += 1;
                }
                proof {
                    assert forall|p: (usize, usize)| out@.contains(p) <==> (p.0 < r + 1 && self.cell_in_selection(p.0 as int, p.1 as int)) by {
                        if p.0 == r && self.cell_in_selection(p.0 as int, p.1 as int) {
                            assert(p.1 <= c1);
                            assert(p.1 < ncols);
                        }
                    }
                }
            } else {
                assert forall|p: (usize, usize)| out@.contains(p) <==> (p.0 < r + 1 && self.cell_in_selection(p.0 as int, p.1 as int)) by {
                    if p.0 == r {
                        assert(!self.data_row(r as int));
                    }
                }
            }
            r += 1;
        }
        proof {
            assert forall|p: (usize, usize)| out@.contains(p) <==> self.cell_in_selection(p.0 as int, p.1 as int) by {
                if self.cell_in_selection(p.0 as int, p.1 as int) {
                    assert(p.0 <= r1);
                    assert(p.0 < nrows);
                }
            }
        }
        out
    }

    /// Columns fully selected: the selected column when it exists.
    pub fn selected_columns(&self) -> (r: Vec<usize>)
        ensures
            r@ == match self.selection {
                Selection::Column(c) if c < self.ncols() => seq![c],
                _ => Seq::<usize>::empty(),
            },
            forall|x: usize| r@.contains(x) <==> (x < self.ncols() && column_selected(self.selection, x as int)),
    {
        let mut out: Vec<usize> = Vec::new();
        match self.selection {
            Selection::Column(c) => {
                if c < self.data.columns.len() {
                    out.push(c);
                }
            },
            _ => {},
        }
        proof {
            assert forall|x: usize| out@.contains(x) <==> (x < self.ncols() && column_selected(self.selection, x as int)) by {
                if out@.contains(x) {
                    assert(out@[0] == x);
                }
                if x < self.ncols() && column_selected(self.selection, x as int) {
                    assert(out@[0] == x);
                }
            }
        }
        out
    }
}

/// `t` kept within `0..n` (`n > 0`).
pub open spec fn kept_within(t: int, n: int) -> int {
    if t < 0 { 0 } else if t >= n { n - 1 } else { t }
}

impl GridState {
    /// An arrow with a horizontal step moves a whole-column selection to the
    /// column `c + dx`, kept within the grid; nothing else changes.
    pub proof fn lemma_move_column(&self, after: Self, c: usize, dx: int, dy: int)
        requires
            self.selection == Selection::Column(c),
            dx != 0,
            self.ncols() > 0,
            self.moved_selection(after, dx, dy),
        ensures
            after == (GridState { selection: Selection::Column(kept_within(c + dx, self.ncols() as int) as usize), ..*self }),
    {
    }

    /// An arrow with a vertical step moves a whole-row selection to the row
    /// `r + dy`, kept within the grid, when no sections are shown; nothing
    /// else changes.
    pub proof fn lemma_move_row(&self, after: Self, r: usize, dx: int, dy: int)
        requires
            self.selection == Selection::Row(r),
            dy != 0,
            self.row_count() > 0,
            self.grouped_column is None || self.window is Some,
            self.moved_selection(after, dx, dy),
        ensures
            after == (GridState { selection: Selection::Row(kept_within(r + dy, self.row_count() as int) as usize), ..*self }),
    {
    }

    /// An arrow moves a single selected cell by `(dx, dy)`, kept within the
    /// grid, when no sections are shown (or the move is horizontal); the
    /// range anchor and active corner follow it; nothing else changes.
    pub proof fn lemma_move_cell(&self, after: Self, r: usize, c: usize, dx: int, dy: int)
        requires
            self.selection == Selection::Cell(r, c),
            self.row_count() > 0,
            self.ncols() > 0,
            self.grouped_column is None || self.window is Some || dy == 0,
            self.moved_selection(after, dx, dy),
        ensures
            ({
                let nr = kept_within(r + dy, self.row_count() as int) as usize;
                let nc = kept_within(c + dx, self.ncols() as int) as usize;
                after == (GridState { selection: Selection::Cell(nr, nc), range_anchor: Some((nr, nc)), range_active: Some((nr, nc)), ..*self })
            }),
    {
    }

    proof fn lemma_next_data_is_data(&self, cur: int, forward: bool)
        ensures
            self.next_data(cur, forward) matches Some(e) ==> self.data_row(e),
    {
        if forward {
            if exists|e: int| cur < e < self.row_count() && self.data_row(e) {
                let e0 = choose|e: int| cur < e < self.row_count() && self.data_row(e);
                self.lemma_nearest_after(cur, e0);
            }
        } else {
            if cur <= self.row_count() && exists|e: int| 0 <= e < cur && self.data_row(e) {
                let e0 = choose|e: int| 0 <= e < cur && self.data_row(e);
                self.lemma_nearest_before(cur, e0);
            }
        }
    }

    proof fn lemma_nearest_after(&self, cur: int, e0: int)
        requires
            cur < e0 < self.row_count(),
            self.data_row(e0),
        ensures
            exists|e: int| cur < e < self.row_count() && self.data_row(e) && forall|f: int| cur < f < e ==> !self.data_row(f),
        decreases e0 - cur,
    {
        if exists|f: int| cur < f < e0 && self.data_row(f) {
            let f = choose|f: int| cur < f < e0 && self.data_row(f);
            self.lemma_nearest_after(cur, f);
        } else {
            assert(forall|f: int| cur < f < e0 ==> !self.data_row(f));
        }
    }

    proof fn lemma_nearest_before(&self, cur: int, e0: int)
        requires
            0 <= e0 < cur,
            self.data_row(e0),
        ensures
            exists|e: int| 0 <= e < cur && self.data_row(e) && forall|f: int| e < f < cur ==> !self.data_row(f),
        decreases cur - e0,
    {
        if exists|f: int| e0 < f < cur && self.data_row(f) {
            let f = choose|f: int| e0 < f < cur && self.data_row(f);
            self.lemma_nearest_before(cur, f);
        } else {
            assert(forall|f: int| e0 < f < cur ==> !self.data_row(f));
        }
    }

    proof fn lemma_step_rows_data(&self, cur: int, forward: bool, n: nat)
        requires
            self.data_row(cur),
        ensures
            self.data_row(self.step_rows(cur, forward, n)),
        decreases n,
    {
        if n > 0 {
            self.lemma_next_data_is_data(cur, forward);
            match self.next_data(cur, forward) {
                None => {},
                Some(e) => {
                    self.lemma_step_rows_data(e, forward, (n - 1) as nat);
                },
            }
        }
    }

    /// In a grid shown in sections, a vertical arrow from a cell on a data
    /// row lands on a data row (section headers are skipped).
    pub proof fn lemma_move_cell_skips_headers(&self, after: Self, r: usize, c: usize, dx: int, dy: int)
        requires
            self.selection == Selection::Cell(r, c),
            self.data_row(r as int),
            self.grouped_column is Some,
            self.window is None,
            dy != 0,
            self.moved_selection(after, dx, dy),
        ensures
            after.selection matches Selection::Cell(nr, _) && self.data_row(nr as int),
    {
        let n: nat = (if dy > 0 { dy } else { -dy }) as nat;
        self.lemma_step_rows_data(r as int, dy > 0, n);
        assert(self.row_count() <= usize::MAX) by {
            assert(self.display_rows.len() == self.display_rows@.len());
        }
    }

    proof fn lemma_first_data_row(&self, d0: int)
        requires
            0 <= d0 < self.row_count(),
            self.data_row(d0),
        ensures
            exists|d: int| 0 <= d <= d0 && self.data_row(d) && forall|e: int| 0 <= e < d ==> !self.data_row(e),
        decreases d0,
    {
        if exists|e: int| 0 <= e < d0 && self.data_row(e) {
            let e = choose|e: int| 0 <= e < d0 && self.data_row(e);
            self.lemma_first_data_row(e);
        } else {
            assert(forall|e: int| 0 <= e < d0 ==> !self.data_row(e));
        }
    }

    /// An arrow from a selection it cannot move (nothing selected, a range, a
    /// row moved sideways or a column moved up or down) selects the first
    /// cell of the first data row, when there is one.
    pub proof fn lemma_move_starts_at_first_cell(&self, after: Self, dx: int, dy: int, d0: int)
        requires
            !(self.selection is Cell),
            !(self.selection is Row && dy != 0),
            !(self.selection is Column && dx != 0),
            0 <= d0 < self.row_count(),
            self.data_row(d0),
            self.moved_selection(after, dx, dy),
        ensures
            after.selection matches Selection::Cell(d, c) && c == 0 && self.data_row(d as int)
                && forall|e: int| 0 <= e < d ==> !self.data_row(e),
    {
        self.lemma_first_data_row(d0);
        let d = choose|d: int| 0 <= d < self.row_count() && self.data_row(d) && forall|e: int| 0 <= e < d ==> !self.data_row(e);
        assert(self.row_count() <= usize::MAX) by {
            assert(self.display_rows.len() == self.display_rows@.len());
        }
    }
}

} // verus!
