//! Clipboard text for the selection and for whole columns: displayed cell
//! text, tab-separated within a row, one line per row.
use vstd::prelude::*;
use crate::selection::{min_of, Selection};
use crate::state::GridState;
use crate::text::push_char;
use crate::text_input::push_str;

verus! {

/// `parts` joined by tab characters.
pub open spec fn tab_joined(parts: Seq<Seq<char>>) -> Seq<char>
    decreases parts.len(),
{
    if parts.len() == 0 {
        seq![]
    } else if parts.len() == 1 {
        parts[0]
    } else {
        tab_joined(parts.drop_last()) + seq!['\t'] + parts.last()
    }
}

impl GridState {
    /// Names of the `n` columns starting at `c1`.
    pub open spec fn names_from(&self, c1: int, n: nat) -> Seq<Seq<char>> {
        Seq::new(n, |k: int| self.data.columns@[c1 + k].name@)
    }

    /// Displayed texts of the `n` cells of resident row `row` starting at
    /// column `c1`.
    pub open spec fn texts_from(&self, row: int, c1: int, n: nat) -> Seq<Seq<char>> {
        Seq::new(n, |k: int| self.cell_texts@[row]@[c1 + k]@)
    }

    /// The selection's bounds clamped to the grid; none for an empty grid or
    /// an empty selection.
    pub open spec fn copy_bounds(&self) -> Option<(usize, usize, usize, usize)> {
        match self.selection.bounds() {
            None => None,
            Some((r1, c1, r2, c2)) => if self.row_count() == 0 || self.ncols() == 0 {
                None
            } else {
                let lr = (self.row_count() - 1) as usize;
                let lc = (self.ncols() - 1) as usize;
                Some((min_of(r1, lr), min_of(c1, lc), min_of(r2, lr), min_of(c2, lc)))
            },
        }
    }

    /// Lines for display rows `r1..r` over columns `c1..=c2`; rows that are
    /// not resident (section headers, windowed rows not paged in) are skipped.
    pub open spec fn copied_rows(&self, r1: int, r: int, c1: int, c2: int) -> Seq<char>
        decreases r - r1,
    {
        if r <= r1 {
            seq![]
        } else {
            self.copied_rows(r1, r - 1, c1, c2) + match self.resident_row(r - 1) {
                Some(row) => tab_joined(self.texts_from(row as int, c1, (c2 - c1 + 1) as nat)) + seq!['\n'],
                None => seq![],
            }
        }
    }

    /// Clipboard text of the selection, optionally led by a header line.
    pub open spec fn copy_text(&self, with_headers: bool) -> Option<Seq<char>> {
        match self.copy_bounds() {
            None => None,
            Some((r1, c1, r2, c2)) => Some(
                (if with_headers {
                    tab_joined(self.names_from(c1 as int, (c2 - c1 + 1) as nat)) + seq!['\n']
                } else {
                    seq![]
                }) + self.copied_rows(r1 as int, r2 + 1, c1 as int, c2 as int),
            ),
        }
    }

    /// Lines of the first `n` rows in display order for column `col`.
    pub open spec fn column_lines(&self, col: int, n: int) -> Seq<char>
        decreases n,
    {
        if n <= 0 {
            seq![]
        } else {
            self.column_lines(col, n - 1) + self.cell_texts@[self.display_indices@[n - 1] as int]@[col]@ + seq!['\n']
        }
    }

    /// Tab-joined texts of columns `c1..=c2` of resident row `row`.
    fn row_tab_line(&self, row: usize, c1: usize, c2: usize, out: &mut String)
        requires
            self.wf(),
            row < self.nrows(),
            c1 <= c2 < self.ncols(),
        ensures
            final(out)@ == old(out)@ + tab_joined(self.texts_from(row as int, c1 as int, (c2 - c1 + 1) as nat)),
    {
        proof {
            assert(self.data.rows@[row as int].len() == self.ncols());
            assert(self.cell_texts@[row as int]@.len() == self.data.rows@[row as int]@.len());
        }
        let ghost start = out@;
        let ncols = self.data.columns.len();
        let mut c = c1;
        while c <= c2
            invariant
                self.wf(),
                c2 < ncols,
                row < self.nrows(),
                c1 <= c <= c2 + 1,
                c2 < self.ncols(),
                self.cell_texts@[row as int]@.len() == self.ncols(),
                out@ == start + tab_joined(self.texts_from(row as int, c1 as int, (c - c1) as nat)),
            decreases c2 + 1 - c,
        {
            let ghost prev = self.texts_from(row as int, c1 as int, (c - c1) as nat);
            let ghost next = self.texts_from(row as int, c1 as int, (c + 1 - c1) as nat);
            assert(next.drop_last() =~= prev);
            if c > c1 {
                push_char(out, '\t');
            }
            push_str(out, self.cell_texts[row][c].as_str());
            assert(out@ =~= start + tab_joined(next));
            c += 1;
        }
    }

    /// Clipboard text of the selection (the clamped bounds, displayed text,
    /// tabs between cells, a newline after each row, optionally a header line
    /// of column names); `None` when there is nothing to copy.
    pub fn selection_text(&self, with_headers: bool) -> (r: Option<String>)
        requires
            self.wf(),
        ensures
            r matches Some(s) ==> self.copy_text(with_headers) == Some(s@),
            r is None ==> self.copy_text(with_headers) is None,
    {
        let (raw_r1, raw_c1, raw_r2, raw_c2) = match self.selection.normalized_bounds() {
            Some(b) => b,
            None => {
                return None;
            },
        };
        let nrows = self.display_row_count();
        let ncols = self.data.columns.len();
        if nrows == 0 || ncols == 0 {
            return None;
        }
        proof {
            crate::selection::lemma_bounds_ordered(self.selection);
        }
        let last_row = nrows - 1;
        let last_col = ncols - 1;
        let r1 = if raw_r1 <= last_row { raw_r1 } else { last_row };
        let r2 = if raw_r2 <= last_row { raw_r2 } else { last_row };
        let c1 = if raw_c1 <= last_col { raw_c1 } else { last_col };
        let c2 = if raw_c2 <= last_col { raw_c2 } else { last_col };
        let mut text = String::new();
        if with_headers {
            let mut c = c1;
            while c <= c2
                invariant
                    self.wf(),
                    c2 < ncols,
                    c1 <= c <= c2 + 1,
                    c2 < self.ncols(),
                    text@ == tab_joined(self.names_from(c1 as int, (c - c1) as nat)),
                decreases c2 + 1 - c,
            {
                let ghost prev = self.names_from(c1 as int, (c - c1) as nat);
                let ghost next = self.names_from(c1 as int, (c + 1 - c1) as nat);
                assert(next.drop_last() =~= prev);
                if c > c1 {
                    push_char(&mut text, '\t');
                }
                push_str(&mut text, self.data.columns[c].name.as_str());
                assert(text@ =~= tab_joined(next));
                c += 1;
            }
            push_char(&mut text, '\n');
        }
        let ghost head = text@;
        let mut dr = r1;
        while dr <= r2
            invariant
                self.wf(),
                r1 <= dr <= r2 + 1,
                r2 < nrows,
                nrows == self.row_count(),
                c1 <= c2 < self.ncols(),
                text@ == head + self.copied_rows(r1 as int, dr as int, c1 as int, c2 as int),
            decreases r2 + 1 - dr,
        {
            let ghost before = text@;
            match self.resident_row_for_display(dr) {
                Some(row) => {
                    proof {
                        if self.window is None {
                            assert(match self.display_rows@[dr as int] {
                                crate::grouping::GridDisplayRow::Data { source_row, .. } => source_row < self.data.rows@.len(),
                                crate::grouping::GridDisplayRow::GroupHeader { group } => group < self.row_groups@.len(),
                            });
                        }
                    }
                    self.row_tab_line(row, c1, c2, &mut text);
                    push_char(&mut text, '\n');
                    assert(text@ =~= head + self.copied_rows(r1 as int, dr as int + 1, c1 as int, c2 as int));
                },
                None => {
                    assert(text@ =~= head + self.copied_rows(r1 as int, dr as int + 1, c1 as int, c2 as int));
                },
            }
            dr += 1;
        }
        proof {
            if !with_headers {
                assert(head =~= Seq::<char>::empty());
            }
            assert(text@ =~= self.copy_text(with_headers).unwrap());
        }
        Some(text)
    }

    /// Displayed text of column `col` for every row in display order, one
    /// line each (rows inside collapsed sections included).
    pub fn column_text(&self, col: usize) -> (s: String)
        requires
            self.wf(),
            col < self.ncols(),
        ensures
            s@ == self.column_lines(col as int, self.display_indices@.len() as int),
    {
        let mut text = String::new();
        let mut k: usize = 0;
        while k < self.display_indices.len()
            invariant
                self.wf(),
                col < self.ncols(),
                k <= self.display_indices@.len(),
                text@ == self.column_lines(col as int, k as int),
            decreases self.display_indices@.len() - k,
        {
            let row = self.display_indices[k];
            proof {
                assert(row < self.nrows());
                assert(self.data.rows@[row as int].len() == self.ncols());
                assert(self.cell_texts@[row as int]@.len() == self.data.rows@[row as int]@.len());
            }
            push_str(&mut text, self.cell_texts[row][col].as_str());
            push_char(&mut text, '\n');
            k += 1;
        }
        text
    }
}

impl GridState {
    proof fn lemma_copied_rows_split(&self, a: int, b: int, c: int, c1: int, c2: int)
        requires
            a <= b <= c,
        ensures
            self.copied_rows(a, c, c1, c2) == self.copied_rows(a, b, c1, c2) + self.copied_rows(b, c, c1, c2),
        decreases c - b,
    {
        if c > b {
            self.lemma_copied_rows_split(a, b, c - 1, c1, c2);
            assert(self.copied_rows(a, c, c1, c2) =~= self.copied_rows(a, b, c1, c2) + self.copied_rows(b, c, c1, c2));
        } else {
            assert(self.copied_rows(a, c, c1, c2) =~= self.copied_rows(a, b, c1, c2) + self.copied_rows(b, c, c1, c2));
        }
    }

    /// Copying a single selected cell gives exactly that cell's displayed
    /// text and a newline (nothing for a row that is not resident).
    pub proof fn lemma_copy_cell(&self, r: usize, c: usize)
        requires
            self.selection == Selection::Cell(r, c),
            r < self.row_count(),
            c < self.ncols(),
        ensures
            self.copy_text(false) == Some(match self.resident_row(r as int) {
                Some(row) => self.cell_texts@[row as int]@[c as int]@ + seq!['\n'],
                None => Seq::<char>::empty(),
            }),
    {
        let t = self.copied_rows(r as int, r + 1, c as int, c as int);
        assert(self.display_rows.len() == self.display_rows@.len());
        assert(self.data.columns.len() == self.data.columns@.len());
        assert(self.copy_bounds() == Some((r, c, r, c)));
        assert(self.copy_text(false) == Some(Seq::<char>::empty() + t));
        assert(self.copied_rows(r as int, r as int, c as int, c as int) == Seq::<char>::empty());
        match self.resident_row(r as int) {
            Some(row) => {
                let parts = self.texts_from(row as int, c as int, 1);
                assert(parts.len() == 1);
                assert(tab_joined(parts) == parts[0]);
                assert(t =~= self.cell_texts@[row as int]@[c as int]@ + seq!['\n']);
            },
            None => {
                assert(t =~= Seq::<char>::empty());
            },
        }
        assert(Seq::<char>::empty() + t =~= t);
    }

    /// Copying a block of rows gives the copy of its top rows followed by the
    /// copy of the rows below them: one stretch of lines per row, in order.
    pub proof fn lemma_copy_rows_split(&self, r1: usize, m: usize, r2: usize, c1: usize, c2: usize)
        requires
            r1 <= m < r2 < self.row_count(),
            c1 <= c2 < self.ncols(),
        ensures
            (GridState { selection: Selection::CellRange(r1, c1, r2, c2), ..*self }).copy_text(false) == Some(
                (GridState { selection: Selection::CellRange(r1, c1, m, c2), ..*self }).copy_text(false).unwrap()
                + (GridState { selection: Selection::CellRange((m + 1) as usize, c1, r2, c2), ..*self }).copy_text(false).unwrap()),
    {
        let whole = GridState { selection: Selection::CellRange(r1, c1, r2, c2), ..*self };
        let top = GridState { selection: Selection::CellRange(r1, c1, m, c2), ..*self };
        let bottom = GridState { selection: Selection::CellRange((m + 1) as usize, c1, r2, c2), ..*self };
        assert(self.display_rows.len() == self.display_rows@.len());
        assert(self.data.columns.len() == self.data.columns@.len());
        assert(whole.copy_bounds() == Some((r1, c1, r2, c2)));
        assert(top.copy_bounds() == Some((r1, c1, m, c2)));
        assert(bottom.copy_bounds() == Some(((m + 1) as usize, c1, r2, c2)));
        whole.lemma_copied_rows_split(r1 as int, m + 1, r2 + 1, c1 as int, c2 as int);
        assert(whole.copied_rows(r1 as int, m + 1, c1 as int, c2 as int) == top.copied_rows(r1 as int, m + 1, c1 as int, c2 as int)) by {
            whole.lemma_copied_rows_same(&top, r1 as int, m + 1, c1 as int, c2 as int);
        }
        assert(whole.copied_rows(m + 1, r2 + 1, c1 as int, c2 as int) == bottom.copied_rows(m + 1, r2 + 1, c1 as int, c2 as int)) by {
            whole.lemma_copied_rows_same(&bottom, m + 1, r2 + 1, c1 as int, c2 as int);
        }
        assert(Seq::<char>::empty() + whole.copied_rows(r1 as int, r2 + 1, c1 as int, c2 as int)
            =~= whole.copied_rows(r1 as int, r2 + 1, c1 as int, c2 as int));
        assert(Seq::<char>::empty() + top.copied_rows(r1 as int, m + 1, c1 as int, c2 as int)
            =~= top.copied_rows(r1 as int, m + 1, c1 as int, c2 as int));
        assert(Seq::<char>::empty() + bottom.copied_rows(m + 1, r2 + 1, c1 as int, c2 as int)
            =~= bottom.copied_rows(m + 1, r2 + 1, c1 as int, c2 as int));
    }

    proof fn lemma_copied_rows_same(&self, other: &Self, a: int, b: int, c1: int, c2: int)
        requires
            self.window == other.window,
            self.data == other.data,
            self.display_rows == other.display_rows,
            self.cell_texts == other.cell_texts,
        ensures
            self.copied_rows(a, b, c1, c2) == other.copied_rows(a, b, c1, c2),
        decreases b - a,
    {
        if b > a {
            self.lemma_copied_rows_same(other, a, b - 1, c1, c2);
            assert(self.resident_row(b - 1) == other.resident_row(b - 1));
        }
    }
}

proof fn lemma_tab_joined_concat(a: Seq<Seq<char>>, b: Seq<Seq<char>>)
    requires
        a.len() > 0,
        b.len() > 0,
    ensures
        tab_joined(a + b) == tab_joined(a) + seq!['\t'] + tab_joined(b),
    decreases b.len(),
{
    if b.len() == 1 {
        assert((a + b).drop_last() =~= a);
        assert((a + b).last() == b[0]);
    } else {
        lemma_tab_joined_concat(a, b.drop_last());
        assert((a + b).drop_last() =~= a + b.drop_last());
        assert((a + b).last() == b.last());
    }
}

impl GridState {
    proof fn lemma_copy_one_row(&self, r: usize, c1: usize, c2: usize)
        requires
            r < self.row_count(),
            c1 <= c2 < self.ncols(),
        ensures
            (GridState { selection: Selection::CellRange(r, c1, r, c2), ..*self }).copy_text(false) == Some(
                match self.resident_row(r as int) {
                    Some(row) => tab_joined(self.texts_from(row as int, c1 as int, (c2 - c1 + 1) as nat)) + seq!['\n'],
                    None => Seq::<char>::empty(),
                }),
    {
        let g = GridState { selection: Selection::CellRange(r, c1, r, c2), ..*self };
        assert(self.display_rows.len() == self.display_rows@.len());
        assert(self.data.columns.len() == self.data.columns@.len());
        assert(g.copy_bounds() == Some((r, c1, r, c2)));
        assert(g.copied_rows(r as int, r as int, c1 as int, c2 as int) == Seq::<char>::empty());
        let t = g.copied_rows(r as int, r + 1, c1 as int, c2 as int);
        assert(Seq::<char>::empty() + t =~= t);
        match self.resident_row(r as int) {
            Some(row) => {
                assert(t =~= tab_joined(self.texts_from(row as int, c1 as int, (c2 - c1 + 1) as nat)) + seq!['\n']);
            },
            None => {
                assert(t =~= Seq::<char>::empty());
            },
        }
    }

    /// Within one resident row, copying the cells of columns `c1..=c2` gives
    /// the copy of columns `c1..=m` and the copy of columns `m+1..=c2` on the
    /// same line, joined by a tab.
    pub proof fn lemma_copy_columns_split(&self, r: usize, c1: usize, m: usize, c2: usize)
        requires
            r < self.row_count(),
            self.resident_row(r as int) is Some,
            c1 <= m < c2 < self.ncols(),
        ensures
            ({
                let left = (GridState { selection: Selection::CellRange(r, c1, r, m), ..*self }).copy_text(false).unwrap();
                let right = (GridState { selection: Selection::CellRange(r, (m + 1) as usize, r, c2), ..*self }).copy_text(false).unwrap();
                (GridState { selection: Selection::CellRange(r, c1, r, c2), ..*self }).copy_text(false)
                    == Some(left.drop_last() + seq!['\t'] + right)
            }),
    {
        self.lemma_copy_one_row(r, c1, c2);
        self.lemma_copy_one_row(r, c1, m);
        self.lemma_copy_one_row(r, (m + 1) as usize, c2);
        let row = self.resident_row(r as int).unwrap();
        let a = self.texts_from(row as int, c1 as int, (m - c1 + 1) as nat);
        let b = self.texts_from(row as int, m + 1, (c2 - m) as nat);
        assert(self.texts_from(row as int, c1 as int, (c2 - c1 + 1) as nat) =~= a + b);
        lemma_tab_joined_concat(a, b);
        assert((tab_joined(a) + seq!['\n']).drop_last() =~= tab_joined(a));
    }
}

} // verus!
