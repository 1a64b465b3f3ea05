//! The grid's state machine: display order and sections, windowed rows,
//! selection and keyboard navigation, sort and filter commands, the context
//! menu and filter panel, and search over the displayed text.
//!
//! Geometry (pixels, scrolling, hit-testing) and the cell formatter belong to
//! the UI layer. It hands this state the displayed text of every resident
//! cell, resolves pointer positions to [`HitResult`]s, and judges the
//! numeric and pattern filters. Sort changes, filter changes and appends
//! re-derive the display order at once, except that committing a numeric or
//! pattern filter from the filter panel sets `needs_recompute`: the UI layer
//! judges the new filter and then calls [`GridState::recompute`].
use vstd::prelude::*;
use crate::context_menu::{
    ColumnContext, ContextMenuItem, ContextMenuRequest, ContextMenuSelection, ContextMenuTarget,
    SelectedCellContext, SelectedRowContext,
};
use crate::data::{copy_cell, find_ragged_row, first_ragged, rectangular, CellValue, GridData, GridDataError};
use crate::cell_order::{cell_lt, cell_same, column_cells, column_ranks, lemma_cell_order_by_value, lemma_ranks_of_order, ranks_of};
use crate::filter::{row_passes, row_verdicts, verdicts, ColumnFilter};
use crate::filter_panel::FilterPanel;
use crate::grouping::{
    build_flat_display, build_groups, build_sections, contains_string, flat_display, group_members,
    group_order, lemma_members_in_range, lemma_sections_cover, rows_in_sections, lemma_sections_display_in_range, retain_labels, retained,
    sections_display, views, GridDisplayRow, RowGroup,
};
use crate::menu::{ContextMenu, MenuAction, MenuItem};
use crate::search::{SearchState, MAX_SEARCH_MATCHES};
use crate::selection::{HitResult, ScrollbarAxis, Selection, SortDirection};
use crate::text::{chars_of, contains_lowered, contains_seq, lowercase, to_lowercase};
use crate::order::{increasing, lemma_passing, passing, passing_rows, reverse_keys, reversed_keys, sorted_by_key, stable_sort_by_key};

verus! {

/// Windowed-row mode: the grid presents `total_rows` virtual rows while the
/// resident rows start at virtual row `offset`.
#[derive(Clone, Copy, Debug, PartialEq, Eq, Structural)]
pub struct RowWindow {
    /// Total rows in the virtual set.
    pub total_rows: usize,
    /// Virtual index of the first resident row.
    pub offset: usize,
}

/// `texts` has one string per cell of `rows`.
pub open spec fn texts_shape(texts: Seq<Vec<String>>, rows: Seq<Vec<CellValue>>) -> bool {
    &&& texts.len() == rows.len()
    &&& forall|i: int| 0 <= i < rows.len() ==> (#[trigger] texts[i])@.len() == rows[i]@.len()
}

/// Cell `a` then cell `b` are in value order for an ascending (or
/// descending) sort: whole numbers and day numbers not decreasing (not
/// increasing), booleans with `false` first (last); other pairs are not
/// compared by value.
pub open spec fn values_in_order(a: CellValue, b: CellValue, ascending: bool) -> bool {
    match (a, b) {
        (CellValue::Integer(x), CellValue::Integer(y)) => if ascending { x <= y } else { x >= y },
        (CellValue::Date(x), CellValue::Date(y)) => if ascending { x <= y } else { x >= y },
        (CellValue::Boolean(x), CellValue::Boolean(y)) => if ascending { !x || y } else { x || !y },
        _ => true,
    }
}

/// Each click on a column's sort control takes the next step of ascending,
/// descending, off; a click on another column sorts that column ascending.
pub proof fn lemma_sort_steps(sort: Option<(usize, SortDirection)>, col: usize)
    ensures
        next_sort(None, col) == Some((col, SortDirection::Ascending)),
        next_sort(Some((col, SortDirection::Ascending)), col) == Some((col, SortDirection::Descending)),
        next_sort(Some((col, SortDirection::Descending)), col) is None,
        (sort matches Some((c, _)) && c != col) ==> next_sort(sort, col) == Some((col, SortDirection::Ascending)),
{
}

/// Identity order `0..n`.
pub open spec fn identity(n: nat) -> Seq<usize> {
    Seq::new(n, |i: int| i as usize)
}

pub fn identity_vec(n: usize) -> (r: Vec<usize>)
    ensures
        r@ == identity(n as nat),
{
    let mut v: Vec<usize> = Vec::new();
    let mut i: usize = 0;
    while i < n
        invariant
            i <= n,
            v@ == identity(i as nat),
        decreases n - i,
    {
        v.push(i);
        assert(v@ =~= identity(i as nat + 1));
        i += 1;
    }
    v
}

/// Matches among the first `n` cells of a row shown at display row `dr`:
/// the cells whose lower-cased text contains `needle`, left to right.
pub open spec fn cols_matching(texts: Seq<String>, needle: Seq<char>, dr: usize, n: int) -> Seq<(usize, usize)>
    decreases n,
{
    if n <= 0 {
        seq![]
    } else {
        let p = cols_matching(texts, needle, dr, n - 1);
        if contains_seq(lowercase(texts[n - 1]@), needle) { p.push((dr, (n - 1) as usize)) } else { p }
    }
}

/// `a` is a prefix of `b`.
pub open spec fn prefix_of<T>(a: Seq<T>, b: Seq<T>) -> bool {
    a.len() <= b.len() && b.take(a.len() as int) == a
}

pub proof fn lemma_cols_prefix(texts: Seq<String>, needle: Seq<char>, dr: usize, m: int, n: int)
    requires
        m <= n,
    ensures
        prefix_of(cols_matching(texts, needle, dr, m), cols_matching(texts, needle, dr, n)),
    decreases n - m,
{
    if m < n {
        lemma_cols_prefix(texts, needle, dr, m, n - 1);
        let a = cols_matching(texts, needle, dr, m);
        let b = cols_matching(texts, needle, dr, n - 1);
        let c = cols_matching(texts, needle, dr, n);
        if n > 0 && contains_seq(lowercase(texts[n - 1]@), needle) {
            assert(c.take(a.len() as int) =~= b.take(a.len() as int));
        }
    } else {
        assert(cols_matching(texts, needle, dr, n).take(cols_matching(texts, needle, dr, n).len() as int)
            =~= cols_matching(texts, needle, dr, n));
    }
}

/// Sort state after a click on column `col`'s sort control: ascending,
/// then descending, then off.
pub open spec fn next_sort(sort: Option<(usize, SortDirection)>, col: usize) -> Option<(usize, SortDirection)> {
    match sort {
        Some((c, SortDirection::Ascending)) if c == col => Some((col, SortDirection::Descending)),
        Some((c, SortDirection::Descending)) if c == col => None,
        _ => Some((col, SortDirection::Ascending)),
    }
}

/// Three clicks on the same column's sort control return to where they
/// started, from unsorted or from any sort on that column.
pub proof fn lemma_sort_cycle(sort: Option<(usize, SortDirection)>, col: usize)
    requires
        sort matches Some((c, _)) ==> c == col,
    ensures
        next_sort(next_sort(next_sort(sort, col), col), col) == sort,
        sort is None ==> next_sort(sort, col) == Some((col, SortDirection::Ascending)),
{
}

/// `old` without any occurrence of `label`.
pub open spec fn without(old: Seq<Seq<char>>, label: Seq<char>) -> Seq<Seq<char>>
    decreases old.len(),
{
    if old.len() == 0 {
        seq![]
    } else {
        let p = without(old.drop_last(), label);
        if old.last() == label { p } else { p.push(old.last()) }
    }
}

/// Collapsed labels after collapsing (`true`) or expanding (`false`) the
/// section labelled `label`.
pub open spec fn collapse_labels(old: Seq<Seq<char>>, label: Seq<char>, collapsed: bool) -> Seq<Seq<char>> {
    if collapsed {
        if old.contains(label) { old } else { old.push(label) }
    } else {
        without(old, label)
    }
}

pub proof fn lemma_without_absent(old: Seq<Seq<char>>, label: Seq<char>)
    requires
        !old.contains(label),
    ensures
        without(old, label) == old,
    decreases old.len(),
{
    if old.len() > 0 {
        assert(!old.drop_last().contains(label)) by {
            if old.drop_last().contains(label) {
                let k = choose|k: int| 0 <= k < old.drop_last().len() && old.drop_last()[k] == label;
                assert(old[k] == label);
            }
        }
        lemma_without_absent(old.drop_last(), label);
        assert(old.last() != label) by {
            assert(old[old.len() - 1] == old.last());
        }
        assert(old.drop_last().push(old.last()) =~= old);
    }
}

/// Collapsing a section and then expanding it again leaves the collapsed
/// labels as they were before, when it was expanded to begin with.
pub proof fn lemma_collapse_then_expand(old: Seq<Seq<char>>, label: Seq<char>)
    requires
        !old.contains(label),
    ensures
        collapse_labels(collapse_labels(old, label, true), label, false) == old,
{
    lemma_without_absent(old, label);
    assert(old.push(label).drop_last() =~= old);
}

proof fn lemma_without_drops(old: Seq<Seq<char>>, label: Seq<char>)
    ensures
        !without(old, label).contains(label),
    decreases old.len(),
{
    if old.len() > 0 {
        lemma_without_drops(old.drop_last(), label);
        vstd::seq_lib::lemma_seq_contains_after_push(without(old.drop_last(), label), old.last(), label);
    }
}

/// A collapsed section's label is among the collapsed labels; an expanded
/// section's label is not.
pub proof fn lemma_collapse_marks(old: Seq<Seq<char>>, label: Seq<char>)
    ensures
        collapse_labels(old, label, true).contains(label),
        !collapse_labels(old, label, false).contains(label),
{
    lemma_without_drops(old, label);
    vstd::seq_lib::lemma_seq_contains_after_push(old, label, label);
}

/// `row + delta` clamped to `0..=last`, where `last` is the last of `count`
/// rows (0 when there are none).
pub open spec fn clamp_step(row: int, delta: int, count: int) -> int {
    let last = if count <= 0 { 0 } else { count - 1 };
    let t = row + delta;
    if t < 0 { 0 } else if t > last { last } else { t }
}

pub(crate) fn clamp_step_exec(row: usize, delta: i32, count: usize) -> (r: usize)
    ensures
        r == clamp_step(row as int, delta as int, count as int),
{
    let last: i128 = if count == 0 { 0 } else { count as i128 - 1 };
    let t: i128 = row as i128 + delta as i128;
    if t < 0 { 0 } else if t > last { last as usize } else { t as usize }
}

/// Complete grid state.
#[derive(Debug)]
pub struct GridState {
    pub data: GridData,
    /// Displayed text of every resident cell, as painted, searched, copied
    /// and grouped.
    pub cell_texts: Vec<Vec<String>>,
    /// When `Some`, the grid is in windowed-row mode.
    pub window: Option<RowWindow>,
    /// Source rows in display order (after filter and sort).
    pub display_indices: Vec<usize>,
    /// Visual rows: section headers and data rows.
    pub display_rows: Vec<GridDisplayRow>,
    /// Column used to group rows into sections.
    pub grouped_column: Option<usize>,
    /// Sections in display order.
    pub row_groups: Vec<RowGroup>,
    /// Labels of the collapsed sections.
    pub collapsed_group_labels: Vec<String>,
    pub selection: Selection,
    /// Fixed corner of a keyboard/shift range selection.
    pub range_anchor: Option<(usize, usize)>,
    /// Moving corner of a keyboard/shift range selection.
    pub range_active: Option<(usize, usize)>,
    pub sort: Option<(usize, SortDirection)>,
    pub filters: Vec<ColumnFilter>,
    pub context_menu: Option<ContextMenu>,
    pub filter_panel: Option<FilterPanel>,
    /// A menu action waiting to run, with its column.
    pub pending_action: Option<(MenuAction, usize)>,
    pub search: SearchState,
    /// A numeric or pattern filter was committed from the filter panel: the
    /// display order must be re-derived with the host's verdicts on it.
    pub needs_recompute: bool,
}

impl GridState {
    /// Consistency of everything but the derived display rows.
    pub open spec fn wf_base(&self) -> bool {
        &&& self.data.wf()
        &&& texts_shape(self.cell_texts@, self.data.rows@)
        &&& self.filters@.len() == self.data.columns@.len()
        &&& forall|i: int| 0 <= i < self.filters@.len() ==> (#[trigger] self.filters@[i]).wf()
        &&& self.sort matches Some((c, _)) ==> c < self.data.columns@.len()
        &&& forall|i: int| 0 <= i < self.display_indices@.len() ==> #[trigger] self.display_indices@[i] < self.data.rows@.len()
        &&& self.grouped_column matches Some(c) ==> c < self.data.columns@.len() && self.window is None
    }

    /// Internal consistency of the state.
    pub open spec fn wf(&self) -> bool {
        &&& self.wf_base()
        &&& forall|i: int| 0 <= i < self.display_rows@.len() ==> match #[trigger] self.display_rows@[i] {
            GridDisplayRow::Data { source_row, .. } => source_row < self.data.rows@.len(),
            GridDisplayRow::GroupHeader { group } => group < self.row_groups@.len(),
        }
    }

    /// `self` and `other` agree on everything but the display rows, the
    /// sections and the collapsed labels.
    pub open spec fn same_but_layout(&self, other: &Self) -> bool {
        &&& self.data == other.data
        &&& self.cell_texts == other.cell_texts
        &&& self.window == other.window
        &&& self.display_indices == other.display_indices
        &&& self.grouped_column == other.grouped_column
        &&& self.selection == other.selection
        &&& self.range_anchor == other.range_anchor
        &&& self.range_active == other.range_active
        &&& self.sort == other.sort
        &&& self.filters == other.filters
        &&& self.context_menu == other.context_menu
        &&& self.filter_panel == other.filter_panel
        &&& self.pending_action == other.pending_action
        &&& self.search == other.search
        &&& self.needs_recompute == other.needs_recompute
    }

    pub open spec fn ncols(&self) -> nat {
        self.data.columns@.len()
    }

    pub open spec fn nrows(&self) -> nat {
        self.data.rows@.len()
    }

    /// Rows the grid presents.
    pub open spec fn row_count(&self) -> nat {
        match self.window {
            Some(w) => w.total_rows as nat,
            None => self.display_rows@.len(),
        }
    }

    /// Resident row shown at display row `d`.
    pub open spec fn resident_row(&self, d: int) -> Option<usize> {
        match self.window {
            Some(w) => if w.offset <= d && d - w.offset < self.nrows() && d < w.total_rows {
                Some((d - w.offset) as usize)
            } else {
                None
            },
            None => if 0 <= d < self.display_rows@.len() {
                match self.display_rows@[d] {
                    GridDisplayRow::Data { source_row, .. } => Some(source_row),
                    _ => None,
                }
            } else {
                None
            },
        }
    }

    /// The first display row that shows data.
    pub open spec fn first_data_row_spec(&self) -> Option<usize> {
        if exists|d: int| 0 <= d < self.row_count() && self.data_row(d) {
            Some((choose|d: int| 0 <= d < self.row_count() && self.data_row(d) && forall|e: int| 0 <= e < d ==> !self.data_row(e)) as usize)
        } else {
            None
        }
    }

    /// Whether display row `d` shows data (not a section header).
    pub open spec fn data_row(&self, d: int) -> bool {
        match self.window {
            Some(w) => 0 <= d < w.total_rows,
            None => 0 <= d < self.display_rows@.len() && self.display_rows@[d] is Data,
        }
    }

    /// Labels of the grouping column in display order.
    pub open spec fn group_labels(&self, c: usize) -> Seq<Seq<char>> {
        Seq::new(self.display_indices@.len(), |k: int| self.cell_texts@[self.display_indices@[k] as int]@[c as int]@)
    }

    /// Display rows and sections for the current display order and grouping.
    pub open spec fn arranged(&self, old_collapsed: Seq<Seq<char>>) -> bool {
        match self.grouped_column {
            Some(c) if self.window is None => {
                let ls = self.group_labels(c);
                let order = group_order(ls);
                &&& self.row_groups@.len() == order.len()
                &&& forall|g: int| 0 <= g < order.len() ==> {
                    &&& (#[trigger] self.row_groups@[g]).label@ == order[g]
                    &&& self.row_groups@[g].row_count == group_members(ls, order[g]).len()
                    &&& self.row_groups@[g].collapsed == old_collapsed.contains(order[g])
                }
                &&& self.display_rows@ == sections_display(
                    Seq::new(order.len(), |g: int| group_members(ls, order[g])),
                    self.row_groups@.map_values(|g: RowGroup| g.collapsed),
                    self.display_indices@,
                    order.len() as int,
                )
                &&& views(self.collapsed_group_labels@) == retained(old_collapsed, order)
            },
            _ => {
                &&& self.row_groups@.len() == 0
                &&& self.display_rows@ == flat_display(self.display_indices@)
                &&& views(self.collapsed_group_labels@) == old_collapsed
            },
        }
    }

    /// Once grouped, the sections' row counts add up to the rows in the
    /// display order: every row falls in exactly one section.
    pub proof fn lemma_section_counts(&self, old_collapsed: Seq<Seq<char>>)
        requires
            self.arranged(old_collapsed),
            self.grouped_column is Some,
            self.window is None,
        ensures
            rows_in_sections(self.row_groups@, self.row_groups@.len() as int) == self.display_indices@.len(),
    {
        let ls = self.group_labels(self.grouped_column.unwrap());
        lemma_sections_cover(ls, self.row_groups@);
    }

    /// A fresh grid over `data`, whose cells display as `cell_texts`.
    pub fn new(data: GridData, cell_texts: Vec<Vec<String>>) -> (g: Self)
        requires
            data.wf(),
            texts_shape(cell_texts@, data.rows@),
        ensures
            g.wf(),
            g.data == data,
            g.cell_texts == cell_texts,
            g.window is None,
            g.display_indices@ == identity(data.rows@.len()),
            g.display_rows@ == flat_display(identity(data.rows@.len())),
            g.grouped_column is None,
            g.row_groups@.len() == 0,
            g.selection == Selection::Nothing,
            g.sort is None,
            g.filters@.len() == data.columns@.len(),
            forall|i: int| 0 <= i < g.filters@.len() ==> !(#[trigger] g.filters@[i]).active(),
            g.collapsed_group_labels@.len() == 0,
            g.range_anchor is None,
            g.range_active is None,
            g.context_menu is None,
            g.filter_panel is None,
            g.pending_action is None,
            g.search.query@.len() == 0,
            g.search.matches@.len() == 0,
            g.search.active is None,
            !g.search.truncated,
            !g.needs_recompute,
    {
        let n = data.rows.len();
        let display_indices = identity_vec(n);
        let display_rows = build_flat_display(&display_indices);
        let mut filters: Vec<ColumnFilter> = Vec::new();
        let mut i: usize = 0;
        while i < data.columns.len()
            invariant
                i <= data.columns@.len(),
                filters@.len() == i,
                forall|j: int| 0 <= j < i ==> !(#[trigger] filters@[j]).active(),
            decreases data.columns@.len() - i,
        {
            filters.push(ColumnFilter::default());
            i += 1;
        }
        GridState {
            data,
            cell_texts,
            window: None,
            display_indices,
            display_rows,
            grouped_column: None,
            row_groups: Vec::new(),
            collapsed_group_labels: Vec::new(),
            selection: Selection::Nothing,
            range_anchor: None,
            range_active: None,
            sort: None,
            filters,
            context_menu: None,
            filter_panel: None,
            pending_action: None,
            search: SearchState::default(),
            needs_recompute: false,
        }
    }

    /// Replace the displayed text of every resident cell, as after a change
    /// of formatting, and re-derive the display order from the new text (see
    /// [`Self::recompute`]; `outside` holds the host's verdicts on numeric and
    /// pattern filters).
    pub fn set_cell_texts(&mut self, texts: Vec<Vec<String>>, outside: &Vec<Vec<bool>>)
        requires
            old(self).wf(),
            texts_shape(texts@, old(self).data.rows@),
            old(self).verdict_shape(outside@),
        ensures
            final(self).wf(),
            (GridState { cell_texts: texts, ..*old(self) }).recomputed(*final(self), outside@),
    {
        self.cell_texts = texts;
        self.recompute(outside);
    }

    /// Number of rows the grid presents: the virtual total in windowed mode,
    /// else the number of display rows.
    pub fn display_row_count(&self) -> (n: usize)
        ensures
            n == self.row_count(),
    {
        match self.window {
            Some(w) => w.total_rows,
            None => self.display_rows.len(),
        }
    }

    /// The resident row shown at a display row; `None` for section headers,
    /// rows out of range, and windowed rows not paged in.
    pub fn resident_row_for_display(&self, display_row: usize) -> (r: Option<usize>)
        ensures
            r == self.resident_row(display_row as int),
    {
        match self.window {
            Some(w) => {
                if display_row >= w.offset && display_row - w.offset < self.data.rows.len() && display_row < w.total_rows {
                    Some(display_row - w.offset)
                } else {
                    None
                }
            },
            None => {
                if display_row < self.display_rows.len() {
                    match self.display_rows[display_row] {
                        GridDisplayRow::Data { source_row, .. } => Some(source_row),
                        _ => None,
                    }
                } else {
                    None
                }
            },
        }
    }

    /// Whether a display row shows data rather than a section header.
    pub fn is_data_display_row(&self, row: usize) -> (b: bool)
        ensures
            b == self.data_row(row as int),
    {
        match self.window {
            Some(w) => row < w.total_rows,
            None => row < self.display_rows.len() && match self.display_rows[row] {
                GridDisplayRow::Data { .. } => true,
                _ => false,
            },
        }
    }

    /// The first display row that shows data.
    pub fn first_data_row(&self) -> (r: Option<usize>)
        ensures
            r == self.first_data_row_spec(),
    {
        if let Some(w) = self.window {
            if w.total_rows > 0 {
                proof {
                    let d = choose|d: int| 0 <= d < self.row_count() && self.data_row(d) && forall|e: int| 0 <= e < d ==> !self.data_row(e);
                    assert(0 <= 0 < self.row_count() && self.data_row(0) && forall|e: int| 0 <= e < 0 ==> !self.data_row(e));
                    if d > 0 {
                        assert(!self.data_row(0));
                    }
                }
                return Some(0);
            }
            return None;
        }
        let mut i: usize = 0;
        while i < self.display_rows.len()
            invariant
                self.window is None,
                i <= self.display_rows@.len(),
                forall|e: int| 0 <= e < i ==> !self.data_row(e),
            decreases self.display_rows@.len() - i,
        {
            if self.is_data_display_row(i) {
                return Some(i);
            }
            i += 1;
        }
        None
    }

    /// Column used for grouping, if any.
    pub fn grouped_column(&self) -> (r: Option<usize>)
        ensures
            r == self.grouped_column,
    {
        self.grouped_column
    }

    /// Current sections in display order.
    pub fn row_groups(&self) -> (r: &[RowGroup])
        ensures
            r@ == self.row_groups@,
    {
        self.row_groups.as_slice()
    }

    /// Re-derive the display rows and sections from the display order: flat
    /// data rows, or sections by the grouped column's displayed text in order
    /// of first appearance, collapsed sections showing only their header.
    pub fn rebuild_display_rows(&mut self)
        requires
            old(self).wf_base(),
        ensures
            final(self).wf(),
            final(self).same_but_layout(&*old(self)),
            final(self).arranged(views(old(self).collapsed_group_labels@)),
    {
        let grouped = match self.grouped_column {
            Some(c) => if self.window.is_none() { Some(c) } else { None },
            None => None,
        };
        match grouped {
            None => {
                self.row_groups = Vec::new();
                self.display_rows = build_flat_display(&self.display_indices);
                proof {
                    assert forall|i: int| 0 <= i < self.display_rows@.len() implies match #[trigger] self.display_rows@[i] {
                        GridDisplayRow::Data { source_row, .. } => source_row < self.data.rows@.len(),
                        GridDisplayRow::GroupHeader { group } => group < self.row_groups@.len(),
                    } by {
                        assert(self.display_indices@[i] < self.data.rows@.len());
                    }
                }
            },
            Some(c) => {
                let mut labels: Vec<String> = Vec::new();
                let mut k: usize = 0;
                while k < self.display_indices.len()
                    invariant
                        self.wf_base(),
                        c < self.data.columns@.len(),
                        k <= self.display_indices@.len(),
                        views(labels@) == self.group_labels(c).take(k as int),
                    decreases self.display_indices@.len() - k,
                {
                    let src = self.display_indices[k];
                    proof {
                        assert(self.data.rows@[src as int].len() == self.data.columns@.len());
                        assert(self.cell_texts@[src as int]@.len() == self.data.rows@[src as int]@.len());
                    }
                    let ghost before = labels@;
                    let t = self.cell_texts[src][c].clone();
                    labels.push(t);
                    assert(views(labels@) =~= views(before).push(t@));
                    assert(self.group_labels(c)[k as int] == t@);
                    assert(self.group_labels(c).take(k as int + 1) =~= self.group_labels(c).take(k as int).push(t@));
                    k += 1;
                }
                assert(views(labels@) =~= self.group_labels(c));
                let ghost ls = self.group_labels(c);
                let (order, members) = build_groups(&labels);
                proof {
                    assert forall|g: int, j: int| 0 <= g < members@.len() && 0 <= j < members@[g]@.len() implies #[trigger] members@[g]@[j] < self.display_indices@.len() by {
                        lemma_members_in_range(ls, views(order@)[g]);
                    }
                }
                let (groups, rows) = build_sections(&order, &members, &self.display_indices, &self.collapsed_group_labels);
                let kept = retain_labels(&self.collapsed_group_labels, &order);
                let ghost ms = members@.map_values(|m: Vec<usize>| m@);
                proof {
                    assert(ms =~= Seq::new(group_order(ls).len(), |g: int| group_members(ls, group_order(ls)[g])));
                    lemma_sections_display_in_range(ms, groups@.map_values(|g: RowGroup| g.collapsed), self.display_indices@,
                        order@.len() as int, self.data.rows@.len());
                    assert forall|g: int| 0 <= g < order@.len() implies (#[trigger] order@[g])@ == views(order@)[g] by {}
                }
                self.row_groups = groups;
                self.display_rows = rows;
                self.collapsed_group_labels = kept;
            },
        }
    }

    /// Matches on display row `dr`.
    pub open spec fn row_matches(&self, dr: int, needle: Seq<char>) -> Seq<(usize, usize)> {
        match self.resident_row(dr) {
            Some(r) => cols_matching(self.cell_texts@[r as int]@, needle, dr as usize, self.ncols() as int),
            None => seq![],
        }
    }

    /// Matches on display rows `start..end`, row-major.
    pub open spec fn matches_between(&self, start: int, end: int, needle: Seq<char>) -> Seq<(usize, usize)>
        decreases end - start,
    {
        if end <= start {
            seq![]
        } else {
            self.matches_between(start, end - 1, needle) + self.row_matches(end - 1, needle)
        }
    }

    /// Display rows scanned by search: the resident span in windowed mode,
    /// every display row otherwise.
    pub open spec fn scan_range(&self) -> (int, int) {
        match self.window {
            Some(w) => (w.offset as int, if w.offset + self.nrows() <= w.total_rows { w.offset + self.nrows() } else { w.total_rows as int }),
            None => (0, self.display_rows@.len() as int),
        }
    }

    /// Every match of the current query, uncapped.
    pub open spec fn all_matches(&self) -> Seq<(usize, usize)> {
        self.matches_between(self.scan_range().0, self.scan_range().1, lowercase(self.search.query@))
    }

    pub proof fn lemma_between_prefix(&self, start: int, m: int, n: int, needle: Seq<char>)
        requires
            start <= m <= n,
        ensures
            prefix_of(self.matches_between(start, m, needle), self.matches_between(start, n, needle)),
        decreases n - m,
    {
        if m < n {
            self.lemma_between_prefix(start, m, n - 1, needle);
            let a = self.matches_between(start, m, needle);
            let b = self.matches_between(start, n - 1, needle);
            let c = self.matches_between(start, n, needle);
            assert(c.take(a.len() as int) =~= b.take(a.len() as int));
        } else {
            let a = self.matches_between(start, m, needle);
            assert(a.take(a.len() as int) =~= a);
        }
    }

    /// Re-scan the displayed text for the current query. Matches are the
    /// cells whose lower-cased text contains the lower-cased query, in
    /// row-major display order, capped at [`MAX_SEARCH_MATCHES`]; the focus is
    /// kept in range.
    pub fn recompute_search_matches(&mut self)
        requires
            old(self).wf(),
        ensures
            final(self).wf(),
            *final(self) == (GridState { search: final(self).search, ..*old(self) }),
            final(self).search.query == old(self).search.query,
            old(self).search.query@.len() == 0 ==> final(self).search.matches@.len() == 0
                && final(self).search.active is None && !final(self).search.truncated,
            old(self).search.query@.len() > 0 ==> {
                &&& final(self).search.truncated ==> final(self).search.matches@ == old(self).all_matches().take(MAX_SEARCH_MATCHES as int)
                    && old(self).all_matches().len() >= MAX_SEARCH_MATCHES
                &&& !final(self).search.truncated ==> final(self).search.matches@ == old(self).all_matches()
                    && old(self).all_matches().len() < MAX_SEARCH_MATCHES
                &&& final(self).search.active == crate::search::clamp_active(old(self).search.active, final(self).search.matches@.len())
            },
    {
        if self.search.query.as_str().unicode_len() == 0 {
            self.search.matches = Vec::new();
            self.search.active = None;
            self.search.truncated = false;
            return;
        }
        let lowered = to_lowercase(self.search.query.as_str());
        let needle = chars_of(lowered.as_str());
        let ncols = self.data.columns.len();
        let (start, end) = match self.window {
            Some(w) => {
                let e = if w.offset <= usize::MAX - self.data.rows.len() && w.offset + self.data.rows.len() <= w.total_rows {
                    w.offset + self.data.rows.len()
                } else {
                    w.total_rows
                };
                (w.offset, e)
            },
            None => (0, self.display_rows.len()),
        };
        let ghost all = self.all_matches();
        assert(self.scan_range() == (start as int, end as int));
        let end = if end < start { start } else { end };
        assert(all == self.matches_between(start as int, end as int, needle@));
        let mut out: Vec<(usize, usize)> = Vec::new();
        let mut truncated = false;
        let mut dr = start;
        while dr < end
            invariant_except_break
                !truncated,
                out@ == self.matches_between(start as int, dr as int, needle@),
                out@.len() < MAX_SEARCH_MATCHES,
            invariant
                self.wf(),
                ncols == self.ncols(),
                needle@ == lowercase(self.search.query@),
                all == self.matches_between(start as int, end as int, needle@),
                start <= dr <= end,
                truncated ==> out@ == all.take(MAX_SEARCH_MATCHES as int) && all.len() >= MAX_SEARCH_MATCHES,
            ensures
                truncated ==> out@ == all.take(MAX_SEARCH_MATCHES as int) && all.len() >= MAX_SEARCH_MATCHES,
                !truncated ==> out@ == all && all.len() < MAX_SEARCH_MATCHES,
            decreases end - dr,
        {
            let ghost prefix = self.matches_between(start as int, dr as int, needle@);
            match self.resident_row_for_display(dr) {
                None => {
                    assert(self.matches_between(start as int, dr as int + 1, needle@) =~= prefix);
                },
                Some(r) => {
                    proof {
                        if self.window is None {
                            assert(match self.display_rows@[dr as int] {
                                GridDisplayRow::Data { source_row, .. } => source_row < self.data.rows@.len(),
                                GridDisplayRow::GroupHeader { group } => group < self.row_groups@.len(),
                            });
                        }
                        assert(r < self.data.rows@.len());
                        assert(self.data.rows@[r as int].len() == ncols);
                    }
                    let ghost texts = self.cell_texts@[r as int]@;
                    let mut col: usize = 0;
                    while col < ncols
                        invariant_except_break
                            !truncated,
                            out@ == prefix + cols_matching(texts, needle@, dr, col as int),
                            out@.len() < MAX_SEARCH_MATCHES,
                        invariant
                            self.wf(),
                            ncols == self.ncols(),
                            r < self.data.rows@.len(),
                            texts == self.cell_texts@[r as int]@,
                            texts.len() == ncols,
                            self.resident_row(dr as int) == Some(r),
                            needle@ == lowercase(self.search.query@),
                            all == self.matches_between(start as int, end as int, needle@),
                            prefix == self.matches_between(start as int, dr as int, needle@),
                            start <= dr < end,
                            col <= ncols,
                            truncated ==> out@ == all.take(MAX_SEARCH_MATCHES as int) && all.len() >= MAX_SEARCH_MATCHES,
                        ensures
                            truncated ==> out@ == all.take(MAX_SEARCH_MATCHES as int) && all.len() >= MAX_SEARCH_MATCHES,
                            !truncated ==> out@ == prefix + cols_matching(texts, needle@, dr, ncols as int) && out@.len() < MAX_SEARCH_MATCHES,
                        decreases ncols - col,
                    {
                        let hit = contains_lowered(self.cell_texts[r][col].as_str(), &needle);
                        if hit {
                            out.push((dr, col));
                            assert(out@ =~= prefix + cols_matching(texts, needle@, dr, col as int + 1));
                            if out.len() >= MAX_SEARCH_MATCHES {
                                proof {
                                    lemma_cols_prefix(texts, needle@, dr, col as int + 1, ncols as int);
                                    self.lemma_between_prefix(start as int, dr as int + 1, end as int, needle@);
                                    let row = self.row_matches(dr as int, needle@);
                                    let upto = self.matches_between(start as int, dr as int + 1, needle@);
                                    assert(upto == prefix + row);
                                    assert(upto.take(out@.len() as int) =~= out@);
                                    assert(all.take(out@.len() as int) =~= upto.take(out@.len() as int));
                                }
                                truncated = true;
                                break;
                            }
                        } else {
                            assert(out@ =~= prefix + cols_matching(texts, needle@, dr, col as int + 1));
                        }
                        col += 1;
                    }
                    if truncated {
                        break;
                    }
                    assert(self.matches_between(start as int, dr as int + 1, needle@) =~= out@);
                },
            }
            dr += 1;
        }
        self.search.matches = out;
        self.search.truncated = truncated;
        let len = self.search.matches.len();
        self.search.active = if len == 0 {
            None
        } else {
            match self.search.active {
                Some(a) => if a < len { Some(a) } else { Some(len - 1) },
                None => Some(0),
            }
        };
    }

    /// Search matches of query `q` over the current display.
    pub open spec fn matches_for(&self, q: Seq<char>) -> Seq<(usize, usize)> {
        self.matches_between(self.scan_range().0, self.scan_range().1, lowercase(q))
    }

    /// The stored matches are the scan of the current display for the
    /// current query, cut at [`MAX_SEARCH_MATCHES`].
    pub open spec fn search_scanned(&self) -> bool {
        let all = self.matches_for(self.search.query@);
        &&& self.search.truncated ==> self.search.matches@ == all.take(MAX_SEARCH_MATCHES as int) && all.len() >= MAX_SEARCH_MATCHES
        &&& !self.search.truncated ==> self.search.matches@ == all && all.len() < MAX_SEARCH_MATCHES
    }

    /// The search state is `prev` re-scanned against the current display.
    pub open spec fn search_refreshed(&self, prev: SearchState) -> bool {
        &&& self.search.query == prev.query
        &&& prev.query@.len() == 0 ==> self.search == prev
        &&& prev.query@.len() > 0 ==> {
            let all = self.matches_for(prev.query@);
            &&& self.search.truncated ==> self.search.matches@ == all.take(MAX_SEARCH_MATCHES as int) && all.len() >= MAX_SEARCH_MATCHES
            &&& !self.search.truncated ==> self.search.matches@ == all && all.len() < MAX_SEARCH_MATCHES
            &&& self.search.active == crate::search::clamp_active(prev.active, self.search.matches@.len())
        }
    }

    /// Two states showing the same rows and text have the same matches.
    pub proof fn lemma_matches_congruent(&self, other: &Self, start: int, end: int, needle: Seq<char>)
        requires
            self.window == other.window,
            self.data.rows@.len() == other.data.rows@.len(),
            self.data.columns@.len() == other.data.columns@.len(),
            self.display_rows == other.display_rows,
            self.cell_texts == other.cell_texts,
        ensures
            self.matches_between(start, end, needle) == other.matches_between(start, end, needle),
        decreases end - start,
    {
        if end > start {
            self.lemma_matches_congruent(other, start, end - 1, needle);
            assert(self.resident_row(end - 1) == other.resident_row(end - 1));
        }
    }

    /// Rebuild the display rows, then re-scan an active search.
    pub fn refresh_layout(&mut self)
        requires
            old(self).wf_base(),
        ensures
            final(self).wf(),
            final(self).arranged(views(old(self).collapsed_group_labels@)),
            final(self).search_refreshed(old(self).search),
            final(self).data == old(self).data,
            final(self).cell_texts == old(self).cell_texts,
            final(self).window == old(self).window,
            final(self).display_indices == old(self).display_indices,
            final(self).grouped_column == old(self).grouped_column,
            final(self).selection == old(self).selection,
            final(self).range_anchor == old(self).range_anchor,
            final(self).range_active == old(self).range_active,
            final(self).sort == old(self).sort,
            final(self).filters == old(self).filters,
            final(self).context_menu == old(self).context_menu,
            final(self).filter_panel == old(self).filter_panel,
            final(self).pending_action == old(self).pending_action,
            final(self).needs_recompute == old(self).needs_recompute,
    {
        self.rebuild_display_rows();
        if self.search.is_active() {
            let ghost mid = *self;
            self.recompute_search_matches();
            proof {
                mid.lemma_matches_congruent(&*self, mid.scan_range().0, mid.scan_range().1, lowercase(mid.search.query@));
            }
        }
    }

    /// `outside` holds a verdict for every resident cell.
    pub open spec fn verdict_shape(&self, outside: Seq<Vec<bool>>) -> bool {
        &&& outside.len() == self.nrows()
        &&& forall|i: int| 0 <= i < outside.len() ==> (#[trigger] outside[i])@.len() == self.ncols()
    }

    /// Each resident row's verdict under the committed filters, judged on its
    /// displayed text (`outside[i][c]` decides a regular expression or a
    /// numeric filter on column `c` of row `i`): what [`Self::recompute`]
    /// takes as `passes`.
    pub fn filter_verdicts(&self, outside: &Vec<Vec<bool>>) -> (r: Vec<bool>)
        requires
            self.wf(),
            outside@.len() == self.nrows(),
            forall|i: int| 0 <= i < outside@.len() ==> (#[trigger] outside@[i])@.len() == self.ncols(),
        ensures
            r@.len() == self.nrows(),
            forall|i: int| 0 <= i < self.nrows() ==> r@[i] == row_passes(self.filters@, #[trigger] self.cell_texts@[i]@, outside@[i]@),
    {
        proof {
            assert forall|i: int| 0 <= i < self.cell_texts@.len() implies (#[trigger] self.cell_texts@[i])@.len() == self.filters@.len()
                && outside@[i]@.len() == self.filters@.len() by {
                assert(self.data.rows@[i].len() == self.ncols());
            }
        }
        row_verdicts(&self.filters, &self.cell_texts, outside)
    }

    /// The display order is the one derived from the verdicts `passes` and the
    /// sort keys `keys`: the resident rows in order in windowed mode;
    /// otherwise each passing row once, in source order without a sort, by
    /// key (reversed for a descending sort) with ties in source order.
    pub open spec fn display_derived(&self, passes: Seq<bool>, keys: Seq<u64>) -> bool {
        &&& self.window is Some ==> self.display_indices@ == identity(self.nrows())
        &&& self.window is None ==> {
            &&& self.display_indices@.to_multiset() == passing(passes).to_multiset()
            &&& self.sort is None ==> self.display_indices@ == passing(passes)
            &&& self.sort matches Some((_, SortDirection::Ascending)) ==> sorted_by_key(self.display_indices@, keys)
            &&& self.sort matches Some((_, SortDirection::Descending)) ==> sorted_by_key(self.display_indices@, reversed_keys(keys))
        }
    }

    /// A re-derived display order (not windowed) holds each row whose
    /// verdict passes exactly once, and no other row; with the verdicts of
    /// [`Self::filter_verdicts`] these are the rows every committed filter
    /// admits.
    pub proof fn lemma_derived_rows(&self, passes: Seq<bool>, keys: Seq<u64>)
        requires
            self.window is None,
            self.display_derived(passes, keys),
            passes.len() <= usize::MAX,
        ensures
            self.display_indices@.no_duplicates(),
            forall|r: usize| #[trigger] self.display_indices@.contains(r) <==> (r < passes.len() && passes[r as int]),
    {
        broadcast use vstd::seq_lib::group_to_multiset_ensures;
        lemma_passing(passes);
        let d = self.display_indices@;
        let p = passing(passes);
        assert forall|r: usize| #[trigger] d.contains(r) <==> p.contains(r) by {
            assert(d.to_multiset().count(r) == p.to_multiset().count(r));
        }
        assert(p.no_duplicates()) by {
            assert forall|i: int, j: int| 0 <= i < p.len() && 0 <= j < p.len() && i != j implies p[i] != p[j] by {
                if i < j {
                    assert(p[i] < p[j]);
                } else {
                    assert(p[j] < p[i]);
                }
            }
        }
        p.lemma_multiset_has_no_duplicates();
        d.lemma_multiset_has_no_duplicates_conv();
    }

    /// `after` is `self` with its display order re-derived from the verdicts
    /// `passes` and the sort keys `keys` (see [`Self::recompute`]).
    pub open spec fn reordered(&self, after: Self, passes: Seq<bool>, keys: Seq<u64>) -> bool {
        &&& !after.needs_recompute
        &&& after.display_derived(passes, keys)
        &&& self.window is None && self.grouped_column is Some ==> after.selection == Selection::Nothing
            && after.range_anchor is None && after.range_active is None
        &&& !(self.window is None && self.grouped_column is Some) ==> after.selection == self.selection
            && after.range_anchor == self.range_anchor && after.range_active == self.range_active
        &&& after.arranged(views(self.collapsed_group_labels@))
        &&& after.search_refreshed(self.search)
        &&& after.data == self.data
        &&& after.cell_texts == self.cell_texts
        &&& after.window == self.window
        &&& after.grouped_column == self.grouped_column
        &&& after.sort == self.sort
        &&& after.filters == self.filters
        &&& after.context_menu == self.context_menu
        &&& after.filter_panel == self.filter_panel
        &&& after.pending_action == self.pending_action
    }

    /// The sort keys of the rows: the ranks of their cells in the sort column
    /// (see [`ranks_of`]), all equal without a sort.
    pub open spec fn sort_ranks(&self) -> Seq<u64> {
        match self.sort {
            Some((c, _)) => ranks_of(self.data.rows@, c as int),
            None => Seq::new(self.nrows(), |i: int| 0u64),
        }
    }

    /// The sort keys of the rows (see [`Self::sort_ranks`]).
    pub fn sort_keys(&self) -> (r: Vec<u64>)
        requires
            self.wf(),
        ensures
            r@ == self.sort_ranks(),
    {
        match self.sort {
            Some((c, _)) => {
                proof {
                    assert forall|i: int| 0 <= i < self.data.rows@.len() implies c < (#[trigger] self.data.rows@[i])@.len() by {
                        assert(self.data.rows@[i].len() == self.data.columns@.len());
                    }
                }
                column_ranks(&self.data.rows, c)
            },
            None => {
                let n = self.data.rows.len();
                let mut r: Vec<u64> = Vec::new();
                let mut i: usize = 0;
                while i < n
                    invariant
                        i <= n,
                        r@ == Seq::new(i as nat, |k: int| 0u64),
                    decreases n - i,
                {
                    r.push(0);
                    assert(r@ =~= Seq::new(i as nat + 1, |k: int| 0u64));
                    i += 1;
                }
                r
            },
        }
    }

    /// `after` is `self` with its display order re-derived (see
    /// [`Self::recompute`]): the rows every committed filter admits
    /// (`outside` holds the host's verdicts on numeric and pattern filters),
    /// ordered by their cells in the sort column.
    pub open spec fn recomputed(&self, after: Self, outside: Seq<Vec<bool>>) -> bool {
        self.reordered(after, verdicts(self.filters@, self.cell_texts@, outside), self.sort_ranks())
    }

    /// What a re-derived display order (not windowed) holds: each row that
    /// every committed filter admits exactly once and no other row; in source
    /// order without a sort; with a sort, no row followed by one whose cell
    /// in the sort column sorts strictly before its own (strictly after it,
    /// descending), and rows whose cells sort as equals in source order.
    pub proof fn lemma_recomputed_order(&self, after: Self, outside: Seq<Vec<bool>>)
        requires
            self.wf(),
            self.window is None,
            self.recomputed(after, outside),
        ensures
            after.display_indices@.no_duplicates(),
            forall|r: usize| #[trigger] after.display_indices@.contains(r) <==>
                (r < self.nrows() && row_passes(self.filters@, self.cell_texts@[r as int]@, outside[r as int]@)),
            self.sort is None ==> increasing(after.display_indices@),
            self.sort matches Some((c, d)) ==> {
                let cells = column_cells(self.data.rows@, c as int);
                let v = after.display_indices@;
                &&& forall|i: int, j: int| 0 <= i < j < v.len() ==> if d is Descending {
                    !cell_lt(#[trigger] cells[v[i] as int], #[trigger] cells[v[j] as int])
                } else {
                    !cell_lt(cells[v[j] as int], cells[v[i] as int])
                }
                &&& forall|i: int, j: int| 0 <= i < j < v.len() && cell_same(#[trigger] cells[v[i] as int], #[trigger] cells[v[j] as int])
                    ==> v[i] < v[j]
            },
    {
        let passes = verdicts(self.filters@, self.cell_texts@, outside);
        let v = after.display_indices@;
        assert(self.cell_texts.len() == self.cell_texts@.len());
        assert(self.data.rows.len() == self.data.rows@.len());
        after.lemma_derived_rows(passes, self.sort_ranks());
        lemma_passing(passes);
        assert forall|i: int| 0 <= i < v.len() implies #[trigger] v[i] < self.data.rows@.len() by {
            assert(v.contains(v[i]));
        }
        match self.sort {
            Some((c, d)) => {
                lemma_ranks_of_order(self.data.rows@, c as int, v, d is Descending);
            },
            None => {},
        }
    }

    /// A re-derived ascending sort lists whole numbers and dates in
    /// increasing order (an earlier date before a later one) and `false`
    /// before `true`; a descending sort the reverse.
    pub proof fn lemma_recomputed_values(&self, after: Self, outside: Seq<Vec<bool>>)
        requires
            self.wf(),
            self.window is None,
            self.recomputed(after, outside),
            self.sort is Some,
        ensures
            forall|i: int, j: int| 0 <= i < j < after.display_indices@.len() ==> values_in_order(
                #[trigger] column_cells(self.data.rows@, self.sort.unwrap().0 as int)[after.display_indices@[i] as int],
                #[trigger] column_cells(self.data.rows@, self.sort.unwrap().0 as int)[after.display_indices@[j] as int],
                self.sort.unwrap().1 is Ascending),
    {
        self.lemma_recomputed_order(after, outside);
        let (c, d) = self.sort.unwrap();
        let cells = column_cells(self.data.rows@, c as int);
        let v = after.display_indices@;
        assert forall|i: int, j: int| 0 <= i < j < v.len() implies values_in_order(
            #[trigger] cells[v[i] as int], #[trigger] cells[v[j] as int], d is Ascending) by {
            let a = cells[v[i] as int];
            let b = cells[v[j] as int];
            match (a, b) {
                (CellValue::Integer(x), CellValue::Integer(y)) => lemma_cell_order_by_value(x, y, true, true),
                (CellValue::Date(x), CellValue::Date(y)) => lemma_cell_order_by_value(x, y, true, true),
                (CellValue::Boolean(x), CellValue::Boolean(y)) => lemma_cell_order_by_value(0, 0, x, y),
                _ => {},
            }
        }
    }

    /// Re-derive the display order: the rows every committed filter admits,
    /// judged on their displayed text (`outside` holds the host's verdicts on
    /// numeric and pattern filters), ordered by their cells in the sort
    /// column (see [`crate::cell_order`]) ascending or descending, ties in
    /// source order. Windowed mode shows the resident rows in order.
    /// Grouping clears the selection.
    pub fn recompute(&mut self, outside: &Vec<Vec<bool>>)
        requires
            old(self).wf(),
            old(self).verdict_shape(outside@),
        ensures
            final(self).wf(),
            old(self).recomputed(*final(self), outside@),
    {
        let passes = self.filter_verdicts(outside);
        assert(passes@ =~= verdicts(self.filters@, self.cell_texts@, outside@));
        let keys = self.sort_keys();
        self.reorder(&passes, &keys);
    }

    /// Re-derive the display order from the verdicts `passes` and the sort
    /// keys `keys` (see [`Self::reordered`]).
    fn reorder(&mut self, passes: &Vec<bool>, keys: &Vec<u64>)
        requires
            old(self).wf(),
            passes@.len() == old(self).nrows(),
            keys@.len() == old(self).nrows(),
        ensures
            final(self).wf(),
            old(self).reordered(*final(self), passes@, keys@),
    {
        self.needs_recompute = false;
        if self.window.is_some() {
            self.display_indices = identity_vec(self.data.rows.len());
            self.refresh_layout();
            return;
        }
        let np = passes.len();
        let mut indices = passing_rows(passes);
        proof {
            assert(passes@.len() == np);
            lemma_passing(passes@);
        }
        match self.sort {
            Some((_, SortDirection::Ascending)) => {
                stable_sort_by_key(&mut indices, keys);
            },
            Some((_, SortDirection::Descending)) => {
                let rkeys = reverse_keys(keys);
                stable_sort_by_key(&mut indices, &rkeys);
            },
            None => {},
        }
        proof {
            assert forall|i: int| 0 <= i < indices@.len() implies #[trigger] indices@[i] < self.data.rows@.len() by {
                if self.sort is Some {
                    broadcast use vstd::seq_lib::group_to_multiset_ensures;
                    assert(indices@.contains(indices@[i]));
                    assert(indices@.to_multiset().count(indices@[i]) > 0);
                    assert(passing(passes@).to_multiset().count(indices@[i]) > 0);
                    assert(passing(passes@).contains(indices@[i]));
                }
            }
        }
        self.display_indices = indices;
        if self.grouped_column.is_some() {
            self.selection = Selection::Nothing;
            self.range_anchor = None;
            self.range_active = None;
        }
        self.refresh_layout();
    }

    /// Cycle the sort on `col` (ascending, descending, off) and re-derive the
    /// display order (see [`Self::recompute`]; `outside` holds the host's
    /// verdicts on numeric and pattern filters). Ignored in windowed mode,
    /// where only a slice of the rows is resident.
    pub fn toggle_sort(&mut self, col: usize, outside: &Vec<Vec<bool>>)
        requires
            old(self).wf(),
            old(self).verdict_shape(outside@),
            old(self).window is None ==> col < old(self).ncols(),
        ensures
            final(self).wf(),
            old(self).window is Some ==> *final(self) == *old(self),
            old(self).window is None ==> final(self).sort == next_sort(old(self).sort, col)
                && (GridState { sort: next_sort(old(self).sort, col), ..*old(self) }).recomputed(*final(self), outside@),
    {
        if self.window.is_some() {
            return;
        }
        self.sort = match self.sort {
            Some((c, SortDirection::Ascending)) if c == col => Some((col, SortDirection::Descending)),
            Some((c, SortDirection::Descending)) if c == col => None,
            _ => Some((col, SortDirection::Ascending)),
        };
        self.recompute(outside);
    }

    /// `after` is `self` grouped by `column` (see
    /// [`Self::set_grouped_column`]).
    pub open spec fn regrouped(&self, after: Self, column: Option<usize>) -> bool {
        if (self.window is Some && column is Some) || (column matches Some(c) && c >= self.ncols()) {
            after == *self
        } else {
            &&& after.wf()
            &&& after.grouped_column == column
            &&& self.grouped_column != column ==> after.selection == Selection::Nothing
                && after.range_anchor is None && after.range_active is None
                && after.arranged(Seq::empty())
            &&& self.grouped_column == column ==> after.selection == self.selection
                && after.range_anchor == self.range_anchor && after.range_active == self.range_active
                && after.arranged(views(self.collapsed_group_labels@))
            &&& after.search_refreshed(self.search)
            &&& after.data == self.data
            &&& after.cell_texts == self.cell_texts
            &&& after.window == self.window
            &&& after.display_indices == self.display_indices
            &&& after.sort == self.sort
            &&& after.filters == self.filters
            &&& after.context_menu == self.context_menu
            &&& after.filter_panel == self.filter_panel
            &&& after.pending_action == self.pending_action
            &&& after.needs_recompute == self.needs_recompute
        }
    }

    /// Group rows into sections by `column`'s displayed text, or show them
    /// flat with `None`. Out-of-range columns, and grouping in windowed mode,
    /// are ignored. Changing the grouped column clears the selection and
    /// expands every section.
    pub fn set_grouped_column(&mut self, column: Option<usize>)
        requires
            old(self).wf(),
        ensures
            final(self).wf(),
            old(self).regrouped(*final(self), column),
    {
        if self.window.is_some() && column.is_some() {
            return;
        }
        if let Some(c) = column {
            if c >= self.data.columns.len() {
                return;
            }
        }
        if self.grouped_column != column {
            self.grouped_column = column;
            self.collapsed_group_labels = Vec::new();
            self.selection = Selection::Nothing;
            self.range_anchor = None;
            self.range_active = None;
            assert(views(self.collapsed_group_labels@) =~= Seq::<Seq<char>>::empty());
        }
        self.refresh_layout();
    }

    /// `after` is `self` with the section at display index `group` collapsed
    /// or expanded (see [`Self::set_group_collapsed`]).
    pub open spec fn section_set(&self, after: Self, group: usize, collapsed: bool) -> bool {
        if group >= self.row_groups@.len() {
            after == *self
        } else {
            &&& after.wf()
            &&& after.arranged(collapse_labels(views(self.collapsed_group_labels@), self.row_groups@[group as int].label@, collapsed))
            &&& after.selection == Selection::Nothing
            &&& after.range_anchor is None
            &&& after.range_active is None
            &&& after.search_refreshed(self.search)
            &&& after.data == self.data
            &&& after.cell_texts == self.cell_texts
            &&& after.display_indices == self.display_indices
            &&& after.grouped_column == self.grouped_column
            &&& after.window == self.window
            &&& after.sort == self.sort
            &&& after.filters == self.filters
            &&& after.context_menu == self.context_menu
            &&& after.filter_panel == self.filter_panel
            &&& after.pending_action == self.pending_action
            &&& after.needs_recompute == self.needs_recompute
        }
    }

    /// Collapse or expand the section at display index `group`. Clears the
    /// selection. Out-of-range indices are ignored.
    pub fn set_group_collapsed(&mut self, group: usize, collapsed: bool)
        requires
            old(self).wf(),
        ensures
            final(self).wf(),
            old(self).section_set(*final(self), group, collapsed),
    {
        if group >= self.row_groups.len() {
            return;
        }
        let label = self.row_groups[group].label.clone();
        let ghost old_labels = views(self.collapsed_group_labels@);
        if collapsed {
            if !contains_string(&self.collapsed_group_labels, &label) {
                self.collapsed_group_labels.push(label);
                assert(views(self.collapsed_group_labels@) =~= old_labels.push(self.row_groups@[group as int].label@));
            }
        } else {
            let mut kept: Vec<String> = Vec::new();
            let mut i: usize = 0;
            while i < self.collapsed_group_labels.len()
                invariant
                    i <= self.collapsed_group_labels@.len(),
                    old_labels == views(self.collapsed_group_labels@),
                    views(kept@) == without(old_labels.take(i as int), label@),
                decreases self.collapsed_group_labels@.len() - i,
            {
                assert(old_labels.take(i as int + 1).drop_last() =~= old_labels.take(i as int));
                if self.collapsed_group_labels[i] != label {
                    let ghost before = kept@;
                    kept.push(self.collapsed_group_labels[i].clone());
                    assert(views(kept@) =~= views(before).push(old_labels[i as int]));
                }
                i += 1;
            }
            assert(old_labels.take(i as int) =~= old_labels);
            self.collapsed_group_labels = kept;
        }
        self.selection = Selection::Nothing;
        self.range_anchor = None;
        self.range_active = None;
        self.refresh_layout();
    }

    /// Collapse an expanded section or expand a collapsed one.
    pub fn toggle_group(&mut self, group: usize)
        requires
            old(self).wf(),
        ensures
            final(self).wf(),
            group >= old(self).row_groups@.len() ==> *final(self) == *old(self),
            group < old(self).row_groups@.len() ==> old(self).section_set(*final(self), group, !old(self).row_groups@[group as int].collapsed),
    {
        if group < self.row_groups.len() {
            let c = self.row_groups[group].collapsed;
            self.set_group_collapsed(group, !c);
        }
    }

    /// Enter or update windowed mode: `total_rows` virtual rows of which
    /// `rows` are resident starting at virtual row `offset`. Clears sort,
    /// filters and grouping; keeps the selection. A row whose length differs
    /// from the column count is rejected and nothing changes.
    pub fn set_row_window(&mut self, total_rows: usize, offset: usize, rows: Vec<Vec<CellValue>>, texts: Vec<Vec<String>>)
        -> (r: Result<(), GridDataError>)
        requires
            old(self).wf(),
            texts_shape(texts@, rows@),
            first_ragged(rows@, old(self).ncols()) matches Some(i) ==> offset + i <= usize::MAX,
        ensures
            final(self).wf(),
            !rectangular(rows@, old(self).ncols()) ==> (r matches Err(GridDataError::RaggedRow { row_index, expected, actual })
                && *final(self) == *old(self)
                && first_ragged(rows@, old(self).ncols()) == Some(row_index - offset)
                && expected == old(self).ncols()
                && actual == rows@[row_index - offset].len()),
            rectangular(rows@, old(self).ncols()) ==> {
                &&& r is Ok
                &&& final(self).window == Some(RowWindow { total_rows, offset })
                &&& final(self).data.rows == rows
                &&& final(self).data.columns == old(self).data.columns
                &&& final(self).cell_texts == texts
                &&& final(self).display_indices@ == identity(rows@.len())
                &&& final(self).display_rows@ == flat_display(identity(rows@.len()))
                &&& final(self).sort is None
                &&& final(self).grouped_column is None
                &&& final(self).row_groups@.len() == 0
                &&& final(self).collapsed_group_labels@.len() == 0
                &&& forall|i: int| 0 <= i < final(self).filters@.len() ==> !(#[trigger] final(self).filters@[i]).active()
                &&& final(self).selection == old(self).selection
                &&& final(self).search_refreshed(old(self).search)
            },
    {
        let expected = self.data.columns.len();
        proof {
            crate::data::lemma_first_ragged(rows@, expected as nat);
        }
        if let Some(i) = find_ragged_row(&rows, expected) {
            return Err(GridDataError::RaggedRow { row_index: offset + i, expected, actual: rows[i].len() });
        }
        self.sort = None;
        self.grouped_column = None;
        self.row_groups = Vec::new();
        self.collapsed_group_labels = Vec::new();
        let mut i: usize = 0;
        let ncols = self.filters.len();
        let mut filters: Vec<ColumnFilter> = Vec::new();
        while i < ncols
            invariant
                i <= ncols,
                filters@.len() == i,
                forall|j: int| 0 <= j < i ==> !(#[trigger] filters@[j]).active(),
            decreases ncols - i,
        {
            filters.push(ColumnFilter::default());
            i += 1;
        }
        self.filters = filters;
        self.display_indices = identity_vec(rows.len());
        self.data.rows = rows;
        self.cell_texts = texts;
        self.window = Some(RowWindow { total_rows, offset });
        assert(views(self.collapsed_group_labels@) =~= Seq::<Seq<char>>::empty());
        self.refresh_layout();
        Ok(())
    }

    /// Append rows in place (streaming results). A row whose length differs
    /// from the column count is rejected and nothing changes. Without an
    /// active sort, grouping or filter the new rows are shown at the end;
    /// otherwise the display order is re-derived over all rows (see
    /// [`Self::recompute`]; `outside`, the host's verdicts on numeric and
    /// pattern filters, covers the rows after the append). Selection, sort and filters are untouched; in windowed mode
    /// the virtual total grows by the number of new rows.
    pub fn append_rows(&mut self, rows: Vec<Vec<CellValue>>, texts: Vec<Vec<String>>, outside: &Vec<Vec<bool>>)
        -> (r: Result<(), GridDataError>)
        requires
            old(self).wf(),
            texts_shape(texts@, rows@),
            old(self).nrows() + rows@.len() <= usize::MAX,
            old(self).window matches Some(w) ==> w.total_rows + rows@.len() <= usize::MAX,
            outside@.len() == old(self).nrows() + rows@.len(),
            forall|i: int| 0 <= i < outside@.len() ==> (#[trigger] outside@[i])@.len() == old(self).ncols(),
        ensures
            final(self).wf(),
            !rectangular(rows@, old(self).ncols()) ==> (r matches Err(GridDataError::RaggedRow { row_index, expected, actual })
                && *final(self) == *old(self)
                && first_ragged(rows@, old(self).ncols()) == Some(row_index - old(self).nrows())
                && expected == old(self).ncols()
                && actual == rows@[row_index - old(self).nrows()].len()),
            rectangular(rows@, old(self).ncols()) ==> {
                &&& r is Ok
                &&& final(self).data.rows@ == old(self).data.rows@ + rows@
                &&& final(self).cell_texts@ == old(self).cell_texts@ + texts@
                &&& final(self).data.columns == old(self).data.columns
                &&& final(self).sort == old(self).sort
                &&& final(self).filters == old(self).filters
                &&& final(self).grouped_column == old(self).grouped_column
                &&& final(self).selection == old(self).selection
                &&& final(self).range_anchor == old(self).range_anchor
                &&& final(self).range_active == old(self).range_active
                &&& final(self).window == match old(self).window {
                    Some(w) => Some(RowWindow { total_rows: (w.total_rows + rows@.len()) as usize, offset: w.offset }),
                    None => None,
                }
                &&& rows@.len() == 0 ==> *final(self) == *old(self)
                &&& rows@.len() > 0 ==> final(self).arranged(views(old(self).collapsed_group_labels@))
                    && final(self).search_refreshed(old(self).search)
                &&& if rows@.len() > 0 && (old(self).sort is Some || old(self).grouped_column is Some
                    || exists|i: int| 0 <= i < old(self).filters@.len() && (#[trigger] old(self).filters@[i]).active()) {
                    !final(self).needs_recompute && final(self).display_derived(
                        verdicts(old(self).filters@, old(self).cell_texts@ + texts@, outside@), final(self).sort_ranks())
                } else {
                    final(self).needs_recompute == old(self).needs_recompute
                        && final(self).display_indices@ == old(self).display_indices@
                            + Seq::new(rows@.len(), |k: int| (old(self).nrows() + k) as usize)
                }
            },
    {
        let expected = self.data.columns.len();
        let base = self.data.rows.len();
        proof {
            crate::data::lemma_first_ragged(rows@, expected as nat);
        }
        if let Some(i) = find_ragged_row(&rows, expected) {
            return Err(GridDataError::RaggedRow { row_index: base + i, expected, actual: rows[i].len() });
        }
        if rows.len() == 0 {
            assert(self.data.rows@ + rows@ =~= self.data.rows@);
            assert(self.cell_texts@ + texts@ =~= self.cell_texts@);
            assert(self.display_indices@ + Seq::new(rows@.len(), |k: int| (base + k) as usize) =~= self.display_indices@);
            return Ok(());
        }
        let added = rows.len();
        let mut any_filter = false;
        let mut f: usize = 0;
        while f < self.filters.len()
            invariant
                f <= self.filters@.len(),
                any_filter == exists|i: int| 0 <= i < f && (#[trigger] self.filters@[i]).active(),
            decreases self.filters@.len() - f,
        {
            if self.filters[f].is_active() {
                any_filter = true;
            }
            f += 1;
        }
        let ghost old_rows = self.data.rows@;
        let ghost old_texts = self.cell_texts@;
        let ghost old_di = self.display_indices@;
        let ghost new_rows = rows@;
        let ghost new_texts = texts@;
        let mut rows = rows;
        let mut texts = texts;
        self.data.rows.append(&mut rows);
        self.cell_texts.append(&mut texts);
        proof {
            assert(self.data.rows@ == old_rows + new_rows);
            assert(self.cell_texts@ == old_texts + new_texts);
            assert forall|i: int| 0 <= i < self.data.rows@.len() implies #[trigger] self.data.rows@[i].len() == self.data.columns@.len() by {
                if i >= old_rows.len() {
                    assert(self.data.rows@[i] == new_rows[i - old_rows.len()]);
                } else {
                    assert(self.data.rows@[i] == old_rows[i]);
                }
            }
            assert forall|i: int| 0 <= i < self.data.rows@.len() implies (#[trigger] self.cell_texts@[i])@.len() == self.data.rows@[i]@.len() by {
                if i >= old_rows.len() {
                    assert(self.data.rows@[i] == new_rows[i - old_rows.len()]);
                    assert(self.cell_texts@[i] == new_texts[i - old_rows.len()]);
                } else {
                    assert(self.data.rows@[i] == old_rows[i]);
                    assert(self.cell_texts@[i] == old_texts[i]);
                }
            }
        }
        if let Some(w) = self.window {
            self.window = Some(RowWindow { total_rows: w.total_rows + added, offset: w.offset });
        }
        if self.sort.is_some() || self.grouped_column.is_some() || any_filter {
            let selection = self.selection;
            let range_anchor = self.range_anchor;
            let range_active = self.range_active;
            self.recompute(outside);
            let ghost mid = *self;
            self.selection = selection;
            self.range_anchor = range_anchor;
            self.range_active = range_active;
            proof {
                mid.lemma_matches_congruent(&*self, mid.scan_range().0, mid.scan_range().1, lowercase(old(self).search.query@));
            }
            return Ok(());
        }
        let mut extra: Vec<usize> = Vec::new();
        let mut k: usize = 0;
        while k < added
            invariant
                k <= added,
                base + added <= usize::MAX,
                extra@ == Seq::new(k as nat, |j: int| (base + j) as usize),
            decreases added - k,
        {
            extra.push(base + k);
            assert(extra@ =~= Seq::new(k as nat + 1, |j: int| (base + j) as usize));
            k += 1;
        }
        self.display_indices.append(&mut extra);
        assert forall|i: int| 0 <= i < self.display_indices@.len() implies #[trigger] self.display_indices@[i] < self.data.rows@.len() by {
            if i < old_di.len() {
                assert(self.display_indices@[i] == old_di[i]);
            }
        }
        self.refresh_layout();
        Ok(())
    }

    /// The nearest data row after `cur`.
    pub open spec fn next_data_after(&self, cur: int) -> Option<int> {
        if exists|e: int| cur < e < self.row_count() && self.data_row(e) {
            Some(choose|e: int| cur < e < self.row_count() && self.data_row(e) && forall|f: int| cur < f < e ==> !self.data_row(f))
        } else {
            None
        }
    }

    /// The nearest data row before `cur`; none when `cur` is past the row
    /// after the last.
    pub open spec fn next_data_before(&self, cur: int) -> Option<int> {
        if cur <= self.row_count() && exists|e: int| 0 <= e < cur && self.data_row(e) {
            Some(choose|e: int| 0 <= e < cur && self.data_row(e) && forall|f: int| e < f < cur ==> !self.data_row(f))
        } else {
            None
        }
    }

    /// The nearest data row after (`forward`) or before `cur`.
    pub open spec fn next_data(&self, cur: int, forward: bool) -> Option<int> {
        if forward { self.next_data_after(cur) } else { self.next_data_before(cur) }
    }

    /// Row reached from `cur` by `n` steps over data rows, skipping section
    /// headers, stopping at the first or last data row.
    pub open spec fn step_rows(&self, cur: int, forward: bool, n: nat) -> int
        decreases n,
    {
        if n == 0 {
            cur
        } else {
            match self.next_data(cur, forward) {
                None => cur,
                Some(e) => self.step_rows(e, forward, (n - 1) as nat),
            }
        }
    }

    /// Display row reached from `row` by moving `delta` rows: clamped
    /// arithmetic, or in a grouped grid a walk over data rows only.
    pub open spec fn moved_row(&self, row: int, delta: int) -> int {
        if delta == 0 || self.grouped_column is None || self.window is Some {
            clamp_step(row, delta, self.row_count() as int)
        } else {
            self.step_rows(row, delta > 0, (if delta > 0 { delta } else { -delta }) as nat)
        }
    }

    /// Scan for the nearest data row after `cur`.
    fn find_data_after(&self, cur: usize) -> (r: Option<usize>)
        requires
            self.window is None,
        ensures
            r matches Some(e) ==> self.next_data_after(cur as int) == Some(e as int),
            r is None ==> self.next_data_after(cur as int) is None,
    {
        let n = self.display_rows.len();
        if cur >= n {
            return None;
        }
        let mut e = cur + 1;
        while e < n
            invariant
                self.window is None,
                n == self.display_rows@.len(),
                cur < e <= n,
                forall|f: int| cur < f < e ==> !self.data_row(f),
            decreases n - e,
        {
            if self.is_data_display_row(e) {
                proof {
                    let w = choose|w: int| cur < w < self.row_count() && self.data_row(w) && forall|f: int| cur < f < w ==> !self.data_row(f);
                    assert(cur < e < self.row_count() && self.data_row(e as int) && forall|f: int| cur < f < e ==> !self.data_row(f));
                    if w < e {
                        assert(!self.data_row(w));
                    }
                    if e < w {
                        assert(!self.data_row(e as int));
                    }
                }
                return Some(e);
            }
            e += 1;
        }
        None
    }

    /// Scan for the nearest data row before `cur`.
    fn find_data_before(&self, cur: usize) -> (r: Option<usize>)
        requires
            self.window is None,
        ensures
            r matches Some(e) ==> self.next_data_before(cur as int) == Some(e as int),
            r is None ==> self.next_data_before(cur as int) is None,
    {
        let n = self.display_rows.len();
        if cur > n {
            return None;
        }
        let mut e = cur;
        proof {
            assert forall|f: int| e <= f < cur implies !self.data_row(f) by {}
        }
        while e > 0
            invariant
                self.window is None,
                n == self.display_rows@.len(),
                cur <= n,
                e <= cur,
                e <= n,
                forall|f: int| e <= f < cur ==> !self.data_row(f),
            decreases e,
        {
            if self.is_data_display_row(e - 1) {
                proof {
                    let k = e - 1;
                    let w = choose|w: int| 0 <= w < cur && self.data_row(w) && forall|f: int| w < f < cur ==> !self.data_row(f);
                    assert(0 <= k < cur && self.data_row(k as int) && forall|f: int| k < f < cur ==> !self.data_row(f));
                    if w < k {
                        assert(!self.data_row(k as int));
                    }
                    if k < w {
                        assert(!self.data_row(w));
                    }
                }
                return Some(e - 1);
            }
            e -= 1;
        }
        None
    }

    /// One step over data rows from `cur`.
    fn step_once(&self, cur: usize, forward: bool) -> (r: Option<usize>)
        requires
            self.window is None,
        ensures
            r matches Some(e) ==> self.next_data(cur as int, forward) == Some(e as int),
            r is None ==> self.next_data(cur as int, forward) is None,
    {
        if forward {
            self.find_data_after(cur)
        } else {
            self.find_data_before(cur)
        }
    }

    proof fn lemma_step_rows_next(&self, cur: int, forward: bool, n: nat)
        requires
            n > 0,
        ensures
            self.step_rows(cur, forward, n) == match self.next_data(cur, forward) {
                None => cur,
                Some(e) => self.step_rows(e, forward, (n - 1) as nat),
            },
    {
    }

    /// Display row reached from `row` by `delta` rows (see [`Self::moved_row`]).
    pub fn move_data_row(&self, row: usize, delta: i32) -> (r: usize)
        ensures
            r == self.moved_row(row as int, delta as int),
    {
        if delta == 0 || self.grouped_column.is_none() || self.window.is_some() {
            return clamp_step_exec(row, delta, self.display_row_count());
        }
        let forward = delta > 0;
        let total: u64 = if delta > 0 { delta as u64 } else { (-(delta as i64)) as u64 };
        let mut current = row;
        let mut remaining: u64 = total;
        while remaining > 0
            invariant
                self.window is None,
                self.grouped_column is Some,
                delta != 0,
                forward == (delta > 0),
                total as int == (if delta > 0 { delta as int } else { -(delta as int) }),
                remaining <= total,
                self.step_rows(row as int, forward, total as nat)
                    == self.step_rows(current as int, forward, remaining as nat),
            decreases remaining,
        {
            proof {
                self.lemma_step_rows_next(current as int, forward, remaining as nat);
            }
            match self.step_once(current, forward) {
                None => {
                    return current;
                },
                Some(e) => {
                    current = e;
                },
            }
            remaining -= 1;
        }
        current
    }

    /// `after` is `self` with the selection moved by `dx` columns and `dy`
    /// rows: a cell moves (and becomes the range anchor); a row moves
    /// vertically; a column moves horizontally; anything else selects the
    /// first data cell.
    pub open spec fn moved_selection(&self, after: Self, dx: int, dy: int) -> bool {
        match self.selection {
            Selection::Cell(r, c) => {
                let nr = self.moved_row(r as int, dy) as usize;
                let nc = clamp_step(c as int, dx, self.ncols() as int) as usize;
                after == (GridState { selection: Selection::Cell(nr, nc), range_anchor: Some((nr, nc)), range_active: Some((nr, nc)), ..*self })
            },
            Selection::Row(r) if dy != 0 => after == (GridState { selection: Selection::Row(self.moved_row(r as int, dy) as usize), ..*self }),
            Selection::Column(c) if dx != 0 => after == (GridState {
                selection: Selection::Column(clamp_step(c as int, dx, self.ncols() as int) as usize),
                ..*self
            }),
            _ => match self.first_data_row_spec() {
                Some(d) => after == (GridState { selection: Selection::Cell(d, 0), range_anchor: Some((d, 0usize)), range_active: Some((d, 0usize)), ..*self }),
                None => after == *self,
            },
        }
    }

    /// Move the selection by `dx` columns and `dy` rows with the arrow keys
    /// (see [`Self::moved_selection`]); no-op on an empty grid.
    pub fn move_selection(&mut self, dx: i32, dy: i32)
        requires
            old(self).wf(),
        ensures
            final(self).wf(),
            old(self).row_count() == 0 || old(self).ncols() == 0 ==> *final(self) == *old(self),
            old(self).row_count() > 0 && old(self).ncols() > 0 ==> old(self).moved_selection(*final(self), dx as int, dy as int),
    {
        let nrows = self.display_row_count();
        let ncols = self.data.columns.len();
        if nrows == 0 || ncols == 0 {
            return;
        }
        match self.selection {
            Selection::Cell(row, col) => {
                let nr = self.move_data_row(row, dy);
                let nc = clamp_step_exec(col, dx, ncols);
                self.selection = Selection::Cell(nr, nc);
                self.range_anchor = Some((nr, nc));
                self.range_active = Some((nr, nc));
            },
            Selection::Row(row) if dy != 0 => {
                let nr = self.move_data_row(row, dy);
                self.selection = Selection::Row(nr);
            },
            Selection::Column(col) if dx != 0 => {
                let nc = clamp_step_exec(col, dx, ncols);
                self.selection = Selection::Column(nc);
            },
            _ => {
                if let Some(row) = self.first_data_row() {
                    self.selection = Selection::Cell(row, 0);
                    self.range_anchor = Some((row, 0));
                    self.range_active = Some((row, 0));
                }
            },
        }
    }
}

} // verus!
