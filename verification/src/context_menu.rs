//! Right-click context: what was clicked, the owned snapshot of the selected
//! cells and rows handed to a menu provider, and the items a provider returns.
use vstd::prelude::*;
use crate::data::{CellValue, ColumnKind};
use crate::menu::MenuAction;

verus! {

/// What was right-clicked.
#[derive(Clone, Copy, Debug, PartialEq, Eq, Structural)]
pub enum ContextMenuTarget {
    /// A data cell.
    Cell { display_row_index: usize, source_row_index: usize, column_index: usize },
    /// The row-number gutter.
    RowHeader { display_row_index: usize, source_row_index: usize },
    /// A column header cell (excluding the sort button).
    ColumnHeader { column_index: usize },
    /// The sort button inside a column header.
    SortButton { column_index: usize },
}

impl ContextMenuTarget {
    pub open spec fn column_of(self) -> Option<usize> {
        match self {
            ContextMenuTarget::Cell { column_index, .. } => Some(column_index),
            ContextMenuTarget::ColumnHeader { column_index } => Some(column_index),
            ContextMenuTarget::SortButton { column_index } => Some(column_index),
            ContextMenuTarget::RowHeader { .. } => None,
        }
    }

    pub open spec fn display_row_of(self) -> Option<usize> {
        match self {
            ContextMenuTarget::Cell { display_row_index, .. } => Some(display_row_index),
            ContextMenuTarget::RowHeader { display_row_index, .. } => Some(display_row_index),
            _ => None,
        }
    }

    /// Column index for targets that carry one; `None` for row headers.
    pub fn column_index(&self) -> (r: Option<usize>)
        ensures
            r == self.column_of(),
    {
        match self {
            ContextMenuTarget::Cell { column_index, .. } => Some(*column_index),
            ContextMenuTarget::ColumnHeader { column_index } => Some(*column_index),
            ContextMenuTarget::SortButton { column_index } => Some(*column_index),
            ContextMenuTarget::RowHeader { .. } => None,
        }
    }

    /// Display row for cell and row-header targets; `None` otherwise.
    pub fn display_row_index(&self) -> (r: Option<usize>)
        ensures
            r == self.display_row_of(),
    {
        match self {
            ContextMenuTarget::Cell { display_row_index, .. } => Some(*display_row_index),
            ContextMenuTarget::RowHeader { display_row_index, .. } => Some(*display_row_index),
            ContextMenuTarget::ColumnHeader { .. } | ContextMenuTarget::SortButton { .. } => None,
        }
    }
}

/// Normalized inclusive selection range captured at menu-open time.
#[derive(Clone, Copy, Debug, PartialEq, Eq, Structural)]
pub struct ContextMenuSelection {
    pub row_start: usize,
    pub row_end: usize,
    pub column_start: usize,
    pub column_end: usize,
}

/// Metadata and value for a single selected cell.
#[derive(Clone, Debug)]
pub struct SelectedCellContext {
    pub display_row_index: usize,
    pub source_row_index: usize,
    pub column_index: usize,
    pub column_name: String,
    pub value: CellValue,
}

/// Metadata for a column.
#[derive(Clone, Debug)]
pub struct ColumnContext {
    pub index: usize,
    pub name: String,
    pub kind: ColumnKind,
}

/// Position of the first element of `s` satisfying `p`, if any.
pub open spec fn first_index<T>(s: Seq<T>, p: spec_fn(T) -> bool) -> Option<int>
    decreases s.len(),
{
    if s.len() == 0 {
        None
    } else {
        match first_index(s.drop_last(), p) {
            Some(k) => Some(k),
            None => if p(s.last()) { Some(s.len() - 1) } else { None },
        }
    }
}

/// The first match, when there is one, satisfies `p` and no earlier element does.
pub proof fn lemma_first_index<T>(s: Seq<T>, p: spec_fn(T) -> bool)
    ensures
        first_index(s, p) matches Some(k) ==> 0 <= k < s.len() && p(s[k]) && forall|j: int| 0 <= j < k ==> !p(#[trigger] s[j]),
        first_index(s, p) is None ==> forall|j: int| 0 <= j < s.len() ==> !p(#[trigger] s[j]),
    decreases s.len(),
{
    if s.len() > 0 {
        let t = s.drop_last();
        lemma_first_index(t, p);
        assert forall|j: int| 0 <= j < s.len() - 1 implies s[j] == #[trigger] t[j] by {}
        match first_index(t, p) {
            Some(k) => {
                assert(t[k] == s[k]);
                assert forall|j: int| 0 <= j < k implies !p(#[trigger] s[j]) by {
                    assert(t[j] == s[j]);
                }
            },
            None => {
                assert forall|j: int| 0 <= j < s.len() - 1 implies !p(#[trigger] s[j]) by {
                    assert(t[j] == s[j]);
                }
            },
        }
    }
}

/// If no element before `n` satisfies `p` and element `n - 1` does, the first
/// match is at `n - 1`.
pub proof fn lemma_first_index_at<T>(s: Seq<T>, p: spec_fn(T) -> bool, n: int)
    requires
        0 < n <= s.len(),
        forall|j: int| 0 <= j < n - 1 ==> !p(#[trigger] s[j]),
        p(s[n - 1]),
    ensures
        first_index(s, p) == Some(n - 1),
    decreases s.len(),
{
    if n < s.len() {
        assert forall|j: int| 0 <= j < n - 1 implies !p(#[trigger] s.drop_last()[j]) by {
            assert(s.drop_last()[j] == s[j]);
        }
        lemma_first_index_at(s.drop_last(), p, n);
    } else {
        lemma_first_index(s.drop_last(), p);
        if first_index(s.drop_last(), p) is Some {
            let k = first_index(s.drop_last(), p)->0;
            assert(s.drop_last()[k] == s[k]);
        }
    }
}

/// Position of the first column named exactly `name`, if any.
pub open spec fn first_named(columns: Seq<ColumnContext>, name: Seq<char>) -> Option<int> {
    first_index(columns, named(name))
}

/// Predicate: the column is named exactly `name`.
pub open spec fn named(name: Seq<char>) -> spec_fn(ColumnContext) -> bool {
    |c: ColumnContext| c.name@ == name
}

/// `(name, value)` for every column whose index addresses a value, in column order.
pub open spec fn named_values_spec(columns: Seq<ColumnContext>, values: Seq<CellValue>) -> Seq<(Seq<char>, CellValue)>
    decreases columns.len(),
{
    if columns.len() == 0 {
        seq![]
    } else {
        let prefix = named_values_spec(columns.drop_last(), values);
        let col = columns.last();
        if col.index < values.len() {
            prefix.push((col.name@, values[col.index as int]))
        } else {
            prefix
        }
    }
}

/// A selected row: every cell value plus column metadata.
#[derive(Clone, Debug)]
pub struct SelectedRowContext {
    pub display_row_index: usize,
    pub source_row_index: usize,
    pub values: Vec<CellValue>,
    pub columns: Vec<ColumnContext>,
}

impl SelectedRowContext {
    /// Value at the given ordinal column index.
    pub fn value_at(&self, column_index: usize) -> (r: Option<&CellValue>)
        ensures
            r matches Some(v) ==> column_index < self.values@.len() && *v == self.values@[column_index as int],
            r is None ==> column_index >= self.values@.len(),
    {
        if column_index < self.values.len() {
            Some(&self.values[column_index])
        } else {
            None
        }
    }

    /// Ordinal index of the first column named exactly `column_name`
    /// (case-sensitive); the first duplicate wins.
    pub fn column_index(&self, column_name: &str) -> (r: Option<usize>)
        ensures
            r matches Some(i) ==> first_named(self.columns@, column_name@) matches Some(k) && i == self.columns@[k].index,
            r is None ==> first_named(self.columns@, column_name@) is None,
    {
        let wanted = column_name.to_owned();
        let mut i: usize = 0;
        while i < self.columns.len()
            invariant
                i <= self.columns@.len(),
                wanted@ == column_name@,
                forall|j: int| 0 <= j < i ==> (#[trigger] self.columns@[j]).name@ != column_name@,
            decreases self.columns@.len() - i,
        {
            if self.columns[i].name == wanted {
                proof {
                    lemma_first_index_at(self.columns@, named(column_name@), i as int + 1);
                }
                return Some(self.columns[i].index);
            }
            i += 1;
        }
        proof {
            lemma_first_index(self.columns@, named(column_name@));
            if first_named(self.columns@, column_name@) is Some {
                let k = first_named(self.columns@, column_name@)->0;
                assert(self.columns@[k].name@ != column_name@);
            }
        }
        None
    }

    /// Value of the first column named exactly `column_name`.
    pub fn value_by_name(&self, column_name: &str) -> (r: Option<&CellValue>)
        ensures
            r matches Some(v) ==> first_named(self.columns@, column_name@) matches Some(k)
                && self.columns@[k].index < self.values@.len()
                && *v == self.values@[self.columns@[k].index as int],
            r is None ==> (first_named(self.columns@, column_name@) matches Some(k)
                ==> self.columns@[k].index >= self.values@.len()),
    {
        match self.column_index(column_name) {
            Some(i) => self.value_at(i),
            None => None,
        }
    }

    /// `(column name, value)` for every column of this row, in column order.
    pub fn named_values(&self) -> (r: Vec<(&str, &CellValue)>)
        ensures
            r@.map_values(|p: (&str, &CellValue)| (p.0@, *p.1)) == named_values_spec(self.columns@, self.values@),
    {
        let mut out: Vec<(&str, &CellValue)> = Vec::new();
        let mut i: usize = 0;
        while i < self.columns.len()
            invariant
                i <= self.columns@.len(),
                out@.map_values(|p: (&str, &CellValue)| (p.0@, *p.1)) == named_values_spec(self.columns@.take(i as int), self.values@),
            decreases self.columns@.len() - i,
        {
            proof {
                assert(self.columns@.take(i as int + 1).drop_last() =~= self.columns@.take(i as int));
            }
            let col = &self.columns[i];
            if col.index < self.values.len() {
                let pair: (&str, &CellValue) = (col.name.as_str(), &self.values[col.index]);
                let ghost before = out@;
                out.push(pair);
                proof {
                    assert(out@.map_values(|p: (&str, &CellValue)| (p.0@, *p.1)) =~=
                        before.map_values(|p: (&str, &CellValue)| (p.0@, *p.1)).push((col.name@, self.values@[col.index as int])));
                }
            }
            i += 1;
        }
        proof {
            assert(self.columns@.take(i as int) =~= self.columns@);
        }
        out
    }
}

/// Owned snapshot of the right-click context captured at menu-open time.
#[derive(Clone, Debug)]
pub struct ContextMenuRequest {
    pub target: ContextMenuTarget,
    pub selection: Option<ContextMenuSelection>,
    pub selected_cells: Vec<SelectedCellContext>,
    pub selected_rows: Vec<SelectedRowContext>,
}

/// Position of the first cell at `(row, col)`.
pub open spec fn first_cell_at(cells: Seq<SelectedCellContext>, row: usize, col: usize) -> Option<int> {
    first_index(cells, cell_at(row, col))
}

/// Predicate: the cell snapshot is at `(row, col)`.
pub open spec fn cell_at(row: usize, col: usize) -> spec_fn(SelectedCellContext) -> bool {
    |c: SelectedCellContext| c.display_row_index == row && c.column_index == col
}

/// Predicate: the row snapshot is for display row `row`.
pub open spec fn row_at(row: usize) -> spec_fn(SelectedRowContext) -> bool {
    |r: SelectedRowContext| r.display_row_index == row
}

/// Position of the first row snapshot for display row `row`.
pub open spec fn first_row_at(rows: Seq<SelectedRowContext>, row: usize) -> Option<int> {
    first_index(rows, row_at(row))
}

impl ContextMenuRequest {
    /// The cell under the cursor when the menu opened, for a cell target.
    pub fn clicked_cell(&self) -> (r: Option<&SelectedCellContext>)
        ensures
            match self.target {
                ContextMenuTarget::Cell { display_row_index, column_index, .. } => match first_cell_at(self.selected_cells@, display_row_index, column_index) {
                    Some(k) => r == Some(&self.selected_cells@[k]),
                    None => r is None,
                },
                _ => r is None,
            },
    {
        match &self.target {
            ContextMenuTarget::Cell { display_row_index, column_index, .. } => {
                let row = *display_row_index;
                let col = *column_index;
                let mut i: usize = 0;
                while i < self.selected_cells.len()
                    invariant
                        i <= self.selected_cells@.len(),
                        self.target is Cell,
                        self.target.display_row_of() == Some(row),
                        self.target.column_of() == Some(col),
                        forall|j: int| 0 <= j < i ==> !(#[trigger] self.selected_cells@[j].display_row_index == row
                            && self.selected_cells@[j].column_index == col),
                    decreases self.selected_cells@.len() - i,
                {
                    let c = &self.selected_cells[i];
                    if c.display_row_index == row && c.column_index == col {
                        proof {
                            lemma_first_index_at(self.selected_cells@,
                                cell_at(row, col), i as int + 1);
                        }
                        return Some(c);
                    }
                    i += 1;
                }
                proof {
                    let p = cell_at(row, col);
                    lemma_first_index(self.selected_cells@, p);
                    if first_index(self.selected_cells@, p) is Some {
                        let k = first_index(self.selected_cells@, p)->0;
                        assert(!(self.selected_cells@[k].display_row_index == row && self.selected_cells@[k].column_index == col));
                    }
                }
                None
            },
            _ => None,
        }
    }

    /// The row under the cursor when the menu opened, for cell and row-header
    /// targets.
    pub fn clicked_row(&self) -> (r: Option<&SelectedRowContext>)
        ensures
            match self.target.display_row_of() {
                Some(row) => match first_row_at(self.selected_rows@, row) {
                    Some(k) => r == Some(&self.selected_rows@[k]),
                    None => r is None,
                },
                None => r is None,
            },
    {
        let row = match self.target.display_row_index() {
            Some(r) => r,
            None => return None,
        };
        let mut i: usize = 0;
        while i < self.selected_rows.len()
            invariant
                i <= self.selected_rows@.len(),
                self.target.display_row_of() == Some(row),
                forall|j: int| 0 <= j < i ==> #[trigger] self.selected_rows@[j].display_row_index != row,
            decreases self.selected_rows@.len() - i,
        {
            if self.selected_rows[i].display_row_index == row {
                proof {
                    lemma_first_index_at(self.selected_rows@, row_at(row), i as int + 1);
                }
                return Some(&self.selected_rows[i]);
            }
            i += 1;
        }
        proof {
            let p = row_at(row);
            lemma_first_index(self.selected_rows@, p);
            if first_index(self.selected_rows@, p) is Some {
                let k = first_index(self.selected_rows@, p)->0;
                assert(self.selected_rows@[k].display_row_index != row);
            }
        }
        None
    }

    /// All selected cells in the effective selection.
    pub fn selected_cells(&self) -> (r: &[SelectedCellContext])
        ensures
            r@ == self.selected_cells@,
    {
        self.selected_cells.as_slice()
    }

    /// All selected rows in the effective selection.
    pub fn selected_rows(&self) -> (r: &[SelectedRowContext])
        ensures
            r@ == self.selected_rows@,
    {
        self.selected_rows.as_slice()
    }
}

/// A menu item returned by a context-menu provider.
#[derive(Clone, Debug)]
pub enum ContextMenuItem {
    /// A built-in action handled by the grid.
    BuiltIn(MenuAction),
    /// A custom action with a caller-defined `id` and display label.
    Action { id: String, label: String },
    /// A visual separator.
    Separator,
}

/// The standard column-header items, in the order the grid uses.
pub open spec fn standard_column_header_items_spec() -> Seq<ContextMenuItem> {
    seq![
        ContextMenuItem::BuiltIn(MenuAction::SelectColumn),
        ContextMenuItem::BuiltIn(MenuAction::CopyColumn),
        ContextMenuItem::BuiltIn(MenuAction::CopyColumnWithHeaders),
        ContextMenuItem::Separator,
        ContextMenuItem::BuiltIn(MenuAction::SortAscending),
        ContextMenuItem::BuiltIn(MenuAction::SortDescending),
        ContextMenuItem::BuiltIn(MenuAction::ClearSort),
        ContextMenuItem::Separator,
        ContextMenuItem::BuiltIn(MenuAction::FilterPrompt),
        ContextMenuItem::BuiltIn(MenuAction::ClearFilter),
    ]
}

impl ContextMenuItem {
    /// A custom action.
    pub fn action(id: &str, label: &str) -> (r: Self)
        ensures
            r matches ContextMenuItem::Action { id: i, label: l } && i@ == id@ && l@ == label@,
    {
        ContextMenuItem::Action { id: id.to_owned(), label: label.to_owned() }
    }

    /// A separator.
    pub fn separator() -> (r: Self)
        ensures
            r is Separator,
    {
        ContextMenuItem::Separator
    }

    /// The standard built-in column-header items, in the grid's order.
    pub fn standard_column_header_items() -> (r: Vec<Self>)
        ensures
            r@ == standard_column_header_items_spec(),
    {
        let r = vec![
            ContextMenuItem::BuiltIn(MenuAction::SelectColumn),
            ContextMenuItem::BuiltIn(MenuAction::CopyColumn),
            ContextMenuItem::BuiltIn(MenuAction::CopyColumnWithHeaders),
            ContextMenuItem::Separator,
            ContextMenuItem::BuiltIn(MenuAction::SortAscending),
            ContextMenuItem::BuiltIn(MenuAction::SortDescending),
            ContextMenuItem::BuiltIn(MenuAction::ClearSort),
            ContextMenuItem::Separator,
            ContextMenuItem::BuiltIn(MenuAction::FilterPrompt),
            ContextMenuItem::BuiltIn(MenuAction::ClearFilter),
        ];
        assert(r@ =~= standard_column_header_items_spec());
        r
    }
}

} // verus!
