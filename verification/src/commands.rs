//! Input decisions of the grid: menu actions, keys, mouse presses and drags.
//! Each command updates the state and tells the host what it still has to do
//! itself (write the clipboard, open the filter popover, start tracking a
//! drag).
use vstd::prelude::*;
use crate::clipboard::tab_joined;
use crate::context_menu::{ContextMenuItem, ContextMenuTarget};
use crate::filter::{verdicts, ColumnFilter};
use crate::filter_panel::FilterInput;
use crate::menu::{ContextMenu, MenuAction, MenuItem, standard_items_spec};
use crate::selection::{is_cell_selected, is_row_selected, max_of, min_of, row_selected, HitResult, ScrollbarAxis, Selection, SortDirection};
use crate::state::{next_sort, GridState};
use crate::text::push_char;
use crate::text_input::push_str;

verus! {

/// A key the grid reacts to; the host maps its keystrokes onto these.
#[derive(Clone, Copy, Debug, PartialEq, Eq, Structural)]
pub enum GridKey {
    Escape,
    Enter,
    Backspace,
    Left,
    Right,
    Up,
    Down,
    Other,
}

/// What the host does after a menu action.
#[derive(Clone, Debug)]
pub enum ActionEffect {
    Nothing,
    /// Put this text on the clipboard.
    Copy(String),
    /// Open the filter popover on this column.
    OpenFilterPanel(usize),
}

/// What the host starts tracking after a mouse press.
#[derive(Clone, Copy, Debug, PartialEq, Eq, Structural)]
pub enum PressEffect {
    Nothing,
    /// A drag selection from the pressed position.
    Drag,
    /// Dragging a scrollbar thumb.
    ScrollbarDrag(ScrollbarAxis),
    /// Resizing a column by its right border.
    ResizeColumn(usize),
}

/// `m` is the internal menu item for the provider item `item`.
pub open spec fn converted(item: ContextMenuItem, m: MenuItem) -> bool {
    match item {
        ContextMenuItem::BuiltIn(a) => m == MenuItem::Action(a),
        ContextMenuItem::Action { id, label } => m matches MenuItem::Custom { id: i, label: l } && i == id && l == label,
        ContextMenuItem::Separator => m is Separator,
    }
}

/// Selection while dragging from the pressed hit `start` to the hit
/// `current`: a cell rectangle, a row range, or the columns between two
/// headers (as the cell range spanning every row); `None` leaves the
/// selection as it is.
pub open spec fn drag_selection(start: HitResult, current: HitResult) -> Option<Selection> {
    match (start, current) {
        (HitResult::Cell(r1, c1), HitResult::Cell(r2, c2)) => Some(
            Selection::CellRange(min_of(r1, r2), min_of(c1, c2), max_of(r1, r2), max_of(c1, c2)),
        ),
        (HitResult::RowHeader(a), HitResult::RowHeader(b)) => Some(Selection::RowRange(min_of(a, b), max_of(a, b))),
        (HitResult::ColumnHeader(c1), HitResult::ColumnHeader(c2)) => Some(column_span(c1, c2)),
        (HitResult::ColumnHeader(c1), HitResult::SortButton(c2)) => Some(column_span(c1, c2)),
        (HitResult::ColumnHeader(c1), HitResult::ColumnBorder(c2)) => Some(column_span(c1, c2)),
        _ => None,
    }
}

/// The columns between `c1` and `c2`: the column itself, or every row of the
/// columns in between.
pub open spec fn column_span(c1: usize, c2: usize) -> Selection {
    if c1 == c2 {
        Selection::Column(c1)
    } else {
        Selection::CellRange(0, min_of(c1, c2), usize::MAX, max_of(c1, c2))
    }
}

impl GridState {
    /// Open the standard column menu on `col`, closing the filter popover.
    pub fn open_context_menu(&mut self, col: usize)
        ensures
            final(self).context_menu matches Some(m) && m.col == col && m.items@ == standard_items_spec()
                && m.hovered is None && m.request is None,
            *final(self) == (GridState { context_menu: final(self).context_menu, filter_panel: None, ..*old(self) }),
    {
        self.context_menu = Some(ContextMenu::standard(col));
        self.filter_panel = None;
    }

    /// The right-click target for a hit: cells and row headers carry their
    /// resident row (the display row itself when none is resident), headers
    /// and sort buttons their column; anything else is no target.
    pub fn context_menu_target_from_hit(&self, hit: HitResult) -> (t: Option<ContextMenuTarget>)
        ensures
            t == match hit {
                HitResult::Cell(row, col) => Some(ContextMenuTarget::Cell {
                    display_row_index: row,
                    source_row_index: match self.resident_row(row as int) { Some(s) => s, None => row },
                    column_index: col,
                }),
                HitResult::RowHeader(row) => Some(ContextMenuTarget::RowHeader {
                    display_row_index: row,
                    source_row_index: match self.resident_row(row as int) { Some(s) => s, None => row },
                }),
                HitResult::ColumnHeader(col) => Some(ContextMenuTarget::ColumnHeader { column_index: col }),
                HitResult::SortButton(col) => Some(ContextMenuTarget::SortButton { column_index: col }),
                _ => None,
            },
    {
        match hit {
            HitResult::Cell(row, col) => {
                let source_row = match self.resident_row_for_display(row) {
                    Some(s) => s,
                    None => row,
                };
                Some(ContextMenuTarget::Cell { display_row_index: row, source_row_index: source_row, column_index: col })
            },
            HitResult::RowHeader(row) => {
                let source_row = match self.resident_row_for_display(row) {
                    Some(s) => s,
                    None => row,
                };
                Some(ContextMenuTarget::RowHeader { display_row_index: row, source_row_index: source_row })
            },
            HitResult::ColumnHeader(col) => Some(ContextMenuTarget::ColumnHeader { column_index: col }),
            HitResult::SortButton(col) => Some(ContextMenuTarget::SortButton { column_index: col }),
            _ => None,
        }
    }

    /// The selection a right-click acts on: kept when the clicked cell or row
    /// is inside it, else collapsed to the clicked cell or row; header clicks
    /// keep it.
    pub fn effective_selection_for_context_target(&self, target: &ContextMenuTarget) -> (s: Selection)
        ensures
            s == match *target {
                ContextMenuTarget::Cell { display_row_index, column_index, .. } =>
                    if self.selection.covers(display_row_index as int, column_index as int) {
                        self.selection
                    } else {
                        Selection::Cell(display_row_index, column_index)
                    },
                ContextMenuTarget::RowHeader { display_row_index, .. } =>
                    if row_selected(self.selection, display_row_index as int) {
                        self.selection
                    } else {
                        Selection::Row(display_row_index)
                    },
                _ => self.selection,
            },
    {
        match *target {
            ContextMenuTarget::Cell { display_row_index, column_index, .. } => {
                if is_cell_selected(&self.selection, display_row_index, column_index) {
                    self.selection
                } else {
                    Selection::Cell(display_row_index, column_index)
                }
            },
            ContextMenuTarget::RowHeader { display_row_index, .. } => {
                if is_row_selected(&self.selection, display_row_index) {
                    self.selection
                } else {
                    Selection::Row(display_row_index)
                }
            },
            _ => self.selection,
        }
    }

    /// Provider items as internal menu items, one for one.
    pub fn convert_context_menu_items(items: Vec<ContextMenuItem>) -> (r: Vec<MenuItem>)
        ensures
            r@.len() == items@.len(),
            forall|k: int| 0 <= k < items@.len() ==> converted(#[trigger] items@[k], r@[k]),
    {
        let mut out: Vec<MenuItem> = Vec::new();
        let mut k: usize = 0;
        while k < items.len()
            invariant
                k <= items@.len(),
                out@.len() == k,
                forall|j: int| 0 <= j < k ==> converted(#[trigger] items@[j], out@[j]),
            decreases items@.len() - k,
        {
            let m = match &items[k] {
                ContextMenuItem::BuiltIn(a) => MenuItem::Action(*a),
                ContextMenuItem::Action { id, label } => MenuItem::Custom { id: id.clone(), label: label.clone() },
                ContextMenuItem::Separator => MenuItem::Separator,
            };
            out.push(m);
            k += 1;
        }
        out
    }

    /// `after` is `self` after the menu action `action` on column `col`, and
    /// `effect` is what the host still does. Sort and filter changes
    /// re-derive the display order from the filters' verdicts (`outside`
    /// holds the host's on numeric and pattern filters) and the cells of the
    /// sort column (see [`GridState::recompute`]); every action closes the
    /// menu.
    pub open spec fn acted(&self, after: Self, effect: ActionEffect, action: MenuAction, col: usize, outside: Seq<Vec<bool>>) -> bool {
        match action {
            MenuAction::SelectColumn => effect is Nothing
                && after == (GridState { selection: Selection::Column(col), context_menu: None, ..*self }),
            MenuAction::CopyColumn => (effect matches ActionEffect::Copy(t)
                && t@ == self.column_lines(col as int, self.display_indices@.len() as int))
                && after == (GridState { context_menu: None, ..*self }),
            MenuAction::CopyColumnWithHeaders => (effect matches ActionEffect::Copy(t)
                && t@ == self.data.columns@[col as int].name@ + seq!['\n'] + self.column_lines(col as int, self.display_indices@.len() as int))
                && after == (GridState { context_menu: None, ..*self }),
            MenuAction::SortAscending => effect is Nothing && exists|mid: GridState|
                #[trigger] (GridState { sort: Some((col, SortDirection::Ascending)), ..*self }).recomputed(mid, outside)
                && after == (GridState { context_menu: None, ..mid }),
            MenuAction::SortDescending => effect is Nothing && exists|mid: GridState|
                #[trigger] (GridState { sort: Some((col, SortDirection::Descending)), ..*self }).recomputed(mid, outside)
                && after == (GridState { context_menu: None, ..mid }),
            MenuAction::ClearSort => effect is Nothing && exists|mid: GridState|
                #[trigger] (GridState { sort: None, ..*self }).recomputed(mid, outside)
                && after == (GridState { context_menu: None, ..mid }),
            MenuAction::GroupBy => effect is Nothing && exists|mid: GridState| #[trigger] self.regrouped(mid, Some(col))
                && after == (GridState { context_menu: None, ..mid }),
            MenuAction::ClearGrouping => effect is Nothing && exists|mid: GridState| #[trigger] self.regrouped(mid, None)
                && after == (GridState { context_menu: None, ..mid }),
            MenuAction::FilterPrompt => effect == ActionEffect::OpenFilterPanel(col)
                && after == (GridState { context_menu: None, ..*self }),
            MenuAction::ClearFilter => effect is Nothing && if col < self.filters@.len() {
                &&& after.filters@ == self.filters@.update(col as int, after.filters@[col as int])
                &&& after.filters@[col as int].predicate is Nothing && after.filters@[col as int].values is None
                &&& after.context_menu is None
                &&& exists|mid: GridState| #[trigger] (GridState { filters: after.filters, ..*self }).recomputed(mid, outside)
                    && after == (GridState { context_menu: None, ..mid })
            } else {
                after == (GridState { context_menu: None, ..*self })
            },
        }
    }

    /// Run a built-in menu action on column `col` and close the menu. For a
    /// sort or filter change, `outside` holds the host's verdicts on numeric
    /// and pattern filters.
    pub fn execute_action(&mut self, action: MenuAction, col: usize, outside: &Vec<Vec<bool>>) -> (effect: ActionEffect)
        requires
            old(self).wf(),
            action is CopyColumn || action is CopyColumnWithHeaders || action is SortAscending
                || action is SortDescending ==> col < old(self).ncols(),
            old(self).verdict_shape(outside@),
        ensures
            final(self).wf(),
            old(self).acted(*final(self), effect, action, col, outside@),
    {
        let effect = match action {
            MenuAction::SelectColumn => {
                self.selection = Selection::Column(col);
                ActionEffect::Nothing
            },
            MenuAction::CopyColumn => ActionEffect::Copy(self.column_text(col)),
            MenuAction::CopyColumnWithHeaders => {
                let mut text = String::new();
                push_str(&mut text, self.data.columns[col].name.as_str());
                push_char(&mut text, '\n');
                let body = self.column_text(col);
                push_str(&mut text, body.as_str());
                assert(text@ =~= self.data.columns@[col as int].name@ + seq!['\n'] + body@);
                ActionEffect::Copy(text)
            },
            MenuAction::SortAscending => {
                self.sort = Some((col, SortDirection::Ascending));
                self.recompute(outside);
                ActionEffect::Nothing
            },
            MenuAction::SortDescending => {
                self.sort = Some((col, SortDirection::Descending));
                self.recompute(outside);
                ActionEffect::Nothing
            },
            MenuAction::ClearSort => {
                self.sort = None;
                self.recompute(outside);
                ActionEffect::Nothing
            },
            MenuAction::GroupBy => {
                self.set_grouped_column(Some(col));
                ActionEffect::Nothing
            },
            MenuAction::ClearGrouping => {
                self.set_grouped_column(None);
                ActionEffect::Nothing
            },
            MenuAction::FilterPrompt => ActionEffect::OpenFilterPanel(col),
            MenuAction::ClearFilter => {
                if col < self.filters.len() {
                    self.filters.set(col, ColumnFilter::default());
                    self.recompute(outside);
                }
                ActionEffect::Nothing
            },
        };
        let ghost mid = *self;
        self.context_menu = None;
        proof {
            if action is GroupBy {
                assert(old(self).regrouped(mid, Some(col)));
            }
            if action is ClearGrouping {
                assert(old(self).regrouped(mid, None));
            }
            if action is SortAscending {
                assert((GridState { sort: Some((col, SortDirection::Ascending)), ..*old(self) }).recomputed(mid, outside@));
            }
            if action is SortDescending {
                assert((GridState { sort: Some((col, SortDirection::Descending)), ..*old(self) }).recomputed(mid, outside@));
            }
            if action is ClearSort {
                assert((GridState { sort: None, ..*old(self) }).recomputed(mid, outside@));
            }
            if action is ClearFilter && col < old(self).filters@.len() {
                assert((GridState { filters: mid.filters, ..*old(self) }).recomputed(mid, outside@));
            }
        }
        effect
    }

    /// Move the selection to follow a drag from the pressed hit `start` to
    /// the hit under the pointer (see [`drag_selection`]).
    pub fn update_drag(&mut self, start: HitResult, current: HitResult)
        ensures
            match drag_selection(start, current) {
                Some(s) => *final(self) == (GridState { selection: s, ..*old(self) }),
                None => *final(self) == *old(self),
            },
    {
        let next = match (start, current) {
            (HitResult::Cell(r1, c1), HitResult::Cell(r2, c2)) => Some(Selection::CellRange(
                if r1 <= r2 { r1 } else { r2 },
                if c1 <= c2 { c1 } else { c2 },
                if r1 <= r2 { r2 } else { r1 },
                if c1 <= c2 { c2 } else { c1 },
            )),
            (HitResult::RowHeader(a), HitResult::RowHeader(b)) => Some(Selection::RowRange(
                if a <= b { a } else { b },
                if a <= b { b } else { a },
            )),
            (HitResult::ColumnHeader(c1), HitResult::ColumnHeader(c2))
            | (HitResult::ColumnHeader(c1), HitResult::SortButton(c2))
            | (HitResult::ColumnHeader(c1), HitResult::ColumnBorder(c2)) => Some(if c1 == c2 {
                Selection::Column(c1)
            } else {
                Selection::CellRange(0, if c1 <= c2 { c1 } else { c2 }, usize::MAX, if c1 <= c2 { c2 } else { c1 })
            }),
            _ => None,
        };
        if let Some(s) = next {
            self.selection = s;
        }
    }

    /// `after` is `self` after a mouse press on `hit` (with shift held or
    /// not), and `effect` is what the host starts tracking. A header or sort
    /// button press cycles the sort and re-derives the display order from the
    /// filters' verdicts (`outside` holds the host's on numeric and pattern
    /// filters) and the cells of the sort column (see [`GridState::recompute`]).
    pub open spec fn pressed(&self, after: Self, effect: PressEffect, hit: HitResult, shift: bool, outside: Seq<Vec<bool>>) -> bool {
        match hit {
            HitResult::VerticalScrollbar => effect == PressEffect::ScrollbarDrag(ScrollbarAxis::Vertical) && after == *self,
            HitResult::HorizontalScrollbar => effect == PressEffect::ScrollbarDrag(ScrollbarAxis::Horizontal) && after == *self,
            HitResult::ColumnBorder(c) => effect == PressEffect::ResizeColumn(c) && after == *self,
            HitResult::ColumnHeader(c) => effect == PressEffect::Drag && if self.window is Some {
                after == (GridState { selection: Selection::Column(c), ..*self })
            } else {
                (GridState { selection: Selection::Column(c), sort: next_sort(self.sort, c), ..*self }).recomputed(after, outside)
            },
            HitResult::SortButton(c) => effect == PressEffect::Nothing && if self.window is Some {
                after == *self
            } else {
                (GridState { sort: next_sort(self.sort, c), ..*self }).recomputed(after, outside)
            },
            HitResult::ContextMenuItem(_) => effect == PressEffect::Nothing && after == *self,
            HitResult::GroupHeader(g) => effect == PressEffect::Nothing && if g < self.row_groups@.len() {
                self.section_set(after, g, !self.row_groups@[g as int].collapsed)
            } else {
                after == *self
            },
            HitResult::RowHeader(row) => effect == PressEffect::Drag && after == (GridState {
                selection: match self.selection {
                    Selection::Row(prev) if shift => Selection::RowRange(min_of(prev, row), max_of(prev, row)),
                    _ => Selection::Row(row),
                },
                ..*self
            }),
            HitResult::Cell(row, col) => effect == PressEffect::Drag && if shift {
                let anchor = match self.range_anchor {
                    Some(a) => a,
                    None => match self.selection {
                        Selection::Cell(pr, pc) => (pr, pc),
                        _ => (row, col),
                    },
                };
                after == (GridState {
                    selection: Selection::CellRange(min_of(anchor.0, row), min_of(anchor.1, col), max_of(anchor.0, row), max_of(anchor.1, col)),
                    range_anchor: Some(anchor),
                    range_active: Some((row, col)),
                    ..*self
                })
            } else {
                after == (GridState {
                    selection: Selection::Cell(row, col),
                    range_anchor: Some((row, col)),
                    range_active: Some((row, col)),
                    ..*self
                })
            },
            HitResult::Corner | HitResult::Nothing => effect == PressEffect::Nothing && after == (GridState {
                selection: Selection::Nothing,
                range_anchor: None,
                range_active: None,
                context_menu: None,
                filter_panel: None,
                ..*self
            }),
        }
    }

    /// React to a mouse press on `hit` (see [`Self::pressed`]). A press on a
    /// column header selects the column and, like its sort button, cycles the
    /// sort on it; `outside` holds the host's verdicts on numeric and
    /// pattern filters. The pressed column exists.
    pub fn handle_mouse_down(&mut self, hit: HitResult, shift: bool, outside: &Vec<Vec<bool>>) -> (effect: PressEffect)
        requires
            old(self).wf(),
            old(self).verdict_shape(outside@),
            old(self).window is None ==> match hit {
                HitResult::ColumnHeader(c) | HitResult::SortButton(c) => c < old(self).ncols(),
                _ => true,
            },
        ensures
            final(self).wf(),
            old(self).pressed(*final(self), effect, hit, shift, outside@),
    {
        match hit {
            HitResult::VerticalScrollbar => PressEffect::ScrollbarDrag(ScrollbarAxis::Vertical),
            HitResult::HorizontalScrollbar => PressEffect::ScrollbarDrag(ScrollbarAxis::Horizontal),
            HitResult::ColumnBorder(c) => PressEffect::ResizeColumn(c),
            HitResult::ColumnHeader(c) => {
                self.selection = Selection::Column(c);
                self.toggle_sort(c, outside);
                PressEffect::Drag
            },
            HitResult::SortButton(c) => {
                self.toggle_sort(c, outside);
                PressEffect::Nothing
            },
            HitResult::ContextMenuItem(_) => PressEffect::Nothing,
            HitResult::GroupHeader(g) => {
                self.toggle_group(g);
                PressEffect::Nothing
            },
            HitResult::RowHeader(row) => {
                self.selection = match self.selection {
                    Selection::Row(prev) if shift => Selection::RowRange(
                        if prev <= row { prev } else { row },
                        if prev <= row { row } else { prev },
                    ),
                    _ => Selection::Row(row),
                };
                PressEffect::Drag
            },
            HitResult::Cell(row, col) => {
                if shift {
                    let anchor = match self.range_anchor {
                        Some(a) => a,
                        None => match self.selection {
                            Selection::Cell(pr, pc) => (pr, pc),
                            _ => (row, col),
                        },
                    };
                    self.range_anchor = Some(anchor);
                    self.range_active = Some((row, col));
                    self.selection = Selection::CellRange(
                        if anchor.0 <= row { anchor.0 } else { row },
                        if anchor.1 <= col { anchor.1 } else { col },
                        if anchor.0 <= row { row } else { anchor.0 },
                        if anchor.1 <= col { col } else { anchor.1 },
                    );
                } else {
                    self.range_anchor = Some((row, col));
                    self.range_active = Some((row, col));
                    self.selection = Selection::Cell(row, col);
                }
                PressEffect::Drag
            },
            HitResult::Corner | HitResult::Nothing => {
                self.selection = Selection::Nothing;
                self.range_anchor = None;
                self.range_active = None;
                self.context_menu = None;
                self.filter_panel = None;
                PressEffect::Nothing
            },
        }
    }

    /// `after` is `self` after the key `key` (shift held or not; `typed` is
    /// the character the key types, if any). With the filter popover open,
    /// keys edit its focused input (Escape closes it, Enter applies it, and
    /// every edit applies it, see [`GridState::committed`], with `outside`);
    /// with a menu open, Escape closes it; otherwise arrows move or (with
    /// shift) extend the selection and Escape clears it.
    pub open spec fn key_handled(&self, after: Self, key: GridKey, shift: bool, typed: Option<char>, outside: Seq<Vec<bool>>) -> bool {
        match self.filter_panel {
            Some(p) => match key {
                GridKey::Escape => after == (GridState { filter_panel: None, ..*self }),
                GridKey::Enter => self.committed(after, p, outside),
                GridKey::Backspace => exists|i: crate::text_input::TextInput| #[trigger] p.focused().backspaced(i)
                    && (GridState { filter_panel: Some(p.with_focused(i)), ..*self }).committed(after, p.with_focused(i), outside),
                GridKey::Left => exists|i: crate::text_input::TextInput| #[trigger] p.focused().moved_left(i)
                    && after == (GridState { filter_panel: Some(p.with_focused(i)), ..*self }),
                GridKey::Right => exists|i: crate::text_input::TextInput| #[trigger] p.focused().moved_right(i)
                    && after == (GridState { filter_panel: Some(p.with_focused(i)), ..*self }),
                _ => match typed {
                    Some(ch) => exists|i: crate::text_input::TextInput| #[trigger] p.focused().typed(i, ch)
                        && (GridState { filter_panel: Some(p.with_focused(i)), ..*self }).committed(after, p.with_focused(i), outside),
                    None => after == *self,
                },
            },
            None => match self.context_menu {
                Some(_) => if key == GridKey::Escape {
                    after == (GridState { context_menu: None, ..*self })
                } else {
                    after == *self
                },
                None => match key {
                    GridKey::Up => if shift { self.extended(after, 0, -1) } else { self.arrow_moved(after, 0, -1) },
                    GridKey::Down => if shift { self.extended(after, 0, 1) } else { self.arrow_moved(after, 0, 1) },
                    GridKey::Left => if shift { self.extended(after, -1, 0) } else { self.arrow_moved(after, -1, 0) },
                    GridKey::Right => if shift { self.extended(after, 1, 0) } else { self.arrow_moved(after, 1, 0) },
                    GridKey::Escape => after == (GridState {
                        selection: Selection::Nothing,
                        range_anchor: None,
                        range_active: None,
                        ..*self
                    }),
                    _ => after == *self,
                },
            },
        }
    }

    /// Handle a key press (see [`Self::key_handled`]). `outside` holds the
    /// host's verdicts on the numeric and pattern filters of every resident
    /// cell, for a popover edit that re-applies a filter.
    pub fn handle_key(&mut self, key: GridKey, shift: bool, typed: Option<char>, outside: &Vec<Vec<bool>>)
        requires
            old(self).wf(),
            old(self).filter_panel matches Some(p) ==> p.focused().cursor_chars < usize::MAX,
            old(self).verdict_shape(outside@),
        ensures
            final(self).wf(),
            old(self).key_handled(*final(self), key, shift, typed, outside@),
    {
        if self.filter_panel.is_some() {
            match key {
                GridKey::Escape => {
                    self.filter_panel = None;
                    return;
                },
                GridKey::Enter => {
                    self.apply_filter_panel(outside);
                    return;
                },
                _ => {},
            }
            let mut panel = match self.filter_panel.take() {
                Some(p) => p,
                None => {
                    return;
                },
            };
            let ghost p0 = panel;
            let edited = match panel.focus {
                FilterInput::Search => edit_input(&mut panel.search, key, typed),
                FilterInput::OperandA => edit_input(&mut panel.operand_a, key, typed),
                FilterInput::OperandB => edit_input(&mut panel.operand_b, key, typed),
            };
            let ghost i = panel.focused();
            assert(panel == p0.with_focused(i));
            self.filter_panel = Some(panel);
            if edited {
                self.maybe_auto_apply(outside);
            }
            proof {
                if !edited && !(key is Left) && !(key is Right) {
                    assert(p0.with_focused(i) == p0);
                }
            }
            return;
        }
        if self.context_menu.is_some() {
            if key == GridKey::Escape {
                self.context_menu = None;
            }
            return;
        }
        match key {
            GridKey::Up => if shift { self.extend_selection(0, -1) } else { self.move_selection(0, -1) },
            GridKey::Down => if shift { self.extend_selection(0, 1) } else { self.move_selection(0, 1) },
            GridKey::Left => if shift { self.extend_selection(-1, 0) } else { self.move_selection(-1, 0) },
            GridKey::Right => if shift { self.extend_selection(1, 0) } else { self.move_selection(1, 0) },
            GridKey::Escape => {
                self.selection = Selection::Nothing;
                self.range_anchor = None;
                self.range_active = None;
            },
            _ => {},
        }
    }
}

/// Apply an editing key to a text input: Backspace deletes, Left and Right
/// move the cursor, any other key inserts the character it types. Returns
/// whether the text was edited (a delete or an insert).
fn edit_input(input: &mut crate::text_input::TextInput, key: GridKey, typed: Option<char>) -> (edited: bool)
    requires
        old(input).cursor_chars < usize::MAX,
    ensures
        match key {
            GridKey::Backspace => edited && old(input).backspaced(*final(input)),
            GridKey::Left => !edited && old(input).moved_left(*final(input)),
            GridKey::Right => !edited && old(input).moved_right(*final(input)),
            _ => match typed {
                Some(ch) => edited && old(input).typed(*final(input), ch),
                None => !edited && *final(input) == *old(input),
            },
        },
{
    match key {
        GridKey::Backspace => {
            input.backspace();
            true
        },
        GridKey::Left => {
            input.move_left();
            false
        },
        GridKey::Right => {
            input.move_right();
            false
        },
        _ => match typed {
            Some(ch) => {
                input.insert_char(ch);
                true
            },
            None => false,
        },
    }
}

} // verus!
