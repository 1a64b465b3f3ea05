//! Opening a context menu on right-click, with the built-in column menu or
//! with the items of a menu provider, and choosing one of its rows.
use vstd::prelude::*;
use crate::commands::converted;
use crate::context_menu::{ContextMenuItem, ContextMenuRequest, ContextMenuTarget};
use crate::menu::{ContextMenu, MenuAction, MenuItem, standard_items_spec};
use crate::selection::{row_selected, HitResult, Selection};
use crate::state::GridState;

verus! {

/// What choosing a menu row asks the host to run.
#[derive(Debug)]
pub enum MenuChoice {
    Nothing,
    /// A built-in action on a column (also recorded as the pending action).
    Builtin(MenuAction, usize),
    /// A provider action by id, with the snapshot the menu was opened with.
    Custom(String, Option<ContextMenuRequest>),
}

/// The selection a right-click acts on always contains what was clicked: the
/// clicked cell, or every cell of the clicked row; a kept selection is the
/// current one.
pub proof fn lemma_effective_selection_contains_target(g: GridState, t: ContextMenuTarget)
    ensures
        t matches ContextMenuTarget::Cell { display_row_index: r, column_index: c, .. } ==> g.effective_for(t).covers(r as int, c as int),
        t matches ContextMenuTarget::RowHeader { display_row_index: r, .. } ==> forall|c: int| 0 <= c <= usize::MAX ==> #[trigger] g.effective_for(t).covers(r as int, c),
        g.effective_for(t) == g.selection || g.effective_for(t) is Cell || g.effective_for(t) is Row,
{
}

impl GridState {
    /// The right-click target of a hit (see
    /// [`Self::context_menu_target_from_hit`]).
    pub open spec fn target_of(&self, hit: HitResult) -> Option<ContextMenuTarget> {
        match hit {
            HitResult::Cell(row, col) => Some(ContextMenuTarget::Cell {
                display_row_index: row,
                source_row_index: match self.resident_row(row as int) { Some(s) => s, None => row },
                column_index: col,
            }),
            HitResult::RowHeader(row) => Some(ContextMenuTarget::RowHeader {
                display_row_index: row,
                source_row_index: match self.resident_row(row as int) { Some(s) => s, None => row },
            }),
            HitResult::ColumnHeader(col) => Some(ContextMenuTarget::ColumnHeader { column_index: col }),
            HitResult::SortButton(col) => Some(ContextMenuTarget::SortButton { column_index: col }),
            _ => None,
        }
    }

    /// The selection a right-click on `t` acts on (see
    /// [`Self::effective_selection_for_context_target`]).
    pub open spec fn effective_for(&self, t: ContextMenuTarget) -> Selection {
        match t {
            ContextMenuTarget::Cell { display_row_index, column_index, .. } =>
                if self.selection.covers(display_row_index as int, column_index as int) {
                    self.selection
                } else {
                    Selection::Cell(display_row_index, column_index)
                },
            ContextMenuTarget::RowHeader { display_row_index, .. } =>
                if row_selected(self.selection, display_row_index as int) {
                    self.selection
                } else {
                    Selection::Row(display_row_index)
                },
            _ => self.selection,
        }
    }

    /// Right-click without a menu provider: a column header or sort button
    /// opens the standard column menu; anywhere else closes the menus.
    pub fn right_click_builtin(&mut self, hit: HitResult)
        ensures
            match hit {
                HitResult::ColumnHeader(c) | HitResult::SortButton(c) => {
                    &&& final(self).context_menu matches Some(m) && m.col == c && m.items@ == standard_items_spec()
                        && m.hovered is None && m.request is None
                    &&& *final(self) == (GridState { context_menu: final(self).context_menu, filter_panel: None, ..*old(self) })
                },
                _ => *final(self) == (GridState { context_menu: None, filter_panel: None, ..*old(self) }),
            },
    {
        match hit {
            HitResult::ColumnHeader(c) | HitResult::SortButton(c) => self.open_context_menu(c),
            _ => {
                self.context_menu = None;
                self.filter_panel = None;
            },
        }
    }

    /// Right-click with a menu provider: on a target the selection collapses
    /// to it unless it lies inside, and the snapshot to hand the provider is
    /// returned; elsewhere the menus close and there is nothing to ask.
    pub fn right_click_request(&mut self, hit: HitResult) -> (r: Option<ContextMenuRequest>)
        requires
            old(self).wf(),
        ensures
            final(self).wf(),
            match old(self).target_of(hit) {
                None => r is None && *final(self) == (GridState { context_menu: None, filter_panel: None, ..*old(self) }),
                Some(t) => {
                    let eff = old(self).effective_for(t);
                    &&& *final(self) == (GridState { selection: eff, ..*old(self) })
                    &&& r matches Some(req) && final(self).request_for(req, t, eff)
                },
            },
    {
        let target = match self.context_menu_target_from_hit(hit) {
            Some(t) => t,
            None => {
                self.context_menu = None;
                self.filter_panel = None;
                return None;
            },
        };
        let effective = self.effective_selection_for_context_target(&target);
        self.selection = effective;
        Some(self.build_context_menu_request(target, &effective))
    }

    /// Show a provider's `items` as the open menu, carrying the snapshot it
    /// was built from and dispatching built-ins to the clicked column (column
    /// 0 for row clicks); no items close the menu. Closes the filter popover.
    pub fn show_custom_menu(&mut self, request: ContextMenuRequest, items: Vec<ContextMenuItem>)
        ensures
            items@.len() == 0 ==> *final(self) == (GridState { context_menu: None, filter_panel: None, ..*old(self) }),
            items@.len() > 0 ==> {
                &&& final(self).context_menu matches Some(m) && {
                    &&& m.col == match request.target.column_of() { Some(c) => c, None => 0 }
                    &&& m.items@.len() == items@.len()
                    &&& forall|k: int| 0 <= k < items@.len() ==> converted(#[trigger] items@[k], m.items@[k])
                    &&& m.hovered is None
                    &&& m.request == Some(request)
                }
                &&& *final(self) == (GridState { context_menu: final(self).context_menu, filter_panel: None, ..*old(self) })
            },
    {
        let col = match request.target.column_index() {
            Some(c) => c,
            None => 0,
        };
        let n = items.len();
        let converted_items = Self::convert_context_menu_items(items);
        if n == 0 {
            self.context_menu = None;
        } else {
            self.context_menu = Some(ContextMenu::custom(col, converted_items, request));
        }
        self.filter_panel = None;
    }

    /// Choose row `row` of the open menu: a built-in action becomes the
    /// pending action on the menu's column, a provider action hands back its
    /// id and snapshot; either closes the menu. Separators, rows past the
    /// end and a closed menu do nothing.
    pub fn choose_menu_item(&mut self, row: usize) -> (c: MenuChoice)
        ensures
            match old(self).context_menu {
                Some(m) => if row < m.items@.len() {
                    match m.items@[row as int] {
                        MenuItem::Action(a) => c == MenuChoice::Builtin(a, m.col) && *final(self) == (GridState {
                            pending_action: Some((a, m.col)),
                            context_menu: None,
                            ..*old(self)
                        }),
                        MenuItem::Custom { id, .. } => (c matches MenuChoice::Custom(i, req) && i == id && req == m.request)
                            && *final(self) == (GridState { context_menu: None, ..*old(self) }),
                        MenuItem::Separator => c is Nothing && *final(self) == *old(self),
                    }
                } else {
                    c is Nothing && *final(self) == *old(self)
                },
                None => c is Nothing && *final(self) == *old(self),
            },
    {
        let selectable = match &self.context_menu {
            Some(m) => row < m.items.len() && m.items[row].is_selectable(),
            None => false,
        };
        if !selectable {
            return MenuChoice::Nothing;
        }
        let menu = match self.context_menu.take() {
            Some(m) => m,
            None => {
                return MenuChoice::Nothing;
            },
        };
        let col = menu.col;
        let ContextMenu { items, request, .. } = menu;
        match &items[row] {
            MenuItem::Action(a) => {
                self.pending_action = Some((*a, col));
                MenuChoice::Builtin(*a, col)
            },
            MenuItem::Custom { id, .. } => MenuChoice::Custom(id.clone(), request),
            MenuItem::Separator => MenuChoice::Nothing,
        }
    }

    /// Take the pending built-in action, if any, leaving none.
    pub fn take_pending_action(&mut self) -> (r: Option<(MenuAction, usize)>)
        ensures
            r == old(self).pending_action,
            *final(self) == (GridState { pending_action: None, ..*old(self) }),
    {
        self.pending_action.take()
    }
}

} // verus!
