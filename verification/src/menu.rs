//! Column-header context menu: actions, items, their labels, and which action
//! a hovered row stands for. Pixel layout (width, height, on-screen placement)
//! is computed by the UI layer.
use vstd::prelude::*;
use crate::context_menu::ContextMenuRequest;

verus! {

/// A built-in menu action.
#[derive(Clone, Copy, Debug, PartialEq, Eq, Structural)]
pub enum MenuAction {
    SelectColumn,
    CopyColumn,
    CopyColumnWithHeaders,
    SortAscending,
    SortDescending,
    ClearSort,
    GroupBy,
    ClearGrouping,
    FilterPrompt,
    ClearFilter,
}

/// One row of a rendered menu.
#[derive(Clone, Debug)]
pub enum MenuItem {
    Action(MenuAction),
    Custom { id: String, label: String },
    Separator,
}

/// User-facing label of a built-in action.
pub open spec fn action_label(action: MenuAction) -> Seq<char> {
    match action {
        MenuAction::SelectColumn => "Select column"@,
        MenuAction::CopyColumn => "Copy column"@,
        MenuAction::CopyColumnWithHeaders => "Copy column with headers"@,
        MenuAction::SortAscending => "Sort Ascending"@,
        MenuAction::SortDescending => "Sort Descending"@,
        MenuAction::ClearSort => "Clear sort"@,
        MenuAction::GroupBy => "Group by this column"@,
        MenuAction::ClearGrouping => "Clear grouping"@,
        MenuAction::FilterPrompt => "Filter..."@,
        MenuAction::ClearFilter => "Clear filter"@,
    }
}

/// Maps an action to its user-facing label.
pub fn label(action: MenuAction) -> (s: &'static str)
    ensures
        s@ == action_label(action),
{
    match action {
        MenuAction::SelectColumn => "Select column",
        MenuAction::CopyColumn => "Copy column",
        MenuAction::CopyColumnWithHeaders => "Copy column with headers",
        MenuAction::SortAscending => "Sort Ascending",
        MenuAction::SortDescending => "Sort Descending",
        MenuAction::ClearSort => "Clear sort",
        MenuAction::GroupBy => "Group by this column",
        MenuAction::ClearGrouping => "Clear grouping",
        MenuAction::FilterPrompt => "Filter...",
        MenuAction::ClearFilter => "Clear filter",
    }
}

impl MenuItem {
    /// Label of the item; `None` for separators.
    pub open spec fn label_spec(self) -> Option<Seq<char>> {
        match self {
            MenuItem::Action(a) => Some(action_label(a)),
            MenuItem::Custom { label, .. } => Some(label@),
            MenuItem::Separator => None,
        }
    }

    /// Display label for the item, or `None` for separators.
    pub fn label(&self) -> (r: Option<&str>)
        ensures
            r matches Some(s) ==> self.label_spec() == Some(s@),
            r is None ==> self.label_spec() is None,
    {
        match self {
            MenuItem::Action(a) => Some(label(*a)),
            MenuItem::Custom { label, .. } => Some(label.as_str()),
            MenuItem::Separator => None,
        }
    }

    /// `true` for action/custom items that participate in hover/click.
    pub fn is_selectable(&self) -> (b: bool)
        ensures
            b == !(self is Separator),
    {
        match self {
            MenuItem::Separator => false,
            _ => true,
        }
    }
}

/// Number of selectable (non-separator) items among the first `n` items.
pub open spec fn selectable_before(items: Seq<MenuItem>, n: int) -> nat
    decreases n,
{
    if n <= 0 {
        0
    } else {
        selectable_before(items, n - 1) + if items[n - 1] is Separator { 0nat } else { 1nat }
    }
}

/// Action index of the item at `row`: its position among the selectable
/// items, or `None` for a separator or a row past the end.
pub open spec fn action_index_spec(items: Seq<MenuItem>, row: int) -> Option<nat> {
    if 0 <= row < items.len() && !(items[row] is Separator) {
        Some(selectable_before(items, row))
    } else {
        None
    }
}

/// Position of the item at `row` among the selectable items. This is what a
/// hovered or clicked menu row resolves to.
pub fn action_index(items: &[MenuItem], row: usize) -> (r: Option<usize>)
    ensures
        r matches Some(k) ==> action_index_spec(items@, row as int) == Some(k as nat),
        r is None ==> action_index_spec(items@, row as int) is None,
{
    let mut action_idx: usize = 0;
    let mut i: usize = 0;
    while i < items.len()
        invariant
            i <= items@.len(),
            action_idx == selectable_before(items@, i as int),
            action_idx <= i,
            i <= row || row >= items@.len() || items@[row as int] is Separator,
        decreases items@.len() - i,
    {
        if items[i].is_selectable() {
            if i == row {
                return Some(action_idx);
            }
            action_idx += 1;
        }
        i += 1;
    }
    None
}

/// Selectable items before `n` never outnumber the items before `n`, and the
/// count grows monotonically.
pub proof fn lemma_selectable_before_monotone(items: Seq<MenuItem>, m: int, n: int)
    requires
        0 <= m <= n,
    ensures
        selectable_before(items, m) <= selectable_before(items, n),
        selectable_before(items, n) <= n,
    decreases n,
{
    if n > 0 {
        if m < n {
            lemma_selectable_before_monotone(items, m, n - 1);
        } else {
            lemma_selectable_before_monotone(items, n - 1, n - 1);
        }
    }
}

/// Distinct selectable rows resolve to distinct action indices, in order,
/// and every action index is below the number of selectable items.
pub proof fn lemma_action_index_order(items: Seq<MenuItem>, i: int, j: int)
    requires
        action_index_spec(items, i) is Some,
        action_index_spec(items, j) is Some,
        i < j,
    ensures
        action_index_spec(items, i)->0 < action_index_spec(items, j)->0,
        action_index_spec(items, j)->0 < selectable_before(items, items.len() as int),
{
    lemma_selectable_before_monotone(items, i + 1, j);
    lemma_selectable_before_monotone(items, j + 1, items.len() as int);
}

/// The standard column-header menu, in order.
pub open spec fn standard_items_spec() -> Seq<MenuItem> {
    seq![
        MenuItem::Action(MenuAction::SelectColumn),
        MenuItem::Action(MenuAction::CopyColumn),
        MenuItem::Action(MenuAction::CopyColumnWithHeaders),
        MenuItem::Separator,
        MenuItem::Action(MenuAction::SortAscending),
        MenuItem::Action(MenuAction::SortDescending),
        MenuItem::Action(MenuAction::ClearSort),
        MenuItem::Separator,
        MenuItem::Action(MenuAction::GroupBy),
        MenuItem::Action(MenuAction::ClearGrouping),
        MenuItem::Separator,
        MenuItem::Action(MenuAction::FilterPrompt),
        MenuItem::Action(MenuAction::ClearFilter),
    ]
}

/// An open context menu: the column it was opened on, its items, the hovered
/// action index, and the request snapshot when a provider built it.
#[derive(Clone, Debug)]
pub struct ContextMenu {
    pub col: usize,
    pub items: Vec<MenuItem>,
    pub hovered: Option<usize>,
    pub request: Option<ContextMenuRequest>,
}

impl ContextMenu {
    /// Standard column-header menu, opened on a column header or sort button.
    pub fn standard(col: usize) -> (m: Self)
        ensures
            m.col == col,
            m.items@ == standard_items_spec(),
            m.hovered is None,
            m.request is None,
    {
        let items = vec![
            MenuItem::Action(MenuAction::SelectColumn),
            MenuItem::Action(MenuAction::CopyColumn),
            MenuItem::Action(MenuAction::CopyColumnWithHeaders),
            MenuItem::Separator,
            MenuItem::Action(MenuAction::SortAscending),
            MenuItem::Action(MenuAction::SortDescending),
            MenuItem::Action(MenuAction::ClearSort),
            MenuItem::Separator,
            MenuItem::Action(MenuAction::GroupBy),
            MenuItem::Action(MenuAction::ClearGrouping),
            MenuItem::Separator,
            MenuItem::Action(MenuAction::FilterPrompt),
            MenuItem::Action(MenuAction::ClearFilter),
        ];
        assert(items@ =~= standard_items_spec());
        ContextMenu { col, items, hovered: None, request: None }
    }

    /// A provider-built menu carrying the request captured when it opened.
    pub fn custom(col: usize, items: Vec<MenuItem>, request: ContextMenuRequest) -> (m: Self)
        ensures
            m.col == col,
            m.items == items,
            m.hovered is None,
            m.request == Some(request),
    {
        ContextMenu { col, items, hovered: None, request: Some(request) }
    }
}

/// Every built-in action has a non-empty label.
pub proof fn lemma_action_labels_non_empty(action: MenuAction)
    ensures
        action_label(action).len() > 0,
{
    reveal_strlit("Select column");
    reveal_strlit("Copy column");
    reveal_strlit("Copy column with headers");
    reveal_strlit("Sort Ascending");
    reveal_strlit("Sort Descending");
    reveal_strlit("Clear sort");
    reveal_strlit("Group by this column");
    reveal_strlit("Clear grouping");
    reveal_strlit("Filter...");
    reveal_strlit("Clear filter");
}

/// The standard menu holds ten actions split into four groups by three
/// separators; its hovered rows resolve to action indices `0..10`.
pub proof fn lemma_standard_menu_shape()
    ensures
        standard_items_spec().len() == 13,
        selectable_before(standard_items_spec(), 13) == 10,
        action_index_spec(standard_items_spec(), 0) == Some(0nat),
        action_index_spec(standard_items_spec(), 3) is None,
        action_index_spec(standard_items_spec(), 7) is None,
        action_index_spec(standard_items_spec(), 10) is None,
        action_index_spec(standard_items_spec(), 12) == Some(9nat),
{
    reveal_with_fuel(selectable_before, 14);
}

} // verus!
