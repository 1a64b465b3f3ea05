use sqlly_datatable::menu::{action_index, label, ContextMenu, MenuAction, MenuItem};

#[test]
fn standard_menu_item_sequence_is_stable() {
    let m = ContextMenu::standard(0);
    let kinds: Vec<&'static str> = m
        .items
        .iter()
        .map(|i| match i {
            MenuItem::Action(MenuAction::SelectColumn) => "SelectColumn",
            MenuItem::Action(MenuAction::CopyColumn) => "CopyColumn",
            MenuItem::Action(MenuAction::CopyColumnWithHeaders) => "CopyColumnWithHeaders",
            MenuItem::Separator => "Separator",
            MenuItem::Action(MenuAction::SortAscending) => "SortAscending",
            MenuItem::Action(MenuAction::SortDescending) => "SortDescending",
            MenuItem::Action(MenuAction::ClearSort) => "ClearSort",
            MenuItem::Action(MenuAction::GroupBy) => "GroupBy",
            MenuItem::Action(MenuAction::ClearGrouping) => "ClearGrouping",
            MenuItem::Action(MenuAction::FilterPrompt) => "FilterPrompt",
            MenuItem::Action(MenuAction::ClearFilter) => "ClearFilter",
            MenuItem::Custom { .. } => "Custom",
        })
        .collect();
    assert_eq!(
        kinds,
        [
            "SelectColumn",
            "CopyColumn",
            "CopyColumnWithHeaders",
            "Separator",
            "SortAscending",
            "SortDescending",
            "ClearSort",
            "Separator",
            "GroupBy",
            "ClearGrouping",
            "Separator",
            "FilterPrompt",
            "ClearFilter",
        ],
    );
}

#[test]
fn separators_break_menu_into_action_groups() {
    let m = ContextMenu::standard(0);
    let separators = m.items.iter().filter(|i| matches!(i, MenuItem::Separator)).count();
    assert_eq!(separators, 3);
}

#[test]
fn every_menu_action_has_non_empty_label() {
    for a in [
        MenuAction::SelectColumn,
        MenuAction::CopyColumn,
        MenuAction::CopyColumnWithHeaders,
        MenuAction::SortAscending,
        MenuAction::SortDescending,
        MenuAction::ClearSort,
        MenuAction::GroupBy,
        MenuAction::ClearGrouping,
        MenuAction::FilterPrompt,
        MenuAction::ClearFilter,
    ] {
        assert!(!label(a).is_empty(), "{a:?} has empty label");
    }
}

#[test]
fn menu_item_label_helper() {
    assert_eq!(MenuItem::Action(MenuAction::SortAscending).label(), Some("Sort Ascending"));
    assert_eq!(MenuItem::Custom { id: "x".into(), label: "Hello".into() }.label(), Some("Hello"));
    assert_eq!(MenuItem::Separator.label(), None);
}

#[test]
fn menu_item_is_selectable() {
    assert!(MenuItem::Action(MenuAction::ClearFilter).is_selectable());
    assert!(MenuItem::Custom { id: "x".into(), label: "y".into() }.is_selectable());
    assert!(!MenuItem::Separator.is_selectable());
}

#[test]
fn action_index_skips_separators() {
    let m = ContextMenu::standard(7);
    assert_eq!(m.col, 7);
    // Row 0 is the first action; row 3 is a separator; row 4 is the fourth action.
    assert_eq!(action_index(&m.items, 0), Some(0));
    assert_eq!(action_index(&m.items, 3), None);
    assert_eq!(action_index(&m.items, 4), Some(3));
    assert_eq!(action_index(&m.items, 12), Some(9));
    assert_eq!(action_index(&m.items, 13), None);
}

#[test]
fn custom_items_are_counted_as_actions() {
    let items = vec![
        MenuItem::Custom { id: "a".into(), label: "First".into() },
        MenuItem::Separator,
        MenuItem::Custom { id: "b".into(), label: "Second".into() },
    ];
    assert_eq!(action_index(&items, 0), Some(0));
    assert_eq!(action_index(&items, 1), None);
    assert_eq!(action_index(&items, 2), Some(1));
}
