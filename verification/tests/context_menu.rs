use sqlly_datatable::context_menu::{
    ColumnContext, ContextMenuItem, ContextMenuRequest, ContextMenuTarget, SelectedCellContext,
    SelectedRowContext,
};
use sqlly_datatable::data::{CellValue, ColumnKind};
use sqlly_datatable::menu::MenuAction;

fn row(name: &str, values: &[CellValue]) -> SelectedRowContext {
    let columns = vec![
        ColumnContext { index: 0, name: "id".into(), kind: ColumnKind::Integer },
        ColumnContext { index: 1, name: name.into(), kind: ColumnKind::Text },
    ];
    SelectedRowContext { display_row_index: 0, source_row_index: 0, values: values.to_vec(), columns }
}

#[test]
fn value_at_returns_by_ordinal() {
    let r = row("name", &[CellValue::Integer(7), CellValue::Text("hi".into())]);
    assert_eq!(r.value_at(0), Some(&CellValue::Integer(7)));
    assert_eq!(r.value_at(1), Some(&CellValue::Text("hi".into())));
    assert_eq!(r.value_at(2), None);
}

#[test]
fn value_by_name_exact_case_sensitive() {
    let r = row("Name", &[CellValue::Integer(7), CellValue::Text("hi".into())]);
    assert_eq!(r.value_by_name("Name"), Some(&CellValue::Text("hi".into())));
    assert_eq!(r.value_by_name("name"), None);
    assert_eq!(r.value_by_name("NAME"), None);
}

#[test]
fn value_by_name_first_duplicate_wins() {
    let columns = vec![
        ColumnContext { index: 0, name: "dup".into(), kind: ColumnKind::Integer },
        ColumnContext { index: 1, name: "dup".into(), kind: ColumnKind::Integer },
    ];
    let r = SelectedRowContext {
        display_row_index: 0,
        source_row_index: 0,
        values: vec![CellValue::Integer(1), CellValue::Integer(2)],
        columns,
    };
    assert_eq!(r.value_by_name("dup"), Some(&CellValue::Integer(1)));
    assert_eq!(r.column_index("dup"), Some(0));
}

#[test]
fn named_values_iterates_all_columns() {
    let r = row("name", &[CellValue::Integer(7), CellValue::Text("hi".into())]);
    let pairs: Vec<_> = r.named_values().into_iter().collect();
    assert_eq!(pairs.len(), 2);
    assert_eq!(pairs[0].0, "id");
    assert_eq!(pairs[0].1, &CellValue::Integer(7));
    assert_eq!(pairs[1].0, "name");
    assert_eq!(pairs[1].1, &CellValue::Text("hi".into()));
}

#[test]
fn context_menu_target_column_index() {
    assert_eq!(
        ContextMenuTarget::Cell { display_row_index: 0, source_row_index: 0, column_index: 3 }.column_index(),
        Some(3)
    );
    assert_eq!(
        ContextMenuTarget::RowHeader { display_row_index: 0, source_row_index: 0 }.column_index(),
        None
    );
}

#[test]
fn context_menu_target_display_row_index() {
    assert_eq!(
        ContextMenuTarget::Cell { display_row_index: 5, source_row_index: 2, column_index: 0 }.display_row_index(),
        Some(5)
    );
    assert_eq!(ContextMenuTarget::ColumnHeader { column_index: 1 }.display_row_index(), None);
}

#[test]
fn standard_column_header_items_match_builtin_order() {
    let items = ContextMenuItem::standard_column_header_items();
    assert_eq!(items.len(), 10);
    assert!(matches!(items[0], ContextMenuItem::BuiltIn(MenuAction::SelectColumn)));
    assert!(matches!(items[3], ContextMenuItem::Separator));
    assert!(matches!(items[9], ContextMenuItem::BuiltIn(MenuAction::ClearFilter)));
}

#[test]
fn clicked_cell_finds_target_cell() {
    let request = ContextMenuRequest {
        target: ContextMenuTarget::Cell { display_row_index: 1, source_row_index: 2, column_index: 0 },
        selection: None,
        selected_cells: vec![
            SelectedCellContext {
                display_row_index: 0,
                source_row_index: 0,
                column_index: 0,
                column_name: "a".into(),
                value: CellValue::Integer(1),
            },
            SelectedCellContext {
                display_row_index: 1,
                source_row_index: 2,
                column_index: 0,
                column_name: "a".into(),
                value: CellValue::Integer(3),
            },
        ],
        selected_rows: vec![],
    };
    let clicked = request.clicked_cell().unwrap();
    assert_eq!(clicked.source_row_index, 2);
    assert_eq!(clicked.value, CellValue::Integer(3));
}

#[test]
fn clicked_cell_none_for_column_header_target() {
    let request = ContextMenuRequest {
        target: ContextMenuTarget::ColumnHeader { column_index: 0 },
        selection: None,
        selected_cells: vec![],
        selected_rows: vec![],
    };
    assert!(request.clicked_cell().is_none());
}

#[test]
fn clicked_row_finds_target_for_row_header() {
    let request = ContextMenuRequest {
        target: ContextMenuTarget::RowHeader { display_row_index: 1, source_row_index: 2 },
        selection: None,
        selected_cells: vec![],
        selected_rows: vec![
            SelectedRowContext { display_row_index: 0, source_row_index: 0, values: vec![], columns: vec![] },
            SelectedRowContext { display_row_index: 1, source_row_index: 2, values: vec![], columns: vec![] },
        ],
    };
    assert_eq!(request.clicked_row().unwrap().source_row_index, 2);
}

#[test]
fn clicked_row_none_for_column_header() {
    let request = ContextMenuRequest {
        target: ContextMenuTarget::ColumnHeader { column_index: 0 },
        selection: None,
        selected_cells: vec![],
        selected_rows: vec![],
    };
    assert!(request.clicked_row().is_none());
}
