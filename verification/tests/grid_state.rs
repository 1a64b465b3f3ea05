use sqlly_datatable::commands::{ActionEffect, GridKey, PressEffect};
use sqlly_datatable::context_menu::{ContextMenuItem, ContextMenuTarget};
use sqlly_datatable::data::{CellValue, Column, ColumnKind, GridData, GridDataError};
use sqlly_datatable::filter::{ColumnFilter, FilterPredicate, TextOp};
use sqlly_datatable::filter_panel::FilterInput;
use sqlly_datatable::menu::{MenuAction, MenuItem};
use sqlly_datatable::right_click::MenuChoice;
use sqlly_datatable::selection::{HitResult, ScrollbarAxis, Selection, SortDirection};
use sqlly_datatable::state::{GridState, RowWindow};
use sqlly_datatable::status::{col_row_from_hit, fmt_cr};
use sqlly_datatable::tabs::{GridTab, PivotSidebarPosition};

fn shown(cell: &CellValue) -> String {
    match cell {
        CellValue::Integer(i) => i.to_string(),
        CellValue::Text(s) => s.clone(),
        CellValue::Boolean(b) => b.to_string(),
        CellValue::Date(d) => format!("day {d}"),
        CellValue::Null => "NULL".to_string(),
    }
}

fn texts_of(rows: &[Vec<CellValue>]) -> Vec<Vec<String>> {
    rows.iter().map(|r| r.iter().map(shown).collect()).collect()
}

fn col(name: &str, kind: ColumnKind) -> Column {
    Column { name: name.into(), kind }
}

fn grid(columns: Vec<Column>, rows: Vec<Vec<CellValue>>) -> GridState {
    let texts = texts_of(&rows);
    GridState::new(GridData::new(columns, rows).expect("rectangular"), texts)
}

/// The host's verdicts on numeric and pattern filters for `rows` rows:
/// these tests commit text filters only, which the library judges itself.
fn outside_rows(g: &GridState, rows: usize) -> Vec<Vec<bool>> {
    vec![vec![true; g.data.columns.len()]; rows]
}

fn outside(g: &GridState) -> Vec<Vec<bool>> {
    outside_rows(g, g.data.rows.len())
}

fn recompute(g: &mut GridState) {
    let o = outside(g);
    g.recompute(&o);
}

fn toggle(g: &mut GridState, c: usize) {
    let o = outside(g);
    g.toggle_sort(c, &o);
}

fn append(g: &mut GridState, extra: Vec<Vec<CellValue>>) -> Result<(), GridDataError> {
    let texts = texts_of(&extra);
    let o = outside_rows(g, g.data.rows.len() + extra.len());
    g.append_rows(extra, texts, &o)
}

fn press(g: &mut GridState, hit: HitResult, shift: bool) -> PressEffect {
    let o = outside(g);
    g.handle_mouse_down(hit, shift, &o)
}

fn act(g: &mut GridState, action: MenuAction, col: usize) -> ActionEffect {
    let o = outside(g);
    g.execute_action(action, col, &o)
}

fn clear_panel(g: &mut GridState) {
    let o = outside(g);
    g.clear_filter_panel(&o);
}

fn sort_from_panel(g: &mut GridState, direction: SortDirection) {
    let o = outside(g);
    g.set_panel_sort(direction, &o);
}

fn key(g: &mut GridState, k: GridKey, shift: bool, typed: Option<char>) {
    let o = outside(g);
    g.handle_key(k, shift, typed, &o);
}

fn toggle_value(g: &mut GridState, index: usize) {
    let o = outside(g);
    g.toggle_filter_value(index, &o);
}

fn apply_panel(g: &mut GridState) {
    let o = outside(g);
    g.apply_filter_panel(&o);
}

fn set_operator(g: &mut GridState, index: usize) {
    let o = outside(g);
    g.set_filter_operator(index, &o);
}

fn select_all(g: &mut GridState) {
    let o = outside(g);
    g.toggle_filter_select_all(&o);
}

fn names() -> GridState {
    grid(
        vec![col("name", ColumnKind::Text)],
        vec![
            vec![CellValue::Text("alpha".into())],
            vec![CellValue::Text("beeb".into())],
            vec![CellValue::Text("gamma".into())],
        ],
    )
}

fn two_by_two() -> GridState {
    grid(
        vec![col("a", ColumnKind::Integer), col("b", ColumnKind::Integer)],
        vec![
            vec![CellValue::Integer(1), CellValue::Integer(2)],
            vec![CellValue::Integer(3), CellValue::Integer(4)],
        ],
    )
}

#[test]
fn ragged_rows_are_rejected_with_their_position() {
    let err = GridData::new(
        vec![col("a", ColumnKind::Integer), col("b", ColumnKind::Integer)],
        vec![vec![CellValue::Integer(1), CellValue::Integer(2)], vec![CellValue::Integer(3)]],
    )
    .unwrap_err();
    assert_eq!(err, GridDataError::RaggedRow { row_index: 1, expected: 2, actual: 1 });
}

#[test]
fn append_rows_rejects_ragged_rows_and_changes_nothing() {
    let mut g = two_by_two();
    let extra = vec![vec![CellValue::Integer(5), CellValue::Integer(6)], vec![CellValue::Integer(7)]];
    let err = append(&mut g, extra).unwrap_err();
    assert_eq!(err, GridDataError::RaggedRow { row_index: 3, expected: 2, actual: 1 });
    assert_eq!(g.data.rows.len(), 2);
    assert_eq!(g.display_indices, vec![0, 1]);
}

#[test]
fn append_rows_shows_new_rows_at_the_end_without_sort_or_filter() {
    let mut g = two_by_two();
    let extra = vec![vec![CellValue::Integer(5), CellValue::Integer(6)]];
    append(&mut g, extra).expect("rectangular");
    assert_eq!(g.display_indices, vec![0, 1, 2]);
    assert!(!g.needs_recompute);
    assert_eq!(g.display_row_count(), 3);
}

#[test]
fn append_rows_under_a_sort_places_new_rows_in_order() {
    let mut g = names();
    toggle(&mut g, 0);
    assert_eq!(g.display_indices, vec![0, 1, 2]);
    let extra = vec![vec![CellValue::Text("aardvark".into())]];
    append(&mut g, extra).expect("rectangular");
    assert!(!g.needs_recompute);
    assert_eq!(g.display_indices, vec![3, 0, 1, 2]);
}

#[test]
fn append_rows_under_a_filter_keeps_the_selection() {
    let mut g = names();
    g.filters[0] = ColumnFilter {
        predicate: FilterPredicate::Text { op: TextOp::Contains, operand: "A".into() },
        values: None,
    };
    recompute(&mut g);
    assert_eq!(g.display_indices, vec![0, 2]);
    g.selection = Selection::Row(1);
    let extra = vec![vec![CellValue::Text("zeta".into())], vec![CellValue::Text("xyz".into())]];
    append(&mut g, extra).expect("rectangular");
    assert_eq!(g.display_indices, vec![0, 2, 3]);
    assert_eq!(g.selection, Selection::Row(1));
}

#[test]
fn set_row_window_rejects_ragged_pages_with_virtual_index() {
    let mut g = two_by_two();
    let page = vec![vec![CellValue::Integer(1), CellValue::Integer(2)], vec![CellValue::Integer(3)]];
    let texts = texts_of(&page);
    let err = g.set_row_window(100, 40, page, texts).unwrap_err();
    assert_eq!(err, GridDataError::RaggedRow { row_index: 41, expected: 2, actual: 1 });
    assert_eq!(g.window, None);
}

#[test]
fn windowed_mode_maps_virtual_rows_to_residents() {
    let mut g = two_by_two();
    toggle(&mut g, 0);
    let page = vec![vec![CellValue::Integer(9), CellValue::Integer(8)]];
    let texts = texts_of(&page);
    g.set_row_window(1000, 500, page, texts).expect("rectangular");
    assert_eq!(g.window, Some(RowWindow { total_rows: 1000, offset: 500 }));
    assert_eq!(g.sort, None);
    assert_eq!(g.display_row_count(), 1000);
    assert_eq!(g.resident_row_for_display(500), Some(0));
    assert_eq!(g.resident_row_for_display(501), None);
    assert_eq!(g.resident_row_for_display(3), None);
    assert!(g.is_data_display_row(999));
    assert!(!g.is_data_display_row(1000));
    // Sorting is ignored while only a window is resident.
    toggle(&mut g, 0);
    assert_eq!(g.sort, None);
}

#[test]
fn recompute_filters_then_sorts_then_clears() {
    let mut g = names();
    g.filters[0] = ColumnFilter {
        predicate: FilterPredicate::Text { op: TextOp::Contains, operand: "a".into() },
        values: None,
    };
    toggle(&mut g, 0);
    recompute(&mut g);
    assert_eq!(g.display_indices.as_slice(), &[0, 2]);
    toggle(&mut g, 0);
    recompute(&mut g);
    assert_eq!(g.display_indices.as_slice(), &[2, 0]);
    g.filters[0] = ColumnFilter::default();
    toggle(&mut g, 0);
    recompute(&mut g);
    assert_eq!(g.display_indices.as_slice(), &[0, 1, 2]);
}

#[test]
fn descending_sort_keeps_ties_in_source_order() {
    let mut g = grid(
        vec![col("k", ColumnKind::Text)],
        vec![
            vec![CellValue::Text("b".into())],
            vec![CellValue::Text("a".into())],
            vec![CellValue::Text("b".into())],
            vec![CellValue::Text("a".into())],
        ],
    );
    g.sort = Some((0, SortDirection::Descending));
    recompute(&mut g);
    assert_eq!(g.display_indices, vec![0, 2, 1, 3]);
    g.sort = Some((0, SortDirection::Ascending));
    recompute(&mut g);
    assert_eq!(g.display_indices, vec![1, 3, 0, 2]);
}

#[test]
fn toggle_sort_cycles_through_three_states() {
    let mut g = grid(vec![col("v", ColumnKind::Integer)], vec![vec![CellValue::Integer(1)]]);
    toggle(&mut g, 0);
    assert_eq!(g.sort, Some((0, SortDirection::Ascending)));
    toggle(&mut g, 0);
    assert_eq!(g.sort, Some((0, SortDirection::Descending)));
    toggle(&mut g, 0);
    assert_eq!(g.sort, None);
}

#[test]
fn select_all_picks_full_range_when_data_present() {
    let mut g = grid(
        vec![col("a", ColumnKind::Integer), col("b", ColumnKind::Integer)],
        vec![vec![CellValue::Integer(1), CellValue::Integer(2)]],
    );
    g.select_all();
    assert_eq!(g.selection, Selection::CellRange(0, 0, 0, 1));
    assert_eq!(g.selected_cells(), vec![(0, 0), (0, 1)]);
}

#[test]
fn select_all_is_noop_on_empty() {
    let mut g = grid(vec![col("a", ColumnKind::Integer)], vec![]);
    g.select_all();
    assert_eq!(g.selection, Selection::Nothing);
}

#[test]
fn context_menu_request_construction() {
    let mut g = grid(
        vec![col("id", ColumnKind::Integer), col("name", ColumnKind::Text)],
        vec![
            vec![CellValue::Integer(1), CellValue::Text("alpha".into())],
            vec![CellValue::Integer(2), CellValue::Text("beta".into())],
            vec![CellValue::Integer(3), CellValue::Text("gamma".into())],
        ],
    );
    g.sort = Some((0, SortDirection::Descending));
    recompute(&mut g);
    assert_eq!(g.display_indices.as_slice(), &[2, 1, 0]);

    let target = ContextMenuTarget::Cell { display_row_index: 0, source_row_index: 2, column_index: 1 };
    let req = g.build_context_menu_request(target, &Selection::Cell(0, 1));
    assert_eq!(req.target.column_index(), Some(1));
    let cells = req.selected_cells();
    assert_eq!(cells.len(), 1);
    assert_eq!(cells[0].source_row_index, 2);
    assert_eq!(cells[0].column_name, "name");
    assert_eq!(cells[0].value, CellValue::Text("gamma".into()));
    let rows = req.selected_rows();
    assert_eq!(rows.len(), 1);
    assert_eq!(rows[0].source_row_index, 2);
    assert_eq!(rows[0].value_by_name("id"), Some(&CellValue::Integer(3)));

    let target = ContextMenuTarget::Cell { display_row_index: 0, source_row_index: 2, column_index: 0 };
    let req = g.build_context_menu_request(target, &Selection::CellRange(0, 0, 1, 1));
    assert_eq!(req.selected_cells().len(), 4);
    let rows = req.selected_rows();
    assert_eq!(rows.len(), 2);
    assert_eq!(rows[0].source_row_index, 2);
    assert_eq!(rows[1].source_row_index, 1);

    let target = ContextMenuTarget::RowHeader { display_row_index: 1, source_row_index: 1 };
    let req = g.build_context_menu_request(target, &Selection::RowRange(0, 2));
    let rows = req.selected_rows();
    assert_eq!(rows.len(), 3);
    assert_eq!(rows[0].values.len(), 2);
    assert_eq!(req.selected_cells().len(), 6);

    let target = ContextMenuTarget::ColumnHeader { column_index: 0 };
    let req = g.build_context_menu_request(target, &Selection::Column(0));
    assert!(req.selected_rows().is_empty());
    assert_eq!(req.selected_cells().len(), 3);
    let sel = req.selection.unwrap();
    assert_eq!((sel.row_start, sel.row_end, sel.column_start, sel.column_end), (0, 2, 0, 0));

    let empty = grid(vec![col("x", ColumnKind::Integer)], vec![]);
    let target = ContextMenuTarget::Cell { display_row_index: 0, source_row_index: 0, column_index: 0 };
    let req = empty.build_context_menu_request(target, &Selection::Nothing);
    assert!(req.selected_cells().is_empty());
    assert!(req.selected_rows().is_empty());
}

#[test]
fn context_menu_request_in_a_grouped_grid_indexes_data_rows() {
    let mut g = grid(
        vec![col("k", ColumnKind::Text), col("v", ColumnKind::Integer)],
        vec![
            vec![CellValue::Text("a".into()), CellValue::Integer(10)],
            vec![CellValue::Text("b".into()), CellValue::Integer(20)],
            vec![CellValue::Text("a".into()), CellValue::Integer(30)],
        ],
    );
    g.set_grouped_column(Some(0));
    // Display: [hdr a, row0, row2, hdr b, row1].
    assert_eq!(g.display_row_count(), 5);
    let target = ContextMenuTarget::Cell { display_row_index: 2, source_row_index: 2, column_index: 1 };
    let req = g.build_context_menu_request(target, &Selection::Cell(2, 1));
    assert_eq!(req.target.display_row_index(), Some(1));
    let cells = req.selected_cells();
    assert_eq!(cells.len(), 1);
    assert_eq!(cells[0].source_row_index, 2);
    assert_eq!(cells[0].value, CellValue::Integer(30));
    assert_eq!(req.clicked_cell().unwrap().value, CellValue::Integer(30));
    // A click on the second header maps to the next data row.
    let target = ContextMenuTarget::RowHeader { display_row_index: 3, source_row_index: 3 };
    let req = g.build_context_menu_request(target, &Selection::Row(3));
    assert_eq!(req.selected_rows().len(), 1);
    assert_eq!(req.selected_rows()[0].source_row_index, 1);
}

#[test]
fn context_menu_request_in_windowed_mode_uses_resident_rows() {
    let mut g = two_by_two();
    let page = vec![
        vec![CellValue::Integer(5), CellValue::Integer(6)],
        vec![CellValue::Integer(7), CellValue::Integer(8)],
    ];
    let texts = texts_of(&page);
    g.set_row_window(100, 20, page, texts).expect("rectangular");
    let target = ContextMenuTarget::Cell { display_row_index: 21, source_row_index: 1, column_index: 0 };
    let req = g.build_context_menu_request(target, &Selection::Cell(21, 0));
    assert_eq!(req.target.display_row_index(), Some(1));
    assert_eq!(req.selected_cells()[0].value, CellValue::Integer(7));
}

#[test]
fn effective_selection_for_context_target() {
    let mut g = two_by_two();
    g.selection = Selection::Cell(0, 0);
    let target = ContextMenuTarget::Cell { display_row_index: 1, source_row_index: 1, column_index: 1 };
    assert_eq!(g.effective_selection_for_context_target(&target), Selection::Cell(1, 1));

    g.selection = Selection::CellRange(0, 0, 1, 1);
    assert_eq!(g.effective_selection_for_context_target(&target), Selection::CellRange(0, 0, 1, 1));

    g.selection = Selection::Cell(0, 0);
    let target = ContextMenuTarget::RowHeader { display_row_index: 1, source_row_index: 1 };
    assert_eq!(g.effective_selection_for_context_target(&target), Selection::Row(1));

    g.selection = Selection::RowRange(0, 1);
    assert_eq!(g.effective_selection_for_context_target(&target), Selection::RowRange(0, 1));

    g.selection = Selection::Cell(1, 1);
    let target = ContextMenuTarget::ColumnHeader { column_index: 0 };
    assert_eq!(g.effective_selection_for_context_target(&target), Selection::Cell(1, 1));
}

#[test]
fn context_menu_target_from_hit_maps_correctly() {
    let g = grid(vec![col("a", ColumnKind::Integer)], vec![vec![CellValue::Integer(1)], vec![CellValue::Integer(2)]]);
    assert_eq!(
        g.context_menu_target_from_hit(HitResult::Cell(1, 0)).unwrap(),
        ContextMenuTarget::Cell { display_row_index: 1, source_row_index: 1, column_index: 0 }
    );
    assert_eq!(
        g.context_menu_target_from_hit(HitResult::RowHeader(0)).unwrap(),
        ContextMenuTarget::RowHeader { display_row_index: 0, source_row_index: 0 }
    );
    assert_eq!(
        g.context_menu_target_from_hit(HitResult::ColumnHeader(0)).unwrap(),
        ContextMenuTarget::ColumnHeader { column_index: 0 }
    );
    assert_eq!(
        g.context_menu_target_from_hit(HitResult::SortButton(0)).unwrap(),
        ContextMenuTarget::SortButton { column_index: 0 }
    );
    assert!(g.context_menu_target_from_hit(HitResult::VerticalScrollbar).is_none());
    assert!(g.context_menu_target_from_hit(HitResult::Nothing).is_none());
}

#[test]
fn convert_context_menu_items_maps_variants() {
    let items = vec![
        ContextMenuItem::BuiltIn(MenuAction::SortAscending),
        ContextMenuItem::action("copy", "Copy value"),
        ContextMenuItem::separator(),
    ];
    let internal = GridState::convert_context_menu_items(items);
    assert!(matches!(internal[0], MenuItem::Action(MenuAction::SortAscending)));
    assert!(matches!(&internal[1], MenuItem::Custom { id, label } if id == "copy" && label == "Copy value"));
    assert!(matches!(internal[2], MenuItem::Separator));
}

#[test]
fn filter_panel_open_apply_clear_state_flow() {
    let mut g = names();
    g.open_filter_panel(0);
    let panel = g.filter_panel.as_ref().expect("panel should be open");
    assert_eq!(panel.col, 0);
    assert_eq!(panel.distinct.len(), 3);
    assert!(panel.distinct.iter().all(|r| r.checked), "all checked by default");
    assert!(panel.auto_apply, "auto_apply defaults to true");
    assert_eq!(panel.kind, ColumnKind::Text);

    toggle_value(&mut g, 1);
    apply_panel(&mut g);
    recompute(&mut g);
    assert_eq!(g.display_indices.as_slice(), &[0, 2], "beeb should be filtered out");

    clear_panel(&mut g);
    recompute(&mut g);
    assert_eq!(g.display_indices.as_slice(), &[0, 1, 2], "all rows visible after clear");
    assert!(matches!(g.filters[0].predicate, FilterPredicate::Nothing));
    assert!(g.filters[0].values.is_none());

    g.open_filter_panel(0);
    set_operator(&mut g, 1); // "contains"
    assert_eq!(g.filter_panel.as_ref().unwrap().focus, FilterInput::OperandA);
    key(&mut g, GridKey::Other, false, Some('a'));
    recompute(&mut g);
    assert_eq!(g.display_indices.as_slice(), &[0, 2], "contains 'a' matches alpha and gamma");

    clear_panel(&mut g);
    recompute(&mut g);
    assert_eq!(g.display_indices.as_slice(), &[0, 1, 2]);
}

#[test]
fn filter_panel_lists_distinct_values_by_rank_and_seeds_checks() {
    let mut g = grid(
        vec![col("c", ColumnKind::Text)],
        vec![
            vec![CellValue::Text("pear".into())],
            vec![CellValue::Text("apple".into())],
            vec![CellValue::Text("pear".into())],
            vec![CellValue::Text("fig".into())],
        ],
    );
    g.filters[0] = ColumnFilter { predicate: FilterPredicate::Nothing, values: Some(vec!["fig".into()]) };
    g.open_filter_panel(0);
    let panel = g.filter_panel.as_ref().unwrap();
    let labels: Vec<&str> = panel.distinct.iter().map(|r| r.label.as_str()).collect();
    assert_eq!(labels, ["apple", "fig", "pear"]);
    let checks: Vec<bool> = panel.distinct.iter().map(|r| r.checked).collect();
    assert_eq!(checks, [false, true, false]);
    // Out-of-range columns are ignored.
    let mut h = names();
    h.open_filter_panel(5);
    assert!(h.filter_panel.is_none());
}

#[test]
fn filter_panel_select_all_toggles_every_value() {
    let mut g = names();
    g.open_filter_panel(0);
    select_all(&mut g);
    assert!(g.filter_panel.as_ref().unwrap().distinct.iter().all(|r| !r.checked));
    assert_eq!(g.filters[0].values.as_ref().map(|v| v.len()), Some(0));
    select_all(&mut g);
    assert!(g.filter_panel.as_ref().unwrap().all_checked());
    assert!(g.filters[0].values.is_none());
}

#[test]
fn panel_sort_button_twice_turns_sort_off() {
    let mut g = names();
    g.open_filter_panel(0);
    sort_from_panel(&mut g, SortDirection::Descending);
    assert_eq!(g.sort, Some((0, SortDirection::Descending)));
    assert_eq!(g.display_indices, vec![2, 1, 0]);
    sort_from_panel(&mut g, SortDirection::Descending);
    assert_eq!(g.sort, None);
    assert_eq!(g.display_indices, vec![0, 1, 2]);
    assert!(!g.needs_recompute);
}

#[test]
fn filter_panel_keys_edit_escape_and_enter() {
    let mut g = names();
    g.open_filter_panel(0);
    key(&mut g, GridKey::Other, false, Some('b'));
    assert_eq!(g.filter_panel.as_ref().unwrap().search.value, "b");
    key(&mut g, GridKey::Backspace, false, None);
    assert_eq!(g.filter_panel.as_ref().unwrap().search.value, "");
    g.toggle_filter_op_menu();
    assert!(g.filter_panel.as_ref().unwrap().op_menu_open);
    g.set_filter_focus(FilterInput::OperandB);
    assert_eq!(g.filter_panel.as_ref().unwrap().focus, FilterInput::OperandB);
    key(&mut g, GridKey::Escape, false, None);
    assert!(g.filter_panel.is_none());
}

#[test]
fn arrows_move_and_shift_arrows_extend_with_a_fixed_anchor() {
    let mut g = grid(
        vec![col("a", ColumnKind::Integer), col("b", ColumnKind::Integer), col("c", ColumnKind::Integer)],
        (0..4).map(|i| vec![CellValue::Integer(i), CellValue::Integer(i), CellValue::Integer(i)]).collect(),
    );
    // With nothing selected, an arrow selects the first data cell.
    key(&mut g, GridKey::Down, false, None);
    assert_eq!(g.selection, Selection::Cell(0, 0));
    key(&mut g, GridKey::Down, false, None);
    key(&mut g, GridKey::Right, false, None);
    assert_eq!(g.selection, Selection::Cell(1, 1));
    key(&mut g, GridKey::Down, true, None);
    key(&mut g, GridKey::Right, true, None);
    assert_eq!(g.selection, Selection::CellRange(1, 1, 2, 2));
    assert_eq!(g.range_anchor, Some((1, 1)));
    key(&mut g, GridKey::Up, true, None);
    key(&mut g, GridKey::Up, true, None);
    assert_eq!(g.selection, Selection::CellRange(0, 1, 1, 2));
    assert_eq!(g.range_anchor, Some((1, 1)));
    assert_eq!(g.range_active, Some((0, 2)));
    // Clamped at the edges.
    key(&mut g, GridKey::Right, true, None);
    assert_eq!(g.range_active, Some((0, 2)));
    key(&mut g, GridKey::Escape, false, None);
    assert_eq!(g.selection, Selection::Nothing);
    assert_eq!(g.range_anchor, None);
}

#[test]
fn paging_moves_by_whole_pages_and_clamps() {
    let mut g = grid(vec![col("a", ColumnKind::Integer)], (0..10).map(|i| vec![CellValue::Integer(i)]).collect());
    g.selection = Selection::Cell(2, 0);
    g.page_down(5);
    assert_eq!(g.selection, Selection::Cell(7, 0));
    g.page_down(5);
    assert_eq!(g.selection, Selection::Cell(9, 0));
    g.page_up(4);
    assert_eq!(g.selection, Selection::Cell(5, 0));
    g.page_up(40);
    assert_eq!(g.selection, Selection::Cell(0, 0));
}

#[test]
fn arrows_skip_section_headers_in_a_grouped_grid() {
    let mut g = grid(
        vec![col("k", ColumnKind::Text)],
        vec![
            vec![CellValue::Text("a".into())],
            vec![CellValue::Text("b".into())],
            vec![CellValue::Text("a".into())],
        ],
    );
    g.set_grouped_column(Some(0));
    // Display: [hdr a, row0, row2, hdr b, row1].
    assert_eq!(g.first_data_row(), Some(1));
    g.move_selection(0, 1);
    assert_eq!(g.selection, Selection::Cell(1, 0));
    g.move_selection(0, 2);
    assert_eq!(g.selection, Selection::Cell(4, 0));
    g.move_selection(0, 5);
    assert_eq!(g.selection, Selection::Cell(4, 0));
    g.move_selection(0, -1);
    assert_eq!(g.selection, Selection::Cell(2, 0));
}

#[test]
fn sections_collapse_and_expand() {
    let mut g = grid(
        vec![col("k", ColumnKind::Text)],
        vec![
            vec![CellValue::Text("a".into())],
            vec![CellValue::Text("b".into())],
            vec![CellValue::Text("a".into())],
        ],
    );
    g.set_grouped_column(Some(0));
    assert_eq!(g.grouped_column(), Some(0));
    assert_eq!(g.row_groups().len(), 2);
    assert_eq!(g.row_groups()[0].label, "a");
    assert_eq!(g.row_groups()[0].row_count, 2);
    g.toggle_group(0);
    assert!(g.row_groups()[0].collapsed);
    assert_eq!(g.display_row_count(), 3);
    assert_eq!(g.collapsed_group_labels, vec!["a".to_string()]);
    g.toggle_group(0);
    assert!(!g.row_groups()[0].collapsed);
    assert_eq!(g.display_row_count(), 5);
    assert!(g.collapsed_group_labels.is_empty());
    // Out of range: ignored.
    g.toggle_group(7);
    assert_eq!(g.display_row_count(), 5);
    // Clearing the grouping shows the rows flat again.
    g.set_grouped_column(None);
    assert_eq!(g.display_row_count(), 3);
    assert!(g.row_groups().is_empty());
}

#[test]
fn selected_rows_columns_and_cells_expand_the_selection() {
    let mut g = two_by_two();
    g.selection = Selection::RowRange(1, 0);
    assert_eq!(g.selected_rows(), vec![0, 1]);
    assert_eq!(g.selected_cells(), vec![(0, 0), (0, 1), (1, 0), (1, 1)]);
    g.selection = Selection::Column(1);
    assert_eq!(g.selected_columns(), vec![1]);
    assert!(g.selected_rows().is_empty());
    assert_eq!(g.selected_cells(), vec![(0, 1), (1, 1)]);
    g.selection = Selection::Column(5);
    assert!(g.selected_columns().is_empty());
    assert!(g.selected_cells().is_empty());
    g.selection = Selection::CellRange(1, 1, 9, 9);
    assert_eq!(g.selected_cells(), vec![(1, 1)]);
    g.selection = Selection::Row(4);
    assert!(g.selected_rows().is_empty());
}

#[test]
fn selection_text_copies_the_clamped_selection() {
    let mut g = two_by_two();
    assert_eq!(g.selection_text(false), None);
    g.selection = Selection::CellRange(0, 0, 5, 5);
    assert_eq!(g.selection_text(false).unwrap(), "1\t2\n3\t4\n");
    assert_eq!(g.selection_text(true).unwrap(), "a\tb\n1\t2\n3\t4\n");
    g.selection = Selection::Column(1);
    assert_eq!(g.selection_text(true).unwrap(), "b\n2\n4\n");
}

#[test]
fn copy_actions_hand_back_the_column_text() {
    let mut g = names();
    g.open_context_menu(0);
    assert!(g.context_menu.is_some());
    match act(&mut g, MenuAction::CopyColumn, 0) {
        ActionEffect::Copy(t) => assert_eq!(t, "alpha\nbeeb\ngamma\n"),
        _ => panic!("expected a copy"),
    }
    assert!(g.context_menu.is_none());
    match act(&mut g, MenuAction::CopyColumnWithHeaders, 0) {
        ActionEffect::Copy(t) => assert_eq!(t, "name\nalpha\nbeeb\ngamma\n"),
        _ => panic!("expected a copy"),
    }
    assert!(matches!(act(&mut g, MenuAction::FilterPrompt, 0), ActionEffect::OpenFilterPanel(0)));
    assert!(matches!(act(&mut g, MenuAction::SortDescending, 0), ActionEffect::Nothing));
    assert_eq!(g.sort, Some((0, SortDirection::Descending)));
    assert!(!g.needs_recompute);
    assert_eq!(g.display_indices, vec![2, 1, 0]);
    act(&mut g, MenuAction::ClearSort, 0);
    assert_eq!(g.sort, None);
    assert_eq!(g.display_indices, vec![0, 1, 2]);
    act(&mut g, MenuAction::SelectColumn, 0);
    assert_eq!(g.selection, Selection::Column(0));
    act(&mut g, MenuAction::GroupBy, 0);
    assert_eq!(g.grouped_column, Some(0));
    act(&mut g, MenuAction::ClearGrouping, 0);
    assert_eq!(g.grouped_column, None);
}

#[test]
fn mouse_presses_select_and_report_what_to_track() {
    let mut g = two_by_two();
    assert_eq!(press(&mut g, HitResult::Cell(0, 0), false), PressEffect::Drag);
    assert_eq!(g.selection, Selection::Cell(0, 0));
    assert_eq!(press(&mut g, HitResult::Cell(1, 1), true), PressEffect::Drag);
    assert_eq!(g.selection, Selection::CellRange(0, 0, 1, 1));
    assert_eq!(g.range_anchor, Some((0, 0)));
    press(&mut g, HitResult::RowHeader(1), false);
    press(&mut g, HitResult::RowHeader(0), true);
    assert_eq!(g.selection, Selection::RowRange(0, 1));
    assert_eq!(
        press(&mut g, HitResult::VerticalScrollbar, false),
        PressEffect::ScrollbarDrag(ScrollbarAxis::Vertical)
    );
    assert_eq!(press(&mut g, HitResult::ColumnBorder(1), false), PressEffect::ResizeColumn(1));
    assert_eq!(press(&mut g, HitResult::SortButton(1), false), PressEffect::Nothing);
    assert_eq!(g.sort, Some((1, SortDirection::Ascending)));
    assert_eq!(g.selection, Selection::RowRange(0, 1), "the sort button leaves the selection alone");
    assert_eq!(press(&mut g, HitResult::SortButton(1), false), PressEffect::Nothing);
    assert_eq!(g.sort, Some((1, SortDirection::Descending)));
    assert_eq!(g.display_indices, vec![1, 0]);
    g.open_context_menu(0);
    press(&mut g, HitResult::Corner, false);
    assert_eq!(g.selection, Selection::Nothing);
    assert!(g.context_menu.is_none());
}

#[test]
fn dragging_spans_cells_rows_and_columns() {
    let mut g = two_by_two();
    g.update_drag(HitResult::Cell(1, 1), HitResult::Cell(0, 0));
    assert_eq!(g.selection, Selection::CellRange(0, 0, 1, 1));
    g.update_drag(HitResult::RowHeader(1), HitResult::RowHeader(0));
    assert_eq!(g.selection, Selection::RowRange(0, 1));
    g.update_drag(HitResult::ColumnHeader(1), HitResult::SortButton(1));
    assert_eq!(g.selection, Selection::Column(1));
    g.update_drag(HitResult::ColumnHeader(1), HitResult::ColumnHeader(0));
    assert_eq!(g.selection, Selection::CellRange(0, 0, usize::MAX, 1));
    g.update_drag(HitResult::Cell(0, 0), HitResult::RowHeader(1));
    assert_eq!(g.selection, Selection::CellRange(0, 0, usize::MAX, 1));
}

#[test]
fn status_helpers_render_columns_and_rows() {
    assert_eq!(col_row_from_hit(Some(HitResult::Cell(3, 4))), (Some(4), Some(3)));
    assert_eq!(col_row_from_hit(Some(HitResult::RowHeader(2))), (None, Some(2)));
    assert_eq!(col_row_from_hit(Some(HitResult::SortButton(6))), (Some(6), None));
    assert_eq!(col_row_from_hit(None), (None, None));
    assert_eq!(fmt_cr(Some(12), Some(340)), "(col 12, row 340)");
    assert_eq!(fmt_cr(Some(0), None), "(col 0)");
    assert_eq!(fmt_cr(None, Some(7)), "(row 7)");
    assert_eq!(fmt_cr(None, None), "\u{2014}");
}

#[test]
fn tabs_default_to_the_grid_and_the_left() {
    assert_eq!(GridTab::default(), GridTab::Grid);
    assert_eq!(PivotSidebarPosition::default(), PivotSidebarPosition::Left);
}

#[test]
fn gutter_numbers_and_section_headers() {
    let mut g = grid(
        vec![col("k", ColumnKind::Text)],
        vec![
            vec![CellValue::Text("a".into())],
            vec![CellValue::Text("b".into())],
            vec![CellValue::Text("a".into())],
        ],
    );
    assert_eq!(g.row_number(0), 1);
    assert_eq!(g.row_number(2), 3);
    g.set_grouped_column(Some(0));
    // Display: [hdr a, row0, row2, hdr b, row1].
    assert_eq!(g.group(0).map(|s| s.label.as_str()), Some("a"));
    assert_eq!(g.group(3).map(|s| s.row_count), Some(1));
    assert!(g.group(1).is_none());
    // Data rows keep their position in the display order.
    assert_eq!(g.row_number(1), 1);
    assert_eq!(g.row_number(2), 3);
    assert_eq!(g.row_number(4), 2);
    assert_eq!(g.row_number(3), 4);
}

#[test]
fn right_click_opens_menus_and_choices_dispatch() {
    let mut g = two_by_two();
    g.right_click_builtin(HitResult::Cell(0, 0));
    assert!(g.context_menu.is_none());
    g.right_click_builtin(HitResult::SortButton(1));
    assert_eq!(g.context_menu.as_ref().unwrap().col, 1);
    // Row 4 of the standard menu is "Sort Ascending".
    match g.choose_menu_item(4) {
        MenuChoice::Builtin(a, c) => assert_eq!((a, c), (MenuAction::SortAscending, 1)),
        other => panic!("unexpected {other:?}"),
    }
    assert!(g.context_menu.is_none());
    assert_eq!(g.take_pending_action(), Some((MenuAction::SortAscending, 1)));
    assert_eq!(g.take_pending_action(), None);

    g.selection = Selection::Cell(0, 0);
    let req = g.right_click_request(HitResult::Cell(1, 1)).expect("a cell is a target");
    assert_eq!(g.selection, Selection::Cell(1, 1));
    assert_eq!(req.selected_cells().len(), 1);
    assert_eq!(req.selected_cells()[0].value, CellValue::Integer(4));
    g.show_custom_menu(req, vec![ContextMenuItem::action("inspect", "Inspect"), ContextMenuItem::separator()]);
    let menu = g.context_menu.as_ref().unwrap();
    assert_eq!(menu.col, 1);
    assert_eq!(menu.items.len(), 2);
    assert!(matches!(g.choose_menu_item(1), MenuChoice::Nothing));
    match g.choose_menu_item(0) {
        MenuChoice::Custom(id, Some(r)) => {
            assert_eq!(id, "inspect");
            assert_eq!(r.clicked_cell().unwrap().value, CellValue::Integer(4));
        }
        other => panic!("unexpected {other:?}"),
    }
    assert!(g.right_click_request(HitResult::Corner).is_none());
}

#[test]
fn windowed_row_ranges_stay_in_virtual_rows() {
    let mut g = two_by_two();
    let page = vec![
        vec![CellValue::Integer(5), CellValue::Integer(6)],
        vec![CellValue::Integer(7), CellValue::Integer(8)],
    ];
    let texts = texts_of(&page);
    g.set_row_window(1000, 500, page, texts).expect("rectangular");
    g.selection = Selection::RowRange(500, 501);
    let target = g.context_menu_target_from_hit(HitResult::Cell(500, 0)).unwrap();
    let eff = g.effective_selection_for_context_target(&target);
    let req = g.build_context_menu_request(target, &eff);
    // The clicked cell maps to resident row 0 while the row range is clamped
    // to the last resident row, so the snapshot covers row 1 only.
    assert_eq!(req.target.display_row_index(), Some(0));
    assert_eq!(req.selected_rows().len(), 1);
    assert_eq!(req.selected_rows()[0].source_row_index, 1);
    assert!(req.clicked_cell().is_none());
}

#[test]
fn toggle_sort_reorders_the_display_at_once() {
    let mut g = names();
    g.data.rows.swap(0, 2);
    g.cell_texts.swap(0, 2);
    toggle(&mut g, 0);
    assert_eq!(g.sort, Some((0, SortDirection::Ascending)));
    assert_eq!(g.display_indices, vec![2, 1, 0]);
    assert!(!g.needs_recompute);
    toggle(&mut g, 0);
    assert_eq!(g.display_indices, vec![0, 1, 2]);
    toggle(&mut g, 0);
    assert_eq!(g.sort, None);
    assert_eq!(g.display_indices, vec![0, 1, 2]);
}

#[test]
fn column_header_press_selects_the_column_and_cycles_the_sort() {
    let mut g = names();
    assert_eq!(press(&mut g, HitResult::ColumnHeader(0), false), PressEffect::Drag);
    assert_eq!(g.selection, Selection::Column(0));
    assert_eq!(g.sort, Some((0, SortDirection::Ascending)));
    press(&mut g, HitResult::ColumnHeader(0), false);
    assert_eq!(g.sort, Some((0, SortDirection::Descending)));
    assert_eq!(g.display_indices, vec![2, 1, 0]);
    press(&mut g, HitResult::ColumnHeader(0), false);
    assert_eq!(g.sort, None);
    assert_eq!(g.display_indices, vec![0, 1, 2]);
}

#[test]
fn clear_filter_action_restores_every_row() {
    let mut g = names();
    g.filters[0] = ColumnFilter {
        predicate: FilterPredicate::Text { op: TextOp::Contains, operand: "ee".into() },
        values: None,
    };
    recompute(&mut g);
    assert_eq!(g.display_indices, vec![1]);
    act(&mut g, MenuAction::ClearFilter, 0);
    assert!(!g.filters[0].is_active());
    assert_eq!(g.display_indices, vec![0, 1, 2]);
}

#[test]
fn section_counts_add_up_to_the_grouped_rows() {
    let mut g = grid(
        vec![col("region", ColumnKind::Text)],
        vec![
            vec![CellValue::Text("east".into())],
            vec![CellValue::Text("west".into())],
            vec![CellValue::Text("east".into())],
            vec![CellValue::Text("north".into())],
        ],
    );
    g.set_grouped_column(Some(0));
    let counts: Vec<usize> = g.row_groups.iter().map(|s| s.row_count).collect();
    assert_eq!(counts, vec![2, 1, 1]);
    assert_eq!(counts.iter().sum::<usize>(), g.display_indices.len());
}

#[test]
fn text_filter_edits_reorder_at_once_and_numeric_ones_wait_for_the_host() {
    let mut g = names();
    g.open_filter_panel(0);
    set_operator(&mut g, 1);
    key(&mut g, GridKey::Other, false, Some('e'));
    assert!(!g.needs_recompute);
    assert_eq!(g.display_indices, vec![1]);
    let mut n = two_by_two();
    n.open_filter_panel(0);
    n.set_filter_operator(3, &vec![vec![true; 2]; 2]);
    key(&mut n, GridKey::Other, false, Some('2'));
    assert!(matches!(n.filters[0].predicate, FilterPredicate::Number { .. }));
    assert!(n.needs_recompute);
    assert_eq!(n.display_indices, vec![0, 1]);
}

#[test]
fn new_cell_texts_refilter_at_once() {
    let mut g = names();
    g.filters[0] = ColumnFilter {
        predicate: FilterPredicate::Text { op: TextOp::BeginsWith, operand: "x".into() },
        values: None,
    };
    recompute(&mut g);
    assert_eq!(g.display_indices, Vec::<usize>::new());
    let texts = vec![vec!["x-alpha".to_string()], vec!["beeb".to_string()], vec!["X-gamma".to_string()]];
    let outside = vec![vec![true]; 3];
    g.set_cell_texts(texts, &outside);
    assert_eq!(g.display_indices, vec![0, 2]);
    assert!(!g.needs_recompute);
}

#[test]
fn sorting_follows_the_cell_order() {
    let mut g = grid(
        vec![col("n", ColumnKind::Integer)],
        vec![
            vec![CellValue::Integer(10)],
            vec![CellValue::Integer(9)],
            vec![CellValue::Null],
            vec![CellValue::Integer(-1)],
            vec![CellValue::Integer(9)],
        ],
    );
    toggle(&mut g, 0);
    assert_eq!(g.display_indices, vec![3, 1, 4, 0, 2]);
    toggle(&mut g, 0);
    assert_eq!(g.display_indices, vec![2, 0, 1, 4, 3]);
}
