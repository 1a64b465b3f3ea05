use sqlly_datatable::data::{CellValue, Column, ColumnKind, GridData};
use sqlly_datatable::filter::{ColumnFilter, FilterPredicate, TextOp};
use sqlly_datatable::selection::{Selection, SortDirection};
use sqlly_datatable::state::GridState;

/// Displayed text of a cell: what the host's formatter would paint.
fn shown(cell: &CellValue) -> String {
    match cell {
        CellValue::Integer(i) => i.to_string(),
        CellValue::Text(s) => s.clone(),
        CellValue::Boolean(b) => b.to_string(),
        CellValue::Date(d) => format!("day {d}"),
        CellValue::Null => "NULL".to_string(),
    }
}

fn texts_of(rows: &[Vec<CellValue>]) -> Vec<Vec<String>> {
    rows.iter().map(|r| r.iter().map(shown).collect()).collect()
}

fn text_col(name: &str) -> Column {
    Column { name: name.into(), kind: ColumnKind::Text }
}

fn grid() -> GridState {
    // Two columns; "alpha" appears in col 0 twice and col 1 once, so a
    // search for it must find matches across columns and rows in row-major
    // order.
    let rows = vec![
        vec![CellValue::Text("alpha".into()), CellValue::Text("x".into())],
        vec![CellValue::Text("beta".into()), CellValue::Text("Alpha!".into())],
        vec![CellValue::Text("ALPHAbet".into()), CellValue::Text("y".into())],
    ];
    let texts = texts_of(&rows);
    let data = GridData::new(vec![text_col("a"), text_col("b")], rows).expect("rectangular");
    GridState::new(data, texts)
}

fn recompute(g: &mut GridState) {
    let outside = vec![vec![true; g.filters.len()]; g.cell_texts.len()];
    g.recompute(&outside);
}

#[test]
fn sort_refreshes_matches_under_an_active_search() {
    let mut g = grid();
    g.set_search_query("beta");
    assert_eq!(g.search_matches(), &[(1, 0)]);
    g.sort = Some((0, SortDirection::Descending));
    recompute(&mut g);
    let sorted_pos = g.display_indices.iter().position(|&src| src == 1).expect("row 'beta' still displayed");
    assert_eq!(g.search_matches(), &[(sorted_pos, 0)], "match must re-key to the post-sort display row");
}

#[test]
fn filter_refreshes_matches_under_an_active_search() {
    let mut g = grid();
    g.set_search_query("alpha");
    assert_eq!(g.search_match_count(), 3);
    g.filters[0] = ColumnFilter {
        predicate: FilterPredicate::Text { op: TextOp::Contains, operand: "beta".into() },
        ..ColumnFilter::default()
    };
    recompute(&mut g);
    assert_eq!(g.search_matches(), &[(0, 1)]);
}

#[test]
fn windowed_paging_rekeys_matches_to_virtual_rows_and_scans_only_residents() {
    let mut g = grid();
    let page = vec![
        vec![CellValue::Text("alpha".into()), CellValue::Text("x".into())],
        vec![CellValue::Text("y".into()), CellValue::Text("alpha".into())],
    ];
    let texts = texts_of(&page);
    g.set_row_window(100, 10, page, texts).expect("rectangular");
    g.set_search_query("alpha");
    assert_eq!(g.search_matches(), &[(10, 0), (11, 1)]);
    let page = vec![vec![CellValue::Text("nothing".into()), CellValue::Text("alpha".into())]];
    let texts = texts_of(&page);
    g.set_row_window(100, 50, page, texts).expect("rectangular");
    assert_eq!(g.search_matches(), &[(50, 1)]);
}

#[test]
fn append_rows_extends_matches_under_an_active_search() {
    let mut g = grid();
    g.set_search_query("alpha");
    assert_eq!(g.search_match_count(), 3);
    let extra = vec![vec![CellValue::Text("alphine".into()), CellValue::Text("alpha".into())]];
    let texts = texts_of(&extra);
    let outside = vec![vec![true; 2]; 4];
    g.append_rows(extra, texts, &outside).expect("rectangular");
    assert_eq!(g.search_match_count(), 4);
    assert!(g.search_matches().contains(&(3, 1)));
}

#[test]
fn null_placeholder_text_is_searchable() {
    let rows = vec![vec![CellValue::Null], vec![CellValue::Text("x".into())]];
    let texts = texts_of(&rows);
    let data = GridData::new(vec![text_col("a")], rows).expect("rectangular");
    let mut g = GridState::new(data, texts);
    let placeholder = g.cell_texts[0][0].clone();
    assert!(!placeholder.is_empty(), "default null placeholder exists");
    g.set_search_query(&placeholder);
    assert_eq!(g.search_matches(), &[(0, 0)]);
}

#[test]
fn range_selection_anchors_the_first_match() {
    let mut g = grid();
    g.selection = Selection::CellRange(1, 0, 2, 1);
    g.set_search_query("alpha");
    assert_eq!(g.search_active_cell(), Some((1, 1)));
}

#[test]
fn search_finds_case_insensitive_matches_across_columns_row_major() {
    let mut g = grid();
    g.set_search_query("alpha");
    assert_eq!(g.search_matches(), &[(0, 0), (1, 1), (2, 0)]);
    assert_eq!(g.search_match_count(), 3);
    assert!(g.search_is_active());
    assert_eq!(g.search_active_ordinal(), Some(1));
    assert_eq!(g.search_active_cell(), Some((0, 0)));
}

#[test]
fn next_and_prev_wrap_around() {
    let mut g = grid();
    g.set_search_query("alpha");
    assert_eq!(g.search_active_cell(), Some((0, 0)));
    g.search_next();
    assert_eq!(g.search_active_cell(), Some((1, 1)));
    g.search_next();
    assert_eq!(g.search_active_cell(), Some((2, 0)));
    g.search_next(); // wraps
    assert_eq!(g.search_active_cell(), Some((0, 0)));
    g.search_prev(); // wraps back
    assert_eq!(g.search_active_cell(), Some((2, 0)));
}

#[test]
fn count_label_and_no_matches() {
    let mut g = grid();
    g.set_search_query("alpha");
    assert_eq!(g.search_count_label(), "1 of 3");
    g.set_search_query("nothing-here");
    assert_eq!(g.search_count_label(), "No matches");
    assert_eq!(g.search_match_count(), 0);
    assert_eq!(g.search_active_cell(), None);
}

#[test]
fn blank_query_clears_search() {
    let mut g = grid();
    g.set_search_query("alpha");
    assert!(g.search_is_active());
    g.set_search_query("   ");
    assert!(!g.search_is_active());
    assert_eq!(g.search_match_count(), 0);
    assert!(g.search_matches().is_empty());
}

#[test]
fn truncated_count_label_has_a_plus() {
    let mut g = grid();
    g.set_search_query("alpha");
    g.search.truncated = true;
    g.search_next();
    assert_eq!(g.search_count_label(), "2 of 3+");
}

#[test]
fn search_keeps_the_typed_query_but_blank_detection_trims() {
    let mut g = grid();
    g.set_search_query("  BETA ");
    assert_eq!(g.search.query, "  BETA ");
    // The query is matched as typed, spaces included.
    assert_eq!(g.search_match_count(), 0);
    g.set_search_query("BETA");
    assert_eq!(g.search_matches(), &[(1, 0)]);
}

#[test]
fn prev_then_next_returns_to_the_focused_match() {
    let mut g = grid();
    g.set_search_query("alpha");
    g.search_next();
    let before = g.search_active_cell();
    g.search_prev();
    g.search_next();
    assert_eq!(g.search_active_cell(), before);
}

#[test]
fn grouping_rescans_matches_against_the_sections() {
    let mut g = grid();
    g.set_search_query("alpha");
    g.set_grouped_column(Some(1));
    // Three sections ("x", "Alpha!", "y"), each header followed by its row.
    assert_eq!(g.display_row_count(), 6);
    assert_eq!(g.search_matches(), &[(1, 0), (3, 1), (5, 0)]);
}

#[test]
fn search_matches_are_row_major_and_looked_up_by_cell() {
    let mut g = grid();
    g.set_search_query("ALPHA");
    let m = g.search_matches().to_vec();
    assert_eq!(m, vec![(0, 0), (1, 1), (2, 0)]);
    assert!(m.windows(2).all(|w| w[0] < w[1]));
    assert!(g.search_is_match(1, 1));
    assert!(!g.search_is_match(1, 0));
    assert!(!g.search_is_match(7, 7));
}

#[test]
fn whitespace_only_query_turns_search_off() {
    let mut g = grid();
    g.set_search_query("alpha");
    assert!(g.search_is_active());
    g.set_search_query(" \t\u{3000}\n");
    assert!(!g.search_is_active());
    assert_eq!(g.search_match_count(), 0);
    g.set_search_query("  beta ");
    assert!(g.search_is_active());
}
