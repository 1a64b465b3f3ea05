use sqlly_datatable::data::{CellValue, Column, ColumnKind, GridData};
use sqlly_datatable::drill::{drill_filter_label, sorted_strings, str_less};

fn data() -> GridData {
    GridData::new(
        vec![Column { name: "region".into(), kind: ColumnKind::Text }, Column { name: "year".into(), kind: ColumnKind::Integer }],
        vec![vec![CellValue::Text("north".into()), CellValue::Integer(2024)]],
    )
    .expect("rectangular")
}

fn set(values: &[&str]) -> Vec<String> {
    values.iter().map(|v| (*v).to_string()).collect()
}

#[test]
fn drill_label_sorts_values_and_names_fields() {
    let label = drill_filter_label(&data(), &vec![(0, set(&["south", "east"])), (1, set(&["2024"]))]);
    assert_eq!(label, "region = east | south, year = 2024");
}

#[test]
fn drill_label_abbreviates_long_value_lists() {
    let label = drill_filter_label(&data(), &vec![(0, set(&["d", "b", "a", "c"]))]);
    assert_eq!(label, "region = a | b | \u{2026} (4 values)");
}

#[test]
fn drill_label_skips_empty_sets_and_unknown_columns_read_as_question_marks() {
    let label = drill_filter_label(&data(), &vec![(0, vec![]), (9, set(&["x"]))]);
    assert_eq!(label, "? = x");
    assert_eq!(drill_filter_label(&data(), &vec![]), "");
}

#[test]
fn strings_sort_by_code_point_like_str_ordering() {
    let v = set(&["beta", "Alpha", "alpha", "al", "émile", ""]);
    let sorted = sorted_strings(&v);
    let mut expected = v.clone();
    expected.sort();
    assert_eq!(sorted, expected);
    assert!(str_less("al", "alpha"));
    assert!(!str_less("alpha", "al"));
    assert!(!str_less("same", "same"));
    assert!(str_less("Z", "a"));
}
