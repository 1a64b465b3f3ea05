use sqlly_datatable::cell_order::{cell_less, column_ranks};
use sqlly_datatable::data::{copy_cell, CellValue, Column, ColumnKind, GridData};
use sqlly_datatable::filter::{row_verdicts, ColumnFilter, FilterPredicate, NumberOp, TextOp};
use sqlly_datatable::filter_panel::{checked_label_list, FilterValueRow};
use sqlly_datatable::state::GridState;

fn text_filter(op: TextOp, operand: &str) -> ColumnFilter {
    ColumnFilter { predicate: FilterPredicate::Text { op, operand: operand.into() }, values: None }
}

#[test]
fn text_operators_compare_case_insensitively() {
    let shown = "Hello World".to_string();
    assert!(text_filter(TextOp::Contains, "LO wo").admits(&shown, false));
    assert!(!text_filter(TextOp::Contains, "xyz").admits(&shown, true));
    assert!(text_filter(TextOp::DoesNotContain, "xyz").admits(&shown, false));
    assert!(!text_filter(TextOp::DoesNotContain, "world").admits(&shown, true));
    assert!(text_filter(TextOp::BeginsWith, "hELLo").admits(&shown, false));
    assert!(!text_filter(TextOp::BeginsWith, "world").admits(&shown, true));
    assert!(text_filter(TextOp::EndsWith, "WORLD").admits(&shown, false));
    assert!(!text_filter(TextOp::EndsWith, "hello").admits(&shown, true));
    assert!(text_filter(TextOp::Is, "hello world").admits(&shown, false));
    assert!(!text_filter(TextOp::Is, "hello").admits(&shown, true));
    assert!(text_filter(TextOp::IsNot, "hello").admits(&shown, false));
    assert!(!text_filter(TextOp::IsNot, "HELLO WORLD").admits(&shown, true));
}

#[test]
fn longer_operands_never_begin_or_end_a_shorter_text() {
    let shown = "ab".to_string();
    assert!(!text_filter(TextOp::BeginsWith, "abc").admits(&shown, true));
    assert!(!text_filter(TextOp::EndsWith, "zab").admits(&shown, true));
    assert!(text_filter(TextOp::BeginsWith, "").admits(&shown, false));
}

#[test]
fn patterns_and_numbers_take_the_outside_verdict() {
    let shown = "42".to_string();
    let number = ColumnFilter {
        predicate: FilterPredicate::Number { op: NumberOp::Gt, a: "10".into(), b: "10".into() },
        values: None,
    };
    assert!(number.admits(&shown, true));
    assert!(!number.admits(&shown, false));
    let pattern = text_filter(TextOp::Matches, "4.");
    assert!(pattern.admits(&shown, true));
    assert!(!pattern.admits(&shown, false));
    assert!(ColumnFilter::default().admits(&shown, false));
}

#[test]
fn allow_list_admits_only_listed_values() {
    let f = ColumnFilter { predicate: FilterPredicate::Nothing, values: Some(vec!["east".into(), "west".into()]) };
    assert!(f.admits(&"east".to_string(), false));
    assert!(!f.admits(&"East".to_string(), true));
    assert!(!f.admits(&"north".to_string(), true));
    let both = ColumnFilter {
        predicate: FilterPredicate::Text { op: TextOp::Contains, operand: "w".into() },
        values: Some(vec!["east".into(), "west".into()]),
    };
    assert!(both.admits(&"west".to_string(), false));
    assert!(!both.admits(&"east".to_string(), true));
}

#[test]
fn row_verdicts_need_every_column_to_pass() {
    let filters = vec![text_filter(TextOp::Contains, "a"), ColumnFilter::default()];
    let texts = vec![
        vec!["alpha".to_string(), "x".to_string()],
        vec!["beta".to_string(), "y".to_string()],
        vec!["echo".to_string(), "z".to_string()],
    ];
    let outside = vec![vec![true, true]; 3];
    assert_eq!(row_verdicts(&filters, &texts, &outside), vec![true, true, false]);
    let strict = vec![text_filter(TextOp::Contains, "a"), text_filter(TextOp::Is, "Y")];
    assert_eq!(row_verdicts(&strict, &texts, &outside), vec![false, true, false]);
}

#[test]
fn grid_verdicts_follow_committed_filters() {
    let rows = vec![vec![CellValue::Text("Alpha".into())], vec![CellValue::Text("beta".into())]];
    let texts = vec![vec!["Alpha".to_string()], vec!["beta".to_string()]];
    let data = GridData::new(vec![Column { name: "n".into(), kind: ColumnKind::Text }], rows).expect("rectangular");
    let mut g = GridState::new(data, texts);
    g.filters[0] = text_filter(TextOp::BeginsWith, "al");
    assert_eq!(g.filter_verdicts(&vec![vec![true]; 2]), vec![true, false]);
}

#[test]
fn checked_labels_are_listed_once_each() {
    let rows = vec![
        FilterValueRow { label: "a".into(), checked: true },
        FilterValueRow { label: "b".into(), checked: false },
        FilterValueRow { label: "a".into(), checked: true },
        FilterValueRow { label: "c".into(), checked: true },
    ];
    assert_eq!(checked_label_list(&rows), vec!["a".to_string(), "c".to_string()]);
}

#[test]
fn cells_order_by_kind_then_value() {
    let n = CellValue::Integer(5);
    let t = CellValue::Text("apple".into());
    let d = CellValue::Date(19000);
    let b = CellValue::Boolean(false);
    let z = CellValue::Null;
    assert!(cell_less(&n, &t) && cell_less(&t, &d) && cell_less(&d, &b) && cell_less(&b, &z));
    assert!(!cell_less(&z, &n));
    assert!(cell_less(&CellValue::Integer(-3), &CellValue::Integer(2)));
    assert!(cell_less(&CellValue::Text("Zebra".into()), &CellValue::Text("apple".into())));
    assert!(cell_less(&CellValue::Boolean(false), &CellValue::Boolean(true)));
    assert!(!cell_less(&CellValue::Date(7), &CellValue::Date(7)));
    assert_eq!(copy_cell(&d), CellValue::Date(19000));
}

#[test]
fn column_ranks_count_the_cells_below() {
    let rows = vec![
        vec![CellValue::Text("b".into())],
        vec![CellValue::Null],
        vec![CellValue::Integer(9)],
        vec![CellValue::Text("a".into())],
        vec![CellValue::Text("b".into())],
    ];
    assert_eq!(column_ranks(&rows, 0), vec![2, 4, 0, 1, 2]);
}
