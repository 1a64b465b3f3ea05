use sqlly_datatable::data::ColumnKind;
use sqlly_datatable::filter::{FilterPredicate, NumberOp, TextOp};
use sqlly_datatable::numeric::{is_date_operand, is_number_operand};
use sqlly_datatable::filter_panel::{seed_operator, text_op_index, number_op_index, FilterInput, FilterPanel, FilterValueRow};
use sqlly_datatable::text_input::TextInput;

fn panel(kind: ColumnKind, search: &str, rows: &[(&str, bool)]) -> FilterPanel {
    FilterPanel {
        col: 0,
        kind,
        search: if search.is_empty() { TextInput::default() } else { TextInput::new(search.into()) },
        op_index: 0,
        op_menu_open: false,
        operand_a: TextInput::default(),
        operand_b: TextInput::default(),
        focus: FilterInput::Search,
        auto_apply: true,
        distinct: rows.iter().map(|(l, c)| FilterValueRow { label: (*l).into(), checked: *c }).collect(),
    }
}

#[test]
fn filter_panel_to_filter_with_all_checked_has_no_value_set() {
    let panel = panel(ColumnKind::Text, "", &[("alpha", true), ("beta", true)]);
    let f = panel.to_filter();
    assert!(f.values.is_none(), "all checked => no value allow-list");
    assert!(!f.is_active(), "default predicate + all checked => inactive");
}

#[test]
fn filter_panel_to_filter_with_unchecked_value_builds_allow_set() {
    let panel = panel(ColumnKind::Text, "", &[("alpha", true), ("beta", false)]);
    let f = panel.to_filter();
    assert!(f.is_active(), "unchecked value => active filter");
    let set = f.values.expect("should have a value set");
    assert!(set.contains(&"alpha".to_string()));
    assert!(!set.contains(&"beta".to_string()));
}

#[test]
fn filter_panel_visible_indices_respects_search() {
    let panel = panel(ColumnKind::Text, "al", &[("alpha", true), ("beta", true), ("gamma", true)]);
    let vis = panel.visible_indices();
    assert_eq!(vis, vec![0], "search 'al' matches only alpha");
}

#[test]
fn filter_panel_all_checked_ignores_search() {
    let mut panel = panel(ColumnKind::Text, "al", &[("alpha", true), ("beta", false), ("gamma", true)]);
    assert!(!panel.all_checked(), "beta is unchecked, so not all values are checked (search is irrelevant)");
    panel.search = TextInput::new("zzz".into());
    for row in &mut panel.distinct {
        row.checked = true;
    }
    assert!(panel.all_checked(), "all values checked -> Select All stays checked regardless of empty search");
}

#[test]
fn visible_indices_ignore_case() {
    let panel = panel(ColumnKind::Text, "AL", &[("Alpha", true), ("beta", true), ("Gamma", true)]);
    assert_eq!(panel.visible_indices(), vec![0]);
    let all = panel_with_empty_search();
    assert_eq!(all.visible_indices(), vec![0, 1]);
}

fn panel_with_empty_search() -> FilterPanel {
    panel(ColumnKind::Text, "", &[("x", true), ("y", false)])
}

#[test]
fn operator_labels_follow_the_column_kind() {
    let text = panel(ColumnKind::Text, "", &[]);
    assert_eq!(text.op_labels().len(), 8);
    assert_eq!(text.current_op_label(), "Choose One");
    let mut num = panel(ColumnKind::Integer, "", &[]);
    assert_eq!(num.op_labels().len(), 9);
    num.op_index = 7;
    assert_eq!(num.current_op_label(), "between");
    assert!(num.needs_operand());
    assert!(num.needs_second_operand());
    num.op_index = 42;
    assert_eq!(num.current_op_label(), "Choose One");
}

#[test]
fn predicates_follow_operator_and_operands() {
    let mut p = panel(ColumnKind::Text, "", &[("a", true)]);
    p.op_index = 3;
    p.operand_a = TextInput::new("ab".into());
    match p.build_predicate() {
        FilterPredicate::Text { op, operand } => {
            assert_eq!(op, TextOp::BeginsWith);
            assert_eq!(operand, "ab");
        }
        other => panic!("unexpected {other:?}"),
    }
    let mut n = panel(ColumnKind::Decimal, "", &[]);
    n.op_index = 8;
    n.operand_a = TextInput::new("1".into());
    n.operand_b = TextInput::new("  ".into());
    match n.build_predicate() {
        FilterPredicate::Number { op, a, b } => {
            assert_eq!(op, NumberOp::NotBetween);
            assert_eq!(a, "1");
            assert_eq!(b, "1", "a blank upper bound repeats the lower one");
        }
        other => panic!("unexpected {other:?}"),
    }
    n.operand_a = TextInput::new(" ".into());
    assert_eq!(n.build_predicate(), FilterPredicate::Nothing);
}

#[test]
fn seeding_shows_a_committed_predicate_again() {
    let (i, a, b) = seed_operator(
        ColumnKind::Integer,
        &FilterPredicate::Number { op: NumberOp::Between, a: "2".into(), b: "5".into() },
    );
    assert_eq!((i, a.as_str(), b.as_str()), (7, "2", "5"));
    let (i, a, b) = seed_operator(
        ColumnKind::Integer,
        &FilterPredicate::Number { op: NumberOp::Gt, a: "2".into(), b: "2".into() },
    );
    assert_eq!((i, a.as_str(), b.as_str()), (3, "2", ""));
    let (i, a, _) = seed_operator(ColumnKind::Text, &FilterPredicate::Text { op: TextOp::IsNot, operand: "q".into() });
    assert_eq!((i, a.as_str()), (6, "q"));
    assert_eq!(text_op_index(TextOp::Matches), 7);
    assert_eq!(number_op_index(NumberOp::Eq), 1);
}

fn number_panel(kind: ColumnKind, op_index: usize, a: &str, b: &str) -> FilterPanel {
    let mut p = panel(kind, "", &[]);
    p.op_index = op_index;
    p.operand_a = TextInput::new(a.into());
    p.operand_b = TextInput::new(b.into());
    p
}

#[test]
fn numeric_operands_must_name_numbers() {
    let gt = number_op_index(NumberOp::Gt);
    assert_eq!(number_panel(ColumnKind::Integer, gt, "abc", "").build_predicate(), FilterPredicate::Nothing);
    assert_eq!(number_panel(ColumnKind::Integer, gt, "   ", "").build_predicate(), FilterPredicate::Nothing);
    assert_eq!(
        number_panel(ColumnKind::Integer, gt, " 1,000 ", "").build_predicate(),
        FilterPredicate::Number { op: NumberOp::Gt, a: " 1,000 ".into(), b: " 1,000 ".into() }
    );
    let between = number_op_index(NumberOp::Between);
    assert_eq!(
        number_panel(ColumnKind::Decimal, between, "1.5", "oops").build_predicate(),
        FilterPredicate::Number { op: NumberOp::Between, a: "1.5".into(), b: "1.5".into() }
    );
    assert_eq!(
        number_panel(ColumnKind::Decimal, between, "-2e3", "+.5").build_predicate(),
        FilterPredicate::Number { op: NumberOp::Between, a: "-2e3".into(), b: "+.5".into() }
    );
    assert_eq!(
        number_panel(ColumnKind::Date, gt, "2024-01-05", "").build_predicate(),
        FilterPredicate::Number { op: NumberOp::Gt, a: "2024-01-05".into(), b: "2024-01-05".into() }
    );
}

#[test]
fn number_operand_grammar_matches_f64_parsing() {
    for s in ["0", "12", "1.", ".5", "1.5e10", "2E-3", "+7", "-0.0", "inf", "-Infinity", "NaN", "1,234.5", " 42 "] {
        assert!(is_number_operand(s), "{s:?} should name a number");
        assert!(s.trim().replace(',', "").parse::<f64>().is_ok());
    }
    for s in ["", ".", "e5", "1e", "1e+", "--1", "abc", "1.2.3", "infinit", "0x10", "1 2"] {
        assert!(!is_number_operand(s), "{s:?} should not name a number");
        assert!(s.trim().replace(',', "").parse::<f64>().is_err());
    }
}

#[test]
fn reopening_a_committed_rule_rebuilds_it() {
    let rules = [
        (ColumnKind::Integer, FilterPredicate::Number { op: NumberOp::Between, a: "1".into(), b: "9".into() }),
        (ColumnKind::Decimal, FilterPredicate::Number { op: NumberOp::Le, a: "2.5".into(), b: "2.5".into() }),
        (ColumnKind::Text, FilterPredicate::Text { op: TextOp::EndsWith, operand: "ing".into() }),
        (ColumnKind::Text, FilterPredicate::Nothing),
    ];
    for (kind, rule) in rules {
        let (index, a, b) = seed_operator(kind, &rule);
        let p = number_panel(kind, index, &a, &b);
        assert_eq!(p.build_predicate(), rule);
    }
}

#[test]
fn date_operands_must_name_calendar_days() {
    for s in ["2024-01-05", " 2024-1-5 ", "2024-02-29", "2000-02-29", "1999-12-31", "0001-01-01"] {
        assert!(is_date_operand(s), "{s:?} should name a date");
    }
    for s in ["", "abc", "2024-02-30", "2023-02-29", "1900-02-29", "2024-13-01", "2024-00-10", "2024-04-31", "2024-01", "2024-01-05-1", "2024/01/05", "-2024-01-05", "2024-01-0x"] {
        assert!(!is_date_operand(s), "{s:?} should not name a date");
    }
    let gt = number_op_index(NumberOp::Gt);
    assert_eq!(number_panel(ColumnKind::Date, gt, "2024-02-30", "").build_predicate(), FilterPredicate::Nothing);
    let between = number_op_index(NumberOp::Between);
    assert_eq!(
        number_panel(ColumnKind::Date, between, "2024-01-01", "soon").build_predicate(),
        FilterPredicate::Number { op: NumberOp::Between, a: "2024-01-01".into(), b: "2024-01-01".into() }
    );
}
