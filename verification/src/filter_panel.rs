//! Working state of the per-column filter popover: operator choice, operand
//! and search inputs, and the checklist of distinct values.
use vstd::prelude::*;
use crate::data::ColumnKind;
use crate::filter::{ColumnFilter, FilterPredicate, NumberOp, TextOp, number_kind, uses_number_ops};
use crate::text::{contains_lowered, contains_seq, lowercase, to_lowercase, chars_of, trim, trimmed};
use vstd::string::*;
use crate::text_input::TextInput;
use crate::grouping::{contains_string, views};
use crate::numeric::{date_operand, is_date_operand, is_number_operand, number_operand};

verus! {

/// Which text field of the panel receives typed keys.
#[derive(Clone, Copy, Debug, PartialEq, Eq, Structural)]
pub enum FilterInput {
    Search,
    OperandA,
    OperandB,
}

/// One row of the panel's value checklist.
#[derive(Clone, Debug)]
pub struct FilterValueRow {
    /// The formatted value as displayed in the grid.
    pub label: String,
    /// Whether the value is included by the filter.
    pub checked: bool,
}

/// Operator labels for text-like columns; index 0 is the inert "Choose One".
pub open spec fn text_op_labels() -> Seq<Seq<char>> {
    seq![
        "Choose One"@,
        "contains"@,
        "does not contain"@,
        "begins with"@,
        "ends with"@,
        "is"@,
        "is not"@,
        "matches (regex)"@,
    ]
}

/// Operator labels for numeric and date columns; index 0 is "Choose One".
pub open spec fn number_op_labels() -> Seq<Seq<char>> {
    seq![
        "Choose One"@,
        "equal to"@,
        "not equal to"@,
        "greater than"@,
        "greater than or equal to"@,
        "less than"@,
        "less than or equal to"@,
        "between"@,
        "not between"@,
    ]
}

pub open spec fn op_labels_for(kind: ColumnKind) -> Seq<Seq<char>> {
    if number_kind(kind) { number_op_labels() } else { text_op_labels() }
}

/// Text operator for a panel operator index (`1..=7`).
pub open spec fn text_op_for(index: usize) -> Option<TextOp> {
    if index == 1 { Some(TextOp::Contains) }
    else if index == 2 { Some(TextOp::DoesNotContain) }
    else if index == 3 { Some(TextOp::BeginsWith) }
    else if index == 4 { Some(TextOp::EndsWith) }
    else if index == 5 { Some(TextOp::Is) }
    else if index == 6 { Some(TextOp::IsNot) }
    else if index == 7 { Some(TextOp::Matches) }
    else { None }
}

/// Numeric operator for a panel operator index (`1..=8`).
pub open spec fn number_op_for(index: usize) -> Option<NumberOp> {
    if index == 1 { Some(NumberOp::Eq) }
    else if index == 2 { Some(NumberOp::Ne) }
    else if index == 3 { Some(NumberOp::Gt) }
    else if index == 4 { Some(NumberOp::Ge) }
    else if index == 5 { Some(NumberOp::Lt) }
    else if index == 6 { Some(NumberOp::Le) }
    else if index == 7 { Some(NumberOp::Between) }
    else if index == 8 { Some(NumberOp::NotBetween) }
    else { None }
}

/// Panel operator index of a text operator.
pub open spec fn text_op_index_of(op: TextOp) -> usize {
    match op {
        TextOp::Contains => 1,
        TextOp::DoesNotContain => 2,
        TextOp::BeginsWith => 3,
        TextOp::EndsWith => 4,
        TextOp::Is => 5,
        TextOp::IsNot => 6,
        TextOp::Matches => 7,
    }
}

/// Panel operator index of a numeric operator.
pub open spec fn number_op_index_of(op: NumberOp) -> usize {
    match op {
        NumberOp::Eq => 1,
        NumberOp::Ne => 2,
        NumberOp::Gt => 3,
        NumberOp::Ge => 4,
        NumberOp::Lt => 5,
        NumberOp::Le => 6,
        NumberOp::Between => 7,
        NumberOp::NotBetween => 8,
    }
}

pub fn text_op_index(op: TextOp) -> (i: usize)
    ensures
        i == text_op_index_of(op),
{
    match op {
        TextOp::Contains => 1,
        TextOp::DoesNotContain => 2,
        TextOp::BeginsWith => 3,
        TextOp::EndsWith => 4,
        TextOp::Is => 5,
        TextOp::IsNot => 6,
        TextOp::Matches => 7,
    }
}

pub fn number_op_index(op: NumberOp) -> (i: usize)
    ensures
        i == number_op_index_of(op),
{
    match op {
        NumberOp::Eq => 1,
        NumberOp::Ne => 2,
        NumberOp::Gt => 3,
        NumberOp::Ge => 4,
        NumberOp::Lt => 5,
        NumberOp::Le => 6,
        NumberOp::Between => 7,
        NumberOp::NotBetween => 8,
    }
}

/// Selecting an operator by its own index gives back that operator, and
/// every valid index names exactly one operator.
pub proof fn lemma_op_index_round_trip(t: TextOp, n: NumberOp, i: usize)
    ensures
        text_op_for(text_op_index_of(t)) == Some(t),
        number_op_for(number_op_index_of(n)) == Some(n),
        text_op_for(i) matches Some(op) ==> text_op_index_of(op) == i,
        number_op_for(i) matches Some(op) ==> number_op_index_of(op) == i,
        (1 <= i <= 7) <==> text_op_for(i) is Some,
        (1 <= i <= 8) <==> number_op_for(i) is Some,
{
}

/// Panel operator index and operand texts that show an already committed
/// predicate again.
pub open spec fn seed_spec(predicate: FilterPredicate) -> (usize, Seq<char>, Seq<char>) {
    match predicate {
        FilterPredicate::Nothing => (0, Seq::empty(), Seq::empty()),
        FilterPredicate::Text { op, operand } => (text_op_index_of(op), operand@, Seq::empty()),
        FilterPredicate::Number { op, a, b } => (
            number_op_index_of(op),
            a@,
            if op is Between || op is NotBetween { b@ } else { Seq::empty() },
        ),
    }
}

/// Derive the panel's operator index and operand strings from a committed
/// predicate, so reopening a filter shows the same rule.
pub fn seed_operator(kind: ColumnKind, predicate: &FilterPredicate) -> (r: (usize, String, String))
    ensures
        (r.0, r.1@, r.2@) == seed_spec(*predicate),
{
    match predicate {
        FilterPredicate::Nothing => (0, String::new(), String::new()),
        FilterPredicate::Text { op, operand } => (text_op_index(*op), operand.clone(), String::new()),
        FilterPredicate::Number { op, a, b } => {
            let b_str = match op {
                NumberOp::Between | NumberOp::NotBetween => b.clone(),
                _ => String::new(),
            };
            (number_op_index(*op), a.clone(), b_str)
        },
    }
}

/// Indices of the rows of `rows` whose label contains `needle` ignoring case
/// (every row when `needle` is empty), in order.
pub open spec fn visible_spec(rows: Seq<FilterValueRow>, needle: Seq<char>) -> Seq<usize>
    decreases rows.len(),
{
    if rows.len() == 0 {
        seq![]
    } else {
        let prefix = visible_spec(rows.drop_last(), needle);
        if needle.len() == 0 || contains_seq(lowercase(rows.last().label@), needle) {
            prefix.push((rows.len() - 1) as usize)
        } else {
            prefix
        }
    }
}

/// Labels of the checked rows, each once, in order of first appearance.
pub open spec fn checked_labels(rows: Seq<FilterValueRow>) -> Seq<Seq<char>>
    decreases rows.len(),
{
    if rows.len() == 0 {
        seq![]
    } else {
        let prefix = checked_labels(rows.drop_last());
        if rows.last().checked && !prefix.contains(rows.last().label@) { prefix.push(rows.last().label@) } else { prefix }
    }
}

pub open spec fn every_checked(rows: Seq<FilterValueRow>) -> bool {
    forall|i: int| 0 <= i < rows.len() ==> #[trigger] rows[i].checked
}

/// Interactive state of the per-column filter popover.
#[derive(Clone, Debug)]
pub struct FilterPanel {
    /// Target column index.
    pub col: usize,
    /// Column kind; selects the text vs. numeric/date operator set.
    pub kind: ColumnKind,
    /// The value-list search box.
    pub search: TextInput,
    /// Selected operator index into the operator labels; 0 is "Choose One".
    pub op_index: usize,
    /// Whether the operator dropdown is expanded.
    pub op_menu_open: bool,
    /// First operand.
    pub operand_a: TextInput,
    /// Second operand (upper bound of a range).
    pub operand_b: TextInput,
    /// Which field receives typed keys.
    pub focus: FilterInput,
    /// When set, edits apply to the grid's filters immediately.
    pub auto_apply: bool,
    /// Distinct formatted values of the column with their checked state.
    pub distinct: Vec<FilterValueRow>,
}

/// A typed operand a numeric filter can use: text naming a number (see
/// [`number_operand`]); for a date column, a date written `YYYY-MM-DD` (see
/// [`date_operand`]).
pub open spec fn operand_usable(kind: ColumnKind, s: Seq<char>) -> bool {
    if kind is Date {
        date_operand(s)
    } else {
        number_operand(s)
    }
}

/// Whether `s` is an operand a numeric filter on a `kind` column can use.
pub fn operand_ok(kind: ColumnKind, s: &str) -> (b: bool)
    ensures
        b == operand_usable(kind, s@),
{
    match kind {
        ColumnKind::Date => is_date_operand(s),
        _ => is_number_operand(s),
    }
}

/// `p` is the predicate the panel's operator and operands describe: nothing
/// for "Choose One", an unknown index or a numeric operand that names no
/// number; otherwise the operator with the operand text (for a numeric range
/// whose upper bound names no number, the lower bound again).
pub open spec fn describes(p: FilterPredicate, kind: ColumnKind, op_index: usize, a: Seq<char>, b: Seq<char>) -> bool {
    if op_index == 0 {
        p is Nothing
    } else if number_kind(kind) {
        match number_op_for(op_index) {
            None => p is Nothing,
            Some(op) => if !operand_usable(kind, a) {
                p is Nothing
            } else {
                p matches FilterPredicate::Number { op: o, a: pa, b: pb } && o == op && pa@ == a
                    && pb@ == (if (op is Between || op is NotBetween) && operand_usable(kind, b) { b } else { a })
            },
        }
    } else {
        match text_op_for(op_index) {
            None => p is Nothing,
            Some(op) => p matches FilterPredicate::Text { op: o, operand } && o == op && operand@ == a,
        }
    }
}

/// Reopening a committed rule shows it again: a panel seeded from `p` (see
/// [`seed_operator`]) describes `p`, for a rule that suits the column's kind
/// and whose numeric operands name numbers (a single-value operator keeping
/// its operand as both bounds, as [`FilterPanel::build_predicate`] makes it).
pub proof fn lemma_seed_describes(kind: ColumnKind, p: FilterPredicate)
    requires
        match p {
            FilterPredicate::Nothing => true,
            FilterPredicate::Text { .. } => !number_kind(kind),
            FilterPredicate::Number { op, a, b } => number_kind(kind) && operand_usable(kind, a@)
                && if op is Between || op is NotBetween { operand_usable(kind, b@) } else { b@ == a@ },
        },
    ensures
        describes(p, kind, seed_spec(p).0, seed_spec(p).1, seed_spec(p).2),
{
    match p {
        FilterPredicate::Text { op, .. } => {
            lemma_op_index_round_trip(op, NumberOp::Eq, 0);
        },
        FilterPredicate::Number { op, .. } => {
            lemma_op_index_round_trip(TextOp::Contains, op, 0);
        },
        FilterPredicate::Nothing => {},
    }
}

/// `f` is the filter the panel `p` describes: its operator predicate, plus
/// the checked labels as an allow-list unless every value is checked.
pub open spec fn built_from(f: ColumnFilter, p: FilterPanel) -> bool {
    &&& describes(f.predicate, p.kind, p.op_index, p.operand_a.value@, p.operand_b.value@)
    &&& every_checked(p.distinct@) ==> f.values is None
    &&& !every_checked(p.distinct@) ==> (f.values matches Some(v) && v@.map_values(|s: String| s@) == checked_labels(p.distinct@))
}

impl FilterPanel {
    /// The input that receives typed keys.
    pub open spec fn focused(self) -> TextInput {
        match self.focus {
            FilterInput::Search => self.search,
            FilterInput::OperandA => self.operand_a,
            FilterInput::OperandB => self.operand_b,
        }
    }

    /// `self` with the focused input replaced by `input`.
    pub open spec fn with_focused(self, input: TextInput) -> FilterPanel {
        match self.focus {
            FilterInput::Search => FilterPanel { search: input, ..self },
            FilterInput::OperandA => FilterPanel { operand_a: input, ..self },
            FilterInput::OperandB => FilterPanel { operand_b: input, ..self },
        }
    }

    pub open spec fn needs_second(self) -> bool {
        number_kind(self.kind) && (self.op_index == 7 || self.op_index == 8)
    }

    /// Operator labels appropriate to this column's kind.
    pub fn op_labels(&self) -> (r: Vec<&'static str>)
        ensures
            r@.map_values(|s: &'static str| s@) == op_labels_for(self.kind),
    {
        if uses_number_ops(self.kind) {
            let r = vec![
                "Choose One",
                "equal to",
                "not equal to",
                "greater than",
                "greater than or equal to",
                "less than",
                "less than or equal to",
                "between",
                "not between",
            ];
            assert(r@.map_values(|s: &'static str| s@) =~= number_op_labels());
            r
        } else {
            let r = vec![
                "Choose One",
                "contains",
                "does not contain",
                "begins with",
                "ends with",
                "is",
                "is not",
                "matches (regex)",
            ];
            assert(r@.map_values(|s: &'static str| s@) =~= text_op_labels());
            r
        }
    }

    /// The selected operator's label ("Choose One" when out of range).
    pub fn current_op_label(&self) -> (s: &'static str)
        ensures
            s@ == if self.op_index < op_labels_for(self.kind).len() {
                op_labels_for(self.kind)[self.op_index as int]
            } else {
                "Choose One"@
            },
    {
        let labels = self.op_labels();
        if self.op_index < labels.len() {
            let s = labels[self.op_index];
            assert(s@ == labels@.map_values(|s: &'static str| s@)[self.op_index as int]);
            s
        } else {
            "Choose One"
        }
    }

    /// `true` when the selected operator needs an operand.
    pub fn needs_operand(&self) -> (b: bool)
        ensures
            b == (self.op_index != 0),
    {
        self.op_index != 0
    }

    /// `true` when the selected operator is a numeric range (between / not
    /// between) needing a second operand.
    pub fn needs_second_operand(&self) -> (b: bool)
        ensures
            b == self.needs_second(),
    {
        uses_number_ops(self.kind) && (self.op_index == 7 || self.op_index == 8)
    }

    pub fn text_op_for_index(index: usize) -> (r: Option<TextOp>)
        ensures
            r == text_op_for(index),
    {
        match index {
            1 => Some(TextOp::Contains),
            2 => Some(TextOp::DoesNotContain),
            3 => Some(TextOp::BeginsWith),
            4 => Some(TextOp::EndsWith),
            5 => Some(TextOp::Is),
            6 => Some(TextOp::IsNot),
            7 => Some(TextOp::Matches),
            _ => None,
        }
    }

    pub fn number_op_for_index(index: usize) -> (r: Option<NumberOp>)
        ensures
            r == number_op_for(index),
    {
        match index {
            1 => Some(NumberOp::Eq),
            2 => Some(NumberOp::Ne),
            3 => Some(NumberOp::Gt),
            4 => Some(NumberOp::Ge),
            5 => Some(NumberOp::Lt),
            6 => Some(NumberOp::Le),
            7 => Some(NumberOp::Between),
            8 => Some(NumberOp::NotBetween),
            _ => None,
        }
    }

    /// The value rows the search box lets through (see [`visible_spec`]).
    pub open spec fn visible(&self) -> Seq<usize> {
        visible_spec(self.distinct@, lowercase(self.search.value@))
    }

    /// Indices into `distinct` whose label matches the search box
    /// (case-insensitive substring); every index when the search is empty.
    pub fn visible_indices(&self) -> (r: Vec<usize>)
        ensures
            r@ == visible_spec(self.distinct@, lowercase(self.search.value@)),
            r@ == self.visible(),
    {
        let needle_string = to_lowercase(self.search.value.as_str());
        let needle = chars_of(needle_string.as_str());
        let mut out: Vec<usize> = Vec::new();
        let mut i: usize = 0;
        while i < self.distinct.len()
            invariant
                i <= self.distinct@.len(),
                needle@ == lowercase(self.search.value@),
                out@ == visible_spec(self.distinct@.take(i as int), needle@),
            decreases self.distinct@.len() - i,
        {
            proof {
                assert(self.distinct@.take(i as int + 1).drop_last() =~= self.distinct@.take(i as int));
            }
            if needle.len() == 0 || contains_lowered(self.distinct[i].label.as_str(), &needle) {
                out.push(i);
            }
            i += 1;
        }
        assert(self.distinct@.take(i as int) =~= self.distinct@);
        out
    }

    /// `true` when there is at least one value and every value is checked;
    /// independent of the search box.
    pub fn all_checked(&self) -> (b: bool)
        ensures
            b == (self.distinct@.len() > 0 && every_checked(self.distinct@)),
    {
        if self.distinct.len() == 0 {
            return false;
        }
        every_row_checked(&self.distinct)
    }

    /// Build the committed filter: the operator predicate plus, unless every
    /// value is checked, the allow-list of checked labels.
    pub fn to_filter(&self) -> (f: ColumnFilter)
        ensures
            built_from(f, *self),
            f.wf(),
    {
        let predicate = self.build_predicate();
        let values = if every_row_checked(&self.distinct) {
            None
        } else {
            Some(checked_label_list(&self.distinct))
        };
        ColumnFilter { predicate, values }
    }

    /// The predicate described by the operator and operands.
    pub fn build_predicate(&self) -> (p: FilterPredicate)
        ensures
            describes(p, self.kind, self.op_index, self.operand_a.value@, self.operand_b.value@),
    {
        if self.op_index == 0 {
            return FilterPredicate::Nothing;
        }
        if uses_number_ops(self.kind) {
            let op = match Self::number_op_for_index(self.op_index) {
                Some(op) => op,
                None => return FilterPredicate::Nothing,
            };
            if !operand_ok(self.kind, self.operand_a.value.as_str()) {
                return FilterPredicate::Nothing;
            }
            let b = if self.needs_second_operand() && operand_ok(self.kind, self.operand_b.value.as_str()) {
                self.operand_b.value.clone()
            } else {
                self.operand_a.value.clone()
            };
            FilterPredicate::Number { op, a: self.operand_a.value.clone(), b }
        } else {
            match Self::text_op_for_index(self.op_index) {
                Some(op) => FilterPredicate::Text { op, operand: self.operand_a.value.clone() },
                None => FilterPredicate::Nothing,
            }
        }
    }
}

/// Whether every row is checked.
pub fn every_row_checked(rows: &Vec<FilterValueRow>) -> (b: bool)
    ensures
        b == every_checked(rows@),
{
    let mut i: usize = 0;
    while i < rows.len()
        invariant
            i <= rows@.len(),
            forall|j: int| 0 <= j < i ==> #[trigger] rows@[j].checked,
        decreases rows@.len() - i,
    {
        if !rows[i].checked {
            return false;
        }
        i += 1;
    }
    true
}

/// The checked labels, each once, in order of first appearance.
pub fn checked_label_list(rows: &Vec<FilterValueRow>) -> (r: Vec<String>)
    ensures
        r@.map_values(|s: String| s@) == checked_labels(rows@),
        views(r@).no_duplicates(),
{
    let mut out: Vec<String> = Vec::new();
    let mut i: usize = 0;
    while i < rows.len()
        invariant
            i <= rows@.len(),
            out@.map_values(|s: String| s@) == checked_labels(rows@.take(i as int)),
            views(out@).no_duplicates(),
        decreases rows@.len() - i,
    {
        proof {
            assert(rows@.take(i as int + 1).drop_last() =~= rows@.take(i as int));
            assert(views(out@) =~= out@.map_values(|s: String| s@));
        }
        if rows[i].checked && !contains_string(&out, &rows[i].label) {
            let ghost before = out@;
            out.push(rows[i].label.clone());
            assert(out@.map_values(|s: String| s@) =~= before.map_values(|s: String| s@).push(rows@[i as int].label@));
            assert(views(out@) =~= views(before).push(rows@[i as int].label@));
        }
        i += 1;
    }
    assert(rows@.take(i as int) =~= rows@);
    out
}

/// `needle` appears in `hay` starting somewhere.
pub open spec fn appears_in(hay: Seq<char>, needle: Seq<char>) -> bool {
    exists|k: int| 0 <= k && k + needle.len() <= hay.len() && #[trigger] hay.subrange(k, k + needle.len()) == needle
}

/// The search box lets through, in order, exactly the value rows whose
/// lower-cased label holds the lower-cased search text at some position
/// (every row when that text is empty).
pub proof fn lemma_visible_panel(p: FilterPanel)
    requires
        p.distinct@.len() <= usize::MAX,
    ensures
        forall|i: usize| #[trigger] p.visible().contains(i) <==> (i < p.distinct@.len()
            && (lowercase(p.search.value@).len() == 0 || appears_in(lowercase(p.distinct@[i as int].label@), lowercase(p.search.value@)))),
        forall|a: int, b: int| 0 <= a < b < p.visible().len() ==> #[trigger] p.visible()[a] < #[trigger] p.visible()[b],
{
    lemma_visible_rows(p.distinct@, lowercase(p.search.value@));
}

/// The value checklist, filtered by the search box, lists in order exactly
/// the value rows whose lower-cased label holds the lower-cased search text
/// `needle` at some position (every row for an empty search text).
pub proof fn lemma_visible_rows(rows: Seq<FilterValueRow>, needle: Seq<char>)
    requires
        rows.len() <= usize::MAX,
    ensures
        forall|i: usize| #[trigger] visible_spec(rows, needle).contains(i) <==>
            (i < rows.len() && (needle.len() == 0 || appears_in(lowercase(rows[i as int].label@), needle))),
        forall|a: int, b: int| 0 <= a < b < visible_spec(rows, needle).len() ==>
            #[trigger] visible_spec(rows, needle)[a] < #[trigger] visible_spec(rows, needle)[b],
    decreases rows.len(),
{
    if rows.len() > 0 {
        let t = rows.drop_last();
        lemma_visible_rows(t, needle);
        let p = visible_spec(t, needle);
        let v = visible_spec(rows, needle);
        let n = (rows.len() - 1) as usize;
        assert(rows.last() == rows[n as int]);
        assert forall|x: int| 0 <= x < p.len() implies #[trigger] p[x] < n by {
            assert(p.contains(p[x]));
        }
        assert(appears_in(lowercase(rows[n as int].label@), needle) == contains_seq(lowercase(rows[n as int].label@), needle)) by {
            let hay = lowercase(rows[n as int].label@);
            if contains_seq(hay, needle) {
                let k = choose|k: int| crate::text::occurs_at(hay, needle, k);
                assert(hay.subrange(k, k + needle.len()) == needle);
            }
            if appears_in(hay, needle) {
                let k = choose|k: int| 0 <= k && k + needle.len() <= hay.len() && #[trigger] hay.subrange(k, k + needle.len()) == needle;
                assert(crate::text::occurs_at(hay, needle, k));
            }
        }
        assert forall|i: usize| #[trigger] v.contains(i) <==>
            (i < rows.len() && (needle.len() == 0 || appears_in(lowercase(rows[i as int].label@), needle))) by {
            if i < n {
                assert(rows[i as int] == t[i as int]);
            }
            if v.contains(i) {
                let x = choose|x: int| 0 <= x < v.len() && v[x] == i;
                if x < p.len() {
                    assert(p[x] == v[x]);
                    assert(p.contains(i));
                }
            }
            if i < n && p.contains(i) {
                let x = choose|x: int| 0 <= x < p.len() && p[x] == i;
                assert(v[x] == p[x]);
            }
            if i == n && (needle.len() == 0 || appears_in(lowercase(rows[i as int].label@), needle)) {
                assert(v[p.len() as int] == i);
            }
        }
        assert forall|a: int, b: int| 0 <= a < b < v.len() implies #[trigger] v[a] < #[trigger] v[b] by {
            assert(v[a] == p[a]);
            if b < p.len() {
                assert(v[b] == p[b]);
            }
        }
    }
}

} // verus!
