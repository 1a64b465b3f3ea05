//! Committed per-column filters: operators, predicates, and the value
//! allow-list built by the filter panel.
use vstd::prelude::*;
use crate::grouping::{contains_string, views};
use crate::text::{chars_of, contains_seq, lowercase, matches_at, occurs_at, seq_contains, to_lowercase};

verus! {

/// Text comparison operators.
#[derive(Clone, Copy, Debug, PartialEq, Eq, Structural)]
pub enum TextOp {
    Contains,
    DoesNotContain,
    BeginsWith,
    EndsWith,
    Is,
    IsNot,
    Matches,
}

/// Numeric / date comparison operators.
#[derive(Clone, Copy, Debug, PartialEq, Eq, Structural)]
pub enum NumberOp {
    Eq,
    Ne,
    Gt,
    Ge,
    Lt,
    Le,
    Between,
    NotBetween,
}

/// A column predicate. Numeric operands are kept as the text the user typed;
/// the UI layer turns them into numbers when it evaluates the predicate.
#[derive(Clone, Debug, PartialEq, Eq)]
pub enum FilterPredicate {
    Nothing,
    Text { op: TextOp, operand: String },
    Number { op: NumberOp, a: String, b: String },
}

/// A committed column filter: a predicate plus an optional allow-list of
/// formatted values (`None` admits every value).
#[derive(Clone, Debug)]
pub struct ColumnFilter {
    pub predicate: FilterPredicate,
    pub values: Option<Vec<String>>,
}

impl Default for ColumnFilter {
    fn default() -> (r: Self)
        ensures
            r.predicate is Nothing,
            r.values is None,
    {
        ColumnFilter { predicate: FilterPredicate::Nothing, values: None }
    }
}

impl ColumnFilter {
    /// An allow-list names each value once.
    pub open spec fn wf(&self) -> bool {
        self.values matches Some(v) ==> views(v@).no_duplicates()
    }

    /// The library judges this filter on displayed text alone: it holds no
    /// numeric comparison and no pattern.
    pub open spec fn judged_on_text(&self) -> bool {
        !(self.predicate is Number) && !(self.predicate matches FilterPredicate::Text { op: TextOp::Matches, .. })
    }

    /// Whether this filter is judged on displayed text alone.
    pub fn is_judged_on_text(&self) -> (b: bool)
        ensures
            b == self.judged_on_text(),
    {
        match &self.predicate {
            FilterPredicate::Number { .. } => false,
            FilterPredicate::Text { op: TextOp::Matches, .. } => false,
            _ => true,
        }
    }

    pub open spec fn active(&self) -> bool {
        !(self.predicate is Nothing) || self.values is Some
    }

    /// Whether the filter restricts anything.
    pub fn is_active(&self) -> (b: bool)
        ensures
            b == self.active(),
    {
        match &self.predicate {
            FilterPredicate::Nothing => self.values.is_some(),
            _ => true,
        }
    }
}

/// Whether a column of this kind uses the numeric/date operator set.
pub open spec fn number_kind(kind: crate::data::ColumnKind) -> bool {
    kind is Integer || kind is Decimal || kind is Date
}

/// Numeric and date columns use the numeric operator set; the others use text operators.
pub fn uses_number_ops(kind: crate::data::ColumnKind) -> (b: bool)
    ensures
        b == number_kind(kind),
{
    match kind {
        crate::data::ColumnKind::Integer | crate::data::ColumnKind::Decimal | crate::data::ColumnKind::Date => true,
        _ => false,
    }
}

/// Whether the text operator `op` (other than `Matches`) holds of a cell
/// whose lower-cased displayed text is `text`, against the lower-cased
/// operand `operand`.
pub open spec fn text_op_holds(op: TextOp, text: Seq<char>, operand: Seq<char>) -> bool {
    match op {
        TextOp::Contains => contains_seq(text, operand),
        TextOp::DoesNotContain => !contains_seq(text, operand),
        TextOp::BeginsWith => occurs_at(text, operand, 0),
        TextOp::EndsWith => occurs_at(text, operand, text.len() - operand.len()),
        TextOp::Is => text == operand,
        TextOp::IsNot => text != operand,
        TextOp::Matches => false,
    }
}

/// The allow-list admits the displayed text `shown` (no list admits all).
pub open spec fn allowed(values: Option<Vec<String>>, shown: Seq<char>) -> bool {
    match values {
        None => true,
        Some(v) => views(v@).contains(shown),
    }
}

/// Whether `filter` admits a cell whose displayed text is `shown`. Text
/// operators compare case-insensitively; a regular expression (`Matches`)
/// and the numeric operators, which compare parsed numbers, are decided by
/// `outside`, the verdict of the layer that parses them.
pub open spec fn filter_holds(filter: ColumnFilter, shown: Seq<char>, outside: bool) -> bool {
    &&& allowed(filter.values, shown)
    &&& match filter.predicate {
        FilterPredicate::Nothing => true,
        FilterPredicate::Text { op: TextOp::Matches, .. } => outside,
        FilterPredicate::Text { op, operand } => text_op_holds(op, lowercase(shown), lowercase(operand@)),
        FilterPredicate::Number { .. } => outside,
    }
}

/// Pass or fail for rows displayed as `texts`, one per row (see [`row_passes`]).
pub open spec fn verdicts(filters: Seq<ColumnFilter>, texts: Seq<Vec<String>>, outside: Seq<Vec<bool>>) -> Seq<bool> {
    Seq::new(texts.len(), |i: int| row_passes(filters, texts[i]@, outside[i]@))
}

/// A row passes when every column's filter admits its displayed text.
pub open spec fn row_passes(filters: Seq<ColumnFilter>, texts: Seq<String>, outside: Seq<bool>) -> bool {
    forall|c: int| 0 <= c < filters.len() ==> filter_holds(#[trigger] filters[c], texts[c]@, outside[c])
}

/// Whether `op` holds of `text` against `operand` (both lower-cased).
fn text_op_check(op: TextOp, text: &Vec<char>, operand: &Vec<char>) -> (b: bool)
    requires
        !(op is Matches),
    ensures
        b == text_op_holds(op, text@, operand@),
{
    match op {
        TextOp::Contains => seq_contains(text, operand),
        TextOp::DoesNotContain => !seq_contains(text, operand),
        TextOp::BeginsWith => operand.len() <= text.len() && matches_at(text, operand, 0),
        TextOp::EndsWith => operand.len() <= text.len() && matches_at(text, operand, text.len() - operand.len()),
        TextOp::Is | TextOp::IsNot => {
            let same = operand.len() == text.len() && matches_at(text, operand, 0);
            proof {
                if operand@.len() == text@.len() {
                    assert(text@.subrange(0, text@.len() as int) =~= text@);
                }
            }
            match op {
                TextOp::Is => same,
                _ => !same,
            }
        },
        TextOp::Matches => false,
    }
}

impl ColumnFilter {
    /// Whether this filter admits a cell displayed as `shown` (see
    /// [`filter_holds`]; `outside` decides regular expressions and numbers).
    pub fn admits(&self, shown: &String, outside: bool) -> (b: bool)
        ensures
            b == filter_holds(*self, shown@, outside),
    {
        if let Some(v) = &self.values {
            if !contains_string(v, shown) {
                return false;
            }
        }
        match &self.predicate {
            FilterPredicate::Nothing => true,
            FilterPredicate::Text { op: TextOp::Matches, .. } => outside,
            FilterPredicate::Text { op, operand } => {
                let text = chars_of(to_lowercase(shown.as_str()).as_str());
                let needle = chars_of(to_lowercase(operand.as_str()).as_str());
                text_op_check(*op, &text, &needle)
            },
            FilterPredicate::Number { .. } => outside,
        }
    }
}

/// Filter verdicts for rows displayed as `texts`: row `i` passes when every
/// column's filter admits its text (`outside[i][c]` decides regular
/// expressions and numbers in column `c`).
pub fn row_verdicts(filters: &Vec<ColumnFilter>, texts: &Vec<Vec<String>>, outside: &Vec<Vec<bool>>) -> (r: Vec<bool>)
    requires
        outside@.len() == texts@.len(),
        forall|i: int| 0 <= i < texts@.len() ==> (#[trigger] texts@[i])@.len() == filters@.len()
            && outside@[i]@.len() == filters@.len(),
    ensures
        r@.len() == texts@.len(),
        forall|i: int| 0 <= i < texts@.len() ==> r@[i] == row_passes(filters@, #[trigger] texts@[i]@, outside@[i]@),
{
    let mut r: Vec<bool> = Vec::new();
    let mut i: usize = 0;
    while i < texts.len()
        invariant
            i <= texts@.len(),
            r@.len() == i,
            outside@.len() == texts@.len(),
            forall|j: int| 0 <= j < texts@.len() ==> (#[trigger] texts@[j])@.len() == filters@.len()
                && outside@[j]@.len() == filters@.len(),
            forall|j: int| 0 <= j < i ==> r@[j] == row_passes(filters@, #[trigger] texts@[j]@, outside@[j]@),
        decreases texts@.len() - i,
    {
        let row = &texts[i];
        let out = &outside[i];
        let mut ok = true;
        let mut c: usize = 0;
        while c < filters.len()
            invariant
                c <= filters@.len(),
                row@.len() == filters@.len(),
                out@.len() == filters@.len(),
                ok == forall|d: int| 0 <= d < c ==> filter_holds(#[trigger] filters@[d], row@[d]@, out@[d]),
            decreases filters@.len() - c,
        {
            let admits = filters[c].admits(&row[c], out[c]);
            ok = ok && admits;
            c += 1;
        }
        r.push(ok);
        i += 1;
    }
    r
}

/// What each text operator asks of a cell's lower-cased displayed text `t`,
/// against the lower-cased operand `o`: to hold `o` somewhere (or not), to
/// start or end with it, or to equal it (or not). A value list admits
/// exactly the values it names; a filter with neither admits everything.
pub proof fn lemma_text_filters(t: Seq<char>, o: Seq<char>, values: Option<Vec<String>>, shown: Seq<char>)
    ensures
        text_op_holds(TextOp::Contains, t, o) <==> exists|k: int| 0 <= k && k + o.len() <= t.len() && #[trigger] t.subrange(k, k + o.len()) == o,
        text_op_holds(TextOp::DoesNotContain, t, o) <==> !exists|k: int| 0 <= k && k + o.len() <= t.len() && #[trigger] t.subrange(k, k + o.len()) == o,
        text_op_holds(TextOp::BeginsWith, t, o) <==> (o.len() <= t.len() && t.take(o.len() as int) == o),
        text_op_holds(TextOp::EndsWith, t, o) <==> (o.len() <= t.len() && t.skip(t.len() - o.len()) == o),
        text_op_holds(TextOp::Is, t, o) <==> t == o,
        text_op_holds(TextOp::IsNot, t, o) <==> t != o,
        allowed(values, shown) <==> match values {
            None => true,
            Some(v) => exists|k: int| 0 <= k < v@.len() && (#[trigger] v@[k])@ == shown,
        },
        filter_holds(ColumnFilter { predicate: FilterPredicate::Nothing, values: None }, shown, false),
{
    if o.len() <= t.len() {
        assert(t.subrange(0, o.len() as int) =~= t.take(o.len() as int));
        assert(t.subrange(t.len() - o.len(), t.len() - o.len() + o.len()) =~= t.skip(t.len() - o.len()));
    }
    assert(text_op_holds(TextOp::Contains, t, o) <==> exists|k: int| 0 <= k && k + o.len() <= t.len() && #[trigger] t.subrange(k, k + o.len()) == o) by {
        if contains_seq(t, o) {
            let k = choose|k: int| occurs_at(t, o, k);
            assert(t.subrange(k, k + o.len()) == o);
        }
        if exists|k: int| 0 <= k && k + o.len() <= t.len() && #[trigger] t.subrange(k, k + o.len()) == o {
            let k = choose|k: int| 0 <= k && k + o.len() <= t.len() && #[trigger] t.subrange(k, k + o.len()) == o;
            assert(occurs_at(t, o, k));
        }
    }
    if let Some(v) = values {
        if views(v@).contains(shown) {
            let k = choose|k: int| 0 <= k < views(v@).len() && views(v@)[k] == shown;
            assert(v@[k]@ == shown);
        }
        if exists|k: int| 0 <= k < v@.len() && (#[trigger] v@[k])@ == shown {
            let k = choose|k: int| 0 <= k < v@.len() && (#[trigger] v@[k])@ == shown;
            assert(views(v@)[k] == shown);
        }
    }
}

/// Text filters ignore case: two displayed texts that lower-case alike are
/// admitted alike, and so are two operands that lower-case alike.
pub proof fn lemma_filters_ignore_case(op: TextOp, a: String, b: String, s1: Seq<char>, s2: Seq<char>, outside: bool)
    requires
        !(op is Matches),
        lowercase(s1) == lowercase(s2),
        lowercase(a@) == lowercase(b@),
    ensures
        filter_holds(ColumnFilter { predicate: FilterPredicate::Text { op, operand: a }, values: None }, s1, outside)
            == filter_holds(ColumnFilter { predicate: FilterPredicate::Text { op, operand: b }, values: None }, s2, outside),
{
}

} // verus!
