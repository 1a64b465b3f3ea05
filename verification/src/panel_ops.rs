//! Grid commands behind the filter popover: opening it on a column with the
//! column's distinct values, editing its working state, and committing it to
//! the column's filter.
use vstd::prelude::*;
use vstd::hash_set::StringHashSet;
use crate::filter::{verdicts, ColumnFilter};
use crate::filter_panel::{built_from, every_checked, seed_operator, seed_spec, FilterInput, FilterPanel, FilterValueRow};
use crate::cell_order::{column_ranks, ranks_of};
use crate::grouping::{contains_string, views};
use crate::order::{lemma_passing, passing, sorted_by_key, stable_sort_by_key};
use crate::selection::SortDirection;
use crate::state::GridState;
use crate::text_input::TextInput;

verus! {

/// Whether each label is the first occurrence of its text.
pub open spec fn first_occurrences(ls: Seq<Seq<char>>) -> Seq<bool> {
    Seq::new(ls.len(), |i: int| !ls.take(i).contains(ls[i]))
}

/// Whether a value row is checked when the panel opens over a filter whose
/// allow-list is `values`: every value without an allow-list.
pub open spec fn seeded_check(values: Option<Vec<String>>, label: Seq<char>) -> bool {
    match values {
        None => true,
        Some(v) => views(v@).contains(label),
    }
}

/// Sort after a click on the panel's sort button for `dir`: clicking the
/// active direction turns the sort off.
pub open spec fn panel_sort(sort: Option<(usize, SortDirection)>, col: usize, dir: SortDirection) -> Option<(usize, SortDirection)> {
    match sort {
        Some((c, d)) if c == col && d == dir => None,
        _ => Some((col, dir)),
    }
}

/// Two clicks on the same sort button of the panel: from unsorted (or a
/// sort on another column or direction) the column ends unsorted; from that
/// very sort the sort comes back.
pub proof fn lemma_panel_sort_twice(sort: Option<(usize, SortDirection)>, col: usize, dir: SortDirection)
    ensures
        sort == Some((col, dir)) ==> panel_sort(panel_sort(sort, col, dir), col, dir) == sort,
        sort != Some((col, dir)) ==> panel_sort(sort, col, dir) == Some((col, dir))
            && panel_sort(panel_sort(sort, col, dir), col, dir) is None,
{
}

impl GridState {
    /// Displayed labels of column `col`, in source-row order.
    pub open spec fn column_labels(&self, col: int) -> Seq<Seq<char>> {
        Seq::new(self.nrows(), |i: int| self.cell_texts@[i]@[col]@)
    }

    /// `p` is the checklist of column `col` in the order `order` of source
    /// rows, seeded from the allow-list `values`.
    pub open spec fn checklist(&self, col: int, order: Seq<usize>, values: Option<Vec<String>>, p: Seq<FilterValueRow>) -> bool {
        &&& p.len() == order.len()
        &&& forall|k: int| 0 <= k < order.len() ==> {
            &&& (#[trigger] p[k]).label@ == self.column_labels(col)[order[k] as int]
            &&& p[k].checked == seeded_check(values, self.column_labels(col)[order[k] as int])
        }
    }

    /// Open the filter popover on column `col`: one checklist row per
    /// distinct displayed value (the first row showing it represents it),
    /// ordered by that row's cell in the cell order (ties in source order), checked
    /// when the committed allow-list admits it; the operator and operands
    /// show the committed predicate again. Closes the context menu.
    /// Out-of-range columns are ignored.
    pub fn open_filter_panel(&mut self, col: usize)
        requires
            old(self).wf(),
        ensures
            final(self).wf(),
            col >= old(self).ncols() ==> *final(self) == *old(self),
            col < old(self).ncols() ==> {
                let ls = old(self).column_labels(col as int);
                let existing = old(self).filters@[col as int];
                &&& final(self).filter_panel matches Some(p) && {
                    &&& p.col == col
                    &&& p.kind == old(self).data.columns@[col as int].kind
                    &&& p.search.value@.len() == 0 && p.search.cursor_chars == 0
                    &&& (p.op_index, p.operand_a.value@, p.operand_b.value@) == seed_spec(existing.predicate)
                    &&& p.operand_a.cursor_chars == p.operand_a.value@.len()
                    &&& p.operand_b.cursor_chars == p.operand_b.value@.len()
                    &&& !p.op_menu_open
                    &&& p.focus == FilterInput::Search
                    &&& p.auto_apply
                    &&& exists|order: Seq<usize>| #[trigger] sorted_by_key(order, ranks_of(old(self).data.rows@, col as int))
                        && order.to_multiset() == passing(first_occurrences(ls)).to_multiset()
                        && old(self).checklist(col as int, order, existing.values, p.distinct@)
                }
                &&& *final(self) == (GridState { context_menu: None, filter_panel: final(self).filter_panel, ..*old(self) })
            },
    {
        if col >= self.data.columns.len() {
            return;
        }
        let kind = self.data.columns[col].kind;
        let nrows = self.data.rows.len();
        let ghost ls = self.column_labels(col as int);
        let mut seen = StringHashSet::new();
        let mut firsts: Vec<usize> = Vec::new();
        let mut i: usize = 0;
        while i < nrows
            invariant
                self.wf(),
                col < self.ncols(),
                nrows == self.nrows(),
                ls == self.column_labels(col as int),
                i <= nrows,
                forall|x: Seq<char>| seen@.contains(x) <==> ls.take(i as int).contains(x),
                firsts@ == passing(first_occurrences(ls).take(i as int)),
            decreases nrows - i,
        {
            proof {
                assert(self.data.rows@[i as int].len() == self.ncols());
                assert(self.cell_texts@[i as int]@.len() == self.data.rows@[i as int]@.len());
                assert(first_occurrences(ls).take(i as int + 1).drop_last() =~= first_occurrences(ls).take(i as int));
                assert(ls.take(i as int + 1) =~= ls.take(i as int).push(ls[i as int]));
            }
            let label = &self.cell_texts[i][col];
            assert(label@ == ls[i as int]);
            let fresh = !seen.contains(label.as_str());
            if fresh {
                seen.insert(label.clone());
                firsts.push(i);
            }
            proof {
                assert forall|x: Seq<char>| seen@.contains(x) <==> ls.take(i as int + 1).contains(x) by {
                    vstd::seq_lib::lemma_seq_contains_after_push(ls.take(i as int), ls[i as int], x);
                }
            }
            i += 1;
        }
        proof {
            assert(first_occurrences(ls).take(i as int) =~= first_occurrences(ls));
            lemma_passing(first_occurrences(ls));
        }
        let ghost unsorted = firsts@;
        proof {
            assert forall|i: int| 0 <= i < self.data.rows@.len() implies col < (#[trigger] self.data.rows@[i])@.len() by {
                assert(self.data.rows@[i].len() == self.data.columns@.len());
            }
        }
        let keys = column_ranks(&self.data.rows, col);
        stable_sort_by_key(&mut firsts, &keys);
        proof {
            broadcast use vstd::seq_lib::group_to_multiset_ensures;
            assert forall|k: int| 0 <= k < firsts@.len() implies #[trigger] firsts@[k] < nrows by {
                assert(firsts@.contains(firsts@[k]));
                assert(firsts@.to_multiset().count(firsts@[k]) > 0);
                assert(unsorted.to_multiset().count(firsts@[k]) > 0);
                assert(unsorted.contains(firsts@[k]));
            }
        }
        let mut distinct: Vec<FilterValueRow> = Vec::new();
        let mut k: usize = 0;
        while k < firsts.len()
            invariant
                self.wf(),
                col < self.ncols(),
                nrows == self.nrows(),
                ls == self.column_labels(col as int),
                k <= firsts@.len(),
                forall|j: int| 0 <= j < firsts@.len() ==> #[trigger] firsts@[j] < nrows,
                self.checklist(col as int, firsts@.take(k as int), self.filters@[col as int].values, distinct@),
            decreases firsts@.len() - k,
        {
            let r = firsts[k];
            proof {
                assert(self.data.rows@[r as int].len() == self.ncols());
                assert(self.cell_texts@[r as int]@.len() == self.data.rows@[r as int]@.len());
            }
            let label = self.cell_texts[r][col].clone();
            let checked = match &self.filters[col].values {
                None => true,
                Some(v) => contains_string(v, &label),
            };
            let ghost before = distinct@;
            distinct.push(FilterValueRow { label, checked });
            proof {
                let order = firsts@.take(k as int + 1);
                assert(order.take(k as int) =~= firsts@.take(k as int));
                assert forall|j: int| 0 <= j < order.len() implies {
                    &&& (#[trigger] distinct@[j]).label@ == ls[order[j] as int]
                    &&& distinct@[j].checked == seeded_check(self.filters@[col as int].values, ls[order[j] as int])
                } by {
                    if j < k {
                        assert(distinct@[j] == before[j]);
                        assert(order[j] == firsts@.take(k as int)[j]);
                    }
                }
            }
            k += 1;
        }
        proof {
            assert(firsts@.take(k as int) =~= firsts@);
        }
        let (op_index, a, b) = seed_operator(kind, &self.filters[col].predicate);
        let ghost values = self.filters@[col as int].values;
        self.context_menu = None;
        self.filter_panel = Some(FilterPanel {
            col,
            kind,
            search: TextInput::default(),
            op_index,
            op_menu_open: false,
            operand_a: TextInput::new(a),
            operand_b: TextInput::new(b),
            focus: FilterInput::Search,
            auto_apply: true,
            distinct,
        });
        proof {
            let order = firsts@;
            assert(sorted_by_key(order, ranks_of(old(self).data.rows@, col as int)) && order.to_multiset() == passing(first_occurrences(ls)).to_multiset()
                && self.checklist(col as int, order, values, self.filter_panel.unwrap().distinct@));
        }
    }

    /// `after` is `self` with the panel `p`'s filter committed to its column
    /// (when the column exists). A filter judged on displayed text re-derives
    /// the display order at once (see [`GridState::recompute`]), from the
    /// verdicts under the new filters (`outside` decides the other columns'
    /// numeric and pattern filters); a numeric or pattern filter marks the
    /// order stale for the host to re-derive.
    pub open spec fn committed(&self, after: Self, p: FilterPanel, outside: Seq<Vec<bool>>) -> bool {
        if p.col < self.filters@.len() {
            let f = after.filters@[p.col as int];
            let mid = GridState { filters: after.filters, ..*self };
            &&& built_from(f, p)
            &&& after.filters@ == self.filters@.update(p.col as int, f)
            &&& if f.judged_on_text() {
                mid.recomputed(after, outside)
            } else {
                after == (GridState { needs_recompute: true, ..mid })
            }
        } else {
            after == *self
        }
    }

    /// Commit the open panel's working state to its column's filter (see
    /// [`Self::committed`]).
    pub fn apply_filter_panel(&mut self, outside: &Vec<Vec<bool>>)
        requires
            old(self).wf(),
            old(self).verdict_shape(outside@),
        ensures
            final(self).wf(),
            match old(self).filter_panel {
                Some(p) => old(self).committed(*final(self), p, outside@),
                None => *final(self) == *old(self),
            },
    {
        let (col, filter) = match &self.filter_panel {
            Some(panel) => (panel.col, panel.to_filter()),
            None => {
                return;
            },
        };
        if col < self.filters.len() {
            let judged = filter.is_judged_on_text();
            self.filters.set(col, filter);
            if judged {
                self.recompute(outside);
            } else {
                self.needs_recompute = true;
            }
        }
    }

    /// Apply the open panel; the panel always applies as it is edited.
    pub fn maybe_auto_apply(&mut self, outside: &Vec<Vec<bool>>)
        requires
            old(self).wf(),
            old(self).verdict_shape(outside@),
        ensures
            final(self).wf(),
            match old(self).filter_panel {
                Some(p) => old(self).committed(*final(self), p, outside@),
                None => *final(self) == *old(self),
            },
    {
        if self.filter_panel.is_some() {
            self.apply_filter_panel(outside);
        }
    }

    /// `mid` is `self` with the open panel `p` reset (no operator, empty
    /// inputs, every value checked) and its column's committed filter cleared.
    pub open spec fn panel_cleared(&self, mid: Self, p: FilterPanel) -> bool {
        &&& mid.filter_panel matches Some(q) && {
            &&& q.col == p.col && q.kind == p.kind && q.focus == p.focus && q.auto_apply == p.auto_apply
            &&& q.op_index == 0 && !q.op_menu_open
            &&& q.search.value@.len() == 0 && q.search.cursor_chars == 0
            &&& q.operand_a.value@.len() == 0 && q.operand_a.cursor_chars == 0
            &&& q.operand_b.value@.len() == 0 && q.operand_b.cursor_chars == 0
            &&& q.distinct@.len() == p.distinct@.len()
            &&& forall|k: int| 0 <= k < q.distinct@.len() ==> (#[trigger] q.distinct@[k]).label == p.distinct@[k].label
                && q.distinct@[k].checked
        }
        &&& p.col < self.filters@.len() ==> mid.filters@ == self.filters@.update(p.col as int, mid.filters@[p.col as int])
            && mid.filters@[p.col as int].predicate is Nothing && mid.filters@[p.col as int].values is None
        &&& p.col >= self.filters@.len() ==> mid.filters == self.filters
        &&& mid == (GridState { filters: mid.filters, filter_panel: mid.filter_panel, ..*self })
    }

    /// Reset the panel and its column's committed filter (see
    /// [`Self::panel_cleared`]), then re-derive the display order (see
    /// [`GridState::recompute`]; `outside` holds the host's verdicts on
    /// numeric and pattern filters).
    pub fn clear_filter_panel(&mut self, outside: &Vec<Vec<bool>>)
        requires
            old(self).wf(),
            old(self).verdict_shape(outside@),
        ensures
            final(self).wf(),
            match old(self).filter_panel {
                None => old(self).recomputed(*final(self), outside@),
                Some(p) => exists|mid: GridState| #[trigger] old(self).panel_cleared(mid, p)
                    && mid.recomputed(*final(self), outside@),
            },
    {
        if let Some(mut panel) = self.filter_panel.take() {
            panel.op_index = 0;
            panel.op_menu_open = false;
            panel.operand_a = TextInput::default();
            panel.operand_b = TextInput::default();
            panel.search = TextInput::default();
            let mut rows: Vec<FilterValueRow> = Vec::new();
            let mut k: usize = 0;
            while k < panel.distinct.len()
                invariant
                    k <= panel.distinct@.len(),
                    rows@.len() == k,
                    forall|j: int| 0 <= j < k ==> (#[trigger] rows@[j]).label == panel.distinct@[j].label && rows@[j].checked,
                decreases panel.distinct@.len() - k,
            {
                rows.push(FilterValueRow { label: panel.distinct[k].label.clone(), checked: true });
                k += 1;
            }
            panel.distinct = rows;
            let col = panel.col;
            self.filter_panel = Some(panel);
            if col < self.filters.len() {
                self.filters.set(col, ColumnFilter::default());
            }
        }
        let ghost mid = *self;
        self.recompute(outside);
        proof {
            if let Some(p) = old(self).filter_panel {
                assert(old(self).panel_cleared(mid, p));
            }
        }
    }

    /// Sort the panel's column in `direction`, or turn the sort off when that
    /// is already the sort, and re-derive the display order (see
    /// [`GridState::recompute`]; `outside` holds the host's verdicts on
    /// numeric and pattern filters).
    pub fn set_panel_sort(&mut self, direction: SortDirection, outside: &Vec<Vec<bool>>)
        requires
            old(self).wf(),
            old(self).verdict_shape(outside@),
            old(self).filter_panel matches Some(p) ==> p.col < old(self).ncols(),
        ensures
            final(self).wf(),
            match old(self).filter_panel {
                Some(p) => (GridState { sort: panel_sort(old(self).sort, p.col, direction), ..*old(self) })
                    .recomputed(*final(self), outside@),
                None => *final(self) == *old(self),
            },
    {
        let col = match &self.filter_panel {
            Some(panel) => panel.col,
            None => {
                return;
            },
        };
        self.sort = match self.sort {
            Some((c, d)) if c == col && d == direction => None,
            _ => Some((col, direction)),
        };
        self.recompute(outside);
    }

    /// `q` is `p` with the checked state of value row `index` flipped (when
    /// the row exists).
    pub open spec fn value_toggled(p: FilterPanel, q: FilterPanel, index: usize) -> bool {
        if index < p.distinct@.len() {
            &&& q.distinct@ == p.distinct@.update(index as int, FilterValueRow {
                label: p.distinct@[index as int].label,
                checked: !p.distinct@[index as int].checked,
            })
            &&& q == (FilterPanel { distinct: q.distinct, ..p })
        } else {
            q == p
        }
    }

    /// Flip one value row's checked state, then apply the panel.
    pub fn toggle_filter_value(&mut self, index: usize, outside: &Vec<Vec<bool>>)
        requires
            old(self).wf(),
            old(self).verdict_shape(outside@),
        ensures
            final(self).wf(),
            match old(self).filter_panel {
                Some(p) => exists|q: FilterPanel| #[trigger] Self::value_toggled(p, q, index) && {
                    let mid = GridState { filter_panel: Some(q), ..*old(self) };
                    mid.committed(*final(self), q, outside@)
                },
                None => *final(self) == *old(self),
            },
    {
        if let Some(mut panel) = self.filter_panel.take() {
            let ghost p = panel;
            if index < panel.distinct.len() {
                let row = FilterValueRow { label: panel.distinct[index].label.clone(), checked: !panel.distinct[index].checked };
                panel.distinct.set(index, row);
            }
            let ghost q = panel;
            self.filter_panel = Some(panel);
            assert(Self::value_toggled(p, q, index));
            self.maybe_auto_apply(outside);
        }
    }

    /// Check every value, or uncheck every value when all are checked, then
    /// apply the panel. Independent of the search box.
    pub fn toggle_filter_select_all(&mut self, outside: &Vec<Vec<bool>>)
        requires
            old(self).wf(),
            old(self).verdict_shape(outside@),
        ensures
            final(self).wf(),
            match old(self).filter_panel {
                Some(p) => exists|q: FilterPanel| {
                    &&& #[trigger] q.distinct@.len() == p.distinct@.len()
                    &&& q == (FilterPanel { distinct: q.distinct, ..p })
                    &&& forall|k: int| 0 <= k < q.distinct@.len() ==> (#[trigger] q.distinct@[k]).label == p.distinct@[k].label
                        && q.distinct@[k].checked == !(p.distinct@.len() > 0 && every_checked(p.distinct@))
                    &&& (GridState { filter_panel: Some(q), ..*old(self) }).committed(*final(self), q, outside@)
                },
                None => *final(self) == *old(self),
            },
    {
        if let Some(mut panel) = self.filter_panel.take() {
            let ghost p = panel;
            let target = !panel.all_checked();
            let mut rows: Vec<FilterValueRow> = Vec::new();
            let mut k: usize = 0;
            while k < panel.distinct.len()
                invariant
                    k <= panel.distinct@.len(),
                    rows@.len() == k,
                    forall|j: int| 0 <= j < k ==> (#[trigger] rows@[j]).label == panel.distinct@[j].label && rows@[j].checked == target,
                decreases panel.distinct@.len() - k,
            {
                rows.push(FilterValueRow { label: panel.distinct[k].label.clone(), checked: target });
                k += 1;
            }
            panel.distinct = rows;
            let ghost q = panel;
            self.filter_panel = Some(panel);
            self.maybe_auto_apply(outside);
            assert(q.distinct@.len() == p.distinct@.len());
        }
    }

    /// Choose the operator at `op_index` of the operator labels, close the
    /// dropdown (focusing the first operand unless "Choose One" was picked),
    /// then apply the panel.
    pub fn set_filter_operator(&mut self, op_index: usize, outside: &Vec<Vec<bool>>)
        requires
            old(self).wf(),
            old(self).verdict_shape(outside@),
        ensures
            final(self).wf(),
            match old(self).filter_panel {
                Some(p) => {
                    let q = FilterPanel {
                        op_index,
                        op_menu_open: false,
                        focus: if op_index != 0 { FilterInput::OperandA } else { p.focus },
                        ..p
                    };
                    (GridState { filter_panel: Some(q), ..*old(self) }).committed(*final(self), q, outside@)
                },
                None => *final(self) == *old(self),
            },
    {
        if let Some(mut panel) = self.filter_panel.take() {
            panel.op_index = op_index;
            panel.op_menu_open = false;
            if op_index != 0 {
                panel.focus = FilterInput::OperandA;
            }
            self.filter_panel = Some(panel);
            self.maybe_auto_apply(outside);
        }
    }

    /// Open or close the operator dropdown.
    pub fn toggle_filter_op_menu(&mut self)
        ensures
            match old(self).filter_panel {
                Some(p) => *final(self) == (GridState {
                    filter_panel: Some(FilterPanel { op_menu_open: !p.op_menu_open, ..p }),
                    ..*old(self)
                }),
                None => *final(self) == *old(self),
            },
    {
        if let Some(mut panel) = self.filter_panel.take() {
            panel.op_menu_open = !panel.op_menu_open;
            self.filter_panel = Some(panel);
        }
    }

    /// Point typed keys at one of the panel's inputs.
    pub fn set_filter_focus(&mut self, focus: FilterInput)
        ensures
            match old(self).filter_panel {
                Some(p) => *final(self) == (GridState { filter_panel: Some(FilterPanel { focus, ..p }), ..*old(self) }),
                None => *final(self) == *old(self),
            },
    {
        if let Some(mut panel) = self.filter_panel.take() {
            panel.focus = focus;
            self.filter_panel = Some(panel);
        }
    }

    /// Flip the panel's auto-apply flag, then apply the panel.
    pub fn toggle_filter_auto_apply(&mut self, outside: &Vec<Vec<bool>>)
        requires
            old(self).wf(),
            old(self).verdict_shape(outside@),
        ensures
            final(self).wf(),
            match old(self).filter_panel {
                Some(p) => {
                    let q = FilterPanel { auto_apply: !p.auto_apply, ..p };
                    (GridState { filter_panel: Some(q), ..*old(self) }).committed(*final(self), q, outside@)
                },
                None => *final(self) == *old(self),
            },
    {
        if let Some(mut panel) = self.filter_panel.take() {
            panel.auto_apply = !panel.auto_apply;
            self.filter_panel = Some(panel);
            self.maybe_auto_apply(outside);
        }
    }
}

} // verus!
