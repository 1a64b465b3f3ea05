//! Row sections: rows grouped by the displayed value of one column, sections
//! ordered by first appearance, rows within a section in display order.
use vstd::prelude::*;

verus! {

/// One visual row of the grid: a section header or a data row.
#[derive(Clone, Copy, Debug, PartialEq, Eq, Structural)]
pub enum GridDisplayRow {
    GroupHeader { group: usize },
    Data { source_row: usize, flat_row: usize },
}

/// Read-only description of one section of a grouped grid.
#[derive(Clone, Debug, PartialEq, Eq)]
pub struct RowGroup {
    /// Formatted value shown in the section header.
    pub label: String,
    /// Number of rows in the section, including hidden ones when collapsed.
    pub row_count: usize,
    /// Whether the section hides its rows.
    pub collapsed: bool,
}

/// Data rows for the flat rows `members`, whose source rows come from `di`.
pub open spec fn section_rows(members: Seq<usize>, di: Seq<usize>) -> Seq<GridDisplayRow> {
    Seq::new(members.len(), |k: int| GridDisplayRow::Data { source_row: di[members[k] as int], flat_row: members[k] })
}

/// Display rows of the first `n` sections: each header followed by its rows
/// unless the section is collapsed.
pub open spec fn sections_display(members: Seq<Seq<usize>>, collapsed: Seq<bool>, di: Seq<usize>, n: int) -> Seq<GridDisplayRow>
    decreases n,
{
    if n <= 0 {
        seq![]
    } else {
        sections_display(members, collapsed, di, n - 1).push(GridDisplayRow::GroupHeader { group: (n - 1) as usize })
            + if collapsed[n - 1] { Seq::empty() } else { section_rows(members[n - 1], di) }
    }
}

/// Data rows of an ungrouped grid: one per display index, in order.
pub open spec fn flat_display(di: Seq<usize>) -> Seq<GridDisplayRow> {
    Seq::new(di.len(), |k: int| GridDisplayRow::Data { source_row: di[k], flat_row: k as usize })
}

/// Whether `v` holds a string equal to `s`.
pub fn contains_string(v: &Vec<String>, s: &String) -> (b: bool)
    ensures
        b == views(v@).contains(s@),
{
    let mut i: usize = 0;
    while i < v.len()
        invariant
            i <= v@.len(),
            forall|k: int| 0 <= k < i ==> (#[trigger] v@[k])@ != s@,
        decreases v@.len() - i,
    {
        if v[i] == *s {
            assert(views(v@)[i as int] == s@);
            return true;
        }
        i += 1;
    }
    proof {
        if views(v@).contains(s@) {
            let k = choose|k: int| 0 <= k < views(v@).len() && views(v@)[k] == s@;
            assert(v@[k]@ == s@);
        }
    }
    false
}

/// Data rows of an ungrouped grid.
pub fn build_flat_display(di: &Vec<usize>) -> (r: Vec<GridDisplayRow>)
    ensures
        r@ == flat_display(di@),
{
    let mut out: Vec<GridDisplayRow> = Vec::new();
    let mut k: usize = 0;
    while k < di.len()
        invariant
            k <= di@.len(),
            out@ == flat_display(di@.take(k as int)),
        decreases di@.len() - k,
    {
        out.push(GridDisplayRow::Data { source_row: di[k], flat_row: k });
        assert(out@ =~= flat_display(di@.take(k as int + 1)));
        k += 1;
    }
    assert(di@.take(k as int) =~= di@);
    out
}

/// Sections and display rows for a grouped grid: `order` and `members` from
/// [`build_groups`], `di` the display order, `collapsed` the labels of the
/// sections to hide. Returns the section descriptions and the display rows.
pub fn build_sections(order: &Vec<String>, members: &Vec<Vec<usize>>, di: &Vec<usize>, collapsed: &Vec<String>) -> (r: (Vec<RowGroup>, Vec<GridDisplayRow>))
    requires
        members@.len() == order@.len(),
        forall|g: int, k: int| 0 <= g < members@.len() && 0 <= k < members@[g]@.len() ==> #[trigger] members@[g]@[k] < di@.len(),
    ensures
        r.0@.len() == order@.len(),
        forall|g: int| 0 <= g < order@.len() ==> {
            &&& (#[trigger] r.0@[g]).label@ == order@[g]@
            &&& r.0@[g].row_count == members@[g]@.len()
            &&& r.0@[g].collapsed == views(collapsed@).contains(order@[g]@)
        },
        r.1@ == sections_display(members@.map_values(|m: Vec<usize>| m@), r.0@.map_values(|g: RowGroup| g.collapsed), di@, order@.len() as int),
{
    let ghost ms = members@.map_values(|m: Vec<usize>| m@);
    let mut groups: Vec<RowGroup> = Vec::new();
    let mut g: usize = 0;
    while g < order.len()
        invariant
            g <= order@.len(),
            groups@.len() == g,
            forall|h: int| 0 <= h < g ==> {
                &&& (#[trigger] groups@[h]).label@ == order@[h]@
                &&& groups@[h].row_count == members@[h]@.len()
                &&& groups@[h].collapsed == views(collapsed@).contains(order@[h]@)
            },
            members@.len() == order@.len(),
        decreases order@.len() - g,
    {
        let c = contains_string(collapsed, &order[g]);
        groups.push(RowGroup { label: order[g].clone(), row_count: members[g].len(), collapsed: c });
        g += 1;
    }
    let ghost cs = groups@.map_values(|g: RowGroup| g.collapsed);
    let mut out: Vec<GridDisplayRow> = Vec::new();
    let mut g: usize = 0;
    while g < order.len()
        invariant
            g <= order@.len(),
            groups@.len() == order@.len(),
            members@.len() == order@.len(),
            ms == members@.map_values(|m: Vec<usize>| m@),
            cs == groups@.map_values(|g: RowGroup| g.collapsed),
            forall|h: int, k: int| 0 <= h < members@.len() && 0 <= k < members@[h]@.len() ==> #[trigger] members@[h]@[k] < di@.len(),
            out@ == sections_display(ms, cs, di@, g as int),
        decreases order@.len() - g,
    {
        out.push(GridDisplayRow::GroupHeader { group: g });
        if !groups[g].collapsed {
            let m = &members[g];
            let ghost base = out@;
            let mut k: usize = 0;
            while k < m.len()
                invariant
                    k <= m@.len(),
                    m@ == ms[g as int],
                    forall|j: int| 0 <= j < m@.len() ==> #[trigger] m@[j] < di@.len(),
                    out@ == base + section_rows(m@.take(k as int), di@),
                decreases m@.len() - k,
            {
                out.push(GridDisplayRow::Data { source_row: di[m[k]], flat_row: m[k] });
                assert(out@ =~= base + section_rows(m@.take(k as int + 1), di@));
                k += 1;
            }
            assert(m@.take(k as int) =~= m@);
        } else {
            assert(out@ =~= out@ + Seq::<GridDisplayRow>::empty());
        }
        g += 1;
    }
    (groups, out)
}

/// Distinct labels in order of first appearance.
pub open spec fn group_order(ls: Seq<Seq<char>>) -> Seq<Seq<char>>
    decreases ls.len(),
{
    if ls.len() == 0 {
        seq![]
    } else {
        let p = group_order(ls.drop_last());
        if p.contains(ls.last()) { p } else { p.push(ls.last()) }
    }
}

/// Positions of the rows labelled `label`, in order.
pub open spec fn group_members(ls: Seq<Seq<char>>, label: Seq<char>) -> Seq<usize>
    decreases ls.len(),
{
    if ls.len() == 0 {
        seq![]
    } else {
        let p = group_members(ls.drop_last(), label);
        if ls.last() == label { p.push((ls.len() - 1) as usize) } else { p }
    }
}

/// The views of a vector of strings.
pub open spec fn views(v: Seq<String>) -> Seq<Seq<char>> {
    v.map_values(|s: String| s@)
}

/// Section labels appear once each, and exactly the labels that occur.
pub proof fn lemma_group_order(ls: Seq<Seq<char>>)
    ensures
        group_order(ls).no_duplicates(),
        forall|l: Seq<char>| #[trigger] group_order(ls).contains(l) <==> ls.contains(l),
    decreases ls.len(),
{
    if ls.len() > 0 {
        let t = ls.drop_last();
        let x = ls.last();
        lemma_group_order(t);
        let p = group_order(t);
        assert forall|l: Seq<char>| #[trigger] group_order(ls).contains(l) <==> ls.contains(l) by {
            assert(ls.contains(l) <==> (t.contains(l) || x == l)) by {
                if ls.contains(l) {
                    let k = choose|k: int| 0 <= k < ls.len() && ls[k] == l;
                    if k < ls.len() - 1 {
                        assert(t[k] == l);
                    }
                }
                if t.contains(l) {
                    let k = choose|k: int| 0 <= k < t.len() && t[k] == l;
                    assert(ls[k] == l);
                }
                if x == l {
                    assert(ls[ls.len() - 1] == l);
                }
            }
            assert(p.contains(l) <==> t.contains(l));
            if !p.contains(x) {
                let q = p.push(x);
                assert(q.contains(l) <==> (p.contains(l) || l == x)) by {
                    if q.contains(l) {
                        let k = choose|k: int| 0 <= k < q.len() && q[k] == l;
                        if k < p.len() {
                            assert(p[k] == l);
                        }
                    }
                    if p.contains(l) {
                        let k = choose|k: int| 0 <= k < p.len() && p[k] == l;
                        assert(q[k] == l);
                    }
                    if l == x {
                        assert(q[p.len() as int] == l);
                    }
                }
            }
        }
        if !p.contains(x) {
            let q = p.push(x);
            assert forall|i: int, j: int| 0 <= i < q.len() && 0 <= j < q.len() && i != j implies q[i] != q[j] by {
                if i < p.len() && j < p.len() {
                    assert(p[i] != p[j]);
                } else if i < p.len() {
                    assert(p.contains(q[i]));
                } else if j < p.len() {
                    assert(p.contains(q[j]));
                }
            }
        }
    }
}

/// Groups `labels` into sections: the section labels in first-appearance
/// order, and for each section the positions of its rows.
pub fn build_groups(labels: &Vec<String>) -> (r: (Vec<String>, Vec<Vec<usize>>))
    ensures
        views(r.0@) == group_order(views(labels@)),
        r.1@.len() == r.0@.len(),
        forall|g: int| 0 <= g < r.1@.len() ==> (#[trigger] r.1@[g])@ == group_members(views(labels@), views(r.0@)[g]),
{
    let ghost lv = views(labels@);
    let mut order: Vec<String> = Vec::new();
    let mut members: Vec<Vec<usize>> = Vec::new();
    let mut i: usize = 0;
    while i < labels.len()
        invariant
            lv == views(labels@),
            i <= labels@.len(),
            views(order@) == group_order(lv.take(i as int)),
            members@.len() == order@.len(),
            forall|g: int| 0 <= g < members@.len() ==> (#[trigger] members@[g])@ == group_members(lv.take(i as int), views(order@)[g]),
        decreases labels@.len() - i,
    {
        let ghost prefix = lv.take(i as int);
        let ghost next = lv.take(i as int + 1);
        proof {
            assert(next.drop_last() =~= prefix);
            assert(next.last() == labels@[i as int]@);
            lemma_group_order(prefix);
        }
        let mut g: usize = 0;
        let mut found = false;
        while g < order.len()
            invariant_except_break
                !found,
            invariant
                i < labels@.len(),
                g <= order@.len(),
                forall|k: int| 0 <= k < g ==> (#[trigger] order@[k])@ != labels@[i as int]@,
            ensures
                found ==> g < order@.len() && order@[g as int]@ == labels@[i as int]@,
                !found ==> forall|k: int| 0 <= k < order@.len() ==> (#[trigger] order@[k])@ != labels@[i as int]@,
            decreases order@.len() - g,
        {
            if order[g] == labels[i] {
                found = true;
                break;
            }
            g += 1;
        }
        if found {
            let ghost old_members = members@;
            proof {
                assert(views(order@)[g as int] == labels@[i as int]@);
                assert(group_order(prefix).contains(next.last()));
            }
            members[g].push(i);
            proof {
                assert forall|h: int| 0 <= h < members@.len() implies (#[trigger] members@[h])@ == group_members(next, views(order@)[h]) by {
                    if h != g {
                        assert(members@[h] == old_members[h]);
                        assert(views(order@)[h] != views(order@)[g as int]) by {
                            assert(group_order(prefix).no_duplicates());
                        }
                    } else {
                        assert(members@[h]@ =~= old_members[h]@.push(i));
                    }
                }
            }
        } else {
            proof {
                assert(!group_order(prefix).contains(next.last())) by {
                    if group_order(prefix).contains(next.last()) {
                        let k = choose|k: int| 0 <= k < views(order@).len() && views(order@)[k] == next.last();
                        assert(order@[k]@ == labels@[i as int]@);
                    }
                }
            }
            let ghost old_members = members@;
            let ghost old_order = order@;
            order.push(labels[i].clone());
            let mut fresh: Vec<usize> = Vec::new();
            fresh.push(i);
            members.push(fresh);
            proof {
                assert(views(order@) =~= views(old_order).push(next.last()));
                assert forall|h: int| 0 <= h < members@.len() implies (#[trigger] members@[h])@ == group_members(next, views(order@)[h]) by {
                    if h < old_members.len() {
                        assert(members@[h] == old_members[h]);
                        assert(views(order@)[h] == views(old_order)[h]);
                        assert(views(old_order)[h] != next.last()) by {
                            assert(group_order(prefix)[h] == views(old_order)[h]);
                        }
                    } else {
                        lemma_no_members(prefix, next.last());
                        assert(members@[h]@ =~= seq![i]);
                    }
                }
            }
        }
        i += 1;
    }
    proof {
        assert(lv.take(i as int) =~= lv);
    }
    (order, members)
}

/// A label that does not occur has no members.
pub proof fn lemma_no_members(ls: Seq<Seq<char>>, label: Seq<char>)
    requires
        !group_order(ls).contains(label),
    ensures
        group_members(ls, label).len() == 0,
    decreases ls.len(),
{
    lemma_group_order(ls);
    if ls.len() > 0 {
        lemma_group_order(ls.drop_last());
        assert(ls.last() != label) by {
            assert(ls[ls.len() - 1] == ls.last());
            assert(ls.contains(ls.last()));
            assert(group_order(ls).contains(ls.last()));
        }
        assert(!group_order(ls.drop_last()).contains(label)) by {
            if group_order(ls.drop_last()).contains(label) {
                assert(ls.drop_last().contains(label));
                let k = choose|k: int| 0 <= k < ls.drop_last().len() && ls.drop_last()[k] == label;
                assert(ls[k] == label);
                assert(ls.contains(label));
            }
        }
        lemma_no_members(ls.drop_last(), label);
    }
}


/// Member positions are positions of the labelled rows.
pub proof fn lemma_members_in_range(ls: Seq<Seq<char>>, label: Seq<char>)
    ensures
        forall|k: int| 0 <= k < group_members(ls, label).len() ==> #[trigger] group_members(ls, label)[k] < ls.len(),
    decreases ls.len(),
{
    if ls.len() > 0 {
        lemma_members_in_range(ls.drop_last(), label);
        let p = group_members(ls.drop_last(), label);
        assert forall|k: int| 0 <= k < group_members(ls, label).len() implies #[trigger] group_members(ls, label)[k] < ls.len() by {
            if k < p.len() {
                assert(group_members(ls, label)[k] == p[k]);
            }
        }
    }
}

/// Every data row of a sectioned layout points at a source row from `di`,
/// and every header at one of the first `n` sections.
pub proof fn lemma_sections_display_in_range(members: Seq<Seq<usize>>, collapsed: Seq<bool>, di: Seq<usize>, n: int, nrows: nat)
    requires
        0 <= n <= members.len(),
        n <= collapsed.len(),
        forall|g: int, k: int| 0 <= g < members.len() && 0 <= k < members[g].len() ==> #[trigger] members[g][k] < di.len(),
        forall|i: int| 0 <= i < di.len() ==> #[trigger] di[i] < nrows,
    ensures
        forall|i: int| 0 <= i < sections_display(members, collapsed, di, n).len() ==> match #[trigger] sections_display(members, collapsed, di, n)[i] {
            GridDisplayRow::Data { source_row, .. } => source_row < nrows,
            GridDisplayRow::GroupHeader { group } => group < n,
        },
    decreases n,
{
    if n > 0 {
        lemma_sections_display_in_range(members, collapsed, di, n - 1, nrows);
        let prev = sections_display(members, collapsed, di, n - 1);
        let head = prev.push(GridDisplayRow::GroupHeader { group: (n - 1) as usize });
        let tail = if collapsed[n - 1] { Seq::<GridDisplayRow>::empty() } else { section_rows(members[n - 1], di) };
        let all = sections_display(members, collapsed, di, n);
        assert(all == head + tail);
        assert forall|i: int| 0 <= i < all.len() implies match #[trigger] all[i] {
            GridDisplayRow::Data { source_row, .. } => source_row < nrows,
            GridDisplayRow::GroupHeader { group } => group < n,
        } by {
            if i < prev.len() {
                assert(all[i] == prev[i]);
            } else if i == prev.len() {
            } else {
                let k = i - head.len();
                assert(all[i] == tail[k]);
                assert(members[n - 1][k] < di.len());
            }
        }
    }
}

/// Labels of `old` that still name a section, in order.
pub open spec fn retained(old: Seq<Seq<char>>, order: Seq<Seq<char>>) -> Seq<Seq<char>>
    decreases old.len(),
{
    if old.len() == 0 {
        seq![]
    } else {
        let p = retained(old.drop_last(), order);
        if order.contains(old.last()) { p.push(old.last()) } else { p }
    }
}

/// Copies of the labels in `old` that also occur in `order`.
pub fn retain_labels(old: &Vec<String>, order: &Vec<String>) -> (r: Vec<String>)
    ensures
        views(r@) == retained(views(old@), views(order@)),
{
    let mut out: Vec<String> = Vec::new();
    let mut i: usize = 0;
    while i < old.len()
        invariant
            i <= old@.len(),
            views(out@) == retained(views(old@).take(i as int), views(order@)),
        decreases old@.len() - i,
    {
        proof {
            assert(views(old@).take(i as int + 1).drop_last() =~= views(old@).take(i as int));
        }
        if contains_string(order, &old[i]) {
            let ghost before = out@;
            out.push(old[i].clone());
            assert(views(out@) =~= views(before).push(old@[i as int]@));
        }
        i += 1;
    }
    assert(views(old@).take(i as int) =~= views(old@));
    out
}

/// Total rows of the first `n` sections.
pub open spec fn rows_in_sections(groups: Seq<RowGroup>, n: int) -> int
    decreases n,
{
    if n <= 0 {
        0
    } else {
        rows_in_sections(groups, n - 1) + groups[n - 1].row_count
    }
}

/// Total members, under `ls`, of the first `n` labels of `o`.
spec fn members_total(ls: Seq<Seq<char>>, o: Seq<Seq<char>>, n: int) -> int
    decreases n,
{
    if n <= 0 {
        0
    } else {
        members_total(ls, o, n - 1) + group_members(ls, o[n - 1]).len()
    }
}

/// How many of the first `n` labels of `o` equal `x`.
spec fn label_count(o: Seq<Seq<char>>, x: Seq<char>, n: int) -> int
    decreases n,
{
    if n <= 0 {
        0
    } else {
        label_count(o, x, n - 1) + if o[n - 1] == x { 1int } else { 0int }
    }
}

proof fn lemma_members_total_step(ls: Seq<Seq<char>>, o: Seq<Seq<char>>, n: int)
    requires
        ls.len() > 0,
        0 <= n <= o.len(),
    ensures
        members_total(ls, o, n) == members_total(ls.drop_last(), o, n) + label_count(o, ls.last(), n),
    decreases n,
{
    if n > 0 {
        lemma_members_total_step(ls, o, n - 1);
    }
}

proof fn lemma_label_count(o: Seq<Seq<char>>, x: Seq<char>, n: int)
    requires
        o.no_duplicates(),
        0 <= n <= o.len(),
    ensures
        label_count(o, x, n) == if o.take(n).contains(x) { 1int } else { 0int },
    decreases n,
{
    if n > 0 {
        lemma_label_count(o, x, n - 1);
        if o.take(n).contains(x) {
            let k = choose|k: int| 0 <= k < n && #[trigger] o.take(n)[k] == x;
            if o[n - 1] == x {
                if o.take(n - 1).contains(x) {
                    let j = choose|j: int| 0 <= j < n - 1 && #[trigger] o.take(n - 1)[j] == x;
                    assert(o[j] == o[n - 1]);
                }
            } else {
                assert(o.take(n - 1)[k] == x);
            }
        } else {
            if o[n - 1] == x {
                assert(o.take(n)[n - 1] == x);
            }
            if o.take(n - 1).contains(x) {
                let j = choose|j: int| 0 <= j < n - 1 && #[trigger] o.take(n - 1)[j] == x;
                assert(o.take(n)[j] == x);
            }
        }
    }
}

/// Labels `o`, each once and covering every label of `ls`, have as many
/// members in all as `ls` has rows.
proof fn lemma_members_total(ls: Seq<Seq<char>>, o: Seq<Seq<char>>)
    requires
        o.no_duplicates(),
        forall|l: Seq<char>| ls.contains(l) ==> #[trigger] o.contains(l),
    ensures
        members_total(ls, o, o.len() as int) == ls.len(),
    decreases ls.len(),
{
    if ls.len() == 0 {
        lemma_members_total_empty(ls, o, o.len() as int);
    } else {
        let t = ls.drop_last();
        assert forall|l: Seq<char>| t.contains(l) implies #[trigger] o.contains(l) by {
            let k = choose|k: int| 0 <= k < t.len() && t[k] == l;
            assert(ls[k] == l);
        }
        lemma_members_total(t, o);
        lemma_members_total_step(ls, o, o.len() as int);
        lemma_label_count(o, ls.last(), o.len() as int);
        assert(ls.contains(ls.last())) by {
            assert(ls[ls.len() - 1] == ls.last());
        }
        assert(o.take(o.len() as int) =~= o);
    }
}

proof fn lemma_members_total_empty(ls: Seq<Seq<char>>, o: Seq<Seq<char>>, n: int)
    requires
        ls.len() == 0,
    ensures
        members_total(ls, o, n) == 0,
    decreases n,
{
    if n > 0 {
        lemma_members_total_empty(ls, o, n - 1);
    }
}

/// Sections built from the distinct labels of `ls`, each counting the rows
/// that carry its label, hold every row once in all.
pub proof fn lemma_sections_cover(ls: Seq<Seq<char>>, groups: Seq<RowGroup>)
    requires
        groups.len() == group_order(ls).len(),
        forall|g: int| 0 <= g < groups.len() ==> (#[trigger] groups[g]).row_count == group_members(ls, group_order(ls)[g]).len(),
    ensures
        rows_in_sections(groups, groups.len() as int) == ls.len(),
{
    lemma_group_order(ls);
    let o = group_order(ls);
    assert forall|l: Seq<char>| ls.contains(l) implies #[trigger] o.contains(l) by {}
    lemma_members_total(ls, o);
    lemma_rows_match(ls, o, groups, groups.len() as int);
}

proof fn lemma_rows_match(ls: Seq<Seq<char>>, o: Seq<Seq<char>>, groups: Seq<RowGroup>, n: int)
    requires
        0 <= n <= groups.len(),
        forall|g: int| 0 <= g < groups.len() ==> (#[trigger] groups[g]).row_count == group_members(ls, o[g]).len(),
    ensures
        rows_in_sections(groups, n) == members_total(ls, o, n),
    decreases n,
{
    if n > 0 {
        lemma_rows_match(ls, o, groups, n - 1);
    }
}

} // verus!
