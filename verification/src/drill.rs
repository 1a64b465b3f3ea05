//! The banner text describing a drill-through filter: for each filtered
//! field, its column name and the admitted values in sorted order.
use vstd::prelude::*;
use crate::data::GridData;
use crate::grouping::views;
use crate::text::{decimal, push_decimal};
use crate::text_input::push_str;

verus! {

/// `a` sorts strictly before `b`: character-wise by code point, a proper
/// prefix first (the order of `str`'s comparison, since UTF-8 preserves code
/// point order).
pub open spec fn char_lex_lt(a: Seq<char>, b: Seq<char>) -> bool
    decreases a.len(),
{
    if a.len() == 0 {
        b.len() > 0
    } else if b.len() == 0 {
        false
    } else if a[0] != b[0] {
        (a[0] as u32) < (b[0] as u32)
    } else {
        char_lex_lt(a.drop_first(), b.drop_first())
    }
}

/// Ascending in that order.
pub open spec fn lex_sorted(s: Seq<Seq<char>>) -> bool {
    forall|i: int, j: int| 0 <= i < j < s.len() ==> !char_lex_lt(#[trigger] s[j], #[trigger] s[i])
}

pub proof fn lemma_char_lex_lt_transitive(a: Seq<char>, b: Seq<char>, c: Seq<char>)
    requires
        char_lex_lt(a, b),
        char_lex_lt(b, c),
    ensures
        char_lex_lt(a, c),
    decreases a.len(),
{
    if a.len() > 0 && b.len() > 0 && c.len() > 0 && a[0] == b[0] && b[0] == c[0] {
        lemma_char_lex_lt_transitive(a.drop_first(), b.drop_first(), c.drop_first());
    }
}

pub proof fn lemma_char_lex_lt_irreflexive(a: Seq<char>)
    ensures
        !char_lex_lt(a, a),
    decreases a.len(),
{
    if a.len() > 0 {
        lemma_char_lex_lt_irreflexive(a.drop_first());
    }
}

/// `parts` joined by `sep`.
pub open spec fn joined(parts: Seq<Seq<char>>, sep: Seq<char>) -> Seq<char>
    decreases parts.len(),
{
    if parts.len() == 0 {
        seq![]
    } else if parts.len() == 1 {
        parts[0]
    } else {
        joined(parts.drop_last(), sep) + sep + parts.last()
    }
}

/// Up to three values joined by " | "; more show the first two and a count.
pub open spec fn shown_values(sorted: Seq<Seq<char>>) -> Seq<char> {
    if sorted.len() <= 3 {
        joined(sorted, " | "@)
    } else {
        joined(sorted.take(2), " | "@) + " | \u{2026} ("@ + decimal(sorted.len()) + " values)"@
    }
}

/// Name of column `field`, or "?" when there is no such column.
pub open spec fn field_name(data: GridData, field: usize) -> Seq<char> {
    if field < data.columns@.len() { data.columns@[field as int].name@ } else { "?"@ }
}

/// The parts of the label for the first `n` fields, whose sorted values are
/// `sorted`; fields without values are left out.
pub open spec fn drill_parts(data: GridData, fields: Seq<usize>, sorted: Seq<Seq<Seq<char>>>, n: int) -> Seq<Seq<char>>
    decreases n,
{
    if n <= 0 {
        seq![]
    } else {
        let p = drill_parts(data, fields, sorted, n - 1);
        if sorted[n - 1].len() == 0 {
            p
        } else {
            p.push(field_name(data, fields[n - 1]) + " = "@ + shown_values(sorted[n - 1]))
        }
    }
}

/// Whether `a` sorts strictly before `b` (see [`char_lex_lt`]).
pub fn str_less(a: &str, b: &str) -> (r: bool)
    ensures
        r == char_lex_lt(a@, b@),
{
    let na = a.unicode_len();
    let nb = b.unicode_len();
    let mut i: usize = 0;
    assert(a@.skip(0) =~= a@ && b@.skip(0) =~= b@);
    while i < na && i < nb
        invariant
            na == a@.len(),
            nb == b@.len(),
            i <= na,
            i <= nb,
            a@.take(i as int) == b@.take(i as int),
            char_lex_lt(a@, b@) == char_lex_lt(a@.skip(i as int), b@.skip(i as int)),
        decreases na - i,
    {
        let ca = a.get_char(i);
        let cb = b.get_char(i);
        proof {
            assert(a@.skip(i as int)[0] == ca);
            assert(b@.skip(i as int)[0] == cb);
        }
        if ca != cb {
            return (ca as u32) < (cb as u32);
        }
        proof {
            assert(a@.skip(i as int).drop_first() =~= a@.skip(i as int + 1));
            assert(b@.skip(i as int).drop_first() =~= b@.skip(i as int + 1));
            assert(a@.take(i as int + 1) =~= a@.take(i as int).push(ca));
            assert(b@.take(i as int + 1) =~= b@.take(i as int).push(cb));
        }
        i += 1;
    }
    i == na && i < nb
}

/// The strings of `v`, sorted ascending (see [`char_lex_lt`]).
pub fn sorted_strings(v: &Vec<String>) -> (r: Vec<String>)
    ensures
        lex_sorted(views(r@)),
        views(r@).to_multiset() == views(v@).to_multiset(),
{
    broadcast use vstd::seq_lib::group_to_multiset_ensures;
    let mut out: Vec<String> = Vec::new();
    let mut k: usize = 0;
    while k < v.len()
        invariant
            k <= v@.len(),
            lex_sorted(views(out@)),
            views(out@).to_multiset() == views(v@.take(k as int)).to_multiset(),
        decreases v@.len() - k,
    {
        let x = &v[k];
        let mut pos: usize = 0;
        while pos < out.len() && !str_less(x.as_str(), out[pos].as_str())
            invariant
                pos <= out@.len(),
                forall|i: int| 0 <= i < pos ==> !char_lex_lt(x@, #[trigger] views(out@)[i]),
            decreases out@.len() - pos,
        {
            pos += 1;
        }
        let ghost before = views(out@);
        out.insert(pos, x.clone());
        proof {
            let after = views(out@);
            assert(after =~= before.insert(pos as int, x@));
            assert forall|i: int, j: int| 0 <= i < j < after.len() implies !char_lex_lt(#[trigger] after[j], #[trigger] after[i]) by {
                if i < pos && j < pos {
                    assert(after[i] == before[i] && after[j] == before[j]);
                } else if i < pos && j == pos {
                    assert(after[i] == before[i]);
                } else if i < pos {
                    assert(after[i] == before[i] && after[j] == before[j - 1]);
                } else if i == pos {
                    assert(after[j] == before[j - 1]);
                    assert(char_lex_lt(x@, before[pos as int]));
                    if char_lex_lt(before[j - 1], x@) {
                        lemma_char_lex_lt_transitive(before[j - 1], x@, before[pos as int]);
                        if j - 1 == pos {
                            lemma_char_lex_lt_irreflexive(before[pos as int]);
                        } else {
                            assert(!char_lex_lt(before[j - 1], before[pos as int]));
                        }
                    }
                } else {
                    assert(after[i] == before[i - 1] && after[j] == before[j - 1]);
                }
            }
            assert(views(v@.take(k as int + 1)) =~= views(v@.take(k as int)).push(x@));
            broadcast use vstd::seq_lib::group_to_multiset_ensures;
            assert(before.insert(pos as int, x@).to_multiset() == before.to_multiset().insert(x@));
            assert(views(v@.take(k as int)).push(x@).to_multiset() == views(v@.take(k as int)).to_multiset().insert(x@));
        }
        k += 1;
    }
    proof {
        assert(v@.take(k as int) =~= v@);
    }
    out
}

/// Append `parts` joined by `sep` to `out`.
fn push_joined(out: &mut String, parts: &Vec<String>, n: usize, sep: &str)
    requires
        n <= parts@.len(),
    ensures
        final(out)@ == old(out)@ + joined(views(parts@).take(n as int), sep@),
{
    let ghost start = out@;
    let mut k: usize = 0;
    while k < n
        invariant
            n <= parts@.len(),
            k <= n,
            out@ == start + joined(views(parts@).take(k as int), sep@),
        decreases n - k,
    {
        assert(views(parts@).take(k as int + 1).drop_last() =~= views(parts@).take(k as int));
        if k > 0 {
            push_str(out, sep);
        }
        push_str(out, parts[k].as_str());
        assert(out@ =~= start + joined(views(parts@).take(k as int + 1), sep@));
        k += 1;
    }
}

/// Banner text for a drill-through filter: `name = values` per field that
/// admits values, joined by ", ". Each field's values are listed in sorted
/// order, up to three of them; a longer list shows the first two and the
/// count. Each field's values form a set: none is listed twice.
pub fn drill_filter_label(data: &GridData, filter_sets: &Vec<(usize, Vec<String>)>) -> (r: String)
    requires
        forall|i: int| 0 <= i < filter_sets@.len() ==> views((#[trigger] filter_sets@[i]).1@).no_duplicates(),
    ensures
        exists|sorted: Seq<Seq<Seq<char>>>| {
            &&& #[trigger] sorted.len() == filter_sets@.len()
            &&& forall|i: int| 0 <= i < sorted.len() ==> lex_sorted(#[trigger] sorted[i])
                && sorted[i].to_multiset() == views(filter_sets@[i].1@).to_multiset()
            &&& r@ == joined(drill_parts(*data, filter_sets@.map_values(|f: (usize, Vec<String>)| f.0), sorted,
                filter_sets@.len() as int), ", "@)
        },
{
    broadcast use vstd::seq_lib::group_to_multiset_ensures;
    let ghost fields = filter_sets@.map_values(|f: (usize, Vec<String>)| f.0);
    let mut parts: Vec<String> = Vec::new();
    let ghost mut sorted: Seq<Seq<Seq<char>>> = seq![];
    let mut i: usize = 0;
    while i < filter_sets.len()
        invariant
            i <= filter_sets@.len(),
            fields == filter_sets@.map_values(|f: (usize, Vec<String>)| f.0),
            sorted.len() == i,
            forall|j: int| 0 <= j < i ==> lex_sorted(#[trigger] sorted[j])
                && sorted[j].to_multiset() == views(filter_sets@[j].1@).to_multiset(),
            views(parts@) == drill_parts(*data, fields, sorted, i as int),
        decreases filter_sets@.len() - i,
    {
        let field = filter_sets[i].0;
        let values = sorted_strings(&filter_sets[i].1);
        let ghost before = views(parts@);
        let ghost prev_sorted = sorted;
        proof {
            sorted = sorted.push(views(values@));
            assert forall|j: int| 0 <= j < i ==> #[trigger] sorted[j] == prev_sorted[j] by {}
            assert(drill_parts(*data, fields, sorted, i as int) == drill_parts(*data, fields, prev_sorted, i as int)) by {
                lemma_drill_parts_prefix(*data, fields, prev_sorted, sorted, i as int);
            }
            assert(views(values@).len() == views(filter_sets@[i as int].1@).len()) by {
                broadcast use vstd::seq_lib::group_to_multiset_ensures;
                assert(views(values@).to_multiset().len() == views(values@).len());
                assert(views(filter_sets@[i as int].1@).to_multiset().len() == views(filter_sets@[i as int].1@).len());
            }
        }
        if values.len() > 0 {
            let mut part = String::new();
            if field < data.columns.len() {
                push_str(&mut part, data.columns[field].name.as_str());
            } else {
                push_str(&mut part, "?");
            }
            push_str(&mut part, " = ");
            let n = values.len();
            if n <= 3 {
                push_joined(&mut part, &values, n, " | ");
                assert(views(values@).take(n as int) =~= views(values@));
            } else {
                push_joined(&mut part, &values, 2, " | ");
                push_str(&mut part, " | \u{2026} (");
                push_decimal(&mut part, n);
                push_str(&mut part, " values)");
            }
            assert(part@ =~= field_name(*data, fields[i as int]) + " = "@ + shown_values(views(values@)));
            parts.push(part);
            assert(views(parts@) =~= before.push(field_name(*data, fields[i as int]) + " = "@ + shown_values(views(values@))));
        }
        i += 1;
    }
    let mut out = String::new();
    push_joined(&mut out, &parts, parts.len(), ", ");
    proof {
        assert(views(parts@).take(parts@.len() as int) =~= views(parts@));
        assert(out@ =~= joined(drill_parts(*data, fields, sorted, filter_sets@.len() as int), ", "@));
    }
    out
}

proof fn lemma_drill_parts_prefix(data: GridData, fields: Seq<usize>, a: Seq<Seq<Seq<char>>>, b: Seq<Seq<Seq<char>>>, n: int)
    requires
        0 <= n <= a.len(),
        n <= b.len(),
        forall|j: int| 0 <= j < n ==> #[trigger] a[j] == b[j],
    ensures
        drill_parts(data, fields, a, n) == drill_parts(data, fields, b, n),
    decreases n,
{
    if n > 0 {
        lemma_drill_parts_prefix(data, fields, a, b, n - 1);
        assert(a[n - 1] == b[n - 1]);
    }
}

} // verus!
