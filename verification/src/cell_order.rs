//! The sort order on cells, total and deterministic across kinds: numbers,
//! then text, dates, booleans and empty cells, each kind ordered by value;
//! and the ranks that the display order is sorted by.
use vstd::prelude::*;
use crate::data::CellValue;
use crate::order::{key_before, reversed_keys, sorted_by_key};
use crate::drill::{char_lex_lt, lemma_char_lex_lt_irreflexive, lemma_char_lex_lt_transitive, str_less};

verus! {

/// Position of a cell's kind in the sort order.
pub open spec fn kind_rank(c: CellValue) -> int {
    match c {
        CellValue::Integer(_) => 0,
        CellValue::Text(_) => 1,
        CellValue::Date(_) => 2,
        CellValue::Boolean(_) => 3,
        CellValue::Null => 4,
    }
}

/// `a` sorts strictly before `b`: by kind, then by value (text by
/// character, `false` before `true`).
pub open spec fn cell_lt(a: CellValue, b: CellValue) -> bool {
    match (a, b) {
        (CellValue::Integer(x), CellValue::Integer(y)) => x < y,
        (CellValue::Text(x), CellValue::Text(y)) => char_lex_lt(x@, y@),
        (CellValue::Date(x), CellValue::Date(y)) => x < y,
        (CellValue::Boolean(x), CellValue::Boolean(y)) => !x && y,
        _ => kind_rank(a) < kind_rank(b),
    }
}

/// `a` and `b` sort as equals: same kind and same value.
pub open spec fn cell_same(a: CellValue, b: CellValue) -> bool {
    match (a, b) {
        (CellValue::Integer(x), CellValue::Integer(y)) => x == y,
        (CellValue::Text(x), CellValue::Text(y)) => x@ == y@,
        (CellValue::Date(x), CellValue::Date(y)) => x == y,
        (CellValue::Boolean(x), CellValue::Boolean(y)) => x == y,
        (CellValue::Null, CellValue::Null) => true,
        _ => false,
    }
}

proof fn lemma_char_lex_total(a: Seq<char>, b: Seq<char>)
    ensures
        a == b || char_lex_lt(a, b) || char_lex_lt(b, a),
    decreases a.len(),
{
    if a.len() > 0 && b.len() > 0 && a[0] == b[0] {
        lemma_char_lex_total(a.drop_first(), b.drop_first());
        if a.drop_first() == b.drop_first() {
            assert(a =~= b) by {
                assert forall|k: int| 0 <= k < a.len() implies a[k] == b[k] by {
                    if k > 0 {
                        assert(a[k] == a.drop_first()[k - 1]);
                        assert(b[k] == b.drop_first()[k - 1]);
                    }
                }
            }
        }
    } else if a.len() == 0 && b.len() == 0 {
        assert(a =~= b);
    } else if a.len() > 0 && b.len() > 0 {
        vstd::utf8::char_u32_cast(a[0], a[0] as u32);
        vstd::utf8::char_u32_cast(b[0], b[0] as u32);
    }
}

/// The cell order is a strict total order: of any two cells exactly one
/// sorts first or they sort as equals, and sorting first is transitive.
pub proof fn lemma_cell_order(a: CellValue, b: CellValue, c: CellValue)
    ensures
        cell_same(a, a),
        !cell_lt(a, a),
        cell_lt(a, b) ==> !cell_lt(b, a) && !cell_same(a, b),
        cell_lt(a, b) || cell_lt(b, a) || cell_same(a, b),
        cell_lt(a, b) && cell_lt(b, c) ==> cell_lt(a, c),
        cell_same(a, b) ==> (cell_lt(a, c) == cell_lt(b, c) && cell_lt(c, a) == cell_lt(c, b)),
{
    match (a, b) {
        (CellValue::Text(x), CellValue::Text(y)) => {
            lemma_char_lex_lt_irreflexive(x@);
            lemma_char_lex_total(x@, y@);
            if char_lex_lt(x@, y@) && char_lex_lt(y@, x@) {
                lemma_char_lex_lt_transitive(x@, y@, x@);
            }
            if char_lex_lt(x@, y@) && x@ == y@ {
                lemma_char_lex_lt_irreflexive(x@);
            }
        },
        _ => {},
    }
    if let CellValue::Text(x) = a {
        lemma_char_lex_lt_irreflexive(x@);
    }
    match (a, b, c) {
        (CellValue::Text(x), CellValue::Text(y), CellValue::Text(z)) => {
            if char_lex_lt(x@, y@) && char_lex_lt(y@, z@) {
                lemma_char_lex_lt_transitive(x@, y@, z@);
            }
        },
        _ => {},
    }
}

/// How many of the first `n` cells sort strictly before `a`.
pub open spec fn count_below(cells: Seq<CellValue>, a: CellValue, n: int) -> int
    decreases n,
{
    if n <= 0 {
        0
    } else {
        count_below(cells, a, n - 1) + if cell_lt(cells[n - 1], a) { 1int } else { 0int }
    }
}

/// How many cells sort before `a` is at most how many cells there are.
proof fn lemma_count_below_bounded(cells: Seq<CellValue>, a: CellValue, n: int)
    requires
        0 <= n,
    ensures
        0 <= count_below(cells, a, n) <= n,
    decreases n,
{
    if n > 0 {
        lemma_count_below_bounded(cells, a, n - 1);
    }
}

/// The sort keys of column `col` of `rows`: each row's count of rows whose
/// cell sorts strictly before its own.
pub open spec fn ranks_of(rows: Seq<Vec<CellValue>>, col: int) -> Seq<u64> {
    Seq::new(rows.len(), |i: int| count_below(column_cells(rows, col), rows[i]@[col], rows.len() as int) as u64)
}

/// Column `col` of `rows`.
pub open spec fn column_cells(rows: Seq<Vec<CellValue>>, col: int) -> Seq<CellValue> {
    Seq::new(rows.len(), |i: int| rows[i]@[col])
}

/// Counting the cells below `a` respects the order: a later cell has at
/// least as many below it, and more when `a` itself occurs among them.
proof fn lemma_count_below(cells: Seq<CellValue>, a: CellValue, b: CellValue, n: int)
    requires
        0 <= n <= cells.len(),
        cell_lt(a, b),
    ensures
        count_below(cells, a, n) <= count_below(cells, b, n),
        (exists|k: int| 0 <= k < n && cell_same(#[trigger] cells[k], a)) ==> count_below(cells, a, n) < count_below(cells, b, n),
    decreases n,
{
    if n > 0 {
        lemma_count_below(cells, a, b, n - 1);
        lemma_cell_order(cells[n - 1], a, b);
        if exists|k: int| 0 <= k < n && cell_same(#[trigger] cells[k], a) {
            let k = choose|k: int| 0 <= k < n && cell_same(#[trigger] cells[k], a);
            if k < n - 1 {
            } else {
                lemma_cell_order(a, cells[n - 1], b);
            }
        }
    }
}

proof fn lemma_count_same(cells: Seq<CellValue>, a: CellValue, b: CellValue, n: int)
    requires
        cell_same(a, b),
    ensures
        count_below(cells, a, n) == count_below(cells, b, n),
    decreases n,
{
    if n > 0 {
        lemma_count_same(cells, a, b, n - 1);
        lemma_cell_order(a, b, cells[n - 1]);
    }
}

/// Ranks order rows as their cells do: a row whose cell sorts first has a
/// smaller rank, and rows whose cells sort as equals share a rank.
pub proof fn lemma_ranks_follow_cells(cells: Seq<CellValue>, i: int, j: int)
    requires
        0 <= i < cells.len(),
        0 <= j < cells.len(),
    ensures
        cell_lt(cells[i], cells[j]) ==> count_below(cells, cells[i], cells.len() as int) < count_below(cells, cells[j], cells.len() as int),
        cell_same(cells[i], cells[j]) ==> count_below(cells, cells[i], cells.len() as int) == count_below(cells, cells[j], cells.len() as int),
{
    lemma_cell_order(cells[i], cells[i], cells[j]);
    if cell_lt(cells[i], cells[j]) {
        lemma_count_below(cells, cells[i], cells[j], cells.len() as int);
    }
    if cell_same(cells[i], cells[j]) {
        lemma_count_same(cells, cells[i], cells[j], cells.len() as int);
    }
}

/// Whether `a` sorts strictly before `b`.
pub fn cell_less(a: &CellValue, b: &CellValue) -> (r: bool)
    ensures
        r == cell_lt(*a, *b),
{
    match (a, b) {
        (CellValue::Integer(x), CellValue::Integer(y)) => *x < *y,
        (CellValue::Text(x), CellValue::Text(y)) => str_less(x.as_str(), y.as_str()),
        (CellValue::Date(x), CellValue::Date(y)) => *x < *y,
        (CellValue::Boolean(x), CellValue::Boolean(y)) => !*x && *y,
        _ => kind_index(a) < kind_index(b),
    }
}

fn kind_index(c: &CellValue) -> (r: u8)
    ensures
        r == kind_rank(*c),
{
    match c {
        CellValue::Integer(_) => 0,
        CellValue::Text(_) => 1,
        CellValue::Date(_) => 2,
        CellValue::Boolean(_) => 3,
        CellValue::Null => 4,
    }
}

/// Sort keys for column `col`: each row's rank is the number of rows whose
/// cell sorts strictly before its own (see [`lemma_ranks_follow_cells`]).
pub fn column_ranks(rows: &Vec<Vec<CellValue>>, col: usize) -> (r: Vec<u64>)
    requires
        forall|i: int| 0 <= i < rows@.len() ==> col < (#[trigger] rows@[i])@.len(),
    ensures
        r@.len() == rows@.len(),
        forall|i: int| 0 <= i < rows@.len() ==> r@[i] == count_below(column_cells(rows@, col as int),
            #[trigger] rows@[i]@[col as int], rows@.len() as int),
        r@ == ranks_of(rows@, col as int),
{
    let ghost cells = column_cells(rows@, col as int);
    let n = rows.len();
    let mut r: Vec<u64> = Vec::new();
    let mut i: usize = 0;
    while i < n
        invariant
            n == rows@.len(),
            cells == column_cells(rows@, col as int),
            forall|k: int| 0 <= k < rows@.len() ==> col < (#[trigger] rows@[k])@.len(),
            i <= n,
            r@.len() == i,
            forall|k: int| 0 <= k < i ==> r@[k] == count_below(cells, #[trigger] rows@[k]@[col as int], n as int),
        decreases n - i,
    {
        let a = &rows[i][col];
        let mut count: usize = 0;
        let mut j: usize = 0;
        while j < n
            invariant
                n == rows@.len(),
                cells == column_cells(rows@, col as int),
                forall|k: int| 0 <= k < rows@.len() ==> col < (#[trigger] rows@[k])@.len(),
                j <= n,
                count <= j,
                count == count_below(cells, *a, j as int),
            decreases n - j,
        {
            assert(cells[j as int] == rows@[j as int]@[col as int]);
            if cell_less(&rows[j][col], a) {
                count += 1;
            }
            j += 1;
        }
        r.push(count as u64);
        i += 1;
    }
    assert(r@ =~= ranks_of(rows@, col as int));
    r
}

/// A display order sorted by the ranks of [`column_ranks`] lists the cells
/// in order: ascending, no row is followed by one whose cell sorts strictly
/// before its own; descending (ranks reversed), none by one whose cell sorts
/// strictly after it. Rows whose cells sort as equals keep their source
/// order either way.
pub proof fn lemma_rank_sort_orders_cells(cells: Seq<CellValue>, keys: Seq<u64>, v: Seq<usize>, descending: bool)
    requires
        keys.len() == cells.len(),
        forall|i: int| 0 <= i < cells.len() ==> #[trigger] keys[i] == count_below(cells, cells[i], cells.len() as int),
        forall|i: int| 0 <= i < v.len() ==> #[trigger] v[i] < cells.len(),
        sorted_by_key(v, if descending { reversed_keys(keys) } else { keys }),
    ensures
        forall|i: int, j: int| 0 <= i < j < v.len() ==> if descending {
            !cell_lt(#[trigger] cells[v[i] as int], #[trigger] cells[v[j] as int])
        } else {
            !cell_lt(cells[v[j] as int], cells[v[i] as int])
        },
        forall|i: int, j: int| 0 <= i < j < v.len() && cell_same(#[trigger] cells[v[i] as int], #[trigger] cells[v[j] as int]) ==> v[i] < v[j],
{
    let k = if descending { reversed_keys(keys) } else { keys };
    assert forall|i: int, j: int| 0 <= i < j < v.len() implies (if descending {
        !cell_lt(#[trigger] cells[v[i] as int], #[trigger] cells[v[j] as int])
    } else {
        !cell_lt(cells[v[j] as int], cells[v[i] as int])
    }) && (cell_same(cells[v[i] as int], cells[v[j] as int]) ==> v[i] < v[j]) by {
        assert(key_before(k, v[i], v[j]));
        lemma_ranks_follow_cells(cells, v[i] as int, v[j] as int);
        lemma_ranks_follow_cells(cells, v[j] as int, v[i] as int);
    }
}

/// Sorting rows by [`ranks_of`] lists their cells in order (see
/// [`lemma_rank_sort_orders_cells`]).
pub proof fn lemma_ranks_of_order(rows: Seq<Vec<CellValue>>, col: int, v: Seq<usize>, descending: bool)
    requires
        rows.len() <= usize::MAX,
        forall|i: int| 0 <= i < v.len() ==> #[trigger] v[i] < rows.len(),
        sorted_by_key(v, if descending { reversed_keys(ranks_of(rows, col)) } else { ranks_of(rows, col) }),
    ensures
        forall|i: int, j: int| 0 <= i < j < v.len() ==> if descending {
            !cell_lt(#[trigger] column_cells(rows, col)[v[i] as int], #[trigger] column_cells(rows, col)[v[j] as int])
        } else {
            !cell_lt(column_cells(rows, col)[v[j] as int], column_cells(rows, col)[v[i] as int])
        },
        forall|i: int, j: int| 0 <= i < j < v.len()
            && cell_same(#[trigger] column_cells(rows, col)[v[i] as int], #[trigger] column_cells(rows, col)[v[j] as int]) ==> v[i] < v[j],
{
    let cells = column_cells(rows, col);
    let keys = ranks_of(rows, col);
    assert forall|i: int| 0 <= i < cells.len() implies #[trigger] keys[i] == count_below(cells, cells[i], cells.len() as int) by {
        lemma_count_below_bounded(cells, cells[i], cells.len() as int);
    }
    lemma_rank_sort_orders_cells(cells, keys, v, descending);
}

/// Cells of one kind sort by value: whole numbers and dates (day numbers)
/// ascending, so an earlier date sorts first; `false` before `true`.
pub proof fn lemma_cell_order_by_value(x: i64, y: i64, p: bool, q: bool)
    ensures
        cell_lt(CellValue::Integer(x), CellValue::Integer(y)) <==> x < y,
        cell_lt(CellValue::Date(x), CellValue::Date(y)) <==> x < y,
        cell_lt(CellValue::Boolean(p), CellValue::Boolean(q)) <==> (!p && q),
        cell_same(CellValue::Integer(x), CellValue::Integer(y)) <==> x == y,
        cell_same(CellValue::Date(x), CellValue::Date(y)) <==> x == y,
{
}

/// Text cells sort by character: where two texts first differ, the smaller
/// code point sorts first; a text sorts before every longer text it begins.
pub proof fn lemma_text_order(a: String, b: String, k: int)
    requires
        0 <= k <= a@.len(),
        k <= b@.len(),
        a@.take(k) == b@.take(k),
    ensures
        k < a@.len() && k < b@.len() && a@[k] != b@[k] ==>
            (cell_lt(CellValue::Text(a), CellValue::Text(b)) <==> (a@[k] as u32) < (b@[k] as u32)),
        k == a@.len() && k < b@.len() ==> cell_lt(CellValue::Text(a), CellValue::Text(b)),
        k == b@.len() ==> !cell_lt(CellValue::Text(a), CellValue::Text(b)),
{
    lemma_char_lex_prefix(a@, b@, k);
}

proof fn lemma_char_lex_prefix(a: Seq<char>, b: Seq<char>, k: int)
    requires
        0 <= k <= a.len(),
        k <= b.len(),
        a.take(k) == b.take(k),
    ensures
        k < a.len() && k < b.len() && a[k] != b[k] ==> (char_lex_lt(a, b) <==> (a[k] as u32) < (b[k] as u32)),
        k == a.len() && k < b.len() ==> char_lex_lt(a, b),
        k == b.len() ==> !char_lex_lt(a, b),
    decreases k,
{
    if k > 0 {
        assert(a[0] == a.take(k)[0] && b[0] == b.take(k)[0]);
        assert(a.drop_first().take(k - 1) =~= a.take(k).drop_first());
        assert(b.drop_first().take(k - 1) =~= b.take(k).drop_first());
        lemma_char_lex_prefix(a.drop_first(), b.drop_first(), k - 1);
        if k < a.len() {
            assert(a.drop_first()[k - 1] == a[k]);
        }
        if k < b.len() {
            assert(b.drop_first()[k - 1] == b[k]);
        }
    } else {
        if a.len() > 0 && b.len() > 0 && a[0] != b[0] {
            vstd::utf8::char_u32_cast(a[0], a[0] as u32);
            vstd::utf8::char_u32_cast(b[0], b[0] as u32);
        }
    }
}

/// Across kinds the order is: whole numbers, text, dates, booleans, then
/// empty cells, whatever the values.
pub proof fn lemma_kind_order(x: i64, t: String, d: i64, b: bool, other: CellValue)
    ensures
        cell_lt(CellValue::Integer(x), CellValue::Text(t)),
        cell_lt(CellValue::Text(t), CellValue::Date(d)),
        cell_lt(CellValue::Date(d), CellValue::Boolean(b)),
        cell_lt(CellValue::Boolean(b), CellValue::Null),
        !cell_lt(CellValue::Null, other),
        !cell_lt(other, CellValue::Integer(x)) || other is Integer,
{
}

} // verus!
