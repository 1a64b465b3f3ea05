//! Display order: rows that pass the filters, ordered by a sort key with ties
//! kept in source order.
use vstd::prelude::*;

verus! {

/// Rows `i < passes.len()` with `passes[i]`, in increasing order.
pub open spec fn passing(passes: Seq<bool>) -> Seq<usize>
    decreases passes.len(),
{
    if passes.len() == 0 {
        seq![]
    } else {
        let p = passing(passes.drop_last());
        if passes.last() { p.push((passes.len() - 1) as usize) } else { p }
    }
}

/// `(keys[a], a)` comes strictly before `(keys[b], b)`.
pub open spec fn key_before(keys: Seq<u64>, a: usize, b: usize) -> bool {
    keys[a as int] < keys[b as int] || (keys[a as int] == keys[b as int] && a < b)
}

/// `v` is ordered by key, ties by row index.
pub open spec fn sorted_by_key(v: Seq<usize>, keys: Seq<u64>) -> bool {
    forall|i: int, j: int| 0 <= i < j < v.len() ==> key_before(keys, #[trigger] v[i], #[trigger] v[j])
}

/// `v` is strictly increasing.
pub open spec fn increasing(v: Seq<usize>) -> bool {
    forall|i: int, j: int| 0 <= i < j < v.len() ==> #[trigger] v[i] < #[trigger] v[j]
}

pub proof fn lemma_passing(passes: Seq<bool>)
    requires
        passes.len() <= usize::MAX,
    ensures
        increasing(passing(passes)),
        forall|i: int| 0 <= i < passing(passes).len() ==> #[trigger] passing(passes)[i] < passes.len(),
        forall|r: usize| passing(passes).contains(r) <==> (r < passes.len() && passes[r as int]),
    decreases passes.len(),
{
    if passes.len() > 0 {
        let t = passes.drop_last();
        let n = (passes.len() - 1) as usize;
        lemma_passing(t);
        let p = passing(t);
        let q = passing(passes);
        assert(passes.last() == passes[n as int]);
        assert forall|i: int| 0 <= i < q.len() implies #[trigger] q[i] < passes.len() by {
            if i < p.len() {
                assert(q[i] == p[i]);
            }
        }
        assert forall|i: int, j: int| 0 <= i < j < q.len() implies #[trigger] q[i] < #[trigger] q[j] by {
            assert(q[i] == p[i]);
            if j < p.len() {
                assert(q[j] == p[j]);
            } else {
                assert(q[j] == n);
                assert(p[i] < t.len());
            }
        }
        assert forall|r: usize| q.contains(r) <==> (r < passes.len() && passes[r as int]) by {
            if r < t.len() {
                assert(t[r as int] == passes[r as int]);
            }
            if q.contains(r) {
                let k = choose|k: int| 0 <= k < q.len() && q[k] == r;
                if k < p.len() {
                    assert(p[k] == r);
                    assert(p.contains(r));
                } else {
                    assert(r == n);
                }
            }
            if r < passes.len() && passes[r as int] {
                if r < t.len() {
                    assert(p.contains(r));
                    let k = choose|k: int| 0 <= k < p.len() && p[k] == r;
                    assert(q[k] == r);
                } else {
                    assert(r == n);
                    assert(q[p.len() as int] == r);
                }
            }
        }
    }
}

/// The key of row `i`.
pub fn key_of(keys: &Vec<u64>, i: usize) -> (k: u64)
    requires
        i < keys@.len(),
    ensures
        k == keys@[i as int],
{
    keys[i]
}

/// Sorts the rows `v` (distinct, increasing) by `keys`, keeping rows with
/// equal keys in their order: a wrapper around the stable `slice::sort_by_key`,
/// which permutes the slice and, being stable, leaves equal keys in their
/// earlier (here increasing) order.
#[verifier::external_body]
pub fn stable_sort_by_key(v: &mut Vec<usize>, keys: &Vec<u64>)
    requires
        forall|i: int| 0 <= i < old(v)@.len() ==> #[trigger] old(v)@[i] < keys@.len(),
        increasing(old(v)@),
    ensures
        final(v)@.to_multiset() == old(v)@.to_multiset(),
        sorted_by_key(final(v)@, keys@),
{
    v.sort_by_key(|&i| key_of(keys, i));
}

/// Keys for a descending sort: the order of `keys` reversed, ties unchanged.
pub open spec fn reversed_keys(keys: Seq<u64>) -> Seq<u64> {
    Seq::new(keys.len(), |i: int| (u64::MAX - keys[i]) as u64)
}

pub fn reverse_keys(keys: &Vec<u64>) -> (r: Vec<u64>)
    ensures
        r@ == reversed_keys(keys@),
{
    let mut out: Vec<u64> = Vec::new();
    let mut i: usize = 0;
    while i < keys.len()
        invariant
            i <= keys@.len(),
            out@ == reversed_keys(keys@).take(i as int),
        decreases keys@.len() - i,
    {
        out.push(u64::MAX - keys[i]);
        assert(out@ =~= reversed_keys(keys@).take(i as int + 1));
        i += 1;
    }
    assert(reversed_keys(keys@).take(i as int) =~= reversed_keys(keys@));
    out
}

/// The passing rows in increasing order.
pub fn passing_rows(passes: &Vec<bool>) -> (r: Vec<usize>)
    ensures
        r@ == passing(passes@),
{
    let mut out: Vec<usize> = Vec::new();
    let mut i: usize = 0;
    while i < passes.len()
        invariant
            i <= passes@.len(),
            out@ == passing(passes@.take(i as int)),
        decreases passes@.len() - i,
    {
        assert(passes@.take(i as int + 1).drop_last() =~= passes@.take(i as int));
        if passes[i] {
            out.push(i);
        }
        i += 1;
    }
    assert(passes@.take(i as int) =~= passes@);
    out
}

} // verus!
