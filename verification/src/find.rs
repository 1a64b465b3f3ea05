//! The grid-wide find: setting the query, reading the matches, and moving the
//! focused match.
use vstd::prelude::*;
use crate::search::{at_or_after, count_label, first_at_or_after, first_match_at_or_after, next_active, prev_active, MAX_SEARCH_MATCHES};
use crate::selection::Selection;
use crate::navigation::{lex_increasing, lex_lt};
use crate::state::{cols_matching, GridState};
use crate::text::{contains_seq, lowercase, trim, trimmed};

verus! {

impl GridState {
    /// Where a new search starts looking from: the selection's first cell,
    /// else the top-left.
    pub open spec fn search_anchor_spec(&self) -> (usize, usize) {
        match self.selection {
            Selection::Cell(r, c) => (r, c),
            Selection::Row(r) => (r, 0),
            Selection::Column(c) => (0, c),
            Selection::CellRange(r1, c1, _, _) => (r1, c1),
            Selection::RowRange(r1, _) => (r1, 0),
            Selection::Nothing => (0, 0),
        }
    }

    /// `(display_row, col)` used as the "start from here" point when focusing
    /// the first match.
    pub fn search_anchor(&self) -> (r: (usize, usize))
        ensures
            r == self.search_anchor_spec(),
    {
        match self.selection {
            Selection::Cell(r, c) => (r, c),
            Selection::Row(r) => (r, 0),
            Selection::Column(c) => (0, c),
            Selection::CellRange(r1, c1, _, _) => (r1, c1),
            Selection::RowRange(r1, _) => (r1, 0),
            Selection::Nothing => (0, 0),
        }
    }

    /// Set the grid-wide search query and find its matches: the cells whose
    /// lower-cased displayed text contains the lower-cased query, row-major,
    /// capped at [`MAX_SEARCH_MATCHES`]. The focus is the first match at or
    /// after the selection, wrapping to the first. A blank query turns search
    /// off.
    #[verifier::rlimit(40)]
    pub fn set_search_query(&mut self, query: &str)
        requires
            old(self).wf(),
        ensures
            final(self).wf(),
            trimmed(query@).len() == 0 ==> {
                &&& final(self).search.query@.len() == 0
                &&& final(self).search.matches@.len() == 0
                &&& final(self).search.active is None
                &&& !final(self).search.truncated
                &&& *final(self) == (GridState { search: final(self).search, ..*old(self) })
            },
            trimmed(query@).len() > 0 ==> {
                let all = old(self).matches_for(query@);
                &&& final(self).search.query@ == query@
                &&& final(self).search.truncated ==> final(self).search.matches@ == all.take(MAX_SEARCH_MATCHES as int)
                    && all.len() >= MAX_SEARCH_MATCHES
                &&& !final(self).search.truncated ==> final(self).search.matches@ == all && all.len() < MAX_SEARCH_MATCHES
                &&& final(self).search.active == first_at_or_after(final(self).search.matches@, old(self).search_anchor_spec())
                &&& *final(self) == (GridState { search: final(self).search, ..*old(self) })
                &&& final(self).search_scanned()
            },
    {
        let t = trim(query);
        if t.unicode_len() == 0 {
            self.clear_search();
            return;
        }
        let ghost before = *self;
        self.search.query = query.to_owned();
        let ghost mid = *self;
        self.recompute_search_matches();
        proof {
            before.lemma_matches_congruent(&mid, before.scan_range().0, before.scan_range().1, crate::text::lowercase(query@));
            assert(before.matches_for(query@) == mid.all_matches());
        }
        let anchor = self.search_anchor();
        let active = first_match_at_or_after(&self.search.matches, anchor);
        self.search.active = active;
        proof {
            mid.lemma_matches_congruent(&*self, mid.scan_range().0, mid.scan_range().1, crate::text::lowercase(query@));
        }
    }

    /// Turn search off and drop all matches.
    pub fn clear_search(&mut self)
        ensures
            final(self).search.query@.len() == 0,
            final(self).search.matches@.len() == 0,
            final(self).search.active is None,
            !final(self).search.truncated,
            *final(self) == (GridState { search: final(self).search, ..*old(self) }),
    {
        self.search.clear();
    }

    /// Whether a search query is active.
    pub fn search_is_active(&self) -> (b: bool)
        ensures
            b == (self.search.query@.len() > 0),
    {
        self.search.is_active()
    }

    /// Number of matching cells.
    pub fn search_match_count(&self) -> (n: usize)
        ensures
            n == self.search.matches@.len(),
    {
        self.search.matches.len()
    }

    /// True when the scan stopped at the match cap.
    pub fn search_truncated(&self) -> (b: bool)
        ensures
            b == self.search.truncated,
    {
        self.search.truncated
    }

    /// 1-based ordinal of the focused match.
    pub fn search_active_ordinal(&self) -> (r: Option<usize>)
        requires
            self.search.active matches Some(i) ==> i < usize::MAX,
        ensures
            r == match self.search.active { Some(i) => Some((i + 1) as usize), None => None },
    {
        self.search.active_ordinal()
    }

    /// The "N of M" (with a trailing `+` when capped) or "No matches" label.
    pub fn search_count_label(&self) -> (s: String)
        requires
            self.search.active matches Some(i) ==> i < usize::MAX,
        ensures
            s@ == count_label(self.search.active, self.search.matches@.len(), self.search.truncated),
    {
        self.search.count_label()
    }

    /// Focus the next match, wrapping; no-op without matches.
    pub fn search_next(&mut self)
        ensures
            final(self).search.active == next_active(old(self).search.active, old(self).search.matches@.len()),
            *final(self) == (GridState {
                search: crate::search::SearchState { active: final(self).search.active, ..old(self).search },
                ..*old(self)
            }),
    {
        self.search.next();
    }

    /// Focus the previous match, wrapping; no-op without matches.
    pub fn search_prev(&mut self)
        ensures
            final(self).search.active == prev_active(old(self).search.active, old(self).search.matches@.len()),
            *final(self) == (GridState {
                search: crate::search::SearchState { active: final(self).search.active, ..old(self).search },
                ..*old(self)
            }),
    {
        self.search.prev();
    }

    /// The `(display_row, col)` of the focused match, if any.
    pub fn search_active_cell(&self) -> (r: Option<(usize, usize)>)
        ensures
            r == match self.search.active {
                Some(i) => if i < self.search.matches@.len() { Some(self.search.matches@[i as int]) } else { None },
                None => None,
            },
    {
        self.search.active_cell()
    }

    /// Every matching `(display_row, col)` cell, row-major.
    pub fn search_matches(&self) -> (r: &[(usize, usize)])
        ensures
            r@ == self.search.matches@,
    {
        self.search.matches.as_slice()
    }
}

/// The matches within one row are the matching columns, left to right.
proof fn lemma_cols_matching(texts: Seq<String>, needle: Seq<char>, dr: usize, n: int)
    requires
        0 <= n <= usize::MAX + 1,
    ensures
        forall|k: int| 0 <= k < cols_matching(texts, needle, dr, n).len() ==> {
            let m = #[trigger] cols_matching(texts, needle, dr, n)[k];
            m.0 == dr && m.1 < n
        },
        forall|i: int, j: int| 0 <= i < j < cols_matching(texts, needle, dr, n).len() ==>
            #[trigger] cols_matching(texts, needle, dr, n)[i].1 < #[trigger] cols_matching(texts, needle, dr, n)[j].1,
        forall|c: usize| c < n ==> (cols_matching(texts, needle, dr, n).contains((dr, c))
            <==> contains_seq(lowercase(#[trigger] texts[c as int]@), needle)),
    decreases n,
{
    if n > 0 {
        lemma_cols_matching(texts, needle, dr, n - 1);
        let p = cols_matching(texts, needle, dr, n - 1);
        let s = cols_matching(texts, needle, dr, n);
        let hit = contains_seq(lowercase(texts[n - 1]@), needle);
        assert(s == if hit { p.push((dr, (n - 1) as usize)) } else { p });
        assert forall|i: int, j: int| 0 <= i < j < s.len() implies #[trigger] s[i].1 < #[trigger] s[j].1 by {
            assert(s[i] == p[i]);
            if j < p.len() {
                assert(s[j] == p[j]);
            }
        }
        assert forall|k: int| 0 <= k < s.len() implies (#[trigger] s[k]).0 == dr && s[k].1 < n by {
            if k < p.len() {
                assert(s[k] == p[k]);
            }
        }
        assert forall|c: usize| c < n implies (s.contains((dr, c)) <==> contains_seq(lowercase(#[trigger] texts[c as int]@), needle)) by {
            if s.contains((dr, c)) {
                let k = choose|k: int| 0 <= k < s.len() && s[k] == (dr, c);
                if k < p.len() {
                    assert(p[k] == s[k]);
                    assert(p.contains((dr, c)));
                }
            }
            if c < n - 1 && p.contains((dr, c)) {
                let k = choose|k: int| 0 <= k < p.len() && p[k] == (dr, c);
                assert(s[k] == p[k]);
            }
            if c == n - 1 && contains_seq(lowercase(texts[c as int]@), needle) {
                assert(s[p.len() as int] == (dr, c));
            }
            if c == n - 1 && p.contains((dr, c)) {
                let k = choose|k: int| 0 <= k < p.len() && p[k] == (dr, c);
                assert(p[k].1 < n - 1);
            }
        }
    }
}

impl GridState {
    /// Display cell `(dr, c)` matches the query `q`: a resident cell of a
    /// scanned display row whose lower-cased text contains the lower-cased
    /// query.
    pub open spec fn match_cell(&self, dr: int, c: int, q: Seq<char>) -> bool {
        &&& self.scan_range().0 <= dr < self.scan_range().1
        &&& 0 <= c < self.ncols()
        &&& match self.resident_row(dr) {
            Some(r) => contains_seq(lowercase(self.cell_texts@[r as int]@[c]@), lowercase(q)),
            None => false,
        }
    }

    proof fn lemma_between(&self, start: int, end: int, needle: Seq<char>)
        requires
            0 <= start,
            end <= usize::MAX + 1,
            self.ncols() <= usize::MAX,
        ensures
            forall|k: int| 0 <= k < self.matches_between(start, end, needle).len() ==> {
                let m = #[trigger] self.matches_between(start, end, needle)[k];
                start <= m.0 < end
            },
            lex_increasing(self.matches_between(start, end, needle)),
            forall|dr: usize, c: usize| self.matches_between(start, end, needle).contains((dr, c)) <==> {
                &&& start <= dr < end
                &&& c < self.ncols()
                &&& match self.resident_row(dr as int) {
                    Some(r) => contains_seq(lowercase(self.cell_texts@[r as int]@[c as int]@), needle),
                    None => false,
                }
            },
        decreases end - start,
    {
        if end > start {
            self.lemma_between(start, end - 1, needle);
            let p = self.matches_between(start, end - 1, needle);
            let q = self.row_matches(end - 1, needle);
            let s = self.matches_between(start, end, needle);
            assert(s == p + q);
            let dr = (end - 1) as usize;
            match self.resident_row(end - 1) {
                Some(r) => {
                    lemma_cols_matching(self.cell_texts@[r as int]@, needle, dr, self.ncols() as int);
                },
                None => {},
            }
            assert forall|k: int| 0 <= k < q.len() implies (#[trigger] q[k]).0 == dr && q[k].1 < self.ncols() by {}
            assert forall|i: int, j: int| 0 <= i < j < s.len() implies lex_lt(#[trigger] s[i], #[trigger] s[j]) by {
                if j < p.len() {
                    assert(s[i] == p[i] && s[j] == p[j]);
                } else if i < p.len() {
                    assert(s[i] == p[i] && s[j] == q[j - p.len()]);
                } else {
                    assert(s[i] == q[i - p.len()] && s[j] == q[j - p.len()]);
                }
            }
            assert forall|k: int| 0 <= k < s.len() implies start <= (#[trigger] s[k]).0 < end by {
                if k >= p.len() {
                    assert(s[k] == q[k - p.len()]);
                } else {
                    assert(s[k] == p[k]);
                }
            }
            assert forall|r0: usize, c: usize| s.contains((r0, c)) <==> {
                &&& start <= r0 < end
                &&& c < self.ncols()
                &&& match self.resident_row(r0 as int) {
                    Some(r) => contains_seq(lowercase(self.cell_texts@[r as int]@[c as int]@), needle),
                    None => false,
                }
            } by {
                if s.contains((r0, c)) {
                    let k = choose|k: int| 0 <= k < s.len() && s[k] == (r0, c);
                    if k < p.len() {
                        assert(p[k] == (r0, c));
                        assert(p.contains((r0, c)));
                    } else {
                        assert(q[k - p.len()] == (r0, c));
                        assert(q.contains((r0, c)));
                    }
                }
                if start <= r0 < end - 1 && p.contains((r0, c)) {
                    let k = choose|k: int| 0 <= k < p.len() && p[k] == (r0, c);
                    assert(s[k] == p[k]);
                }
                if r0 == end - 1 && q.contains((r0, c)) {
                    let k = choose|k: int| 0 <= k < q.len() && q[k] == (r0, c);
                    assert(s[p.len() + k] == q[k]);
                }
                if r0 == end - 1 && p.contains((r0, c)) {
                    let k = choose|k: int| 0 <= k < p.len() && p[k] == (r0, c);
                    assert(p[k].0 < end - 1);
                }
            }
        }
    }

    /// Search matches come in strictly increasing (row, column) order, and a
    /// cell is among them exactly when it matches the query: it is a resident
    /// cell of a scanned display row whose lower-cased text contains the
    /// lower-cased query.
    pub proof fn lemma_matches_for(&self, q: Seq<char>)
        requires
            self.wf(),
        ensures
            lex_increasing(self.matches_for(q)),
            forall|dr: usize, c: usize| #[trigger] self.matches_for(q).contains((dr, c)) <==> self.match_cell(dr as int, c as int, q),
    {
        assert(self.display_rows.len() == self.display_rows@.len());
        assert(self.data.columns.len() == self.data.columns@.len());
        let (start, end) = self.scan_range();
        self.lemma_between(start, end, lowercase(q));
    }
    /// Scanned matches are strictly increasing in (row, column) order and
    /// each is a matching cell; the list is cut exactly when it reaches
    /// [`MAX_SEARCH_MATCHES`], and unless it was cut it holds every matching
    /// cell.
    pub proof fn lemma_search_matches(&self)
        requires
            self.wf(),
            self.search_scanned(),
        ensures
            lex_increasing(self.search.matches@),
            forall|k: int| 0 <= k < self.search.matches@.len() ==>
                self.match_cell((#[trigger] self.search.matches@[k]).0 as int, self.search.matches@[k].1 as int, self.search.query@),
            self.search.truncated <==> self.search.matches@.len() == MAX_SEARCH_MATCHES,
            !self.search.truncated ==> forall|dr: usize, c: usize| #[trigger] self.match_cell(dr as int, c as int, self.search.query@)
                ==> self.search.matches@.contains((dr, c)),
    {
        let q = self.search.query@;
        self.lemma_matches_for(q);
        let all = self.matches_for(q);
        let m = self.search.matches@;
        assert forall|k: int| 0 <= k < m.len() implies self.match_cell((#[trigger] m[k]).0 as int, m[k].1 as int, q) by {
            assert(m[k] == all[k]);
            assert(all.contains(all[k]));
        }
        assert forall|i: int, j: int| 0 <= i < j < m.len() implies lex_lt(#[trigger] m[i], #[trigger] m[j]) by {
            assert(m[i] == all[i] && m[j] == all[j]);
        }
    }

    /// Whether display cell `(row, col)` is among the search matches (what
    /// painting highlights).
    pub fn search_is_match(&self, row: usize, col: usize) -> (b: bool)
        ensures
            b == self.search.matches@.contains((row, col)),
    {
        let mut k: usize = 0;
        while k < self.search.matches.len()
            invariant
                k <= self.search.matches@.len(),
                forall|j: int| 0 <= j < k ==> self.search.matches@[j] != (row, col),
            decreases self.search.matches@.len() - k,
        {
            let (r, c) = self.search.matches[k];
            if r == row && c == col {
                assert(self.search.matches@[k as int] == (row, col));
                return true;
            }
            k += 1;
        }
        false
    }
}


proof fn lemma_least_at_or_after(matches: Seq<(usize, usize)>, anchor: (usize, usize), i0: int)
    requires
        0 <= i0 < matches.len(),
        at_or_after(matches[i0], anchor),
    ensures
        exists|k: int| 0 <= k <= i0 && at_or_after(matches[k], anchor)
            && forall|j: int| 0 <= j < k ==> !at_or_after(#[trigger] matches[j], anchor),
    decreases i0,
{
    if exists|j: int| 0 <= j < i0 && at_or_after(matches[j], anchor) {
        let j = choose|j: int| 0 <= j < i0 && at_or_after(matches[j], anchor);
        lemma_least_at_or_after(matches, anchor, j);
    }
}

/// The first match at or after `anchor` is found when there is one.
proof fn lemma_first_at_or_after(matches: Seq<(usize, usize)>, anchor: (usize, usize))
    requires
        matches.len() <= usize::MAX,
    ensures
        matches.len() == 0 ==> first_at_or_after(matches, anchor) is None,
        (exists|i: int| 0 <= i < matches.len() && at_or_after(matches[i], anchor)) ==>
            (first_at_or_after(matches, anchor) matches Some(k) && k < matches.len() && at_or_after(matches[k as int], anchor)
                && forall|j: int| 0 <= j < k ==> !at_or_after(#[trigger] matches[j], anchor)),
        (matches.len() > 0 && !exists|i: int| 0 <= i < matches.len() && at_or_after(matches[i], anchor)) ==>
            first_at_or_after(matches, anchor) == Some(0usize),
{
    reveal(first_at_or_after);
    if exists|i: int| 0 <= i < matches.len() && at_or_after(matches[i], anchor) {
        let i = choose|i: int| 0 <= i < matches.len() && at_or_after(matches[i], anchor);
        lemma_least_at_or_after(matches, anchor, i);
    }
}

impl GridState {
    /// Where a search starts: the selection's first cell, in row-major order
    /// — a selected cell itself, a row's first cell, a column's top cell, a
    /// range's first corner — else the top-left.
    pub open spec fn starts_search_at(&self, r: usize, c: usize) -> bool {
        match self.selection {
            Selection::Cell(sr, sc) => r == sr && c == sc,
            Selection::Row(sr) => r == sr && c == 0,
            Selection::Column(sc) => r == 0 && c == sc,
            Selection::CellRange(r1, c1, _, _) => r == r1 && c == c1,
            Selection::RowRange(r1, _) => r == r1 && c == 0,
            Selection::Nothing => r == 0 && c == 0,
        }
    }

    /// A new search focuses the first match at or after where the selection
    /// starts, `(r, c)`, in row-major order; only when no match is at or
    /// after it does it fall back to the first match, and with no match
    /// nothing is focused.
    pub proof fn lemma_search_focus(&self, after: Self, r: usize, c: usize)
        requires
            self.starts_search_at(r, c),
            after.search.active == first_at_or_after(after.search.matches@, self.search_anchor_spec()),
        ensures
            ({
                let m = after.search.matches@;
                &&& m.len() == 0 ==> after.search.active is None
                &&& (exists|i: int| 0 <= i < m.len() && (m[i].0 > r || (m[i].0 == r && m[i].1 >= c))) ==>
                    (after.search.active matches Some(k) && k < m.len() && (m[k as int].0 > r || (m[k as int].0 == r && m[k as int].1 >= c))
                        && forall|j: int| 0 <= j < k ==> !(#[trigger] m[j].0 > r || (m[j].0 == r && m[j].1 >= c)))
                &&& (m.len() > 0 && !exists|i: int| 0 <= i < m.len() && (m[i].0 > r || (m[i].0 == r && m[i].1 >= c))) ==>
                    after.search.active == Some(0usize)
            }),
    {
        assert(self.search_anchor_spec() == (r, c));
        assert(after.search.matches.len() == after.search.matches@.len());
        lemma_first_at_or_after(after.search.matches@, (r, c));
    }
}

} // verus!
