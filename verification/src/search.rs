//! Grid-wide search state: the query, the matching cells in row-major order,
//! the focused match, and wrap-around navigation between matches.
use vstd::prelude::*;
use crate::text::push_decimal;

verus! {

/// Hard cap on collected matches.
pub const MAX_SEARCH_MATCHES: usize = 100_000;

/// Search state owned by the grid.
#[derive(Clone, Debug)]
pub struct SearchState {
    /// The query as typed; empty when search is off.
    pub query: String,
    /// Every matching `(display_row, col)`, row-major, at most
    /// [`MAX_SEARCH_MATCHES`].
    pub matches: Vec<(usize, usize)>,
    /// Index into `matches` of the focused match.
    pub active: Option<usize>,
    /// The scan stopped at the match cap.
    pub truncated: bool,
}

impl Default for SearchState {
    fn default() -> (r: Self)
        ensures
            r.query@.len() == 0,
            r.matches@.len() == 0,
            r.active is None,
            !r.truncated,
    {
        SearchState { query: String::new(), matches: Vec::new(), active: None, truncated: false }
    }
}

/// Focus after moving to the next match (wrapping to the first).
pub open spec fn next_active(active: Option<usize>, len: nat) -> Option<usize> {
    if len == 0 {
        active
    } else {
        match active {
            Some(i) => Some(((i + 1) % (len as int)) as usize),
            None => Some(0),
        }
    }
}

/// Focus after moving to the previous match (wrapping to the last).
pub open spec fn prev_active(active: Option<usize>, len: nat) -> Option<usize> {
    if len == 0 {
        active
    } else {
        match active {
            Some(i) => Some(((i + len - 1) % (len as int)) as usize),
            None => Some((len - 1) as usize),
        }
    }
}

/// Focus kept in range after the match list changed: none without matches,
/// an out-of-range index clamped to the last match, the first match when
/// nothing was focused.
pub open spec fn clamp_active(active: Option<usize>, len: nat) -> Option<usize> {
    if len == 0 {
        None
    } else {
        match active {
            Some(a) => if a < len { Some(a) } else { Some((len - 1) as usize) },
            None => Some(0),
        }
    }
}

/// `(a, b) >= (c, d)` in row-major order.
pub open spec fn at_or_after(m: (usize, usize), anchor: (usize, usize)) -> bool {
    m.0 > anchor.0 || (m.0 == anchor.0 && m.1 >= anchor.1)
}

/// Position of the first match at or after `anchor`, else the first match.
#[verifier::opaque]
pub open spec fn first_at_or_after(matches: Seq<(usize, usize)>, anchor: (usize, usize)) -> Option<usize> {
    if matches.len() == 0 {
        None
    } else if exists|i: int| 0 <= i < matches.len() && at_or_after(matches[i], anchor) {
        Some((choose|i: int| 0 <= i < matches.len() && at_or_after(matches[i], anchor)
            && forall|j: int| 0 <= j < i ==> !at_or_after(#[trigger] matches[j], anchor)) as usize)
    } else {
        Some(0)
    }
}

/// The "N of M" counter label (with a trailing `+` when truncated).
pub open spec fn count_label(active: Option<usize>, total: nat, truncated: bool) -> Seq<char> {
    if total == 0 {
        "No matches"@
    } else {
        let n: nat = match active { Some(i) => (i + 1) as nat, None => 1 };
        crate::text::decimal(n) + " of "@ + crate::text::decimal(total) + if truncated { "+"@ } else { Seq::empty() }
    }
}

impl SearchState {
    /// Whether a query is active.
    pub fn is_active(&self) -> (b: bool)
        ensures
            b == (self.query@.len() > 0),
    {
        self.query.as_str().unicode_len() > 0
    }

    /// Turn search off and drop all matches.
    pub fn clear(&mut self)
        ensures
            final(self).query@.len() == 0,
            final(self).matches@.len() == 0,
            final(self).active is None,
            !final(self).truncated,
    {
        self.query = String::new();
        self.matches = Vec::new();
        self.active = None;
        self.truncated = false;
    }

    /// 1-based ordinal of the focused match.
    pub fn active_ordinal(&self) -> (r: Option<usize>)
        requires
            self.active matches Some(i) ==> i < usize::MAX,
        ensures
            r == match self.active { Some(i) => Some((i + 1) as usize), None => None },
    {
        match self.active {
            Some(i) => Some(i + 1),
            None => None,
        }
    }

    /// The focused `(display_row, col)`, if any.
    pub fn active_cell(&self) -> (r: Option<(usize, usize)>)
        ensures
            r == match self.active {
                Some(i) => if i < self.matches@.len() { Some(self.matches@[i as int]) } else { None },
                None => None,
            },
    {
        match self.active {
            Some(i) => if i < self.matches.len() { Some(self.matches[i]) } else { None },
            None => None,
        }
    }

    /// Focus the next match, wrapping; no-op without matches.
    pub fn next(&mut self)
        ensures
            final(self).active == next_active(old(self).active, old(self).matches@.len()),
            final(self).matches == old(self).matches,
            final(self).query == old(self).query,
            final(self).truncated == old(self).truncated,
    {
        let len = self.matches.len();
        if len == 0 {
            return;
        }
        self.active = Some(match self.active {
            Some(i) => ((i as u128 + 1) % (len as u128)) as usize,
            None => 0,
        });
    }

    /// Focus the previous match, wrapping; no-op without matches.
    pub fn prev(&mut self)
        ensures
            final(self).active == prev_active(old(self).active, old(self).matches@.len()),
            final(self).matches == old(self).matches,
            final(self).query == old(self).query,
            final(self).truncated == old(self).truncated,
    {
        let len = self.matches.len();
        if len == 0 {
            return;
        }
        self.active = Some(match self.active {
            Some(i) => ((i as u128 + len as u128 - 1) % (len as u128)) as usize,
            None => len - 1,
        });
    }

    /// The "N of M" / "No matches" counter for a find bar.
    pub fn count_label(&self) -> (s: String)
        requires
            self.active matches Some(i) ==> i < usize::MAX,
        ensures
            s@ == count_label(self.active, self.matches@.len(), self.truncated),
    {
        let total = self.matches.len();
        if total == 0 {
            return "No matches".to_owned();
        }
        let n = match self.active {
            Some(i) => i + 1,
            None => 1,
        };
        let mut out = String::new();
        push_decimal(&mut out, n);
        crate::text_input::push_str(&mut out, " of ");
        push_decimal(&mut out, total);
        if self.truncated {
            crate::text_input::push_str(&mut out, "+");
        }
        proof {
            if !self.truncated {
                assert(out@ =~= count_label(self.active, total as nat, self.truncated));
            }
        }
        out
    }
}

/// Position of the first match at or after `anchor` (falling back to the first
/// match when none is), or `None` when there are no matches.
pub fn first_match_at_or_after(matches: &Vec<(usize, usize)>, anchor: (usize, usize)) -> (r: Option<usize>)
    ensures
        r == first_at_or_after(matches@, anchor),
{
    reveal(first_at_or_after);
    if matches.len() == 0 {
        return None;
    }
    let mut i: usize = 0;
    while i < matches.len()
        invariant
            i <= matches@.len(),
            forall|j: int| 0 <= j < i ==> !at_or_after(#[trigger] matches@[j], anchor),
        decreases matches@.len() - i,
    {
        let m = matches[i];
        if m.0 > anchor.0 || (m.0 == anchor.0 && m.1 >= anchor.1) {
            proof {
                reveal(first_at_or_after);
                let k = i as int;
                assert(0 <= k < matches@.len() && at_or_after(matches@[k], anchor)
                    && forall|j: int| 0 <= j < k ==> !at_or_after(#[trigger] matches@[j], anchor));
                let w = choose|w: int| 0 <= w < matches@.len() && at_or_after(matches@[w], anchor)
                    && forall|j: int| 0 <= j < w ==> !at_or_after(#[trigger] matches@[j], anchor);
                assert(w == k) by {
                    if w < k {
                        assert(!at_or_after(matches@[w], anchor));
                    }
                    if k < w {
                        assert(!at_or_after(matches@[k], anchor));
                    }
                }
            }
            return Some(i);
        }
        i += 1;
    }
    Some(0)
}

/// Moving to the next match and then back to the previous one returns to the
/// focused match.
pub proof fn lemma_prev_undoes_next(active: Option<usize>, len: nat)
    requires
        len > 0,
        active matches Some(i) ==> i < len,
        len <= usize::MAX,
    ensures
        active is Some ==> prev_active(next_active(active, len), len) == active,
        next_active(prev_active(active, len), len) == (if active is Some { active } else { Some(0usize) }),
{
    if let Some(i) = active {
        assert(((i + 1) % (len as int)) < len);
        if i + 1 < len {
            assert((i + 1) % (len as int) == i + 1) by {
                vstd::arithmetic::div_mod::lemma_small_mod((i + 1) as nat, len);
            }
            assert(((i + 1 + len - 1) % (len as int)) == i) by {
                assert(i + 1 + len - 1 == i + len);
                vstd::arithmetic::div_mod::lemma_mod_add_multiples_vanish(i as int, len as int);
                vstd::arithmetic::div_mod::lemma_small_mod(i as nat, len);
            }
        } else {
            assert((i + 1) % (len as int) == 0) by {
                vstd::arithmetic::div_mod::lemma_mod_self_0(len as int);
            }
            assert(((0 + len - 1) % (len as int)) == len - 1) by {
                vstd::arithmetic::div_mod::lemma_small_mod((len - 1) as nat, len);
            }
        }
        if i == 0 {
            assert(((i + len - 1) % (len as int)) == len - 1) by {
                vstd::arithmetic::div_mod::lemma_small_mod((len - 1) as nat, len);
            }
            assert(((len - 1 + 1) % (len as int)) == 0) by {
                vstd::arithmetic::div_mod::lemma_mod_self_0(len as int);
            }
        } else {
            assert(((i + len - 1) % (len as int)) == i - 1) by {
                vstd::arithmetic::div_mod::lemma_mod_add_multiples_vanish((i - 1) as int, len as int);
                vstd::arithmetic::div_mod::lemma_small_mod((i - 1) as nat, len);
            }
            assert(((i - 1 + 1) % (len as int)) == i) by {
                vstd::arithmetic::div_mod::lemma_small_mod(i as nat, len);
            }
        }
    } else {
        assert(((len - 1 + 1) % (len as int)) == 0) by {
            vstd::arithmetic::div_mod::lemma_mod_self_0(len as int);
        }
    }
}

/// Stepping forward through all matches visits each in turn and wraps to the start.
pub proof fn lemma_next_wraps(i: usize, len: nat)
    requires
        i < len,
        len <= usize::MAX,
    ensures
        i + 1 < len ==> next_active(Some(i), len) == Some((i + 1) as usize),
        i + 1 == len ==> next_active(Some(i), len) == Some(0usize),
{
    if i + 1 < len {
        vstd::arithmetic::div_mod::lemma_small_mod((i + 1) as nat, len);
    } else {
        vstd::arithmetic::div_mod::lemma_mod_self_0(len as int);
    }
}

} // verus!
