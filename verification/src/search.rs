//! First-match search over a sequence, and the lemmas that tie a linear
//! scan to it.
//!
//! Both the graph lookup and the cache search are first-match-wins scans,
//! so the index of the first element satisfying a predicate is defined once
//! here.

use vstd::prelude::*;

verus! {

/// Index of the first element of `s` satisfying `p`, if any.
pub open spec fn first_where<T>(s: Seq<T>, p: spec_fn(T) -> bool) -> Option<int>
    decreases s.len(),
{
    if s.len() == 0 {
        None
    } else if p(s[0]) {
        Some(0int)
    } else {
        match first_where(s.drop_first(), p) {
            Some(i) => Some(i + 1),
            None => None,
        }
    }
}

/// A satisfying index preceded only by non-satisfying ones is the first
/// match; no satisfying element at all means there is none.
pub proof fn lemma_first_where_from_props<T>(s: Seq<T>, p: spec_fn(T) -> bool, r: Option<int>)
    requires
        match r {
            Some(i) => 0 <= i < s.len() && p(s[i]) && (forall|j: int| 0 <= j < i ==> !p(s[j])),
            None => forall|j: int| 0 <= j < s.len() ==> !p(s[j]),
        },
    ensures
        first_where(s, p) == r,
    decreases s.len(),
{
    if s.len() == 0 {
    } else if p(s[0]) {
        match r {
            Some(i) => {
                assert(!(0 < i));
            },
            None => {
                assert(!p(s[0]));
            },
        }
    } else {
        let rest = s.drop_first();
        assert forall|j: int| 1 <= j < s.len() implies rest[j - 1] == s[j] by {}
        match r {
            Some(i) => {
                assert(i != 0);
                lemma_first_where_from_props(rest, p, Some(i - 1));
            },
            None => {
                lemma_first_where_from_props(rest, p, None);
            },
        }
    }
}

} // verus!
