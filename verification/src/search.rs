//! Finding the first, or the only, item of a sequence with some property.

use vstd::prelude::*;

verus! {

/// Whether `i` is the first place of `s` whose item satisfies `p`.
pub open spec fn is_first_where<A>(s: Seq<A>, p: spec_fn(A) -> bool, i: int) -> bool {
    &&& 0 <= i < s.len()
    &&& p(s[i])
    &&& forall|j: int| 0 <= j < i ==> !p(#[trigger] s[j])
}

/// The first place of `s` whose item satisfies `p`.
pub open spec fn first_where<A>(s: Seq<A>, p: spec_fn(A) -> bool) -> Option<int> {
    if exists|i: int| is_first_where(s, p, i) {
        Some(choose|i: int| is_first_where(s, p, i))
    } else {
        None
    }
}

/// Whether `i` is the only place of `s` whose item satisfies `p`.
pub open spec fn is_only_where<A>(s: Seq<A>, p: spec_fn(A) -> bool, i: int) -> bool {
    &&& 0 <= i < s.len()
    &&& p(s[i])
    &&& forall|j: int| 0 <= j < s.len() && j != i ==> !p(#[trigger] s[j])
}

/// The only place of `s` whose item satisfies `p`, if there is exactly one.
pub open spec fn only_where<A>(s: Seq<A>, p: spec_fn(A) -> bool) -> Option<int> {
    if exists|i: int| is_only_where(s, p, i) {
        Some(choose|i: int| is_only_where(s, p, i))
    } else {
        None
    }
}

/// The first place is the one that `first_where` gives.
pub proof fn lemma_first_where_found<A>(s: Seq<A>, p: spec_fn(A) -> bool, i: int)
    requires
        is_first_where(s, p, i),
    ensures
        first_where(s, p) == Some(i),
{
    let k = choose|k: int| is_first_where(s, p, k);
    if k < i {
        assert(!p(s[k]));
    } else if i < k {
        assert(!p(s[i]));
    }
}

/// Where no item satisfies `p`, `first_where` gives nothing.
pub proof fn lemma_first_where_none<A>(s: Seq<A>, p: spec_fn(A) -> bool)
    requires
        forall|j: int| 0 <= j < s.len() ==> !p(#[trigger] s[j]),
    ensures
        first_where(s, p) is None,
{
}

/// What `first_where` gives is a place of `s`.
pub proof fn lemma_first_where_in_range<A>(s: Seq<A>, p: spec_fn(A) -> bool)
    ensures
        first_where(s, p) matches Some(i) ==> is_first_where(s, p, i),
{
}

/// Where some item satisfies `p`, `first_where` gives a place.
pub proof fn lemma_first_where_some<A>(s: Seq<A>, p: spec_fn(A) -> bool, j: int)
    requires
        0 <= j < s.len(),
        p(s[j]),
    ensures
        first_where(s, p) matches Some(i) && i <= j,
    decreases j,
{
    if exists|k: int| 0 <= k < j && p(s[k]) {
        let k = choose|k: int| 0 <= k < j && p(s[k]);
        lemma_first_where_some(s, p, k);
    } else {
        assert(is_first_where(s, p, j));
        lemma_first_where_found(s, p, j);
    }
}

/// The only place is the one that `only_where` gives.
pub proof fn lemma_only_where_found<A>(s: Seq<A>, p: spec_fn(A) -> bool, i: int)
    requires
        is_only_where(s, p, i),
    ensures
        only_where(s, p) == Some(i),
{
    let k = choose|k: int| is_only_where(s, p, k);
    if k != i {
        assert(!p(s[k]));
    }
}

/// Where two places satisfy `p`, or none does, `only_where` gives nothing.
pub proof fn lemma_only_where_none<A>(s: Seq<A>, p: spec_fn(A) -> bool)
    requires
        (forall|j: int| 0 <= j < s.len() ==> !p(#[trigger] s[j])) || (exists|a: int, b: int|
            0 <= a < b < s.len() && p(s[a]) && p(s[b])),
    ensures
        only_where(s, p) is None,
{
    if exists|i: int| is_only_where(s, p, i) {
        let i = choose|i: int| is_only_where(s, p, i);
        if exists|a: int, b: int| 0 <= a < b < s.len() && p(s[a]) && p(s[b]) {
            let (a, b) = choose|a: int, b: int| 0 <= a < b < s.len() && p(s[a]) && p(s[b]);
            if a != i {
                assert(!p(s[a]));
            } else {
                assert(!p(s[b]));
            }
        } else {
            assert(!p(s[i]));
        }
    }
}

} // verus!
