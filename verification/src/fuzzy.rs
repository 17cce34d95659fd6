//! Matching a typed word against the candidates of a grammar node, and
//! ranking the candidates that match.
//!
//! A candidate matches a query when the query's characters occur in it in
//! order. Matches are ranked: those that begin with the query come first,
//! then shorter before longer, then in lexicographic order.

use crate::text::{
    chars_of, has_prefix_folded, has_subsequence, is_lex_less, is_subsequence,
    lemma_lex_less_asymmetric, lemma_lex_less_total, lemma_lex_less_transitive, lex_less,
    starts_with_folded,
};
use vstd::prelude::*;
use vstd::seq_lib::to_multiset_build;

verus! {

/// Whether candidate `a` is ranked strictly before candidate `b` for `query`.
pub open spec fn ranks_before(query: Seq<char>, a: Seq<char>, b: Seq<char>) -> bool {
    let a_prefix = starts_with_folded(a, query);
    let b_prefix = starts_with_folded(b, query);
    if a_prefix != b_prefix {
        a_prefix
    } else if a.len() != b.len() {
        a.len() < b.len()
    } else {
        lex_less(a, b)
    }
}

/// `ranked` with `x` put in behind every entry that `x` is not ranked before.
pub open spec fn insert_ranked(query: Seq<char>, ranked: Seq<Seq<char>>, x: Seq<char>) -> Seq<
    Seq<char>,
>
    decreases ranked.len(),
{
    if ranked.len() == 0 || !ranks_before(query, x, ranked.last()) {
        ranked.push(x)
    } else {
        insert_ranked(query, ranked.drop_last(), x).push(ranked.last())
    }
}

/// The candidates that match `query`, in rank order: each candidate in turn
/// is put in behind the entries that it is not ranked before. Of two
/// different candidates one is ranked before the other, so this is the one
/// list in rank order that holds the matching candidates.
pub open spec fn ranked_matches(query: Seq<char>, candidates: Seq<Seq<char>>) -> Seq<Seq<char>>
    decreases candidates.len(),
{
    if candidates.len() == 0 {
        Seq::empty()
    } else {
        let rest = ranked_matches(query, candidates.drop_last());
        if is_subsequence(query, candidates.last()) {
            insert_ranked(query, rest, candidates.last())
        } else {
            rest
        }
    }
}

/// The test for a candidate that matches `query`.
pub open spec fn matching(query: Seq<char>) -> spec_fn(Seq<char>) -> bool {
    |c: Seq<char>| is_subsequence(query, c)
}

/// Whether no entry of `ranked` is ranked before an earlier one.
pub open spec fn in_rank_order(query: Seq<char>, ranked: Seq<Seq<char>>) -> bool {
    forall|i: int, j: int|
        0 <= i < j < ranked.len() ==> !ranks_before(query, #[trigger] ranked[j], #[trigger] ranked[i])
}

/// Rank never holds both ways.
pub proof fn lemma_ranks_before_asymmetric(query: Seq<char>, a: Seq<char>, b: Seq<char>)
    requires
        ranks_before(query, a, b),
    ensures
        !ranks_before(query, b, a),
{
    if starts_with_folded(a, query) == starts_with_folded(b, query) && a.len() == b.len() {
        lemma_lex_less_asymmetric(a, b);
    }
}

/// Rank is transitive.
pub proof fn lemma_ranks_before_transitive(
    query: Seq<char>,
    a: Seq<char>,
    b: Seq<char>,
    c: Seq<char>,
)
    requires
        ranks_before(query, a, b),
        ranks_before(query, b, c),
    ensures
        ranks_before(query, a, c),
{
    if starts_with_folded(a, query) == starts_with_folded(b, query) && starts_with_folded(b, query)
        == starts_with_folded(c, query) && a.len() == b.len() && b.len() == c.len() {
        lemma_lex_less_transitive(a, b, c);
    }
}

/// Of two different candidates one is ranked before the other.
pub proof fn lemma_ranks_before_total(query: Seq<char>, a: Seq<char>, b: Seq<char>)
    ensures
        a == b || ranks_before(query, a, b) || ranks_before(query, b, a),
{
    lemma_lex_less_total(a, b);
}

/// Where `a` is not ranked after `b`, nor `b` after `c`, `a` is not ranked
/// after `c`.
pub proof fn lemma_rank_order_transitive(
    query: Seq<char>,
    a: Seq<char>,
    b: Seq<char>,
    c: Seq<char>,
)
    requires
        !ranks_before(query, b, a),
        !ranks_before(query, c, b),
    ensures
        !ranks_before(query, c, a),
{
    lemma_ranks_before_total(query, a, b);
    lemma_ranks_before_total(query, b, c);
    if ranks_before(query, c, a) {
        if a == b {
        } else if b == c {
        } else {
            lemma_ranks_before_transitive(query, c, a, b);
            lemma_ranks_before_asymmetric(query, c, b);
        }
    }
}

/// Inserting keeps what there was and adds the new entry.
pub proof fn lemma_insert_ranked_members(query: Seq<char>, ranked: Seq<Seq<char>>, x: Seq<char>)
    ensures
        insert_ranked(query, ranked, x).len() == ranked.len() + 1,
        insert_ranked(query, ranked, x).to_multiset() == ranked.to_multiset().insert(x),
        forall|k: int|
            0 <= k < insert_ranked(query, ranked, x).len() ==> #[trigger] insert_ranked(
                query,
                ranked,
                x,
            )[k] == x || ranked.contains(insert_ranked(query, ranked, x)[k]),
    decreases ranked.len(),
{
    broadcast use to_multiset_build;

    let result = insert_ranked(query, ranked, x);
    if ranked.len() == 0 || !ranks_before(query, x, ranked.last()) {
        assert forall|k: int| 0 <= k < result.len() implies #[trigger] result[k] == x
            || ranked.contains(result[k]) by {
            if k < ranked.len() {
                assert(ranked[k] == result[k]);
            }
        }
    } else {
        let front = ranked.drop_last();
        lemma_insert_ranked_members(query, front, x);
        assert(ranked =~= front.push(ranked.last()));
        assert(result.to_multiset() =~= ranked.to_multiset().insert(x));
        assert forall|k: int| 0 <= k < result.len() implies #[trigger] result[k] == x
            || ranked.contains(result[k]) by {
            if k < result.len() - 1 {
                let inner = insert_ranked(query, front, x);
                assert(result[k] == inner[k]);
                if inner[k] != x {
                    let j = choose|j: int| 0 <= j < front.len() && front[j] == inner[k];
                    assert(ranked[j] == result[k]);
                }
            } else {
                assert(ranked[ranked.len() - 1] == result[k]);
            }
        }
    }
}

/// Inserting into a list in rank order gives a list in rank order.
pub proof fn lemma_insert_ranked_in_order(query: Seq<char>, ranked: Seq<Seq<char>>, x: Seq<char>)
    requires
        in_rank_order(query, ranked),
    ensures
        in_rank_order(query, insert_ranked(query, ranked, x)),
    decreases ranked.len(),
{
    let result = insert_ranked(query, ranked, x);
    if ranked.len() == 0 {
    } else if !ranks_before(query, x, ranked.last()) {
        assert forall|i: int, j: int| 0 <= i < j < result.len() implies !ranks_before(
            query,
            #[trigger] result[j],
            #[trigger] result[i],
        ) by {
            if j == ranked.len() {
                if i < ranked.len() - 1 {
                    assert(!ranks_before(query, ranked[ranked.len() - 1], ranked[i]));
                    lemma_rank_order_transitive(query, ranked[i], ranked.last(), x);
                }
            } else {
                assert(!ranks_before(query, ranked[j], ranked[i]));
            }
        }
    } else {
        let front = ranked.drop_last();
        let inner = insert_ranked(query, front, x);
        assert forall|i: int, j: int| 0 <= i < j < front.len() implies !ranks_before(
            query,
            #[trigger] front[j],
            #[trigger] front[i],
        ) by {
            assert(!ranks_before(query, ranked[j], ranked[i]));
        }
        lemma_insert_ranked_in_order(query, front, x);
        lemma_insert_ranked_members(query, front, x);
        lemma_ranks_before_asymmetric(query, x, ranked.last());
        assert forall|i: int, j: int| 0 <= i < j < result.len() implies !ranks_before(
            query,
            #[trigger] result[j],
            #[trigger] result[i],
        ) by {
            if j == result.len() - 1 {
                assert(result[j] == ranked.last());
                assert(result[i] == inner[i]);
                if inner[i] != x {
                    let k = choose|k: int| 0 <= k < front.len() && front[k] == inner[i];
                    assert(!ranks_before(query, ranked[ranked.len() - 1], ranked[k]));
                }
            } else {
                assert(!ranks_before(query, inner[j], inner[i]));
            }
        }
    }
}

/// The ranked matches are in rank order: those that begin with the query
/// first, then shorter before longer, then in lexicographic order.
pub proof fn lemma_ranked_matches_in_order(query: Seq<char>, candidates: Seq<Seq<char>>)
    ensures
        in_rank_order(query, ranked_matches(query, candidates)),
    decreases candidates.len(),
{
    if candidates.len() > 0 {
        lemma_ranked_matches_in_order(query, candidates.drop_last());
        if is_subsequence(query, candidates.last()) {
            lemma_insert_ranked_in_order(
                query,
                ranked_matches(query, candidates.drop_last()),
                candidates.last(),
            );
        }
    }
}

/// The ranked matches are the candidates that match the query, each as
/// often as it occurs among the candidates.
pub proof fn lemma_ranked_matches_members(query: Seq<char>, candidates: Seq<Seq<char>>)
    ensures
        ranked_matches(query, candidates).to_multiset() == candidates.filter(
            matching(query),
        ).to_multiset(),
    decreases candidates.len(),
{
    reveal(Seq::filter);
    let kept = candidates.filter(matching(query));
    if candidates.len() > 0 {
        let front = candidates.drop_last();
        let last = candidates.last();
        lemma_ranked_matches_members(query, front);
        if is_subsequence(query, last) {
            assert(matching(query)(last));
            assert(kept == front.filter(matching(query)).push(last));
            lemma_insert_ranked_members(query, ranked_matches(query, front), last);
            to_multiset_build(front.filter(matching(query)), last);
        } else {
            assert(!matching(query)(last));
            assert(kept == front.filter(matching(query)));
        }
    } else {
        assert(kept =~= Seq::<Seq<char>>::empty());
    }
}

/// Nothing is ranked exactly where no candidate matches.
pub proof fn lemma_ranked_matches_empty(query: Seq<char>, candidates: Seq<Seq<char>>)
    ensures
        ranked_matches(query, candidates).len() == 0 <==> forall|i: int|
            0 <= i < candidates.len() ==> !is_subsequence(query, #[trigger] candidates[i]),
    decreases candidates.len(),
{
    if candidates.len() > 0 {
        let front = candidates.drop_last();
        lemma_ranked_matches_empty(query, front);
        if is_subsequence(query, candidates.last()) {
            lemma_insert_ranked_members(query, ranked_matches(query, front), candidates.last());
            assert(is_subsequence(query, candidates[candidates.len() - 1]));
        } else {
            if forall|i: int| 0 <= i < front.len() ==> !is_subsequence(query, #[trigger] front[i]) {
                assert forall|i: int| 0 <= i < candidates.len() implies !is_subsequence(
                    query,
                    #[trigger] candidates[i],
                ) by {
                    if i < front.len() {
                        assert(front[i] == candidates[i]);
                    }
                }
            } else {
                let i = choose|i: int| 0 <= i < front.len() && is_subsequence(query, front[i]);
                assert(is_subsequence(query, candidates[i]));
            }
        }
    }
}

/// Two lists in rank order with the same entries are the same list: the
/// ranked matches are the one list in rank order that holds the matching
/// candidates.
pub proof fn lemma_rank_order_unique(query: Seq<char>, a: Seq<Seq<char>>, b: Seq<Seq<char>>)
    requires
        in_rank_order(query, a),
        in_rank_order(query, b),
        a.to_multiset() == b.to_multiset(),
    ensures
        a == b,
    decreases a.len(),
{
    broadcast use vstd::multiset::group_multiset_axioms;

    a.to_multiset_ensures();
    b.to_multiset_ensures();
    if a.len() == 0 {
        assert(a =~= b);
    } else {
        let x = a.last();
        let y = b.last();
        let a_front = a.drop_last();
        let b_front = b.drop_last();
        assert(a.contains(x)) by {
            assert(a[a.len() - 1] == x);
        }
        assert(b.contains(y)) by {
            assert(b[b.len() - 1] == y);
        }
        assert(b.contains(x)) by {
            assert(a.to_multiset().count(x) > 0);
            assert(b.to_multiset().count(x) > 0);
        }
        assert(a.contains(y)) by {
            assert(b.to_multiset().count(y) > 0);
            assert(a.to_multiset().count(y) > 0);
        }
        let k = choose|k: int| 0 <= k < a.len() && a[k] == y;
        let m = choose|m: int| 0 <= m < b.len() && b[m] == x;
        assert(!ranks_before(query, x, y)) by {
            if k < a.len() - 1 {
                assert(!ranks_before(query, a[a.len() - 1], a[k]));
            } else {
                lemma_ranks_before_total(query, x, x);
                if ranks_before(query, x, x) {
                    lemma_ranks_before_asymmetric(query, x, x);
                }
            }
        }
        assert(!ranks_before(query, y, x)) by {
            if m < b.len() - 1 {
                assert(!ranks_before(query, b[b.len() - 1], b[m]));
            } else {
                if ranks_before(query, y, y) {
                    lemma_ranks_before_asymmetric(query, y, y);
                }
            }
        }
        lemma_ranks_before_total(query, x, y);
        assert(x == y);
        assert(a =~= a_front.push(x));
        assert(b =~= b_front.push(y));
        a_front.to_multiset_ensures();
        b_front.to_multiset_ensures();
        assert(a_front.to_multiset() =~= a.to_multiset().remove(x));
        assert(b_front.to_multiset() =~= b.to_multiset().remove(y));
        assert forall|i: int, j: int| 0 <= i < j < a_front.len() implies !ranks_before(
            query,
            #[trigger] a_front[j],
            #[trigger] a_front[i],
        ) by {
            assert(!ranks_before(query, a[j], a[i]));
        }
        assert forall|i: int, j: int| 0 <= i < j < b_front.len() implies !ranks_before(
            query,
            #[trigger] b_front[j],
            #[trigger] b_front[i],
        ) by {
            assert(!ranks_before(query, b[j], b[i]));
        }
        lemma_rank_order_unique(query, a_front, b_front);
    }
}

/// Inserting at the place found by scanning from the end is `insert_ranked`.
pub proof fn lemma_insert_ranked_at(
    query: Seq<char>,
    ranked: Seq<Seq<char>>,
    x: Seq<char>,
    pos: int,
)
    requires
        0 <= pos <= ranked.len(),
        forall|k: int| pos <= k < ranked.len() ==> ranks_before(query, x, #[trigger] ranked[k]),
        pos > 0 ==> !ranks_before(query, x, ranked[pos - 1]),
    ensures
        insert_ranked(query, ranked, x) == ranked.insert(pos, x),
    decreases ranked.len(),
{
    if pos == ranked.len() {
        assert(ranked.insert(pos, x) =~= ranked.push(x));
    } else {
        let front = ranked.drop_last();
        assert(ranks_before(query, x, ranked[ranked.len() - 1]));
        assert forall|k: int| pos <= k < front.len() implies ranks_before(
            query,
            x,
            #[trigger] front[k],
        ) by {
            assert(front[k] == ranked[k]);
        }
        lemma_insert_ranked_at(query, front, x, pos);
        assert(front.insert(pos, x).push(ranked.last()) =~= ranked.insert(pos, x));
    }
}

/// Tests whether candidate `a` is ranked strictly before candidate `b`.
pub fn is_ranked_before(query: &Vec<char>, a: &Vec<char>, b: &Vec<char>) -> (r: bool)
    ensures
        r == ranks_before(query@, a@, b@),
{
    let a_prefix: bool = has_prefix_folded(a, query);
    let b_prefix: bool = has_prefix_folded(b, query);
    if a_prefix != b_prefix {
        a_prefix
    } else if a.len() != b.len() {
        a.len() < b.len()
    } else {
        is_lex_less(a, b)
    }
}

/// The candidates that match `query`, best first.
pub fn rank_candidates(query: &Vec<char>, candidates: &Vec<String>) -> (ranked: Vec<String>)
    ensures
        ranked.deep_view() == ranked_matches(query@, candidates.deep_view()),
        in_rank_order(query@, ranked.deep_view()),
        ranked.deep_view().to_multiset() == candidates.deep_view().filter(
            matching(query@),
        ).to_multiset(),
{
    let mut ranked: Vec<String> = Vec::new();
    let mut ranked_chars: Vec<Vec<char>> = Vec::new();
    let mut i: usize = 0;
    assert(candidates.deep_view().take(0) =~= Seq::<Seq<char>>::empty());
    assert(ranked.deep_view() =~= Seq::<Seq<char>>::empty());
    while i < candidates.len()
        invariant
            i <= candidates.len(),
            ranked.len() == ranked_chars.len(),
            forall|k: int| 0 <= k < ranked.len() ==> (#[trigger] ranked_chars@[k])@ == ranked@[k]@,
            ranked.deep_view() == ranked_matches(query@, candidates.deep_view().take(i as int)),
        decreases candidates.len() - i,
    {
        let chars: Vec<char> = chars_of(candidates[i].as_str());
        proof {
            let upto = candidates.deep_view().take(i + 1);
            assert(upto.drop_last() =~= candidates.deep_view().take(i as int));
            assert(upto.last() == candidates@[i as int]@);
        }
        if has_subsequence(&chars, query) {
            let mut pos: usize = ranked.len();
            while pos > 0 && is_ranked_before(query, &chars, &ranked_chars[pos - 1])
                invariant
                    pos <= ranked.len() == ranked_chars.len(),
                    forall|k: int|
                        0 <= k < ranked.len() ==> (#[trigger] ranked_chars@[k])@ == ranked@[k]@,
                    forall|k: int|
                        pos <= k < ranked.len() ==> ranks_before(
                            query@,
                            chars@,
                            #[trigger] ranked.deep_view()[k],
                        ),
                decreases pos,
            {
                assert(ranked.deep_view()[pos - 1] == ranked_chars@[pos - 1]@);
                pos = pos - 1;
            }
            proof {
                if pos > 0 {
                    assert(ranked.deep_view()[pos - 1] == ranked_chars@[pos - 1]@);
                }
                lemma_insert_ranked_at(query@, ranked.deep_view(), chars@, pos as int);
            }
            let ghost before = ranked.deep_view();
            ranked.insert(pos, candidates[i].clone());
            ranked_chars.insert(pos, chars);
            assert(ranked.deep_view() =~= before.insert(pos as int, candidates@[i as int]@));
        }
        i = i + 1;
    }
    proof {
        assert(candidates.deep_view().take(i as int) =~= candidates.deep_view());
        lemma_ranked_matches_in_order(query@, candidates.deep_view());
        lemma_ranked_matches_members(query@, candidates.deep_view());
    }
    ranked
}

} // verus!
