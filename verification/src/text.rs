//! Characters and character sequences: case folding, whitespace, prefixes,
//! ordered subsequences and lexicographic order.
//!
//! Case is folded for the letters `A` to `Z` only; every other character
//! matches itself alone.

use vstd::prelude::*;

verus! {

/// `c` with the upper-case letters `A` to `Z` replaced by their lower-case
/// forms.
pub open spec fn fold_case(c: char) -> char {
    if 'A' <= c <= 'Z' {
        (c as nat + 32) as char
    } else {
        c
    }
}

/// Whether `a` and `b` are the same character up to the case of a letter.
pub open spec fn same_letter(a: char, b: char) -> bool {
    fold_case(a) == fold_case(b)
}

/// Whether `c` separates the words of a command line: a character with the
/// Unicode property `White_Space`.
pub open spec fn is_whitespace(c: char) -> bool {
    let n = c as nat;
    ||| 0x09 <= n <= 0x0d
    ||| n == 0x20
    ||| n == 0x85
    ||| n == 0xa0
    ||| n == 0x1680
    ||| 0x2000 <= n <= 0x200a
    ||| n == 0x2028
    ||| n == 0x2029
    ||| n == 0x202f
    ||| n == 0x205f
    ||| n == 0x3000
}

/// Whether `text` begins with `prefix`, up to the case of letters.
pub open spec fn starts_with_folded(text: Seq<char>, prefix: Seq<char>) -> bool {
    &&& prefix.len() <= text.len()
    &&& forall|i: int| 0 <= i < prefix.len() ==> same_letter(#[trigger] prefix[i], text[i])
}

/// Whether `a` and `b` are equal up to the case of letters.
pub open spec fn equal_folded(a: Seq<char>, b: Seq<char>) -> bool {
    a.len() == b.len() && starts_with_folded(a, b)
}

/// Whether the characters of `query` occur in `text` in the same order, not
/// necessarily next to each other, up to the case of letters.
pub open spec fn is_subsequence(query: Seq<char>, text: Seq<char>) -> bool
    decreases text.len(),
{
    if query.len() == 0 {
        true
    } else if text.len() == 0 {
        false
    } else if same_letter(query[0], text[0]) {
        is_subsequence(query.skip(1), text.skip(1))
    } else {
        is_subsequence(query, text.skip(1))
    }
}

/// Whether `a` comes strictly before `b` in lexicographic order of the
/// characters' code points.
pub open spec fn lex_less(a: Seq<char>, b: Seq<char>) -> bool
    decreases a.len(),
{
    if b.len() == 0 {
        false
    } else if a.len() == 0 {
        true
    } else if a[0] == b[0] {
        lex_less(a.skip(1), b.skip(1))
    } else {
        a[0] < b[0]
    }
}

/// Whether `places` embeds `query` in `text`: it gives, for each character
/// of `query`, the place of a character of `text` that matches it, and the
/// places grow.
pub open spec fn is_embedding(query: Seq<char>, text: Seq<char>, places: Seq<int>) -> bool {
    &&& places.len() == query.len()
    &&& forall|i: int|
        0 <= i < places.len() ==> 0 <= #[trigger] places[i] < text.len() && same_letter(
            query[i],
            text[places[i]],
        )
    &&& forall|i: int, j: int|
        0 <= i < j < places.len() ==> #[trigger] places[i] < #[trigger] places[j]
}

/// What embeds `query` in `text` makes it a subsequence of `text`.
pub proof fn lemma_embedding_is_subsequence(query: Seq<char>, text: Seq<char>, places: Seq<int>)
    requires
        is_embedding(query, text, places),
    ensures
        is_subsequence(query, text),
    decreases text.len(),
{
    if query.len() > 0 {
        assert(0 <= places[0] < text.len());
        if same_letter(query[0], text[0]) {
            let rest = Seq::new((places.len() - 1) as nat, |i: int| places[i + 1] - 1);
            assert forall|i: int| 0 <= i < rest.len() implies 0 <= #[trigger] rest[i]
                < text.skip(1).len() && same_letter(query.skip(1)[i], text.skip(1)[rest[i]]) by {
                assert(places[0] < places[i + 1]);
            }
            assert forall|i: int, j: int| 0 <= i < j < rest.len() implies #[trigger] rest[i]
                < #[trigger] rest[j] by {
                assert(places[i + 1] < places[j + 1]);
            }
            lemma_embedding_is_subsequence(query.skip(1), text.skip(1), rest);
        } else {
            let moved = Seq::new(places.len(), |i: int| places[i] - 1);
            assert forall|i: int| 0 <= i < moved.len() implies 0 <= #[trigger] moved[i]
                < text.skip(1).len() && same_letter(query[i], text.skip(1)[moved[i]]) by {
                if i > 0 {
                    assert(places[0] < places[i]);
                }
            }
            assert forall|i: int, j: int| 0 <= i < j < moved.len() implies #[trigger] moved[i]
                < #[trigger] moved[j] by {
                assert(places[i] < places[j]);
            }
            lemma_embedding_is_subsequence(query, text.skip(1), moved);
        }
    }
}

/// A subsequence of `text` has an embedding in `text`.
pub proof fn lemma_subsequence_has_embedding(query: Seq<char>, text: Seq<char>) -> (places: Seq<
    int,
>)
    requires
        is_subsequence(query, text),
    ensures
        is_embedding(query, text, places),
    decreases text.len(),
{
    if query.len() == 0 {
        Seq::empty()
    } else if same_letter(query[0], text[0]) {
        let rest = lemma_subsequence_has_embedding(query.skip(1), text.skip(1));
        let places = Seq::new(query.len(), |i: int| if i == 0 { 0 } else { rest[i - 1] + 1 });
        assert forall|i: int| 0 <= i < places.len() implies 0 <= #[trigger] places[i] < text.len()
            && same_letter(query[i], text[places[i]]) by {
            if i > 0 {
                assert(same_letter(query.skip(1)[i - 1], text.skip(1)[rest[i - 1]]));
            }
        }
        assert forall|i: int, j: int| 0 <= i < j < places.len() implies #[trigger] places[i]
            < #[trigger] places[j] by {
            if i > 0 {
                assert(rest[i - 1] < rest[j - 1]);
            } else {
                assert(0 <= rest[j - 1]);
            }
        }
        places
    } else {
        let rest = lemma_subsequence_has_embedding(query, text.skip(1));
        let places = Seq::new(query.len(), |i: int| rest[i] + 1);
        assert forall|i: int| 0 <= i < places.len() implies 0 <= #[trigger] places[i] < text.len()
            && same_letter(query[i], text[places[i]]) by {
            assert(same_letter(query[i], text.skip(1)[rest[i]]));
        }
        assert forall|i: int, j: int| 0 <= i < j < places.len() implies #[trigger] places[i]
            < #[trigger] places[j] by {
            assert(rest[i] < rest[j]);
        }
        places
    }
}

/// What `text` begins with is a subsequence of `text`.
pub proof fn lemma_prefix_is_subsequence(text: Seq<char>, prefix: Seq<char>)
    requires
        starts_with_folded(text, prefix),
    ensures
        is_subsequence(prefix, text),
    decreases text.len(),
{
    if prefix.len() > 0 {
        assert(same_letter(prefix[0], text[0]));
        assert forall|i: int| 0 <= i < prefix.skip(1).len() implies same_letter(
            #[trigger] prefix.skip(1)[i],
            text.skip(1)[i],
        ) by {
            assert(same_letter(prefix[i + 1], text[i + 1]));
        }
        lemma_prefix_is_subsequence(text.skip(1), prefix.skip(1));
    }
}

/// Lexicographic order never holds both ways.
pub proof fn lemma_lex_less_asymmetric(a: Seq<char>, b: Seq<char>)
    requires
        lex_less(a, b),
    ensures
        !lex_less(b, a),
    decreases a.len(),
{
    if a.len() > 0 && b.len() > 0 && a[0] == b[0] {
        lemma_lex_less_asymmetric(a.skip(1), b.skip(1));
    }
}

/// Lexicographic order is transitive.
pub proof fn lemma_lex_less_transitive(a: Seq<char>, b: Seq<char>, c: Seq<char>)
    requires
        lex_less(a, b),
        lex_less(b, c),
    ensures
        lex_less(a, c),
    decreases a.len(),
{
    if a.len() > 0 && b.len() > 0 && c.len() > 0 && a[0] == b[0] && b[0] == c[0] {
        lemma_lex_less_transitive(a.skip(1), b.skip(1), c.skip(1));
    }
}

/// Of two different sequences one comes before the other.
pub proof fn lemma_lex_less_total(a: Seq<char>, b: Seq<char>)
    ensures
        a == b || lex_less(a, b) || lex_less(b, a),
    decreases a.len(),
{
    if a.len() == 0 || b.len() == 0 {
        if a.len() == 0 && b.len() == 0 {
            assert(a =~= b);
        }
    } else if a[0] == b[0] {
        lemma_lex_less_total(a.skip(1), b.skip(1));
        if a.skip(1) == b.skip(1) {
            assert(a =~= seq![a[0]] + a.skip(1));
            assert(b =~= seq![b[0]] + b.skip(1));
        }
    }
}

/// The characters of `s`, in order.
pub fn chars_of(s: &str) -> (v: Vec<char>)
    ensures
        v@ == s@,
{
    let mut v: Vec<char> = Vec::new();
    for c in it: s.chars()
        invariant
            it.seq() == s@,
            v@ == s@.take(it.index() as int),
    {
        v.push(c);
        assert(s@.take(it.index() + 1) =~= s@.take(it.index() as int).push(c));
    }
    assert(s@.take(s@.len() as int) =~= s@);
    v
}

/// Folds the case of `c`.
pub fn folded(c: char) -> (r: char)
    ensures
        r == fold_case(c),
{
    if 'A' <= c && c <= 'Z' {
        let upper: u8 = c as u8;
        let lower: u8 = upper + 32;
        lower as char
    } else {
        c
    }
}

/// Tests whether two characters are the same up to case.
pub fn letters_match(a: char, b: char) -> (r: bool)
    ensures
        r == same_letter(a, b),
{
    folded(a) == folded(b)
}

/// Tests whether `c` is whitespace.
pub fn char_is_whitespace(c: char) -> (r: bool)
    ensures
        r == is_whitespace(c),
{
    let n: u32 = c as u32;
    (0x09 <= n && n <= 0x0d) || n == 0x20 || n == 0x85 || n == 0xa0 || n == 0x1680 || (0x2000 <= n
        && n <= 0x200a) || n == 0x2028 || n == 0x2029 || n == 0x202f || n == 0x205f || n == 0x3000
}

/// Tests whether `text` begins with `prefix`, up to case.
pub fn has_prefix_folded(text: &Vec<char>, prefix: &Vec<char>) -> (r: bool)
    ensures
        r == starts_with_folded(text@, prefix@),
{
    if prefix.len() > text.len() {
        return false;
    }
    let mut i: usize = 0;
    while i < prefix.len()
        invariant
            i <= prefix.len() <= text.len(),
            forall|k: int| 0 <= k < i ==> same_letter(#[trigger] prefix@[k], text@[k]),
        decreases prefix.len() - i,
    {
        if !letters_match(prefix[i], text[i]) {
            return false;
        }
        i = i + 1;
    }
    true
}

/// Tests whether `a` and `b` are equal up to case.
pub fn is_equal_folded(a: &Vec<char>, b: &Vec<char>) -> (r: bool)
    ensures
        r == equal_folded(a@, b@),
{
    a.len() == b.len() && has_prefix_folded(a, b)
}

/// Tests whether `a` and `b` hold the same characters.
pub fn is_equal(a: &Vec<char>, b: &Vec<char>) -> (r: bool)
    ensures
        r == (a@ == b@),
{
    if a.len() != b.len() {
        return false;
    }
    let mut i: usize = 0;
    while i < a.len()
        invariant
            i <= a.len() == b.len(),
            forall|k: int| 0 <= k < i ==> a@[k] == b@[k],
        decreases a.len() - i,
    {
        if a[i] != b[i] {
            return false;
        }
        i = i + 1;
    }
    assert(a@ =~= b@);
    true
}

/// Tests whether the characters of `query` occur in `text` in order, up to
/// case.
pub fn has_subsequence(text: &Vec<char>, query: &Vec<char>) -> (r: bool)
    ensures
        r == is_subsequence(query@, text@),
{
    let mut i: usize = 0;
    let mut j: usize = 0;
    assert(query@.skip(0) =~= query@ && text@.skip(0) =~= text@);
    while i < query.len() && j < text.len()
        invariant
            i <= query.len(),
            j <= text.len(),
            is_subsequence(query@, text@) == is_subsequence(
                query@.skip(i as int),
                text@.skip(j as int),
            ),
        decreases text.len() - j,
    {
        proof {
            assert(query@.skip(i as int).skip(1) =~= query@.skip(i + 1));
            assert(text@.skip(j as int).skip(1) =~= text@.skip(j + 1));
        }
        if letters_match(query[i], text[j]) {
            i = i + 1;
        }
        j = j + 1;
    }
    i == query.len()
}

/// Tests whether `a` comes strictly before `b` in lexicographic order.
pub fn is_lex_less(a: &Vec<char>, b: &Vec<char>) -> (r: bool)
    ensures
        r == lex_less(a@, b@),
{
    let mut i: usize = 0;
    assert(a@.skip(0) =~= a@ && b@.skip(0) =~= b@);
    while i < a.len() && i < b.len()
        invariant
            i <= a.len(),
            i <= b.len(),
            lex_less(a@, b@) == lex_less(a@.skip(i as int), b@.skip(i as int)),
        decreases a.len() - i,
    {
        proof {
            assert(a@.skip(i as int).skip(1) =~= a@.skip(i + 1));
            assert(b@.skip(i as int).skip(1) =~= b@.skip(i + 1));
        }
        if a[i] != b[i] {
            return a[i] < b[i];
        }
        i = i + 1;
    }
    i < b.len()
}

} // verus!
