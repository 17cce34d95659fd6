//! Alphabetic index labels.
//!
//! A position in a list is written in base sixteen with the letters `a` to
//! `p` standing for the digits zero to fifteen, most significant digit first.
//! Every label for a list of `n` positions has the same width: the number of
//! digits of the largest position, `n - 1`.

use crate::text::chars_of;
use vstd::prelude::*;

verus! {

/// Whether `c` is one of the sixteen label letters.
pub open spec fn is_label_letter(c: char) -> bool {
    'a' <= c <= 'p'
}

/// The letter that stands for digit `d`.
pub open spec fn letter_of(d: nat) -> char
    recommends
        d < 16,
{
    ('a' as nat + d) as char
}

/// The digit that letter `c` stands for.
pub open spec fn digit_of(c: char) -> nat
    recommends
        is_label_letter(c),
{
    (c as nat - 'a' as nat) as nat
}

/// The number of base-sixteen digits of `m`; zero has one digit.
pub open spec fn digit_count(m: nat) -> nat
    decreases m,
{
    if m < 16 {
        1
    } else {
        1 + digit_count(m / 16)
    }
}

/// The width of every label of a list with `total` positions.
pub open spec fn label_width(total: nat) -> nat {
    if total == 0 {
        1
    } else {
        digit_count((total - 1) as nat)
    }
}

/// The number of distinct labels of width `width`.
pub open spec fn label_capacity(width: nat) -> nat
    decreases width,
{
    if width == 0 {
        1
    } else {
        16 * label_capacity((width - 1) as nat)
    }
}

/// The `width` least significant base-sixteen digits of `position` as
/// letters, most significant first.
pub open spec fn fixed_width_label(position: nat, width: nat) -> Seq<char>
    decreases width,
{
    if width == 0 {
        Seq::empty()
    } else {
        fixed_width_label(position / 16, (width - 1) as nat).push(letter_of(position % 16))
    }
}

/// The label of `position` in a list with `total` positions.
pub open spec fn label_of(position: nat, total: nat) -> Seq<char> {
    fixed_width_label(position, label_width(total))
}

/// Whether every character of `label` is a label letter.
pub open spec fn all_label_letters(label: Seq<char>) -> bool {
    forall|i: int| 0 <= i < label.len() ==> is_label_letter(#[trigger] label[i])
}

/// The number that `label` denotes when read as base-sixteen digits.
pub open spec fn label_value(label: Seq<char>) -> nat
    decreases label.len(),
{
    if label.len() == 0 {
        0
    } else {
        label_value(label.drop_last()) * 16 + digit_of(label.last())
    }
}

/// The position that `label` denotes, if it denotes one: the label is not
/// empty, holds label letters only, and its value fits a `usize`.
pub open spec fn position_of(label: Seq<char>) -> Option<usize> {
    if label.len() > 0 && all_label_letters(label) && label_value(label) <= usize::MAX {
        Some(label_value(label) as usize)
    } else {
        None
    }
}

/// A number with at most `width` digits is below the capacity of `width`.
pub proof fn lemma_digit_count_capacity(m: nat)
    ensures
        m < label_capacity(digit_count(m)),
        digit_count(m) > 1 ==> label_capacity((digit_count(m) - 1) as nat) <= m,
    decreases m,
{
    if m < 16 {
        assert(label_capacity(1) == 16) by {
            reveal_with_fuel(label_capacity, 2);
        }
    } else {
        lemma_digit_count_capacity(m / 16);
        if digit_count(m / 16) == 1 {
            assert(label_capacity(1) == 16) by {
                reveal_with_fuel(label_capacity, 2);
            }
        }
    }
}

/// A larger number has at least as many digits.
pub proof fn lemma_digit_count_monotonic(a: nat, b: nat)
    requires
        a <= b,
    ensures
        digit_count(a) <= digit_count(b),
    decreases b,
{
    if b >= 16 && a >= 16 {
        lemma_digit_count_monotonic(a / 16, b / 16);
    }
}

/// Label width never shrinks as the list grows.
pub proof fn lemma_label_width_monotonic(n: nat, m: nat)
    requires
        n <= m,
    ensures
        label_width(n) <= label_width(m),
{
    if n > 0 {
        lemma_digit_count_monotonic((n - 1) as nat, (m - 1) as nat);
    }
}

/// Label width is the least width, at least one, whose labels suffice for
/// `total` positions.
pub proof fn lemma_label_width_minimal(total: nat)
    requires
        total >= 1,
    ensures
        label_width(total) >= 1,
        label_capacity(label_width(total)) >= total,
        label_width(total) > 1 ==> label_capacity((label_width(total) - 1) as nat) < total,
{
    lemma_digit_count_capacity((total - 1) as nat);
}

/// A fixed-width label has the width asked for and holds label letters only.
pub proof fn lemma_fixed_width_label_shape(position: nat, width: nat)
    ensures
        fixed_width_label(position, width).len() == width,
        all_label_letters(fixed_width_label(position, width)),
    decreases width,
{
    if width > 0 {
        lemma_fixed_width_label_shape(position / 16, (width - 1) as nat);
    }
}

/// Reading back a fixed-width label gives the position, provided the width
/// holds all of its digits.
pub proof fn lemma_fixed_width_label_value(position: nat, width: nat)
    requires
        position == 0 || digit_count(position) <= width,
    ensures
        label_value(fixed_width_label(position, width)) == position,
    decreases width,
{
    if width > 0 {
        let rest = fixed_width_label(position / 16, (width - 1) as nat);
        let label = fixed_width_label(position, width);
        lemma_fixed_width_label_value(position / 16, (width - 1) as nat);
        assert(label.drop_last() =~= rest);
        assert(label.last() == letter_of(position % 16));
        assert(digit_of(letter_of(position % 16)) == position % 16);
    }
}

/// Decoding the label of a position gives the position back.
pub proof fn lemma_label_round_trip(position: usize, total: usize)
    requires
        position < total,
    ensures
        position_of(label_of(position as nat, total as nat)) == Some(position),
{
    let width = label_width(total as nat);
    lemma_digit_count_monotonic(position as nat, (total - 1) as nat);
    lemma_fixed_width_label_shape(position as nat, width);
    lemma_fixed_width_label_value(position as nat, width);
}

/// Different positions of one list have different labels.
pub proof fn lemma_labels_distinct(first: usize, second: usize, total: usize)
    requires
        first < total,
        second < total,
        first != second,
    ensures
        label_of(first as nat, total as nat) != label_of(second as nat, total as nat),
{
    lemma_label_round_trip(first, total);
    lemma_label_round_trip(second, total);
}

/// Every label of a list has the width of the list, and holds label
/// letters only.
pub proof fn lemma_label_shape(position: nat, total: nat)
    ensures
        label_of(position, total).len() == label_width(total),
        all_label_letters(label_of(position, total)),
{
    lemma_fixed_width_label_shape(position, label_width(total));
}

/// A label denotes at least what any of its prefixes denotes.
pub proof fn lemma_label_value_prefix(label: Seq<char>, k: int)
    requires
        0 <= k <= label.len(),
    ensures
        label_value(label.take(k)) <= label_value(label),
    decreases label.len() - k,
{
    if k < label.len() {
        lemma_label_value_prefix(label, k + 1);
        assert(label.take(k + 1).drop_last() =~= label.take(k));
    } else {
        assert(label.take(k) =~= label);
    }
}

/// The one-letter string for digit `d`.
fn letter_str(d: usize) -> (s: &'static str)
    requires
        d < 16,
    ensures
        s@ == seq![letter_of(d as nat)],
{
    proof {
        reveal_strlit("a");
        reveal_strlit("b");
        reveal_strlit("c");
        reveal_strlit("d");
        reveal_strlit("e");
        reveal_strlit("f");
        reveal_strlit("g");
        reveal_strlit("h");
        reveal_strlit("i");
        reveal_strlit("j");
        reveal_strlit("k");
        reveal_strlit("l");
        reveal_strlit("m");
        reveal_strlit("n");
        reveal_strlit("o");
        reveal_strlit("p");
    }
    let s: &'static str = match d {
        0 => "a",
        1 => "b",
        2 => "c",
        3 => "d",
        4 => "e",
        5 => "f",
        6 => "g",
        7 => "h",
        8 => "i",
        9 => "j",
        10 => "k",
        11 => "l",
        12 => "m",
        13 => "n",
        14 => "o",
        _ => "p",
    };
    assert(s@ =~= seq![letter_of(d as nat)]);
    s
}

/// The number of base-sixteen digits of `m`.
fn count_digits(m: usize) -> (width: usize)
    ensures
        width == digit_count(m as nat),
{
    let mut width: usize = 1;
    let mut rest: usize = m;
    while rest >= 16
        invariant
            width + digit_count(rest as nat) == 1 + digit_count(m as nat),
            width - 1 + rest <= m,
            width >= 1,
        decreases rest,
    {
        rest = rest / 16;
        width = width + 1;
    }
    width
}

/// Appends the `width` least significant digits of `position` to `label`.
fn push_fixed_width(label: &mut String, position: usize, width: usize)
    ensures
        final(label)@ == old(label)@ + fixed_width_label(position as nat, width as nat),
    decreases width,
{
    if width > 0 {
        push_fixed_width(label, position / 16, width - 1);
        label.append(letter_str(position % 16));
        assert(label@ =~= old(label)@ + fixed_width_label(position as nat, width as nat));
    } else {
        assert(label@ =~= old(label)@ + fixed_width_label(position as nat, width as nat));
    }
}

/// The label of position `idx` in a list of `nidx` positions.
///
/// All labels of one list have the same width, the least that tells `nidx`
/// positions apart, so a label is only meaningful together with the length of
/// the list it was made for.
pub fn uint_idx_to_alpha_idx(idx: usize, nidx: usize) -> (label: String)
    requires
        idx < nidx,
    ensures
        label@ == label_of(idx as nat, nidx as nat),
        position_of(label@) == Some(idx),
{
    let width: usize = count_digits(nidx - 1);
    let mut label: String = String::new();
    push_fixed_width(&mut label, idx, width);
    proof {
        assert(label@ =~= label_of(idx as nat, nidx as nat));
        lemma_label_round_trip(idx, nidx);
    }
    label
}

/// The position that `idx` denotes, or `None` where `idx` is empty, holds a
/// character that is no label letter, or denotes a number beyond `usize`.
pub fn alpha_idx_to_uint_idx(idx: String) -> (position: Option<usize>)
    ensures
        position == position_of(idx@),
{
    let letters: Vec<char> = chars_of(idx.as_str());
    decode_letters(&letters)
}

/// The position that the characters of a label denote.
pub fn decode_letters(letters: &Vec<char>) -> (position: Option<usize>)
    ensures
        position == position_of(letters@),
{
    let n: usize = letters.len();
    if n == 0 {
        return None;
    }
    let mut value: usize = 0;
    let mut i: usize = 0;
    while i < n
        invariant
            n == letters.len(),
            i <= n,
            all_label_letters(letters@.take(i as int)),
            value == label_value(letters@.take(i as int)),
        decreases n - i,
    {
        let c: char = letters[i];
        if !('a' <= c && c <= 'p') {
            assert(!is_label_letter(letters@[i as int]));
            return None;
        }
        let d: usize = (c as u8 - 'a' as u8) as usize;
        proof {
            let next = letters@.take(i + 1);
            assert(next.drop_last() =~= letters@.take(i as int));
            assert(next.last() == c);
            assert(d == digit_of(c));
            assert(label_value(next) == value * 16 + d);
            assert(all_label_letters(next)) by {
                assert forall|k: int| 0 <= k < next.len() implies is_label_letter(
                    #[trigger] next[k],
                ) by {
                    if k < i {
                        assert(next[k] == letters@.take(i as int)[k]);
                    }
                }
            }
        }
        if value > (usize::MAX - d) / 16 {
            proof {
                lemma_label_value_prefix(letters@, i + 1);
            }
            return None;
        }
        value = value * 16 + d;
        i = i + 1;
    }
    assert(letters@.take(n as int) =~= letters@);
    Some(value)
}

} // verus!
