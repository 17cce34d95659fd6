//! Values of signals as text.

pub mod pytranslator;

use vstd::arithmetic::power2::{lemma2_to64, lemma_pow2_unfold, pow2};
use vstd::prelude::*;

verus! {

/// A value of a signal as text, with the values of its fields where the
/// signal is a compound.
#[derive(Debug)]
pub struct TranslationResult {
    pub val: String,
    pub subfields: Vec<(String, TranslationResult)>,
}

/// A value of a signal as it is read from a waveform.
#[derive(Clone, Debug, PartialEq, Eq)]
pub enum SignalValue {
    /// A number, as its digits in base 2^32, least significant first.
    BigUint(Vec<u32>),
    /// A value that is no number, as the waveform writes it.
    String(String),
}

/// The number that `digits` denote in base 2^32, least significant first.
pub open spec fn digits_value(digits: Seq<u32>) -> nat
    decreases digits.len(),
{
    if digits.len() == 0 {
        0
    } else {
        digits[0] as nat + 0x1_0000_0000 * digits_value(digits.skip(1))
    }
}

/// The character for the binary digit `bit`.
pub open spec fn bit_char(bit: nat) -> char {
    if bit == 0 {
        '0'
    } else {
        '1'
    }
}

/// The binary digits of `n`, most significant first; none for zero.
pub open spec fn bits_text(n: nat) -> Seq<char>
    decreases n,
{
    if n == 0 {
        Seq::empty()
    } else {
        bits_text(n / 2).push(bit_char(n % 2))
    }
}

/// The `width` least significant binary digits of `n`, most significant
/// first.
pub open spec fn fixed_bits(n: nat, width: nat) -> Seq<char>
    decreases width,
{
    if width == 0 {
        Seq::empty()
    } else {
        fixed_bits(n / 2, (width - 1) as nat).push(bit_char(n % 2))
    }
}

/// `n` as a binary numeral.
pub open spec fn binary_text(n: nat) -> Seq<char> {
    if n == 0 {
        seq!['0']
    } else {
        bits_text(n)
    }
}

/// `text` with zeros put before it until it is `width` characters long.
pub open spec fn zero_padded(text: Seq<char>, width: nat) -> Seq<char> {
    if text.len() >= width {
        text
    } else {
        Seq::new((width - text.len()) as nat, |i: int| '0') + text
    }
}

/// The text of `value` for a signal that is `width` bits wide: a number as
/// a binary numeral of at least `width` digits, anything else as it is.
pub open spec fn value_text(value: SignalValue, width: nat) -> Seq<char> {
    match value {
        SignalValue::BigUint(digits) => zero_padded(binary_text(digits_value(digits@)), width),
        SignalValue::String(text) => text@,
    }
}

/// The binary digits of a number are those of its upper part followed by
/// the `width` digits of its lower part.
pub proof fn lemma_bits_text_shift(high: nat, low: nat, width: nat)
    requires
        high > 0,
        low < pow2(width),
    ensures
        bits_text(high * pow2(width) + low) == bits_text(high) + fixed_bits(low, width),
    decreases width,
{
    if width == 0 {
        lemma2_to64();
        assert(high * pow2(0) + low == high) by (nonlinear_arith)
            requires
                pow2(0) == 1,
                low == 0,
        ;
        assert(bits_text(high) + fixed_bits(low, 0) =~= bits_text(high));
    } else {
        let half = pow2((width - 1) as nat);
        lemma_pow2_unfold(width);
        let upper = high * half;
        assert(high * pow2(width) == 2 * upper) by (nonlinear_arith)
            requires
                pow2(width) == 2 * half,
                upper == high * half,
        ;
        assert(upper > 0) by (nonlinear_arith)
            requires
                upper == high * half,
                high > 0,
                half > 0,
        ;
        let n = high * pow2(width) + low;
        assert(n / 2 == upper + low / 2);
        assert(n % 2 == low % 2);
        lemma_bits_text_shift(high, low / 2, (width - 1) as nat);
        assert(bits_text(n) =~= bits_text(high) + fixed_bits(low, width));
    }
}

/// The one-character string for a binary digit.
fn bit_str(bit: u32) -> (s: &'static str)
    requires
        bit < 2,
    ensures
        s@ == seq![bit_char(bit as nat)],
{
    proof {
        reveal_strlit("0");
        reveal_strlit("1");
    }
    let s: &'static str = if bit == 0 {
        "0"
    } else {
        "1"
    };
    assert(s@ =~= seq![bit_char(bit as nat)]);
    s
}

/// Appends the binary digits of `n` to `text`.
fn push_bits(text: &mut String, n: u32)
    ensures
        final(text)@ == old(text)@ + bits_text(n as nat),
    decreases n,
{
    if n > 0 {
        push_bits(text, n / 2);
        text.append(bit_str(n % 2));
    }
    assert(text@ =~= old(text)@ + bits_text(n as nat));
}

/// Appends the `width` least significant binary digits of `n` to `text`.
fn push_fixed_bits(text: &mut String, n: u32, width: usize)
    ensures
        final(text)@ == old(text)@ + fixed_bits(n as nat, width as nat),
    decreases width,
{
    if width > 0 {
        push_fixed_bits(text, n / 2, width - 1);
        text.append(bit_str(n % 2));
    }
    assert(text@ =~= old(text)@ + fixed_bits(n as nat, width as nat));
}

/// The binary numeral of the number that `digits` denote.
pub fn binary_string(digits: &Vec<u32>) -> (text: String)
    ensures
        text@ == binary_text(digits_value(digits@)),
{
    let mut text: String = String::new();
    let mut started: bool = false;
    let mut i: usize = digits.len();
    assert(digits@.skip(i as int) =~= Seq::<u32>::empty());
    while i > 0
        invariant
            i <= digits.len(),
            text@ == bits_text(digits_value(digits@.skip(i as int))),
            started == (digits_value(digits@.skip(i as int)) > 0),
        decreases i,
    {
        i = i - 1;
        let digit: u32 = digits[i];
        proof {
            let high = digits_value(digits@.skip(i + 1));
            assert(digits@.skip(i as int).skip(1) =~= digits@.skip(i + 1));
            assert(digits@.skip(i as int)[0] == digit);
            lemma2_to64();
            assert(digits_value(digits@.skip(i as int)) == high * pow2(32) + digit) by (nonlinear_arith)
                requires
                    digits_value(digits@.skip(i as int)) == digit + 0x1_0000_0000 * high,
                    pow2(32) == 0x1_0000_0000,
            ;
            if high > 0 {
                lemma_bits_text_shift(high, digit as nat, 32);
                assert(high * pow2(32) + digit > 0) by (nonlinear_arith)
                    requires
                        high > 0,
                        pow2(32) == 0x1_0000_0000,
                ;
            } else {
                assert(high * pow2(32) + digit == digit) by (nonlinear_arith)
                    requires
                        high == 0,
                ;
            }
        }
        if started {
            push_fixed_bits(&mut text, digit, 32);
        } else {
            push_bits(&mut text, digit);
            assert(text@ =~= bits_text(digit as nat));
            started = digit > 0;
        }
    }
    assert(digits@.skip(0) =~= digits@);
    if !started {
        proof {
            reveal_strlit("0");
        }
        text.append("0");
        assert(text@ =~= seq!['0']);
    }
    text
}

/// `text` with zeros put before it until it is `width` characters long.
pub fn pad_with_zeros(text: String, width: usize) -> (padded: String)
    ensures
        padded@ == zero_padded(text@, width as nat),
{
    let len: usize = text.as_str().unicode_len();
    if len >= width {
        return text;
    }
    let missing: usize = width - len;
    let mut padded: String = String::new();
    let mut i: usize = 0;
    while i < missing
        invariant
            i <= missing,
            padded@ == Seq::new(i as nat, |k: int| '0'),
        decreases missing - i,
    {
        proof {
            reveal_strlit("0");
        }
        padded.append("0");
        i = i + 1;
        assert(padded@ =~= Seq::new(i as nat, |k: int| '0'));
    }
    padded.append(text.as_str());
    padded
}

/// The text of `value` for a signal that is `num_bits` bits wide, or of
/// unknown width.
pub fn value_string(value: &SignalValue, num_bits: Option<u32>) -> (text: String)
    ensures
        text@ == value_text(
            *value,
            match num_bits {
                Some(width) => width as nat,
                None => 0,
            },
        ),
{
    match value {
        SignalValue::BigUint(digits) => {
            let width: usize = match num_bits {
                Some(width) => width as usize,
                None => 0,
            };
            pad_with_zeros(binary_string(digits), width)
        },
        SignalValue::String(text) => text.clone(),
    }
}

} // verus!
