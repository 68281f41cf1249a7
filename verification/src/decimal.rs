//! Decimal numerals, as the fields of the csv tables hold them.
//!
//! A numeral is written without sign and without leading zeros. One is
//! read with an optional `+` in front and any number of leading zeros;
//! nothing else may stand in the field, not even a space.

use vstd::prelude::*;
use vstd::string::*;

verus! {

/// The character of the digit `d`.
pub open spec fn digit_char(d: int) -> char {
    (d + 48) as char
}

/// `c` is one of `0` to `9`.
pub open spec fn is_digit(c: char) -> bool {
    48 <= c as int <= 57
}

/// The decimal numeral of `n`, without leading zeros.
pub open spec fn decimal_digits(n: nat) -> Seq<char>
    decreases n,
{
    if n < 10 {
        seq![digit_char(n as int)]
    } else {
        decimal_digits(n / 10).push(digit_char((n % 10) as int))
    }
}

/// Every character of `s` is a digit.
pub open spec fn all_digits(s: Seq<char>) -> bool {
    forall|i: int| 0 <= i < s.len() ==> is_digit(#[trigger] s[i])
}

/// The number that a run of digits stands for; zero for the empty run.
pub open spec fn digits_value(s: Seq<char>) -> nat
    decreases s.len(),
{
    if s.len() == 0 {
        0
    } else {
        (digits_value(s.drop_last()) * 10 + (s.last() as int - 48)) as nat
    }
}

/// A field without the `+` that may stand in front of it.
pub open spec fn unsigned_part(s: Seq<char>) -> Seq<char> {
    if s.len() > 0 && s[0] == '+' {
        s.skip(1)
    } else {
        s
    }
}

/// The number that a field stands for, or `None` where the field is no
/// numeral: where it is not one or more digits with at most a `+` in
/// front.
pub open spec fn decimal_value(s: Seq<char>) -> Option<nat> {
    let digits = unsigned_part(s);
    if digits.len() > 0 && all_digits(digits) {
        Some(digits_value(digits))
    } else {
        None
    }
}

/// What reading a numeral gave.
#[derive(Debug, Clone, Copy, PartialEq, Eq, Structural)]
pub enum Numeral {
    /// The field is no numeral.
    Malformed,
    /// The field is a numeral over the limit.
    TooLarge,
    /// The number that the field stands for.
    Value(u32),
}

/// What reading `s` gives under `limit`.
pub open spec fn numeral_of(s: Seq<char>, limit: u32) -> Numeral {
    match decimal_value(s) {
        None => Numeral::Malformed,
        Some(n) => if n <= limit {
            Numeral::Value(n as u32)
        } else {
            Numeral::TooLarge
        },
    }
}

/// The numeral of a number is a run of digits that stands for it.
pub proof fn lemma_decimal_digits_value(n: nat)
    ensures
        decimal_digits(n).len() > 0,
        all_digits(decimal_digits(n)),
        decimal_digits(n)[0] != '+',
        digits_value(decimal_digits(n)) == n,
    decreases n,
{
    if n < 10 {
        let s = decimal_digits(n);
        assert(s.drop_last() =~= Seq::<char>::empty());
        assert(digits_value(s.drop_last()) == 0);
    } else {
        lemma_decimal_digits_value(n / 10);
        let front = decimal_digits(n / 10);
        let s = decimal_digits(n);
        assert(s.drop_last() =~= front);
        assert(s[0] == front[0]);
    }
}

/// Reading the numeral of a number gives the number back.
pub proof fn lemma_decimal_round_trip(n: nat)
    ensures
        decimal_value(decimal_digits(n)) == Some(n),
{
    lemma_decimal_digits_value(n);
}

/// A run of digits stands for no less than a digit less of it does.
proof fn lemma_digits_value_grows(s: Seq<char>)
    requires
        s.len() > 0,
        all_digits(s),
    ensures
        digits_value(s) == digits_value(s.drop_last()) * 10 + (s.last() as int - 48),
        digits_value(s) >= digits_value(s.drop_last()),
{
    assert(is_digit(s[s.len() - 1]));
}

/// Append the decimal numeral of `n` to `text`.
fn push_decimal(text: &mut String, n: u64)
    ensures
        final(text)@ == old(text)@ + decimal_digits(n as nat),
    decreases n,
{
    if n >= 10 {
        push_decimal(text, n / 10);
    }
    let digit: u8 = (n % 10) as u8;
    text.push((digit + 48) as char);
    assert(text@ =~= old(text)@ + decimal_digits(n as nat));
}

/// The decimal numeral of `n`, without sign and without leading zeros.
pub fn decimal_string(n: u64) -> (text: String)
    ensures
        text@ == decimal_digits(n as nat),
{
    let mut text = String::new();
    push_decimal(&mut text, n);
    assert(text@ =~= decimal_digits(n as nat));
    text
}

/// The decimal numeral of `n`, with zeros in front of it where it has
/// fewer than `width` digits.
pub open spec fn padded_digits(n: nat, width: nat) -> Seq<char> {
    let digits = decimal_digits(n);
    if digits.len() < width {
        Seq::new((width - digits.len()) as nat, |i: int| '0') + digits
    } else {
        digits
    }
}

/// The decimal numeral of `n`, filled up with zeros in front to `width`
/// digits.
pub fn padded_decimal_string(n: u64, width: usize) -> (text: String)
    ensures
        text@ == padded_digits(n as nat, width as nat),
{
    let digits = decimal_string(n);
    let len = digits.as_str().unicode_len();
    let mut text = String::new();
    let mut filled: usize = len;
    while filled < width
        invariant
            len <= filled,
            filled <= width || filled == len,
            text@ == Seq::new((filled - len) as nat, |i: int| '0'),
        decreases width - filled,
    {
        text.push('0');
        filled += 1;
        assert(text@ =~= Seq::new((filled - len) as nat, |i: int| '0'));
    }
    text.append(digits.as_str());
    assert(text@ =~= padded_digits(n as nat, width as nat));
    text
}

/// Read a decimal numeral: one or more digits, with at most a `+` in
/// front. A numeral over `limit` is reported as too large, however
/// long it is.
pub fn parse_decimal(text: &str, limit: u32) -> (numeral: Numeral)
    ensures
        numeral == numeral_of(text@, limit),
{
    if !text.is_ascii() {
        proof {
            lemma_not_ascii_not_numeral(text@);
        }
        return Numeral::Malformed;
    }
    broadcast use is_ascii_spec_bytes;

    let bytes = text.as_bytes();
    let start: usize = if bytes.len() > 0 && bytes[0] == 43 {
        1
    } else {
        0
    };
    assert(text@.skip(start as int) =~= unsigned_part(text@));
    let ghost digits = unsigned_part(text@);
    if start == bytes.len() {
        return Numeral::Malformed;
    }
    let mut value: u64 = 0;
    let mut too_large = false;
    let mut i: usize = start;
    while i < bytes.len()
        invariant
            start <= i <= bytes.len(),
            bytes.len() == text@.len(),
            digits == text@.skip(start as int),
            digits == unsigned_part(text@),
            forall|j: int| 0 <= j < bytes.len() ==> #[trigger] bytes[j] == text@[j] as u8,
            forall|j: int| 0 <= j < text@.len() ==> 0 <= (#[trigger] text@[j]) as int <= 127,
            all_digits(digits.take(i - start)),
            value <= limit,
            !too_large ==> value == digits_value(digits.take(i - start)),
            too_large ==> digits_value(digits.take(i - start)) > limit,
        decreases bytes.len() - i,
    {
        let byte = bytes[i];
        if byte < 48 || byte > 57 {
            assert(!is_digit(digits[i - start]));
            return Numeral::Malformed;
        }
        proof {
            let before = digits.take(i - start);
            let after = digits.take(i - start + 1);
            assert(after.drop_last() =~= before);
            assert(after.last() == text@[i as int]);
            assert(all_digits(after)) by {
                assert forall|j: int| 0 <= j < after.len() implies is_digit(
                    #[trigger] after[j],
                ) by {
                    if j < before.len() {
                        assert(after[j] == before[j]);
                    }
                }
            }
            lemma_digits_value_grows(after);
        }
        if !too_large {
            let next: u64 = value * 10 + (byte - 48) as u64;
            if next > limit as u64 {
                too_large = true;
            } else {
                value = next;
            }
        }
        i += 1;
    }
    assert(digits.take(i - start) =~= digits);
    if too_large {
        Numeral::TooLarge
    } else {
        Numeral::Value(value as u32)
    }
}

/// A field with a character outside ASCII is no numeral.
proof fn lemma_not_ascii_not_numeral(s: Seq<char>)
    requires
        !vstd::utf8::is_ascii_chars(s),
    ensures
        decimal_value(s) is None,
{
    let i = choose|i: int| 0 <= i < s.len() && !('\0' <= #[trigger] s[i] <= '\u{7f}');
    let digits = unsigned_part(s);
    if digits.len() == s.len() {
        assert(!is_digit(digits[i]));
    } else {
        assert(i > 0);
        assert(!is_digit(digits[i - 1]));
    }
}

} // verus!
