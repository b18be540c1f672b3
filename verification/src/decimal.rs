//! Integers as decimal text.
//!
//! A text spells an integer where it is an optional sign and then one digit
//! or more, and nothing else: no blank, no separator. A natural number may
//! carry a plus sign and no minus sign.

use vstd::prelude::*;

verus! {

/// The byte of the plus sign.
pub const PLUS: u8 = 43;

/// The byte of the minus sign.
pub const MINUS: u8 = 45;

/// Whether a byte is a decimal digit.
pub open spec fn is_digit(byte: u8) -> bool {
    48 <= byte <= 57
}

/// Whether a text holds digits only.
pub open spec fn all_digits(text: Seq<u8>) -> bool {
    forall|i: int| 0 <= i < text.len() ==> is_digit(#[trigger] text[i])
}

/// The number that a text of digits spells; the empty text spells zero.
pub open spec fn digits_value(digits: Seq<u8>) -> nat
    decreases digits.len(),
{
    if digits.len() == 0 {
        0
    } else {
        digits_value(digits.drop_last()) * 10 + (digits.last() - 48) as nat
    }
}

/// The natural number that a text spells, if it spells one: an optional
/// plus sign and then one digit or more.
pub open spec fn natural_of(text: Seq<u8>) -> Option<nat> {
    let digits = if text.len() > 0 && text[0] == PLUS {
        text.subrange(1, text.len() as int)
    } else {
        text
    };
    if digits.len() > 0 && all_digits(digits) {
        Some(digits_value(digits))
    } else {
        None
    }
}

/// The integer that a text spells, if it spells one: an optional sign and
/// then one digit or more.
pub open spec fn integer_of(text: Seq<u8>) -> Option<int> {
    if text.len() > 0 && text[0] == MINUS {
        let digits = text.subrange(1, text.len() as int);
        if digits.len() > 0 && all_digits(digits) {
            Some(-(digits_value(digits) as int))
        } else {
            None
        }
    } else {
        match natural_of(text) {
            Some(n) => Some(n as int),
            None => None,
        }
    }
}

/// The integer that a text spells, where it spells one that a signed 64-bit
/// integer holds.
pub open spec fn parsed_i64(text: Seq<u8>) -> Option<i64> {
    match integer_of(text) {
        Some(v) => if i64::MIN <= v <= i64::MAX {
            Some(v as i64)
        } else {
            None
        },
        None => None,
    }
}

/// The natural number that a text spells, where it spells one that a `usize` holds.
pub open spec fn parsed_usize(text: Seq<u8>) -> Option<usize> {
    match natural_of(text) {
        Some(n) => if n <= usize::MAX {
            Some(n as usize)
        } else {
            None
        },
        None => None,
    }
}

/// The digits of a natural number, without leading zeros; zero is one digit.
pub open spec fn decimal_digits(n: nat) -> Seq<u8>
    decreases n,
{
    if n < 10 {
        seq![(48 + n) as u8]
    } else {
        decimal_digits(n / 10).push((48 + n % 10) as u8)
    }
}

/// The text of an integer: a minus sign where it is negative, and its digits.
pub open spec fn decimal_text(v: int) -> Seq<u8> {
    if v < 0 {
        seq![MINUS] + decimal_digits((-v) as nat)
    } else {
        decimal_digits(v as nat)
    }
}

/// The digits of a natural number are digits, one at least, and spell that number.
pub proof fn lemma_digits_read_back(n: nat)
    ensures
        decimal_digits(n).len() > 0,
        all_digits(decimal_digits(n)),
        digits_value(decimal_digits(n)) == n,
    decreases n,
{
    let digits = decimal_digits(n);
    if n < 10 {
        assert(digits.drop_last() =~= Seq::<u8>::empty());
        assert(digits_value(digits.drop_last()) == 0);
        assert(digits.last() == (48 + n) as u8);
    } else {
        lemma_digits_read_back(n / 10);
        assert(digits.drop_last() =~= decimal_digits(n / 10));
        assert(digits.last() == (48 + n % 10) as u8);
        assert forall|i: int| 0 <= i < digits.len() implies is_digit(#[trigger] digits[i]) by {
            if i < digits.len() - 1 {
                assert(digits[i] == decimal_digits(n / 10)[i]);
            }
        }
    }
}

/// The text of a signed 64-bit integer reads back as that integer.
pub proof fn lemma_text_reads_back(v: i64)
    ensures
        parsed_i64(decimal_text(v as int)) == Some(v),
{
    let text = decimal_text(v as int);
    if v < 0 {
        let digits = decimal_digits((-v) as nat);
        lemma_digits_read_back((-v) as nat);
        assert(text.subrange(1, text.len() as int) =~= digits);
        assert(text[0] == MINUS);
    } else {
        lemma_digits_read_back(v as nat);
        assert(is_digit(text[0]));
    }
}

/// A text of digits spells at least what any of its beginnings spells.
proof fn lemma_value_grows(digits: Seq<u8>, k: int)
    requires
        all_digits(digits),
        0 <= k <= digits.len(),
    ensures
        digits_value(digits.subrange(0, k)) <= digits_value(digits),
    decreases digits.len() - k,
{
    if k == digits.len() {
        assert(digits.subrange(0, k) =~= digits);
    } else {
        lemma_value_grows(digits, k + 1);
        let longer = digits.subrange(0, k + 1);
        assert(longer.drop_last() =~= digits.subrange(0, k));
        assert(is_digit(digits[k]));
        assert(longer.last() == digits[k]);
    }
}

/// The number that the digits of `text` from `start` on spell, if there is a
/// digit, there are digits only, and the number is at most `limit`.
fn digits_from(text: &[u8], start: usize, limit: u64) -> (r: Option<u64>)
    requires
        start <= text.len(),
    ensures
        r == ({
            let digits = text@.subrange(start as int, text@.len() as int);
            if digits.len() > 0 && all_digits(digits) && digits_value(digits) <= limit {
                Some(digits_value(digits) as u64)
            } else {
                None
            }
        }),
{
    let ghost digits = text@.subrange(start as int, text@.len() as int);
    if start == text.len() {
        return None;
    }
    let mut value: u64 = 0;
    let mut i: usize = start;
    assert(digits.subrange(0, 0) =~= Seq::<u8>::empty());
    while i < text.len()
        invariant
            start <= i <= text.len(),
            digits == text@.subrange(start as int, text@.len() as int),
            all_digits(digits.subrange(0, i - start)),
            value == digits_value(digits.subrange(0, i - start)),
            value <= limit,
        decreases text.len() - i,
    {
        let byte = text[i];
        let ghost before = digits.subrange(0, i - start);
        let ghost after = digits.subrange(0, i - start + 1);
        proof {
            assert(after.drop_last() =~= before);
            assert(after.last() == byte);
        }
        if byte < 48 || byte > 57 {
            assert(!is_digit(digits[i - start]));
            return None;
        }
        let digit = (byte - 48) as u64;
        if limit < digit || value > (limit - digit) / 10 {
            proof {
                assert(digits_value(after) > limit) by (nonlinear_arith)
                    requires
                        digits_value(after) == value * 10 + digit,
                        limit < digit || value > (limit - digit) / 10,
                        value >= 0,
                        digit >= 0,
                ;
                if all_digits(digits) {
                    lemma_value_grows(digits, i - start + 1);
                }
            }
            return None;
        }
        assert(value * 10 + digit <= limit) by (nonlinear_arith)
            requires
                value <= (limit - digit) / 10,
                digit <= limit,
        ;
        value = value * 10 + digit;
        i += 1;
        assert(all_digits(after)) by {
            assert forall|j: int| 0 <= j < after.len() implies is_digit(#[trigger] after[j]) by {
                if j < before.len() {
                    assert(before[j] == after[j]);
                }
            }
        }
    }
    assert(digits.subrange(0, i - start) =~= digits);
    Some(value)
}

/// Reads a text as a signed 64-bit integer.
pub fn parse_i64(text: &[u8]) -> (r: Option<i64>)
    ensures
        r == parsed_i64(text@),
{
    if text.len() > 0 && text[0] == MINUS {
        match digits_from(text, 1, 0x8000_0000_0000_0000) {
            Some(magnitude) => {
                if magnitude == 0x8000_0000_0000_0000 {
                    Some(i64::MIN)
                } else {
                    Some(-(magnitude as i64))
                }
            },
            None => None,
        }
    } else {
        let start: usize = if text.len() > 0 && text[0] == PLUS {
            1
        } else {
            0
        };
        assert(text@.subrange(0, text@.len() as int) =~= text@);
        match digits_from(text, start, 0x7fff_ffff_ffff_ffff) {
            Some(magnitude) => Some(magnitude as i64),
            None => None,
        }
    }
}

/// Reads a text as a natural number that a `usize` holds.
pub fn parse_usize(text: &[u8]) -> (r: Option<usize>)
    ensures
        r == parsed_usize(text@),
{
    let start: usize = if text.len() > 0 && text[0] == PLUS {
        1
    } else {
        0
    };
    assert(text@.subrange(0, text@.len() as int) =~= text@);
    match digits_from(text, start, usize::MAX as u64) {
        Some(value) => Some(value as usize),
        None => None,
    }
}

/// Writes a signed 64-bit integer as text.
pub fn format_i64(v: i64) -> (r: Vec<u8>)
    ensures
        r@ == decimal_text(v as int),
{
    let magnitude: u64 = if v < 0 {
        ((-(v + 1)) as u64) + 1
    } else {
        v as u64
    };
    let mut backwards: Vec<u8> = Vec::new();
    let mut n = magnitude;
    while n >= 10
        invariant
            decimal_digits(magnitude as nat) == decimal_digits(n as nat) + backwards@.reverse(),
        decreases n,
    {
        let digit = 48 + (n % 10) as u8;
        let ghost before = backwards@;
        backwards.push(digit);
        assert(decimal_digits(n as nat) + before.reverse() =~= decimal_digits((n / 10) as nat)
            + backwards@.reverse());
        n = n / 10;
    }
    let ghost before = backwards@;
    backwards.push(48 + n as u8);
    assert(decimal_digits(magnitude as nat) =~= backwards@.reverse());
    let mut r: Vec<u8> = Vec::new();
    if v < 0 {
        r.push(MINUS);
    }
    let ghost sign = r@;
    let ghost digits = backwards@.reverse();
    while backwards.len() > 0
        invariant
            backwards@.len() <= digits.len(),
            r@ == sign + digits.subrange(0, digits.len() - backwards@.len()),
            forall|k: int| 0 <= k < backwards@.len() ==> backwards@[k] == digits[digits.len() - 1 - k],
        decreases backwards@.len(),
    {
        let ghost written = r@;
        let digit = backwards.pop().unwrap();
        r.push(digit);
        assert(r@ =~= sign + digits.subrange(0, digits.len() - backwards@.len()));
    }
    assert(r@ =~= sign + digits);
    r
}

} // verus!
