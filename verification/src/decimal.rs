//! Unsigned decimal numbers written as ASCII text.
//!
//! The grammar accepted when reading is an optional plus sign followed by
//! one or more digits; leading zeros are allowed. Writing always produces
//! the shortest form: no sign and no leading zero.

use vstd::prelude::*;

verus! {

/// The ASCII digit `0`.
pub const ZERO: u8 = 0x30;

/// The ASCII digit `9`.
pub const NINE: u8 = 0x39;

/// The ASCII plus sign.
pub const PLUS: u8 = 0x2b;

/// Whether `b` is one of the ASCII digits `0` to `9`.
pub open spec fn is_digit(b: u8) -> bool {
    ZERO <= b <= NINE
}

/// Whether every byte of `text` is a digit.
pub open spec fn all_digits(text: Seq<u8>) -> bool {
    forall|i: int| 0 <= i < text.len() ==> is_digit(#[trigger] text[i])
}

/// The number that a run of digits denotes, most significant digit first.
/// The empty run denotes zero.
pub open spec fn digits_value(digits: Seq<u8>) -> nat
    decreases digits.len(),
{
    if digits.len() == 0 {
        0
    } else {
        10 * digits_value(digits.drop_last()) + (digits.last() - ZERO) as nat
    }
}

/// The digits of `text` once an optional leading plus sign is set aside.
pub open spec fn unsigned_part(text: Seq<u8>) -> Seq<u8> {
    if text.len() > 0 && text[0] == PLUS {
        text.skip(1)
    } else {
        text
    }
}

/// The number that `text` denotes, if it is a number at all.
pub open spec fn number(text: Seq<u8>) -> Option<nat> {
    let digits = unsigned_part(text);
    if digits.len() > 0 && all_digits(digits) {
        Some(digits_value(digits))
    } else {
        None
    }
}

/// The number that `text` denotes, if it is a number no greater than `max`.
pub open spec fn number_up_to(text: Seq<u8>, max: nat) -> Option<nat> {
    match number(text) {
        Some(n) if n <= max => Some(n),
        _ => None,
    }
}

/// The shortest decimal form of `n`.
pub open spec fn decimal(n: nat) -> Seq<u8>
    decreases n,
{
    if n < 10 {
        seq![(ZERO + n) as u8]
    } else {
        decimal(n / 10).push((ZERO + n % 10) as u8)
    }
}

/// A run of digits is worth at least as much as any of its prefixes.
pub proof fn lemma_prefix_value(digits: Seq<u8>, k: int)
    requires
        0 <= k <= digits.len(),
        all_digits(digits),
    ensures
        digits_value(digits.subrange(0, k)) <= digits_value(digits),
    decreases digits.len() - k,
{
    if k == digits.len() {
        assert(digits.subrange(0, k) =~= digits);
    } else {
        let shorter = digits.drop_last();
        assert(shorter.subrange(0, k) =~= digits.subrange(0, k));
        lemma_prefix_value(shorter, k);
    }
}

/// Reading the shortest form of `n` gives `n` back, and that form holds
/// nothing but digits.
pub proof fn lemma_decimal_reads_back(n: nat)
    ensures
        decimal(n).len() >= 1,
        all_digits(decimal(n)),
        digits_value(decimal(n)) == n,
        number(decimal(n)) == Some(n),
    decreases n,
{
    if n < 10 {
        let one = decimal(n);
        assert(one.drop_last() =~= Seq::<u8>::empty());
        assert(digits_value(one) == 10 * digits_value(one.drop_last()) + (one.last() - ZERO) as nat);
    } else {
        lemma_decimal_reads_back(n / 10);
        let shorter = decimal(n / 10);
        let whole = decimal(n);
        assert(whole.drop_last() =~= shorter);
        assert(all_digits(whole)) by {
            assert forall|i: int| 0 <= i < whole.len() implies is_digit(#[trigger] whole[i]) by {
                if i < shorter.len() {
                    assert(whole[i] == shorter[i]);
                }
            }
        }
    }
}

/// Reads `text` as a number that fits in 128 bits.
pub fn parse_u128(text: &[u8]) -> (r: Option<u128>)
    ensures
        match r {
            Some(v) => number_up_to(text@, u128::MAX as nat) == Some(v as nat),
            None => number_up_to(text@, u128::MAX as nat) is None,
        },
{
    let start: usize = if text.len() > 0 && text[0] == PLUS {
        1
    } else {
        0
    };
    let ghost digits = unsigned_part(text@);
    assert(digits =~= text@.subrange(start as int, text.len() as int));
    if start == text.len() {
        return None;
    }
    let mut acc: u128 = 0;
    let mut i: usize = start;
    while i < text.len()
        invariant
            start <= i <= text.len(),
            digits == unsigned_part(text@),
            digits == text@.subrange(start as int, text.len() as int),
            all_digits(digits.subrange(0, i - start)),
            acc == digits_value(digits.subrange(0, i - start)),
        decreases text.len() - i,
    {
        let b = text[i];
        if b < ZERO || b > NINE {
            assert(!is_digit(digits[i - start]));
            return None;
        }
        let d: u128 = (b - ZERO) as u128;
        let ghost longer = digits.subrange(0, i - start + 1);
        assert(longer.drop_last() =~= digits.subrange(0, i - start));
        if acc > (u128::MAX - d) / 10 {
            proof {
                if all_digits(digits) {
                    lemma_prefix_value(digits, i - start + 1);
                }
            }
            return None;
        }
        acc = acc * 10 + d;
        i += 1;
    }
    assert(digits.subrange(0, i - start) =~= digits);
    Some(acc)
}

/// Reads `text` as a number that fits in a `usize`.
pub fn parse_usize(text: &[u8]) -> (r: Option<usize>)
    ensures
        match r {
            Some(v) => number_up_to(text@, usize::MAX as nat) == Some(v as nat),
            None => number_up_to(text@, usize::MAX as nat) is None,
        },
{
    match parse_u128(text) {
        Some(v) => if v <= usize::MAX as u128 {
            Some(v as usize)
        } else {
            None
        },
        None => None,
    }
}

/// Appends the shortest decimal form of `n` to `out`.
pub fn write_decimal(n: usize, out: &mut Vec<u8>)
    ensures
        final(out)@ == old(out)@ + decimal(n as nat),
    decreases n,
{
    if n >= 10 {
        write_decimal(n / 10, out);
    }
    out.push(ZERO + (n % 10) as u8);
}

} // verus!
