//! Decimal numbers as they appear in hunk headers.

use crate::ascii::{COMMA, DIGIT_0, DIGIT_9};
use crate::bytes::{find_byte, first_byte, holds_byte, lemma_first_byte, lemma_first_byte_is};
use vstd::prelude::*;

verus! {

/// Whether `b` is one of the ASCII digits `0` to `9`.
pub open spec fn is_digit(b: u8) -> bool {
    DIGIT_0 <= b <= DIGIT_9
}

/// Whether every byte of `s` is an ASCII digit.
pub open spec fn all_digits(s: Seq<u8>) -> bool {
    forall|i: int| 0 <= i < s.len() ==> is_digit(#[trigger] s[i])
}

/// The number that the digits of `s` denote in base ten; zero for the empty
/// sequence.
pub open spec fn decimal_value(s: Seq<u8>) -> nat
    decreases s.len(),
{
    if s.len() == 0 {
        0
    } else {
        (10 * decimal_value(s.drop_last()) + (s.last() - DIGIT_0)) as nat
    }
}

/// The number that `s` is read as: its decimal value if `s` is a non-empty
/// run of digits whose value fits 32 bits, and nothing otherwise.
pub open spec fn parsed_u32(s: Seq<u8>) -> Option<u32> {
    if s.len() > 0 && all_digits(s) && decimal_value(s) <= u32::MAX {
        Some(decimal_value(s) as u32)
    } else {
        None
    }
}

/// The value of a run of digits is at least the value of each of its
/// prefixes.
pub proof fn lemma_decimal_value_prefix(s: Seq<u8>, k: int)
    requires
        all_digits(s),
        0 <= k <= s.len(),
    ensures
        decimal_value(s.take(k)) <= decimal_value(s),
    decreases s.len(),
{
    if k == s.len() {
        assert(s.take(k) =~= s);
    } else {
        assert(s.drop_last().take(k) =~= s.take(k));
        lemma_decimal_value_prefix(s.drop_last(), k);
    }
}

/// Reads a decimal number. Any byte that is not a digit, an empty input and
/// a value above `u32::MAX` all give `None`.
pub fn parse_u32(bytes: &[u8]) -> (value: Option<u32>)
    ensures
        value == parsed_u32(bytes@),
{
    if bytes.len() == 0 {
        return None;
    }
    let mut acc: u32 = 0;
    let mut i: usize = 0;
    while i < bytes.len()
        invariant
            i <= bytes.len(),
            all_digits(bytes@.take(i as int)),
            acc == decimal_value(bytes@.take(i as int)),
        decreases bytes.len() - i,
    {
        let byte = bytes[i];
        if byte < DIGIT_0 || byte > DIGIT_9 {
            assert(!is_digit(bytes@[i as int]));
            return None;
        }
        let digit: u32 = (byte - DIGIT_0) as u32;
        proof {
            let next = bytes@.take(i + 1);
            assert(next.drop_last() =~= bytes@.take(i as int));
            assert(next.last() == byte);
            assert(decimal_value(next) == 10 * acc + digit);
            assert(all_digits(next)) by {
                assert forall|j: int| 0 <= j < next.len() implies is_digit(#[trigger] next[j]) by {
                    if j < i {
                        assert(bytes@.take(i as int)[j] == next[j]);
                    }
                }
            }
            if all_digits(bytes@) {
                lemma_decimal_value_prefix(bytes@, i + 1);
            }
        }
        let scaled = match acc.checked_mul(10) {
            Some(scaled) => scaled,
            None => { return None; },
        };
        acc = match scaled.checked_add(digit) {
            Some(sum) => sum,
            None => { return None; },
        };
        i += 1;
    }
    assert(bytes@.take(i as int) =~= bytes@);
    Some(acc)
}

/// The range that a header token is read as. The token is split at its
/// commas. The part before the first comma is the start and must be a
/// number; the part after it, up to the next comma, is the length, which is
/// 1 where that part is missing or is not a number.
pub open spec fn parsed_range(token: Seq<u8>) -> Option<(u32, u32)> {
    let comma = first_byte(token, COMMA);
    match parsed_u32(token.take(comma)) {
        None => None,
        Some(start) => {
            let rest = token.skip(comma + 1);
            let len = if comma < token.len() {
                parsed_u32(rest.take(first_byte(rest, COMMA)))
            } else {
                None
            };
            Some(
                (
                    start,
                    match len {
                        Some(len) => len,
                        None => 1,
                    },
                ),
            )
        },
    }
}

/// Reads a range of the form `start` or `start,len`.
pub fn parse_range(bytes: &[u8]) -> (range: Option<(u32, u32)>)
    ensures
        range == parsed_range(bytes@),
{
    let comma = find_byte(bytes, COMMA);
    proof {
        lemma_first_byte(bytes@, COMMA);
    }
    let start = match parse_u32(&bytes[0..comma]) {
        Some(start) => start,
        None => { return None; },
    };
    if comma == bytes.len() {
        return Some((start, 1));
    }
    let rest = &bytes[comma + 1..bytes.len()];
    let next = find_byte(rest, COMMA);
    proof {
        lemma_first_byte(rest@, COMMA);
    }
    match parse_u32(&rest[0..next]) {
        Some(len) => Some((start, len)),
        None => Some((start, 1)),
    }
}

/// A range as a header writes it: the start and, if there is a length, a
/// comma and the length.
pub open spec fn range_text(start: Seq<u8>, len: Option<Seq<u8>>) -> Seq<u8> {
    match len {
        Some(len) => start + seq![COMMA] + len,
        None => start,
    }
}

/// A range written from two texts without commas is read as the numbers
/// that the two texts are read as, with 1 for a length that is missing or is
/// no number.
pub proof fn lemma_parsed_range_text(start: Seq<u8>, len: Option<Seq<u8>>)
    requires
        !holds_byte(start, COMMA),
        len matches Some(len) ==> !holds_byte(len, COMMA),
    ensures
        parsed_range(range_text(start, len)) == match parsed_u32(start) {
            None => None,
            Some(start) => Some(
                (
                    start,
                    match len {
                        Some(len) => match parsed_u32(len) {
                            Some(len) => len,
                            None => 1,
                        },
                        None => 1,
                    },
                ),
            ),
        },
{
    let token = range_text(start, len);
    lemma_first_byte_is(token, COMMA, start.len() as int);
    assert(token.take(start.len() as int) =~= start);
    if let Some(len) = len {
        let rest = token.skip(start.len() as int + 1);
        assert(rest =~= len);
        lemma_first_byte_is(rest, COMMA, len.len() as int);
        assert(rest.take(len.len() as int) =~= len);
    }
}

/// A run of digits holds no byte that is not a digit.
pub proof fn lemma_digits_hold_no(s: Seq<u8>, b: u8)
    requires
        all_digits(s),
        !is_digit(b),
    ensures
        !holds_byte(s, b),
{
}

/// The decimal digits of `n`, without leading zeros.
pub open spec fn decimal(n: nat) -> Seq<u8>
    decreases n,
{
    if n < 10 {
        seq![(DIGIT_0 + n) as u8]
    } else {
        decimal(n / 10).push((DIGIT_0 + n % 10) as u8)
    }
}

/// `decimal(n)` is a non-empty run of digits that denotes `n`.
pub proof fn lemma_decimal(n: nat)
    ensures
        decimal(n).len() > 0,
        all_digits(decimal(n)),
        decimal_value(decimal(n)) == n,
        n < 10 <==> decimal(n).len() == 1,
    decreases n,
{
    let digits = decimal(n);
    if n < 10 {
        assert(digits.drop_last() =~= Seq::<u8>::empty());
        assert(decimal_value(digits.drop_last()) == 0);
        assert(digits.last() == DIGIT_0 + n);
    } else {
        lemma_decimal(n / 10);
        assert(digits.drop_last() =~= decimal(n / 10));
        assert(digits.last() == DIGIT_0 + n % 10);
    }
}

/// Reading back the digits of a 32-bit number gives that number.
pub proof fn lemma_parse_decimal(n: u32)
    ensures
        parsed_u32(decimal(n as nat)) == Some(n),
{
    lemma_decimal(n as nat);
}

/// Appends the decimal digits of `n` to `out`.
pub fn push_decimal(out: &mut Vec<u8>, n: u32)
    ensures
        final(out)@ == old(out)@ + decimal(n as nat),
    decreases n,
{
    if n >= 10 {
        push_decimal(out, n / 10);
    }
    out.push(DIGIT_0 + (n % 10) as u8);
    assert(out@ =~= old(out)@ + decimal(n as nat));
}

} // verus!
