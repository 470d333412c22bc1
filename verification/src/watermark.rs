//! The watermark: the highest accept time that has been fully processed, and
//! the text form in which it is kept on disk.
//!
//! The watermark file holds the value as decimal digits and nothing else. A
//! file that is missing or does not parse stands for the watermark 0.

use vstd::prelude::*;

verus! {

/// The byte of the digit `0`.
pub const ASCII_ZERO: u8 = 48;

/// The byte of the plus sign, which may stand before the digits.
pub const ASCII_PLUS: u8 = 43;

/// Whether `byte` is one of the digits `0` to `9`.
pub open spec fn is_digit(byte: u8) -> bool {
    ASCII_ZERO <= byte <= ASCII_ZERO + 9
}

/// Whether `text` is made of digits only.
pub open spec fn all_digits(text: Seq<u8>) -> bool {
    forall|i: int| 0 <= i < text.len() ==> is_digit(#[trigger] text[i])
}

/// The number that a run of digits denotes in base ten. The empty run
/// denotes 0.
pub open spec fn digits_value(digits: Seq<u8>) -> nat
    decreases digits.len(),
{
    if digits.len() == 0 {
        0
    } else {
        (digits_value(digits.drop_last()) * 10 + (digits.last() - ASCII_ZERO)) as nat
    }
}

/// The digits of `text` once an optional leading plus sign is taken off.
pub open spec fn unsigned_part(text: Seq<u8>) -> Seq<u8> {
    if text.len() > 0 && text[0] == ASCII_PLUS {
        text.subrange(1, text.len() as int)
    } else {
        text
    }
}

/// The watermark that `text` denotes: an optional plus sign followed by at
/// least one digit and nothing else, with a value that fits in 64 bits.
/// Any other text denotes no watermark.
pub open spec fn parsed_watermark(text: Seq<u8>) -> Option<u64> {
    let digits = unsigned_part(text);
    if digits.len() > 0 && all_digits(digits) && digits_value(digits) <= u64::MAX {
        Some(digits_value(digits) as u64)
    } else {
        None
    }
}

/// The watermark to start from, given what the watermark file held: its
/// value where the file was read and parses, 0 otherwise.
pub open spec fn loaded_watermark(content: Option<Seq<u8>>) -> u64 {
    match content {
        Some(text) => match parsed_watermark(text) {
            Some(value) => value,
            None => 0,
        },
        None => 0,
    }
}

/// The decimal digits of `value`, most significant first, without leading
/// zeros.
pub open spec fn decimal_digits(value: nat) -> Seq<u8>
    decreases value,
{
    if value < 10 {
        seq![(ASCII_ZERO + value) as u8]
    } else {
        decimal_digits(value / 10).push((ASCII_ZERO + value % 10) as u8)
    }
}

/// The watermark after a row with `accept_time` has been processed: the
/// larger of the two.
pub open spec fn advanced(watermark: u64, accept_time: u64) -> u64 {
    if accept_time > watermark {
        accept_time
    } else {
        watermark
    }
}

/// A run of digits denotes at least as much as any of its prefixes.
pub proof fn lemma_digits_value_grows(digits: Seq<u8>, n: int)
    requires
        0 <= n <= digits.len(),
        all_digits(digits),
    ensures
        digits_value(digits.take(n)) <= digits_value(digits),
    decreases digits.len(),
{
    if n == digits.len() {
        assert(digits.take(n) =~= digits);
    } else {
        let shorter = digits.drop_last();
        assert(shorter.take(n) =~= digits.take(n));
        lemma_digits_value_grows(shorter, n);
    }
}

/// Reads a watermark from the bytes of the watermark file.
///
/// Returns the value exactly when the text is an optional plus sign followed
/// by one or more digits whose value fits in 64 bits.
pub fn parse_watermark(text: &[u8]) -> (watermark: Option<u64>)
    ensures
        watermark == parsed_watermark(text@),
{
    let start: usize = if text.len() > 0 && text[0] == ASCII_PLUS {
        1
    } else {
        0
    };
    let ghost digits = unsigned_part(text@);
    if start == text.len() {
        return None;
    }
    let mut value: u64 = 0;
    let mut i: usize = start;
    while i < text.len()
        invariant
            start <= i <= text.len(),
            digits == unsigned_part(text@),
            digits == text@.subrange(start as int, text.len() as int),
            all_digits(digits.take(i - start)),
            value == digits_value(digits.take(i - start)),
        decreases text.len() - i,
    {
        let byte = text[i];
        let ghost seen = digits.take(i - start);
        let ghost next = digits.take(i - start + 1);
        assert(next.drop_last() =~= seen);
        assert(next.last() == byte);
        if byte < ASCII_ZERO || byte > ASCII_ZERO + 9 {
            return None;
        }
        assert forall|k: int| 0 <= k < next.len() implies is_digit(#[trigger] next[k]) by {
            if k < seen.len() {
                assert(next[k] == seen[k]);
            }
        }
        let digit: u64 = (byte - ASCII_ZERO) as u64;
        let grown = match value.checked_mul(10) {
            Some(tens) => tens.checked_add(digit),
            None => None,
        };
        match grown {
            Some(more) => {
                value = more;
            },
            None => {
                proof {
                    if all_digits(digits) {
                        lemma_digits_value_grows(digits, i - start + 1);
                    }
                }
                return None;
            },
        }
        i = i + 1;
    }
    assert(digits.take(i - start) =~= digits);
    Some(value)
}

/// The watermark to start from: what the watermark file denotes, or 0 where
/// the file could not be read (`None`) or does not parse.
pub fn load_watermark(content: Option<&[u8]>) -> (watermark: u64)
    ensures
        watermark == loaded_watermark(
            match content {
                Some(text) => Some(text@),
                None => None,
            },
        ),
{
    match content {
        Some(text) => match parse_watermark(text) {
            Some(value) => value,
            None => 0,
        },
        None => 0,
    }
}

/// Writes a watermark as the text that the watermark file holds.
pub fn format_watermark(value: u64) -> (text: Vec<u8>)
    ensures
        text@ == decimal_digits(value as nat),
    decreases value,
{
    if value < 10 {
        let mut text: Vec<u8> = Vec::new();
        text.push(ASCII_ZERO + value as u8);
        text
    } else {
        let mut text = format_watermark(value / 10);
        text.push(ASCII_ZERO + (value % 10) as u8);
        text
    }
}

/// Moves the watermark up to `accept_time` if that is later; the watermark
/// never moves back.
pub fn advance(watermark: u64, accept_time: u64) -> (next: u64)
    ensures
        next == advanced(watermark, accept_time),
        next >= watermark,
        next >= accept_time,
{
    if accept_time > watermark {
        accept_time
    } else {
        watermark
    }
}

/// The text of a number is a non-empty run of digits that denotes the
/// number.
pub proof fn lemma_decimal_digits_denote(value: nat)
    ensures
        decimal_digits(value).len() > 0,
        all_digits(decimal_digits(value)),
        digits_value(decimal_digits(value)) == value,
    decreases value,
{
    if value < 10 {
        let text = decimal_digits(value);
        assert(digits_value(text.drop_last()) == 0);
    } else {
        lemma_decimal_digits_denote(value / 10);
        let shorter = decimal_digits(value / 10);
        let text = decimal_digits(value);
        assert(text.drop_last() =~= shorter);
        assert forall|i: int| 0 <= i < text.len() implies is_digit(#[trigger] text[i]) by {
            if i < shorter.len() {
                assert(text[i] == shorter[i]);
            }
        }
    }
}

/// What was written is what is read back: the text of a watermark parses to
/// that watermark.
pub proof fn watermark_round_trip(value: u64)
    ensures
        parsed_watermark(decimal_digits(value as nat)) == Some(value),
        loaded_watermark(Some(decimal_digits(value as nat))) == value,
{
    lemma_decimal_digits_denote(value as nat);
}

} // verus!
