//! Numbers typed in as text.

use vstd::prelude::*;
use vstd::string::StrSliceExecFns;

verus! {

/// Whether a character is a decimal digit.
pub open spec fn is_digit(c: char) -> bool {
    48 <= c as u32 <= 57
}

/// The number that a run of decimal digits stands for.
pub open spec fn digits_value(digits: Seq<char>) -> nat
    decreases digits.len(),
{
    if digits.len() == 0 {
        0
    } else {
        10 * digits_value(digits.drop_last()) + (digits.last() as u32 - 48) as nat
    }
}

/// Whether every character of a text is a decimal digit.
pub open spec fn all_digits(digits: Seq<char>) -> bool {
    forall|i: int| 0 <= i < digits.len() ==> is_digit(#[trigger] digits[i])
}

/// A text without the plus sign that it may start with.
pub open spec fn unsigned_digits(text: Seq<char>) -> Seq<char> {
    if text.len() > 0 && text[0] == '+' {
        text.skip(1)
    } else {
        text
    }
}

/// The number, `max` at most, that a text stands for: the text is a plus
/// sign or none, followed by decimal digits and nothing else, at least one.
/// Any other text, and a number above `max`, stands for nothing.
pub open spec fn unsigned(text: Seq<char>, max: nat) -> Option<nat> {
    let digits = unsigned_digits(text);
    if digits.len() > 0 && all_digits(digits) && digits_value(digits) <= max {
        Some(digits_value(digits))
    } else {
        None
    }
}

/// The digits at the head of a number stand for no more than the number.
pub proof fn lemma_digits_grow(digits: Seq<char>, k: int)
    requires
        0 <= k <= digits.len(),
    ensures
        digits_value(digits.take(k)) <= digits_value(digits),
    decreases digits.len(),
{
    if k == digits.len() {
        assert(digits.take(k) =~= digits);
    } else {
        lemma_digits_grow(digits.drop_last(), k);
        assert(digits.drop_last().take(k) =~= digits.take(k));
    }
}

/// Reads the number, `max` at most, that `text` stands for.
pub fn parse_unsigned(text: &str, max: u64) -> (value: Option<u64>)
    ensures
        match value {
            Some(v) => unsigned(text@, max as nat) == Some(v as nat),
            None => unsigned(text@, max as nat).is_none(),
        },
{
    let len: usize = text.unicode_len();
    let start: usize = if len > 0 && text.get_char(0) == '+' {
        1
    } else {
        0
    };
    if start == len {
        return None;
    }
    let ghost digits = unsigned_digits(text@);
    let mut value: u64 = 0;
    let mut i: usize = start;
    assert(digits.take(0) =~= Seq::<char>::empty());
    while i < len
        invariant
            start <= i <= len,
            len == text@.len(),
            digits == unsigned_digits(text@),
            digits.len() == len - start,
            forall|j: int| 0 <= j < digits.len() ==> digits[j] == text@[start + j],
            all_digits(digits.take(i - start)),
            value == digits_value(digits.take(i - start)),
            value <= max,
        decreases len - i,
    {
        let c: char = text.get_char(i);
        let code: u32 = c as u32;
        let ghost head = digits.take(i - start + 1);
        proof {
            assert(head.drop_last() =~= digits.take(i - start));
            assert(head.last() == c);
        }
        if code < 48 || code > 57 {
            assert(!is_digit(digits[i - start]));
            return None;
        }
        let d: u64 = (code - 48) as u64;
        if d > max || value > (max - d) / 10 {
            proof {
                lemma_digits_grow(digits, i - start + 1);
                assert(digits_value(head) == 10 * value + d);
            }
            return None;
        }
        value = value * 10 + d;
        i = i + 1;
        proof {
            assert forall|j: int| 0 <= j < head.len() implies is_digit(#[trigger] head[j]) by {
                if j < head.len() - 1 {
                    assert(digits.take(i - start - 1)[j] == head[j]);
                }
            }
        }
    }
    assert(digits.take(i - start) =~= digits);
    Some(value)
}

} // verus!
