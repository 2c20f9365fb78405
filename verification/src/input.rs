//! From the text that a user typed to the value that answers a read.

use vstd::prelude::*;
use vstd::string::StrSliceExecFns;

verus! {

/// The value that stands for "no valid input".
pub const INVALID_INPUT: i16 = -1;

/// The character is a decimal digit.
pub open spec fn is_digit(c: char) -> bool {
    48 <= c as int <= 57
}

/// The number that a string of decimal digits denotes.
pub open spec fn digits_value(digits: Seq<char>) -> int
    decreases digits.len(),
{
    if digits.len() == 0 {
        0
    } else {
        digits_value(digits.drop_last()) * 10 + (digits.last() as int - 48)
    }
}

/// The text begins with a sign.
pub open spec fn signed(text: Seq<char>) -> bool {
    text.len() > 0 && (text[0] == '+' || text[0] == '-')
}

/// The text without its sign.
pub open spec fn unsigned_part(text: Seq<char>) -> Seq<char> {
    if signed(text) {
        text.skip(1)
    } else {
        text
    }
}

/// The integer that the text denotes, if it is a decimal numeral: an
/// optional sign and then one digit or more, with nothing before, between or
/// behind.
pub open spec fn integer_of(text: Seq<char>) -> Option<int> {
    let digits = unsigned_part(text);
    if digits.len() > 0 && (forall|i: int| 0 <= i < digits.len() ==> is_digit(#[trigger] digits[i])) {
        if text[0] == '-' {
            Some(-digits_value(digits))
        } else {
            Some(digits_value(digits))
        }
    } else {
        None
    }
}

/// The value that a typed text stands for.
///
/// A decimal numeral stands for its number if that is a byte, 0 to 255, and
/// for no valid input if it is not.  Any other text stands for the code of
/// its character if it is a single ASCII character and the prompt was
/// confirmed, and for no valid input otherwise.
pub open spec fn decode(text: Seq<char>, confirmed: bool) -> i16 {
    match integer_of(text) {
        Some(number) => if 0 <= number <= 255 {
            number as i16
        } else {
            INVALID_INPUT
        },
        None => if confirmed && text.len() == 1 && (text[0] as int) < 128 {
            text[0] as i16
        } else {
            INVALID_INPUT
        },
    }
}

/// One more digit multiplies the value by ten and adds the digit.
proof fn lemma_digits_step(digits: Seq<char>, k: int)
    requires
        0 <= k < digits.len(),
    ensures
        digits_value(digits.take(k + 1)) == digits_value(digits.take(k)) * 10 + (digits[k] as int
            - 48),
{
    assert(digits.take(k + 1).drop_last() =~= digits.take(k));
}

/// The value of a string of digits is not negative.
proof fn lemma_digits_nonnegative(digits: Seq<char>)
    requires
        forall|i: int| 0 <= i < digits.len() ==> is_digit(#[trigger] digits[i]),
    ensures
        digits_value(digits) >= 0,
    decreases digits.len(),
{
    if digits.len() > 0 {
        lemma_digits_nonnegative(digits.drop_last());
    }
}

/// Reads the answer to an input prompt.  `confirmed` says whether the user
/// closed the prompt by confirming it.
pub fn decode_input(text: &str, confirmed: bool) -> (value: i16)
    ensures
        value == decode(text@, confirmed),
        value == INVALID_INPUT || 0 <= value <= 255,
{
    let n: usize = text.unicode_len();
    if n == 0 {
        return INVALID_INPUT;
    }
    let first: char = text.get_char(0);
    let has_sign: bool = first == '+' || first == '-';
    let start: usize = if has_sign {
        1
    } else {
        0
    };
    let ghost digits = unsigned_part(text@);
    let mut numeral: bool = n > start;
    let mut number: u16 = 0;
    let mut i: usize = start;
    proof {
        assert(digits.take(0) =~= Seq::<char>::empty());
    }
    while i < n
        invariant
            n == text@.len(),
            start <= i <= n,
            start == if signed(text@) {
                1usize
            } else {
                0usize
            },
            digits == unsigned_part(text@),
            digits.len() == n - start,
            numeral ==> forall|k: int| 0 <= k < i - start ==> is_digit(#[trigger] digits[k]),
            !numeral ==> integer_of(text@) is None,
            numeral ==> n > start,
            first == text@[0],
            number <= 256,
            numeral ==> number == if digits_value(digits.take(i - start)) > 255 {
                256
            } else {
                digits_value(digits.take(i - start))
            },
        decreases n - i,
    {
        let code: u32 = text.get_char(i) as u32;
        proof {
            assert(digits[i - start] == text@[i as int]);
            lemma_digits_step(digits, i - start);
        }
        if numeral && 48 <= code && code <= 57 {
            let grown: u16 = number * 10 + (code - 48) as u16;
            number = if grown > 255 {
                256
            } else {
                grown
            };
        } else {
            numeral = false;
        }
        i += 1;
    }
    proof {
        assert(digits.take(n - start) =~= digits);
        if numeral {
            lemma_digits_nonnegative(digits);
        }
    }
    if numeral {
        if number > 255 {
            INVALID_INPUT
        } else if first == '-' && number != 0 {
            INVALID_INPUT
        } else {
            number as i16
        }
    } else if confirmed && n == 1 && (first as u32) < 128 {
        first as u8 as i16
    } else {
        INVALID_INPUT
    }
}

} // verus!
