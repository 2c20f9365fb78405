//! Decimal numerals and the wording of fault messages.

use vstd::prelude::*;
use vstd::string::StringExecFns;

verus! {

/// What this library takes on trust of the standard library's
/// `String::push`, and does not prove: the call appends the character `ch`
/// to the end of the string and leaves what stood before it as it was.
pub assume_specification[ String::push ](text: &mut String, ch: char)
    ensures
        final(text)@ == old(text)@.push(ch),
;

/// The character for one decimal digit.
pub open spec fn digit(d: nat) -> char
    recommends
        d < 10,
{
    ((d + 48) as u8) as char
}

/// The decimal numeral of `n`, without sign or leading zeros.
pub open spec fn decimal(n: nat) -> Seq<char>
    decreases n,
{
    if n < 10 {
        seq![digit(n)]
    } else {
        decimal(n / 10).push(digit(n % 10))
    }
}

/// Appends the decimal numeral of `n` to `text`.
pub fn push_decimal(text: &mut String, n: usize)
    ensures
        final(text)@ == old(text)@ + decimal(n as nat),
    decreases n,
{
    if n >= 10 {
        push_decimal(text, n / 10);
    }
    let d: u8 = (n % 10) as u8;
    text.push((d + 48u8) as char);
    proof {
        if n >= 10 {
            assert(final(text)@ =~= old(text)@ + decimal(n as nat));
        } else {
            assert(final(text)@ =~= old(text)@ + decimal(n as nat));
        }
    }
}

/// The decimal numeral of `n` as a string.
pub fn decimal_string(n: usize) -> (text: String)
    ensures
        text@ == decimal(n as nat),
{
    let mut text = String::new();
    push_decimal(&mut text, n);
    assert(Seq::<char>::empty() + decimal(n as nat) =~= decimal(n as nat));
    text
}

/// `prefix` followed by the decimal numeral of `position`.
pub open spec fn message(prefix: Seq<char>, position: usize) -> Seq<char> {
    prefix + decimal(position as nat)
}

/// Builds a message that ends in a source offset.
pub fn message_at(prefix: &str, position: usize) -> (text: String)
    ensures
        text@ == message(prefix@, position),
{
    let mut text = String::from_str(prefix);
    push_decimal(&mut text, position);
    text
}

} // verus!
