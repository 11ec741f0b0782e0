use vstd::prelude::*;

verus! {

/// The character that stands for a digit below sixteen.
pub open spec fn digit(d: nat) -> char {
    "0123456789abcdef"@[d as int]
}

/// A number written out in decimal digits, without a sign and without
/// leading zeros.
pub open spec fn decimal_text(n: nat) -> Seq<char>
    decreases n,
{
    if n < 10 {
        seq![digit(n)]
    } else {
        decimal_text(n / 10).push(digit(n % 10))
    }
}

/// A number written out in hexadecimal digits, small letters, without
/// leading zeros.
pub open spec fn hex_digits(n: nat) -> Seq<char>
    decreases n,
{
    if n < 16 {
        seq![digit(n)]
    } else {
        hex_digits(n / 16).push(digit(n % 16))
    }
}

/// A number in hexadecimal digits behind the mark `0x`.
pub open spec fn hex_text(n: nat) -> Seq<char> {
    seq!['0', 'x'] + hex_digits(n)
}

/// Calls `u64::to_string`: trusted to write the number in decimal digits,
/// as std documents for the `Display` of the integers.
#[verifier::external_body]
pub(crate) fn decimal(n: u64) -> (r: String)
    ensures
        r@ == decimal_text(n as nat),
{
    n.to_string()
}

/// Formats a number with `{:#x}`: trusted to give `0x` and then the
/// number in small hexadecimal digits, as std documents for `LowerHex`
/// with the alternate flag.
#[verifier::external_body]
pub(crate) fn hexadecimal(n: u64) -> (r: String)
    ensures
        r@ == hex_text(n as nat),
{
    format!("{:#x}", n)
}

/// Calls `String::push_str`: trusted to put the characters of `tail`
/// behind those of `text`.
#[verifier::external_body]
pub(crate) fn push_text(text: &mut String, tail: &str)
    ensures
        final(text)@ == old(text)@ + tail@,
{
    text.push_str(tail)
}

} // verus!
