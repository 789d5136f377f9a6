//! Bytes of ASCII text and of decimal numbers, as the terminal reads them.

use vstd::prelude::*;
use vstd::string::is_ascii;
use vstd::string::is_ascii_spec_bytes;

verus! {

/// The bytes of a text of ASCII characters, one for each.
pub open spec fn ascii(text: Seq<char>) -> Seq<u8> {
    Seq::new(text.len(), |i: int| text[i] as u8)
}

/// The character of a decimal digit.
pub open spec fn digit(d: int) -> u8 {
    (48 + d) as u8
}

/// `n` in decimal digits, without sign or leading zeros.
pub open spec fn decimal(n: nat) -> Seq<u8>
    decreases n,
{
    if n < 10 {
        seq![digit(n as int)]
    } else {
        decimal(n / 10).push(digit((n % 10) as int))
    }
}

/// Appends the bytes of an ASCII text.
pub fn push_ascii(buf: &mut Vec<u8>, text: &str)
    requires
        is_ascii(text),
    ensures
        final(buf)@ == old(buf)@ + ascii(text@),
{
    broadcast use is_ascii_spec_bytes;

    buf.extend_from_slice(text.as_bytes());
}

/// Appends `n` in decimal digits.
pub fn push_decimal(buf: &mut Vec<u8>, n: u64)
    ensures
        final(buf)@ == old(buf)@ + decimal(n as nat),
    decreases n,
{
    if n >= 10 {
        push_decimal(buf, n / 10);
    }
    buf.push(48 + (n % 10) as u8);
    assert(buf@ =~= old(buf)@ + decimal(n as nat));
}

} // verus!
