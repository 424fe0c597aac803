//! Lowercase hexadecimal text for raw bytes.
use vstd::prelude::*;

verus! {

/// The lowercase hexadecimal digit of a value below sixteen.
pub open spec fn hex_digit(n: int) -> char {
    if n == 0 { '0' } else if n == 1 { '1' } else if n == 2 { '2' } else if n == 3 { '3' }
    else if n == 4 { '4' } else if n == 5 { '5' } else if n == 6 { '6' } else if n == 7 { '7' }
    else if n == 8 { '8' } else if n == 9 { '9' } else if n == 10 { 'a' } else if n == 11 { 'b' }
    else if n == 12 { 'c' } else if n == 13 { 'd' } else if n == 14 { 'e' } else { 'f' }
}

/// The hexadecimal text of a byte string: two digits per byte, high nibble first.
pub open spec fn hex_of(bytes: Seq<u8>) -> Seq<char> {
    Seq::new(2 * bytes.len(), |i: int| if i % 2 == 0 {
        hex_digit(bytes[i / 2] as int / 16)
    } else {
        hex_digit(bytes[i / 2] as int % 16)
    })
}

/// Computes one hexadecimal digit.
pub fn hex_digit_of(n: u8) -> (c: char)
    requires
        n < 16,
    ensures
        c == hex_digit(n as int),
{
    if n == 0 { '0' } else if n == 1 { '1' } else if n == 2 { '2' } else if n == 3 { '3' }
    else if n == 4 { '4' } else if n == 5 { '5' } else if n == 6 { '6' } else if n == 7 { '7' }
    else if n == 8 { '8' } else if n == 9 { '9' } else if n == 10 { 'a' } else if n == 11 { 'b' }
    else if n == 12 { 'c' } else if n == 13 { 'd' } else if n == 14 { 'e' } else { 'f' }
}

/// Encodes bytes as lowercase hexadecimal characters.
pub fn hex_chars(bytes: &[u8]) -> (out: Vec<char>)
    ensures
        out@ == hex_of(bytes@),
{
    let mut out: Vec<char> = Vec::new();
    let mut i: usize = 0;
    while i < bytes.len()
        invariant
            i <= bytes.len(),
            out@.len() == 2 * i,
            forall|k: int| 0 <= k < out@.len() ==> out@[k] == hex_of(bytes@)[k],
        decreases bytes.len() - i,
    {
        let b: u8 = bytes[i];
        out.push(hex_digit_of(b / 16));
        out.push(hex_digit_of(b % 16));
        i = i + 1;
    }
    out
}

} // verus!
