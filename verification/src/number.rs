//! Signed decimal numbers as text.
use vstd::prelude::*;
use crate::codec::{all_digits, digits_value, is_digit, lemma_digits_prefix};
use crate::text::chars_of;

verus! {

/// Whether a character is a decimal digit.
pub open spec fn is_digit_char(c: char) -> bool {
    '0' <= c <= '9'
}

/// Whether every character is a decimal digit.
pub open spec fn all_digit_chars(s: Seq<char>) -> bool {
    forall|i: int| 0 <= i < s.len() ==> is_digit_char(#[trigger] s[i])
}

/// The bytes of ASCII characters.
pub open spec fn ascii_bytes(s: Seq<char>) -> Seq<u8> {
    Seq::new(s.len(), |i: int| s[i] as u8)
}

/// The integer that a text names: an optional sign, then at least one
/// decimal digit, with a value from `low` to `high`.
pub open spec fn parse_int(s: Seq<char>, low: int, high: int) -> Option<int> {
    let signed = s.len() > 0 && (s[0] == '+' || s[0] == '-');
    let digits = if signed {
        s.skip(1)
    } else {
        s
    };
    let magnitude = digits_value(ascii_bytes(digits)) as int;
    let value = if s.len() > 0 && s[0] == '-' {
        -magnitude
    } else {
        magnitude
    };
    if digits.len() > 0 && all_digit_chars(digits) && low <= value <= high {
        Some(value)
    } else {
        None
    }
}

/// The 32-bit integer that a text names.
pub open spec fn parse_i32(s: Seq<char>) -> Option<int> {
    parse_int(s, -0x8000_0000, 0x7fff_ffff)
}

/// The 64-bit integer that a text names.
pub open spec fn parse_i64(s: Seq<char>) -> Option<int> {
    parse_int(s, -0x8000_0000_0000_0000, 0x7fff_ffff_ffff_ffff)
}

/// Reads a 64-bit integer.
pub fn read_i64(s: &str) -> (r: Option<i64>)
    ensures
        match r {
            Some(v) => parse_i64(s@) == Some(v as int),
            None => parse_i64(s@) is None,
        },
{
    let cs = chars_of(s);
    let signed = cs.len() > 0 && (cs[0] == '+' || cs[0] == '-');
    let start: usize = if signed {
        1
    } else {
        0
    };
    if start >= cs.len() {
        return None;
    }
    let negative = cs[0] == '-';
    let ghost digits = s@.skip(start as int);
    let ghost bytes = ascii_bytes(digits);
    assert(s@.skip(0) =~= s@);
    let mut acc: u64 = 0;
    let mut i: usize = start;
    assert(digits_value(bytes.take(0)) == 0);
    while i < cs.len()
        invariant
            start <= i <= cs.len(),
            cs@ == s@,
            digits == s@.skip(start as int),
            bytes == ascii_bytes(digits),
            all_digits(bytes.take(i - start)),
            acc == digits_value(bytes.take(i - start)),
            acc <= 0x8000_0000_0000_0000,
            start == if signed {
                1int
            } else {
                0int
            },
            signed == (s@.len() > 0 && (s@[0] == '+' || s@[0] == '-')),
            all_digit_chars(digits.take(i - start)),
        decreases cs.len() - i,
    {
        let c = cs[i];
        if c < '0' || c > '9' {
            assert(!is_digit_char(digits[i - start]));
            assert(s@.skip(0) =~= s@);
            return None;
        }
        let d: u64 = (c as u8 - 48) as u64;
        let ghost next = bytes.take(i - start + 1);
        proof {
            assert(next.drop_last() =~= bytes.take(i - start));
            assert(next.last() == c as u8);
            assert(all_digits(next)) by {
                assert forall|j: int| 0 <= j < next.len() implies is_digit(#[trigger] next[j]) by {
                    if j < i - start {
                        assert(bytes.take(i - start)[j] == next[j]);
                    }
                }
            }
            assert(all_digit_chars(digits.take(i - start + 1))) by {
                assert forall|j: int| 0 <= j < i - start + 1 implies is_digit_char(
                    #[trigger] digits.take(i - start + 1)[j],
                ) by {
                    if j < i - start {
                        assert(digits.take(i - start)[j] == digits[j]);
                    }
                }
            }
        }
        if acc > (0x8000_0000_0000_0000 - d) / 10 {
            proof {
                assert(digits_value(next) > 0x8000_0000_0000_0000);
                if all_digit_chars(digits) {
                    assert(all_digits(bytes)) by {
                        assert forall|j: int| 0 <= j < bytes.len() implies is_digit(
                            #[trigger] bytes[j],
                        ) by {
                            assert(is_digit_char(digits[j]));
                        }
                    }
                    lemma_digits_prefix(bytes, i - start + 1);
                    assert(digits_value(bytes) > 0x8000_0000_0000_0000);
                }
                assert(s@.skip(0) =~= s@);
            }
            return None;
        }
        acc = acc * 10 + d;
        i = i + 1;
    }
    assert(bytes.take(i - start) =~= bytes);
    assert(digits.take(i - start) =~= digits);
    if negative {
        if acc == 0x8000_0000_0000_0000 {
            Some(i64::MIN)
        } else {
            Some(-(acc as i64))
        }
    } else if acc <= 0x7fff_ffff_ffff_ffff {
        Some(acc as i64)
    } else {
        None
    }
}

/// Reads a 32-bit integer.
pub fn read_i32(s: &str) -> (r: Option<i32>)
    ensures
        match r {
            Some(v) => parse_i32(s@) == Some(v as int),
            None => parse_i32(s@) is None,
        },
{
    match read_i64(s) {
        Some(v) => if -0x8000_0000 <= v && v <= 0x7fff_ffff {
            Some(v as i32)
        } else {
            None
        },
        None => None,
    }
}

} // verus!
