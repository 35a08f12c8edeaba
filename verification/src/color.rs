//! Color parsing: hexadecimal color strings to RGB channel values.
//!
//! A channel is read the way a 64-bit signed hexadecimal parse reads it — an
//! optional sign, then hexadecimal digits — and truncated to its low byte;
//! text that does not parse yields 0 for that channel.

use vstd::prelude::*;
use vstd::arithmetic::div_mod::{
    lemma_fundamental_div_mod, lemma_fundamental_div_mod_converse_mod,
};

use crate::raster::Color;

verus! {

/// The value of one hexadecimal digit, or -1 for any other character.
pub open spec fn spec_hex_digit(c: char) -> int {
    if '0' as int <= c as int && c as int <= '9' as int {
        c as int - '0' as int
    } else if 'a' as int <= c as int && c as int <= 'f' as int {
        10 + c as int - 'a' as int
    } else if 'A' as int <= c as int && c as int <= 'F' as int {
        10 + c as int - 'A' as int
    } else {
        -1
    }
}

pub open spec fn is_hex_digit(c: char) -> bool {
    spec_hex_digit(c) >= 0
}

pub open spec fn all_hex_digits(s: Seq<char>) -> bool {
    forall|i: int| 0 <= i < s.len() ==> is_hex_digit(#[trigger] s[i])
}

/// The magnitude of a digit string, most significant digit first.
pub open spec fn spec_hex_magnitude(s: Seq<char>) -> int
    decreases s.len(),
{
    if s.len() == 0 {
        0
    } else {
        16 * spec_hex_magnitude(s.drop_last()) + spec_hex_digit(s.last())
    }
}

pub proof fn lemma_hex_magnitude_nonneg(s: Seq<char>)
    requires
        all_hex_digits(s),
    ensures
        spec_hex_magnitude(s) >= 0,
    decreases s.len(),
{
    if s.len() != 0 {
        lemma_hex_magnitude_nonneg(s.drop_last());
    }
}

/// The value of a hexadecimal numeral as a 64-bit signed parse reads it: an
/// optional sign, then one or more hexadecimal digits. `None` when the text
/// is not of that shape or the value overflows the 64-bit signed range.
pub open spec fn spec_hex_value(s: Seq<char>) -> Option<int> {
    let neg = s.len() > 0 && s[0] == '-';
    let signed = s.len() > 0 && (s[0] == '-' || s[0] == '+');
    let digits = if signed {
        s.drop_first()
    } else {
        s
    };
    if digits.len() == 0 || !all_hex_digits(digits) {
        None
    } else {
        let v = if neg {
            -spec_hex_magnitude(digits)
        } else {
            spec_hex_magnitude(digits)
        };
        if v < -0x8000_0000_0000_0000 || v > 0x7FFF_FFFF_FFFF_FFFF {
            None
        } else {
            Some(v)
        }
    }
}

/// The channel byte a hexadecimal numeral yields: the parsed value
/// truncated to its low byte, or 0 when the text does not parse.
pub open spec fn spec_hex_byte(s: Seq<char>) -> int {
    match spec_hex_value(s) {
        Some(v) => v % 256,
        None => 0,
    }
}

/// Parse a hexadecimal numeral — an optional sign, then hexadecimal digits —
/// as a 64-bit signed value and truncate it to one color channel byte; text
/// that does not parse, or overflows 64 bits, yields 0.
pub fn hexadecimal_to_decimal(hex: &str) -> (d: u8)
    ensures
        d as int == spec_hex_byte(hex@),
{
    let n = hex.unicode_len();
    if n == 0 {
        return 0;
    }
    let first = hex.get_char(0);
    let neg = first == '-';
    let signed = neg || first == '+';
    let start: usize = if signed {
        1
    } else {
        0
    };
    let ghost digits: Seq<char> = if signed {
        hex@.drop_first()
    } else {
        hex@
    };
    if start == n {
        proof {
            assert(digits.len() == 0);
        }
        return 0;
    }
    let bound: u128 = if neg {
        0x8000_0000_0000_0000
    } else {
        0x7FFF_FFFF_FFFF_FFFF
    };
    let mut mag: u128 = 0;
    let mut overflow = false;
    let mut i: usize = start;
    while i < n
        invariant
            n == hex@.len(),
            start <= i <= n,
            neg == (hex@.len() > 0 && hex@[0] == '-'),
            signed == (hex@.len() > 0 && (hex@[0] == '-' || hex@[0] == '+')),
            start == if signed { 1usize } else { 0usize },
            digits == if signed { hex@.drop_first() } else { hex@ },
            digits.len() == n - start,
            forall|k: int| 0 <= k < digits.len() ==> #[trigger] digits[k] == hex@[k + start],
            all_hex_digits(digits.take(i - start)),
            bound == if neg { 0x8000_0000_0000_0000u128 } else { 0x7FFF_FFFF_FFFF_FFFFu128 },
            !overflow ==> mag == spec_hex_magnitude(digits.take(i - start)) && mag <= bound,
            overflow ==> spec_hex_magnitude(digits.take(i - start)) > bound,
        decreases n - i,
    {
        let c = hex.get_char(i);
        let cu = c as u32;
        proof {
            assert(digits[i - start] == hex@[i as int]);
        }
        let d: u32 = if cu >= 48 && cu <= 57 {
            cu - 48
        } else if cu >= 97 && cu <= 102 {
            cu - 87
        } else if cu >= 65 && cu <= 70 {
            cu - 55
        } else {
            proof {
                assert(!is_hex_digit(digits[i - start]));
                assert(!all_hex_digits(digits));
            }
            return 0;
        };
        proof {
            assert(spec_hex_digit(c) == d);
            assert(digits.take(i - start + 1).drop_last() =~= digits.take(i - start));
            assert(digits.take(i - start + 1).last() == digits[i - start]);
        }
        if !overflow {
            mag = mag * 16 + d as u128;
            if mag > bound {
                overflow = true;
            }
        } else {
            proof {
                lemma_hex_magnitude_nonneg(digits.take(i - start));
            }
        }
        i = i + 1;
    }
    proof {
        assert(digits.take(n - start) =~= digits);
    }
    if overflow {
        return 0;
    }
    let low: u8 = (mag % 256) as u8;
    if neg {
        proof {
            let m = mag as int;
            lemma_fundamental_div_mod(m, 256);
            if m % 256 == 0 {
                assert(-m == (-(m / 256)) * 256 + 0);
                lemma_fundamental_div_mod_converse_mod(-m, 256, -(m / 256), 0);
            } else {
                assert(-m == (-(m / 256) - 1) * 256 + (256 - m % 256));
                lemma_fundamental_div_mod_converse_mod(-m, 256, -(m / 256) - 1, 256 - m % 256);
            }
        }
        if low == 0 {
            0
        } else {
            (256u16 - low as u16) as u8
        }
    } else {
        low
    }
}

/// The text with one leading '#' removed, as the color parser reads it.
pub open spec fn spec_strip_hash(s: Seq<char>) -> Seq<char> {
    if s.len() > 0 && s[0] == '#' {
        s.drop_first()
    } else {
        s
    }
}

/// Parse a hex color string `#rrggbb` (the `#` optional) into a color.
///
/// Each two-digit group is parsed on its own; a group that does not parse
/// yields 0 for its channel. Characters beyond the sixth are ignored.
pub fn hexcolor_to_rgb(hex: &str) -> (c: Color)
    requires
        spec_strip_hash(hex@).len() >= 6,
    ensures
        c.red as int == spec_hex_byte(spec_strip_hash(hex@).subrange(0, 2)),
        c.green as int == spec_hex_byte(spec_strip_hash(hex@).subrange(2, 4)),
        c.blue as int == spec_hex_byte(spec_strip_hash(hex@).subrange(4, 6)),
{
    let start: usize = if hex.get_char(0) == '#' {
        1
    } else {
        0
    };
    let rs = hex.substring_char(start, start + 2);
    let gs = hex.substring_char(start + 2, start + 4);
    let bs = hex.substring_char(start + 4, start + 6);
    proof {
        assert(rs@ =~= spec_strip_hash(hex@).subrange(0, 2));
        assert(gs@ =~= spec_strip_hash(hex@).subrange(2, 4));
        assert(bs@ =~= spec_strip_hash(hex@).subrange(4, 6));
    }
    Color {
        red: hexadecimal_to_decimal(rs),
        green: hexadecimal_to_decimal(gs),
        blue: hexadecimal_to_decimal(bs),
    }
}

} // verus!
