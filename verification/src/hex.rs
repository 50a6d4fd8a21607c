//! Parsing of hexadecimal color strings.
//!
//! A hexadecimal color is an optional leading `#` followed by exactly 3 or 6
//! hexadecimal digits. In the 6-digit form each pair of digits is one
//! channel in `0..=255`; in the 3-digit form each single digit is one
//! channel with its own value in `0..=15` (deliberately not expanded to the
//! `0..=255` range). Any other digit count is a length error; otherwise the
//! first character that is not a hexadecimal digit is reported in a digit
//! error.
use vstd::prelude::*;

verus! {

use vstd::string::StrSliceExecFns;
use crate::color::Color;
use crate::color::spec_hsv_hue;
use crate::color::spec_hsv_sat;
use crate::color::spec_hsv_value;

/// Why a hexadecimal color string was rejected.
#[derive(Clone, Copy, Debug, PartialEq, Eq, Structural)]
pub enum ParseError {
    /// The digit count, after stripping an optional `#`, is not 3 or 6.
    InvalidLength { len: usize },
    /// The first character that is not a hexadecimal digit.
    InvalidDigit { ch: char },
}

/// `c` is a hexadecimal digit (either case).
pub open spec fn is_hex_digit(c: char) -> bool {
    ||| '0' as int <= c as int <= '9' as int
    ||| 'a' as int <= c as int <= 'f' as int
    ||| 'A' as int <= c as int <= 'F' as int
}

/// `c` is a lowercase hexadecimal digit, the alphabet `Color::to_hex`
/// writes.
pub open spec fn is_lower_hex_digit(c: char) -> bool {
    ||| '0' as int <= c as int <= '9' as int
    ||| 'a' as int <= c as int <= 'f' as int
}

/// The value of a hexadecimal digit.
pub open spec fn hex_digit_value(c: char) -> int {
    if '0' as int <= c as int <= '9' as int {
        c as int - '0' as int
    } else if 'a' as int <= c as int <= 'f' as int {
        c as int - 'a' as int + 10
    } else {
        c as int - 'A' as int + 10
    }
}

/// The digits of a hexadecimal color string: everything after an optional
/// leading `#`.
pub open spec fn hex_body(s: Seq<char>) -> Seq<char> {
    if s.len() >= 1 && s[0] == '#' {
        s.skip(1)
    } else {
        s
    }
}

pub open spec fn all_hex_digits(t: Seq<char>) -> bool {
    forall|i: int| 0 <= i < t.len() ==> is_hex_digit(#[trigger] t[i])
}

/// The least index at or after `i` holding a non-digit; `t.len()` if none.
pub open spec fn first_non_hex(t: Seq<char>, i: int) -> int
    decreases t.len() - i,
{
    if i < 0 || i >= t.len() {
        t.len() as int
    } else if !is_hex_digit(t[i]) {
        i
    } else {
        first_non_hex(t, i + 1)
    }
}

/// Channel `k` (0 red, 1 green, 2 blue) of a digit string of length 3 or 6:
/// the single digit's value in the 3-digit form, the two-digit value in the
/// 6-digit form.
pub open spec fn hex_channel(t: Seq<char>, k: int) -> int {
    if t.len() == 3 {
        hex_digit_value(t[k])
    } else {
        16 * hex_digit_value(t[2 * k]) + hex_digit_value(t[2 * k + 1])
    }
}

proof fn lemma_first_non_hex_scan(t: Seq<char>, k: int, i: int)
    requires
        0 <= k <= i < t.len(),
        forall|j: int| k <= j < i ==> is_hex_digit(#[trigger] t[j]),
        !is_hex_digit(t[i]),
    ensures
        first_non_hex(t, k) == i,
    decreases i - k,
{
    if k < i {
        lemma_first_non_hex_scan(t, k + 1, i);
    }
}

/// The value of a hexadecimal digit character, or `None` for any other
/// character.
fn hex_digit_of(c: char) -> (r: Option<u64>)
    ensures
        match r {
            Some(v) => is_hex_digit(c) && v as int == hex_digit_value(c) && v <= 15,
            None => !is_hex_digit(c),
        },
{
    let u = c as u32;
    if 48 <= u && u <= 57 {
        Some((u - 48) as u64)
    } else if 97 <= u && u <= 102 {
        Some((u - 97 + 10) as u64)
    } else if 65 <= u && u <= 70 {
        Some((u - 65 + 10) as u64)
    } else {
        None
    }
}

impl Color {
    /// Parse a hexadecimal color string: an optional leading `#`, then
    /// exactly 3 or 6 hexadecimal digits, each group one channel (a single
    /// digit in the 3-digit form keeps its `0..=15` value). A wrong digit
    /// count is an `InvalidLength` error; otherwise the first character that
    /// is not a hexadecimal digit is returned in an `InvalidDigit` error.
    pub fn from_hex(hex: &str) -> (res: Result<Color, ParseError>)
        ensures
            ({
                let t = hex_body(hex@);
                match res {
                    Ok(c) => {
                        &&& (t.len() == 3 || t.len() == 6)
                        &&& all_hex_digits(t)
                        &&& c.wf()
                        &&& c.hue() == spec_hsv_hue(
                            hex_channel(t, 0),
                            hex_channel(t, 1),
                            hex_channel(t, 2),
                            1,
                        )
                        &&& c.saturation() == spec_hsv_sat(
                            hex_channel(t, 0),
                            hex_channel(t, 1),
                            hex_channel(t, 2),
                            1,
                        )
                        &&& c.value() == spec_hsv_value(
                            hex_channel(t, 0),
                            hex_channel(t, 1),
                            hex_channel(t, 2),
                            1,
                        )
                    },
                    Err(ParseError::InvalidLength { len }) => {
                        &&& t.len() != 3 && t.len() != 6
                        &&& len == t.len()
                    },
                    Err(ParseError::InvalidDigit { ch }) => {
                        &&& (t.len() == 3 || t.len() == 6)
                        &&& !all_hex_digits(t)
                        &&& ch == t[first_non_hex(t, 0)]
                    },
                }
            }),
    {
        let n = hex.unicode_len();
        let start: usize = if n >= 1 && hex.get_char(0) == '#' {
            1
        } else {
            0
        };
        let ghost t = hex_body(hex@);
        proof {
            assert(t =~= hex@.skip(start as int));
        }
        let blen = n - start;
        if blen != 3 && blen != 6 {
            return Err(ParseError::InvalidLength { len: blen });
        }
        let mut vals: Vec<u64> = Vec::new();
        let mut i: usize = 0;
        while i < blen
            invariant
                i <= blen,
                start + blen == n,
                n == hex@.len(),
                t == hex_body(hex@),
                t =~= hex@.skip(start as int),
                blen == 3 || blen == 6,
                vals@.len() == i,
                forall|j: int| 0 <= j < i ==> is_hex_digit(#[trigger] t[j]),
                forall|j: int|
                    0 <= j < i ==> (#[trigger] vals@[j]) as int == hex_digit_value(t[j])
                        && vals@[j] <= 15,
            decreases blen - i,
        {
            let ch = hex.get_char(start + i);
            proof {
                assert(ch == t[i as int]);
            }
            match hex_digit_of(ch) {
                Some(v) => vals.push(v),
                None => {
                    proof {
                        lemma_first_non_hex_scan(t, 0, i as int);
                    }
                    return Err(ParseError::InvalidDigit { ch });
                },
            }
            i = i + 1;
        }
        let (r, g, b) = if blen == 3 {
            (vals[0], vals[1], vals[2])
        } else {
            (16 * vals[0] + vals[1], 16 * vals[2] + vals[3], 16 * vals[4] + vals[5])
        };
        Ok(Color::from_rgb_scaled(r, g, b, 1))
    }
}

impl core::str::FromStr for Color {
    type Err = ParseError;

    fn from_str(s: &str) -> Result<Color, ParseError> {
        Color::from_hex(s)
    }
}

} // verus!
