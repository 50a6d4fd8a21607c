//! The color type and its constructors from RGB triples.
//!
//! A color is hue, saturation and value, each stored as an exact rational
//! (numerator and denominator in `u64`). Constructors take RGB channels
//! either as integers in `0..=255` or as exact rational [`Channel`] values,
//! both a special case of channel numerators over one common denominator,
//! for which the standard RGB-to-HSV formulas come out exactly:
//! `value = max/255` and `saturation = delta/max` and the hue ratios are all
//! invariant under the common scale, so the denominators cancel.
use vstd::prelude::*;

verus! {

use vstd::arithmetic::div_mod::lemma_fundamental_div_mod;
use vstd::arithmetic::div_mod::lemma_fundamental_div_mod_converse;
use crate::rat::Rat;
use crate::rat::rat_round;
use crate::rat::lemma_round_scaled_split;
use crate::rat::lemma_half_up_div_bound;

/// Bound on the product of a color's three denominators: the machine limit
/// under which the exact HSV-to-RGB transform fits 128-bit arithmetic.
pub const WF_DEN_PRODUCT: u128 = 0x40000000000000000000000000000;

/// Largest denominator of a well-formed [`Channel`]: what [`Color::to_rgb`]
/// can produce, `60 * WF_DEN_PRODUCT`.
pub const CHAN_DEN_LIMIT: u128 = 60 * WF_DEN_PRODUCT;

/// Bound on `255 * denominator` for the common-denominator RGB constructor:
/// the machine limit that keeps the resulting color well formed.
pub const SCALED_DEN_LIMIT: u64 = 0x4000000000;

/// Fixed-point scale of the gradient generator's blending grid: blended
/// channels are carried in 256ths.
pub const BLEND_SCALE: u64 = 256;

/// Largest blended channel numerator over [`BLEND_SCALE`]: the channel
/// value 255.
pub const BLEND_MAX: u64 = 255 * 256;

/// An RGB channel value on the `0..=255` scale, held exactly as the
/// rational `num / den`. No rounding: the value is exact.
#[derive(Clone, Copy, Debug, PartialEq, Eq, Structural)]
pub struct Channel {
    pub num: u128,
    pub den: u128,
}

impl Channel {
    /// The channel value as a rational on the `0..=255` scale.
    pub open spec fn as_rat(&self) -> Rat {
        Rat { n: self.num as int, d: self.den as int }
    }

    /// The channel value lies in `[0, 255]` and the denominator is positive
    /// and within the machine limit of the conversions.
    pub open spec fn wf(&self) -> bool {
        &&& 1 <= self.den <= CHAN_DEN_LIMIT
        &&& self.num <= 255 * self.den
    }

    /// The integer channel value `v` as a `Channel`.
    pub fn from_int(v: u32) -> (c: Channel)
        requires
            v <= 255,
        ensures
            c.num == v,
            c.den == 1,
            c.wf(),
    {
        Channel { num: v as u128, den: 1 }
    }

    /// The integer nearest to the channel value, halves rounded up.
    pub fn round_to_int(&self) -> (v: u32)
        requires
            self.wf(),
        ensures
            v as int == rat_round(self.as_rat()),
            v <= 255,
    {
        let q = self.num / self.den;
        let r = self.num % self.den;
        let bump: u128 = if 2 * r >= self.den {
            1
        } else {
            0
        };
        proof {
            let n = self.num as int;
            let d = self.den as int;
            lemma_fundamental_div_mod(n, d);
            lemma_round_scaled_split(n, d, 1);
            lemma_fundamental_div_mod_converse(n % d, d, 0, n % d);
            assert(2 * 1 * n + d == 2 * n + d);
            assert(2 * n + d <= d * (2 * 255 + 1)) by (nonlinear_arith)
                requires
                    n <= 255 * d,
                    d >= 1,
            ;
            lemma_half_up_div_bound(n, d, 255);
        }
        (q + bump) as u32
    }
}

pub open spec fn spec_max3(a: int, b: int, c: int) -> int {
    if a >= b && a >= c {
        a
    } else if b >= c {
        b
    } else {
        c
    }
}

pub open spec fn spec_min3(a: int, b: int, c: int) -> int {
    if a <= b && a <= c {
        a
    } else if b <= c {
        b
    } else {
        c
    }
}

/// The value component of the HSV form of an RGB triple given as channel
/// numerators over the common positive denominator `d`, on the `0..=255`
/// scale: `value = max(r, g, b) / 255`, so over `255 * d` unnormalized.
pub open spec fn spec_hsv_value(rn: int, gn: int, bn: int, d: int) -> Rat {
    Rat { n: spec_max3(rn, gn, bn), d: 255 * d }
}

/// The saturation component: `delta / max`, or zero for black. The common
/// denominator of the channels cancels in the quotient.
pub open spec fn spec_hsv_sat(rn: int, gn: int, bn: int, d: int) -> Rat {
    let mx = spec_max3(rn, gn, bn);
    let dl = mx - spec_min3(rn, gn, bn);
    if mx == 0 {
        Rat { n: 0, d: 1 }
    } else {
        Rat { n: dl, d: mx }
    }
}

/// The hue component in degrees, by the six-sector formula: zero when
/// `delta == 0`; otherwise `60 * (g - b) / delta` when red is the maximum
/// (ties preferring red, then green, then blue), `60 * ((b - r) / delta + 2)`
/// for green, `60 * ((r - g) / delta + 4)` for blue, normalized into
/// `[0, 360)` by adding 360 when negative. Only the red sector can come out
/// negative: in the green and blue sectors the maximal channel is not `r`
/// (resp. not `g`), which forces `(b - r) > -delta` (resp. `(r - g) >
/// -delta`), so the shift is folded into the red sector alone. The common
/// channel denominator cancels in each quotient.
pub open spec fn spec_hsv_hue(rn: int, gn: int, bn: int, d: int) -> Rat {
    let mx = spec_max3(rn, gn, bn);
    let dl = mx - spec_min3(rn, gn, bn);
    if dl == 0 {
        Rat { n: 0, d: 1 }
    } else if mx == rn {
        let t = 60 * (gn - bn);
        Rat { n: if t < 0 { t + 360 * dl } else { t }, d: dl }
    } else if mx == gn {
        Rat { n: 60 * (bn - rn) + 120 * dl, d: dl }
    } else {
        Rat { n: 60 * (rn - gn) + 240 * dl, d: dl }
    }
}

/// The common denominator three channels are brought to: their own when all
/// three are equal (as [`Color::to_rgb`] returns them), else the product.
pub open spec fn common_den3(r: Channel, g: Channel, b: Channel) -> int {
    if r.den == g.den && g.den == b.den {
        r.den as int
    } else {
        (r.den as int) * (g.den as int) * (b.den as int)
    }
}

/// The red numerator over [`common_den3`].
pub open spec fn scaled_red(r: Channel, g: Channel, b: Channel) -> int {
    if r.den == g.den && g.den == b.den {
        r.num as int
    } else {
        (r.num as int) * (g.den as int) * (b.den as int)
    }
}

/// The green numerator over [`common_den3`].
pub open spec fn scaled_green(r: Channel, g: Channel, b: Channel) -> int {
    if r.den == g.den && g.den == b.den {
        g.num as int
    } else {
        (g.num as int) * (r.den as int) * (b.den as int)
    }
}

/// The blue numerator over [`common_den3`].
pub open spec fn scaled_blue(r: Channel, g: Channel, b: Channel) -> int {
    if r.den == g.den && g.den == b.den {
        b.num as int
    } else {
        (b.num as int) * (r.den as int) * (g.den as int)
    }
}

/// A color, stored as hue, saturation and value, each an exact rational.
/// Hue is in degrees in `[0, 360)`; saturation and value are in `[0, 1]`.
#[derive(Clone, Copy, Debug, PartialEq, Eq, Structural)]
pub struct Color {
    pub hue_num: u64,
    pub hue_den: u64,
    pub sat_num: u64,
    pub sat_den: u64,
    pub val_num: u64,
    pub val_den: u64,
}

impl Color {
    /// The hue in degrees.
    pub open spec fn hue(&self) -> Rat {
        Rat { n: self.hue_num as int, d: self.hue_den as int }
    }

    /// The saturation, in `[0, 1]`.
    pub open spec fn saturation(&self) -> Rat {
        Rat { n: self.sat_num as int, d: self.sat_den as int }
    }

    /// The value (brightness), in `[0, 1]`.
    pub open spec fn value(&self) -> Rat {
        Rat { n: self.val_num as int, d: self.val_den as int }
    }

    /// Well-formed: denominators positive and their product within the
    /// machine limit of the exact conversions (every constructor stays far
    /// under it), saturation and value in `[0, 1]`, hue in `[0, 360)`.
    pub open spec fn wf(&self) -> bool {
        &&& 1 <= self.hue_den
        &&& 1 <= self.sat_den
        &&& 1 <= self.val_den
        &&& (self.hue_den as int) * (self.sat_den as int) * (self.val_den as int)
            <= WF_DEN_PRODUCT as int
        &&& self.sat_num <= self.sat_den
        &&& self.val_num <= self.val_den
        &&& self.hue_num < 360 * self.hue_den
    }

    /// The HSV form of the RGB triple `(rn/den, gn/den, bn/den)` on the
    /// `0..=255` scale. This is the one conversion all RGB constructors and
    /// the gradient generator share.
    pub fn from_rgb_scaled(rn: u64, gn: u64, bn: u64, den: u64) -> (c: Color)
        requires
            1 <= den,
            255 * den <= SCALED_DEN_LIMIT,
            rn <= 255 * den,
            gn <= 255 * den,
            bn <= 255 * den,
        ensures
            c.wf(),
            c.hue() == spec_hsv_hue(rn as int, gn as int, bn as int, den as int),
            c.saturation() == spec_hsv_sat(rn as int, gn as int, bn as int, den as int),
            c.value() == spec_hsv_value(rn as int, gn as int, bn as int, den as int),
    {
        let mx = if rn >= gn && rn >= bn {
            rn
        } else if gn >= bn {
            gn
        } else {
            bn
        };
        let mn = if rn <= gn && rn <= bn {
            rn
        } else if gn <= bn {
            gn
        } else {
            bn
        };
        let dl = mx - mn;
        let (sat_num, sat_den) = if mx == 0 {
            (0u64, 1u64)
        } else {
            (dl, mx)
        };
        let (hue_num, hue_den) = if dl == 0 {
            (0u64, 1u64)
        } else if mx == rn {
            if gn >= bn {
                (60 * (gn - bn), dl)
            } else {
                (360 * dl - 60 * (bn - gn), dl)
            }
        } else if mx == gn {
            if bn >= rn {
                (60 * (bn - rn) + 120 * dl, dl)
            } else {
                (120 * dl - 60 * (rn - bn), dl)
            }
        } else {
            if rn >= gn {
                (60 * (rn - gn) + 240 * dl, dl)
            } else {
                (240 * dl - 60 * (gn - rn), dl)
            }
        };
        proof {
            assert((hue_den as int) * (sat_den as int) * ((255 * den) as int) <= WF_DEN_PRODUCT
                as int) by (nonlinear_arith)
                requires
                    1 <= hue_den <= 255 * den,
                    1 <= sat_den <= 255 * den,
                    255 * den <= SCALED_DEN_LIMIT,
                    SCALED_DEN_LIMIT == 0x4000000000u64,
                    WF_DEN_PRODUCT == 0x40000000000000000000000000000u128,
            ;
        }
        Color {
            hue_num,
            hue_den,
            sat_num,
            sat_den,
            val_num: mx,
            val_den: 255 * den,
        }
    }

    /// The HSV form of an integer RGB triple, each channel in `0..=255`.
    /// The channels are normalized by 255; `value = max`, `saturation =
    /// delta/max` (zero for black), hue by the six-sector formula with ties
    /// preferring red, then green, then blue.
    pub fn from_rgb(red: u32, green: u32, blue: u32) -> (c: Color)
        requires
            red <= 255,
            green <= 255,
            blue <= 255,
        ensures
            c.wf(),
            c.hue() == spec_hsv_hue(red as int, green as int, blue as int, 1),
            c.saturation() == spec_hsv_sat(red as int, green as int, blue as int, 1),
            c.value() == spec_hsv_value(red as int, green as int, blue as int, 1),
    {
        Color::from_rgb_scaled(red as u64, green as u64, blue as u64, 1)
    }

    /// The HSV form of a fractional RGB triple on the `0..=255` scale, by
    /// the same algorithm as [`Color::from_rgb`]: the exact rational
    /// channels are brought to a common denominator (the formulas are scale
    /// invariant) and nothing is rounded. The denominator bound is the
    /// machine limit of exact 64-bit storage; it admits everything
    /// [`Color::to_rgb`] returns for constructor-built colors.
    pub fn from_rgbf(red: Channel, green: Channel, blue: Channel) -> (c: Color)
        requires
            red.wf(),
            green.wf(),
            blue.wf(),
            255 * common_den3(red, green, blue) <= SCALED_DEN_LIMIT as int,
        ensures
            c.wf(),
            c.hue() == spec_hsv_hue(
                scaled_red(red, green, blue),
                scaled_green(red, green, blue),
                scaled_blue(red, green, blue),
                common_den3(red, green, blue),
            ),
            c.saturation() == spec_hsv_sat(
                scaled_red(red, green, blue),
                scaled_green(red, green, blue),
                scaled_blue(red, green, blue),
                common_den3(red, green, blue),
            ),
            c.value() == spec_hsv_value(
                scaled_red(red, green, blue),
                scaled_green(red, green, blue),
                scaled_blue(red, green, blue),
                common_den3(red, green, blue),
            ),
    {
        if red.den == green.den && green.den == blue.den {
            Color::from_rgb_scaled(
                red.num as u64,
                green.num as u64,
                blue.num as u64,
                red.den as u64,
            )
        } else {
            proof {
                assert(green.den * blue.den <= red.den * green.den * blue.den && red.den
                    * green.den <= red.den * green.den * blue.den && red.num * (green.den
                    * blue.den) <= 255 * (red.den * green.den * blue.den) && green.num * (red.den
                    * blue.den) <= 255 * (red.den * green.den * blue.den) && blue.num * (red.den
                    * green.den) <= 255 * (red.den * green.den * blue.den) && red.den * blue.den
                    <= red.den * green.den * blue.den && 1 <= red.den * green.den * blue.den) by (nonlinear_arith)
                    requires
                        1 <= red.den,
                        1 <= green.den,
                        1 <= blue.den,
                        red.num <= 255 * red.den,
                        green.num <= 255 * green.den,
                        blue.num <= 255 * blue.den,
                ;
            }
            let d = red.den * green.den * blue.den;
            let rn = red.num * (green.den * blue.den);
            let gn = green.num * (red.den * blue.den);
            let bn = blue.num * (red.den * green.den);
            proof {
                assert(rn as int == scaled_red(red, green, blue) && gn as int == scaled_green(
                    red,
                    green,
                    blue,
                ) && bn as int == scaled_blue(red, green, blue)) by (nonlinear_arith)
                    requires
                        rn == red.num * (green.den * blue.den),
                        gn == green.num * (red.den * blue.den),
                        bn == blue.num * (red.den * green.den),
                        scaled_red(red, green, blue) == (red.num as int) * (green.den as int) * (
                        blue.den as int),
                        scaled_green(red, green, blue) == (green.num as int) * (red.den as int) * (
                        blue.den as int),
                        scaled_blue(red, green, blue) == (blue.num as int) * (red.den as int) * (
                        green.den as int),
                ;
            }
            Color::from_rgb_scaled(rn as u64, gn as u64, bn as u64, d as u64)
        }
    }
}

} // verus!
