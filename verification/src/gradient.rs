//! Piecewise-linear gradients between a sequence of colors.
//!
//! For `number` output samples over `len` input colors, sample `i` sits at
//! the continuous position `bias = i / (number - 1) * (len - 1)` along the
//! input sequence. The two neighbouring inputs are converted to their exact
//! RGB channels, quantized to the blending grid, blended linearly at the
//! fractional part of the bias, and the blend is converted back to a color
//! through the HSV constructor. The grid is where the gradient — like any
//! finite-precision interpolation — approximates; the conversions themselves
//! are exact.
use vstd::prelude::*;

verus! {

use vstd::arithmetic::div_mod::lemma_div_is_ordered;
use vstd::arithmetic::div_mod::lemma_fundamental_div_mod_converse;
use crate::color::Channel;
use crate::color::Color;
use crate::color::BLEND_MAX;
use crate::color::BLEND_SCALE;
use crate::color::spec_hsv_hue;
use crate::color::spec_hsv_sat;
use crate::color::spec_hsv_value;
use crate::rat::Rat;
use crate::rat::rat_round_scaled;
use crate::rat::lemma_half_up_div_bound;
use crate::rat::lemma_rat_round_scaled_congr;
use crate::rat::lemma_round_scaled_split;
use crate::rgb::spec_rgb_red;
use crate::rgb::spec_rgb_green;
use crate::rgb::spec_rgb_blue;

/// Why a gradient request was rejected.
#[derive(Clone, Copy, Debug, PartialEq, Eq, Structural)]
pub enum GradientError {
    /// The input sequence holds no colors.
    EmptyColors,
    /// Fewer than two output samples were requested.
    TooFewSamples,
}

/// The index of the lower of the two input colors blended for output sample
/// `i`: the integer part of `bias = i / (number - 1) * (len - 1)`.
pub open spec fn grad_index0(i: int, number: int, len: int) -> int {
    (i * (len - 1)) / (number - 1)
}

/// The numerator, over `number - 1`, of the fractional part of the bias of
/// output sample `i`.
pub open spec fn grad_tnum(i: int, number: int, len: int) -> int {
    (i * (len - 1)) % (number - 1)
}

/// The index of the upper of the two blended input colors: the one after
/// `grad_index0`, clamped to the last input.
pub open spec fn grad_index1(i: int, number: int, len: int) -> int {
    if grad_index0(i, number, len) + 1 < len {
        grad_index0(i, number, len) + 1
    } else {
        len - 1
    }
}

/// A grid channel blend at `t = tn / td`: `r0 * (1 - t) + r1 * t` over
/// numerators on the blending grid, rounded back to the grid (halves up).
pub open spec fn spec_blend(r0: int, r1: int, tn: int, td: int) -> int {
    (2 * (r0 * (td - tn) + r1 * tn) + td) / (2 * td)
}

/// The RGB channels of `c` on the gradient's blending grid: the exact
/// channels of the HSV-to-RGB transform, rounded to multiples of
/// `1/BLEND_SCALE` (halves up).
pub open spec fn spec_rgb_fx(c: Color) -> (int, int, int) {
    (
        rat_round_scaled(spec_rgb_red(c.hue(), c.saturation(), c.value()), BLEND_SCALE as int),
        rat_round_scaled(spec_rgb_green(c.hue(), c.saturation(), c.value()), BLEND_SCALE as int),
        rat_round_scaled(spec_rgb_blue(c.hue(), c.saturation(), c.value()), BLEND_SCALE as int),
    )
}

/// Output sample `i` of a gradient over `cs`: the two neighbouring input
/// colors converted to grid RGB, blended at the fractional bias position,
/// and wrapped back into a color by the HSV constructor.
pub open spec fn gradient_sample(cs: Seq<Color>, number: int, i: int, out: Color) -> bool {
    let len = cs.len() as int;
    let c0 = spec_rgb_fx(cs[grad_index0(i, number, len)]);
    let c1 = spec_rgb_fx(cs[grad_index1(i, number, len)]);
    let tn = grad_tnum(i, number, len);
    let td = number - 1;
    let rn = spec_blend(c0.0, c1.0, tn, td);
    let gn = spec_blend(c0.1, c1.1, tn, td);
    let bn = spec_blend(c0.2, c1.2, tn, td);
    &&& out.wf()
    &&& out.hue() == spec_hsv_hue(rn, gn, bn, BLEND_SCALE as int)
    &&& out.saturation() == spec_hsv_sat(rn, gn, bn, BLEND_SCALE as int)
    &&& out.value() == spec_hsv_value(rn, gn, bn, BLEND_SCALE as int)
}

/// An exact channel rounded to the gradient's blending grid: the numerator
/// over [`BLEND_SCALE`] of the grid value nearest to the channel (halves
/// up). This is the one place the gradient approximates; the conversions
/// themselves are exact.
fn quantize(ch: Channel) -> (q: u64)
    requires
        ch.wf(),
    ensures
        q as int == rat_round_scaled(ch.as_rat(), BLEND_SCALE as int),
        q <= BLEND_MAX,
{
    proof {
        lemma_div_is_ordered(ch.num as int, 255 * ch.den as int, ch.den as int);
        lemma_fundamental_div_mod_converse(255 * (ch.den as int), ch.den as int, 255, 0);
    }
    let q0 = ch.num / ch.den;
    let r0 = ch.num % ch.den;
    let kr = 256 * r0;
    let q2 = kr / ch.den;
    let r2 = kr % ch.den;
    let bump: u128 = if 2 * r2 >= ch.den {
        1
    } else {
        0
    };
    proof {
        let n = ch.num as int;
        let d = ch.den as int;
        lemma_round_scaled_split(n, d, 256);
        assert(2 * 256 * n + d <= d * (2 * 65280 + 1)) by (nonlinear_arith)
            requires
                n <= 255 * d,
                d >= 1,
        ;
        assert(2 * (256 * n) == 2 * 256 * n) by (nonlinear_arith);
        lemma_half_up_div_bound(256 * n, d, 65280);
    }
    (256 * q0 + q2 + bump) as u64
}

/// One blended channel: `r0 * (1 - t) + r1 * t` at `t = tn / td`, rounded
/// to the blending grid (halves up).
fn blend_channel(r0: u64, r1: u64, tn: u64, td: u64) -> (r: u64)
    requires
        r0 <= BLEND_MAX,
        r1 <= BLEND_MAX,
        tn < td,
    ensures
        r as int == spec_blend(r0 as int, r1 as int, tn as int, td as int),
        r <= BLEND_MAX,
{
    let w0 = r0 as u128;
    let w1 = r1 as u128;
    let wt = tn as u128;
    let wd = td as u128;
    proof {
        assert(w0 * (wd - wt) + w1 * wt <= 65280 * wd) by (nonlinear_arith)
            requires
                w0 <= 65280,
                w1 <= 65280,
                wt < wd,
        ;
    }
    let num = 2 * (w0 * (wd - wt) + w1 * wt) + wd;
    let q = num / (2 * wd);
    proof {
        let ni = (w0 * (wd - wt) + w1 * wt) as int;
        assert(ni <= 65280 * (wd as int));
        assert(2 * ni + wd as int <= wd as int * (2 * 65280 + 1)) by (nonlinear_arith)
            requires
                ni <= 65280 * (wd as int),
                wd >= 1,
        ;
        lemma_half_up_div_bound(ni, wd as int, 65280);
        assert(q as int == (2 * ni + wd as int) / (2 * wd as int));
    }
    q as u64
}

/// `number` colors forming a piecewise-linear blend across `colors` in RGB
/// space, evenly spaced from the first input to the last. An empty input is
/// an `EmptyColors` error and fewer than two requested samples is a
/// `TooFewSamples` error (the bias formula divides by `number - 1`); with a
/// single input color every sample is that color, converted to RGB and back.
pub fn generate_gradient(colors: &Vec<Color>, number: u32) -> (res: Result<
    Vec<Color>,
    GradientError,
>)
    requires
        forall|j: int| 0 <= j < colors@.len() ==> (#[trigger] colors@[j]).wf(),
    ensures
        match res {
            Ok(out) => {
                &&& colors@.len() >= 1
                &&& number >= 2
                &&& out@.len() == number
                &&& forall|i: int|
                    0 <= i < number ==> gradient_sample(
                        colors@,
                        number as int,
                        i,
                        #[trigger] out@[i],
                    )
            },
            Err(GradientError::EmptyColors) => colors@.len() == 0,
            Err(GradientError::TooFewSamples) => colors@.len() >= 1 && number < 2,
        },
{
    if colors.len() == 0 {
        return Err(GradientError::EmptyColors);
    }
    if number < 2 {
        return Err(GradientError::TooFewSamples);
    }
    let len = colors.len();
    let td = (number - 1) as u64;
    let mut out: Vec<Color> = Vec::new();
    let mut i: u32 = 0;
    while i < number
        invariant
            i <= number,
            number >= 2,
            len == colors@.len(),
            len >= 1,
            td == number - 1,
            out@.len() == i,
            forall|j: int| 0 <= j < colors@.len() ==> (#[trigger] colors@[j]).wf(),
            forall|j: int|
                0 <= j < i ==> gradient_sample(colors@, number as int, j, #[trigger] out@[j]),
        decreases number - i,
    {
        proof {
            let pi = i as int;
            let pl = len as int;
            let pt = td as int;
            assert(0 <= pi * (pl - 1) <= pt * (pl - 1) && pi * (pl - 1) < 0x1000000000000000000000000)
                by (nonlinear_arith)
                requires
                    0 <= pi <= pt,
                    1 <= pl <= 0xffffffffffffffff,
                    pt <= 0xffffffff,
            ;
            assert(pt * (pl - 1) == (pl - 1) * pt) by (nonlinear_arith);
            lemma_div_is_ordered(pi * (pl - 1), (pl - 1) * pt, pt);
            lemma_fundamental_div_mod_converse((pl - 1) * pt, pt, pl - 1, 0);
        }
        let pos = (i as u128) * (len as u128 - 1);
        let idx0 = (pos / (td as u128)) as usize;
        let tn = (pos % (td as u128)) as u64;
        let idx1 = if idx0 + 1 < len {
            idx0 + 1
        } else {
            len - 1
        };
        let ch0 = colors[idx0].to_rgb();
        let ch1 = colors[idx1].to_rgb();
        proof {
            let a = colors@[idx0 as int];
            let e = colors@[idx1 as int];
            lemma_rat_round_scaled_congr(
                ch0[0].as_rat(),
                spec_rgb_red(a.hue(), a.saturation(), a.value()),
                BLEND_SCALE as int,
            );
            lemma_rat_round_scaled_congr(
                ch0[1].as_rat(),
                spec_rgb_green(a.hue(), a.saturation(), a.value()),
                BLEND_SCALE as int,
            );
            lemma_rat_round_scaled_congr(
                ch0[2].as_rat(),
                spec_rgb_blue(a.hue(), a.saturation(), a.value()),
                BLEND_SCALE as int,
            );
            lemma_rat_round_scaled_congr(
                ch1[0].as_rat(),
                spec_rgb_red(e.hue(), e.saturation(), e.value()),
                BLEND_SCALE as int,
            );
            lemma_rat_round_scaled_congr(
                ch1[1].as_rat(),
                spec_rgb_green(e.hue(), e.saturation(), e.value()),
                BLEND_SCALE as int,
            );
            lemma_rat_round_scaled_congr(
                ch1[2].as_rat(),
                spec_rgb_blue(e.hue(), e.saturation(), e.value()),
                BLEND_SCALE as int,
            );
        }
        let q00 = quantize(ch0[0]);
        let q01 = quantize(ch0[1]);
        let q02 = quantize(ch0[2]);
        let q10 = quantize(ch1[0]);
        let q11 = quantize(ch1[1]);
        let q12 = quantize(ch1[2]);
        let r = blend_channel(q00, q10, tn, td);
        let g = blend_channel(q01, q11, tn, td);
        let b = blend_channel(q02, q12, tn, td);
        let col = Color::from_rgb_scaled(r, g, b, BLEND_SCALE);
        proof {
            assert(idx0 as int == grad_index0(i as int, number as int, len as int));
            assert(tn as int == grad_tnum(i as int, number as int, len as int));
            assert(idx1 as int == grad_index1(i as int, number as int, len as int));
            assert(gradient_sample(colors@, number as int, i as int, col));
        }
        out.push(col);
        i = i + 1;
    }
    Ok(out)
}

} // verus!
