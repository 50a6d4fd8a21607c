//! The round-trip laws of the color conversions.
//!
//! The central fact is [`lemma_rgb_hsv_round_trip`]: converting an RGB
//! triple to HSV and back is the identity on exact rational channel values.
//! From it follow the integer round trip (RGB integers survive conversion
//! and rounding exactly), the hexadecimal round trip (parsing a six-digit
//! lowercase hex string and writing the color back yields the same string),
//! and lossless re-emission (a color sent through `to_rgb` and re-wrapped by
//! `from_rgbf` hex-emits exactly as the original). The gradient endpoint law
//! says the first and last gradient samples are the first and last inputs,
//! converted to RGB and back.
use vstd::prelude::*;

verus! {

use vstd::arithmetic::div_mod::lemma_fundamental_div_mod_converse;
use crate::color::BLEND_SCALE;
use crate::color::Channel;
use crate::color::common_den3;
use crate::color::scaled_red;
use crate::color::scaled_green;
use crate::color::scaled_blue;
use crate::color::Color;
use crate::color::spec_hsv_hue;
use crate::color::spec_hsv_sat;
use crate::color::spec_hsv_value;
use crate::color::spec_max3;
use crate::color::spec_min3;
use crate::gradient::grad_index0;
use crate::gradient::grad_index1;
use crate::gradient::grad_tnum;
use crate::gradient::gradient_sample;
use crate::gradient::spec_blend;
use crate::gradient::spec_rgb_fx;
use crate::hex::hex_channel;
use crate::hex::hex_digit_value;
use crate::hex::is_lower_hex_digit;
use crate::rat::Rat;
use crate::rat::lemma_rat_add_congr;
use crate::rat::lemma_rat_eq_trans;
use crate::rat::lemma_rat_mul_congr;
use crate::rat::lemma_rat_round_congr;
use crate::rat::lemma_rat_round_scaled_congr;
use crate::rat::rat_abs;
use crate::rat::rat_add;
use crate::rat::rat_eq;
use crate::rat::rat_le;
use crate::rat::rat_lt;
use crate::rat::rat_mod2;
use crate::rat::rat_mul;
use crate::rat::rat_of_int;
use crate::rat::rat_round;
use crate::rat::rat_round_scaled;
use crate::rat::rat_sub;
use crate::rat::rat_wf;
use crate::rgb::spec_chroma;
use crate::rgb::spec_hex6;
use crate::rgb::spec_hex_digit;
use crate::rgb::spec_hue_prime;
use crate::rgb::spec_m_term;
use crate::rgb::spec_rgb_blue;
use crate::rgb::spec_rgb_channel;
use crate::rgb::spec_rgb_green;
use crate::rgb::spec_rgb_red;
use crate::rgb::spec_sector_rgb;
use crate::rgb::spec_x_term;

/// The floor of `hn / (120 * dd)`, for the `h' mod 2` computation.
proof fn lemma_j_eval(hn: int, dd: int, j: int)
    requires
        dd >= 1,
        0 <= hn - 120 * dd * j,
        hn - 120 * dd * j < 120 * dd,
    ensures
        hn / (2 * (dd * 60)) == j,
{
    assert(hn == j * (120 * dd) + (hn - 120 * dd * j)) by (nonlinear_arith);
    lemma_fundamental_div_mod_converse(hn, 120 * dd, j, hn - 120 * dd * j);
    assert(2 * (dd * 60) == 120 * dd);
}

/// The `x` term of the transform evaluates to `e / 255` on the unit scale,
/// where `60 * e` is the distance of the hue numerator from the nearest even
/// sector boundary `120 * dl * j`, reflected at the odd boundary.
proof fn lemma_x_eval(h: Rat, s: Rat, v: Rat, mx: int, dl: int, d: int, j: int, e: int)
    requires
        dl >= 1,
        mx >= 1,
        d >= 1,
        s == (Rat { n: dl, d: mx }),
        v == (Rat { n: mx, d: 255 * d }),
        h.d == dl,
        0 <= h.n - 120 * dl * j,
        h.n - 120 * dl * j < 120 * dl,
        (h.n - 120 * dl * j <= 60 * dl && 60 * e == h.n - 120 * dl * j) || (h.n - 120 * dl * j
            >= 60 * dl && 60 * e == 120 * dl - (h.n - 120 * dl * j)),
    ensures
        rat_eq(spec_x_term(h, s, v), Rat { n: e, d: 255 * d }),
        rat_wf(spec_x_term(h, s, v)),
{
    let hp = spec_hue_prime(h);
    assert(hp.n == h.n && hp.d == dl * 60);
    lemma_j_eval(h.n, dl, j);
    let mod2 = rat_mod2(hp);
    assert(mod2.n == h.n - 2 * j * (dl * 60) && mod2.d == dl * 60) by {
        assert(2 * (h.n / (2 * hp.d)) * hp.d == 2 * j * (dl * 60)) by (nonlinear_arith)
            requires
                hp.d == dl * 60,
                h.n / (2 * hp.d) == j,
        ;
    }
    assert(mod2.n == h.n - 120 * dl * j) by (nonlinear_arith)
        requires
            mod2.n == h.n - 2 * j * (dl * 60),
    ;
    let t1 = rat_sub(mod2, rat_of_int(1));
    assert(t1.n == mod2.n - dl * 60 && t1.d == (dl * 60) * 1);
    let f = rat_abs(t1);
    let t2 = rat_sub(rat_of_int(1), f);
    assert(t2.n == 1 * ((dl * 60) * 1) - f.n * 1 && t2.d == 1 * ((dl * 60) * 1));
    assert(t2.n == 60 * e) by {
        if t1.n < 0 {
            assert(f.n == dl * 60 - mod2.n);
        } else {
            assert(f.n == mod2.n - dl * 60);
        }
    }
    let xr = spec_x_term(h, s, v);
    assert(xr.n == (mx * dl) * (60 * e) && xr.d == ((255 * d) * mx) * (1 * ((dl * 60) * 1)));
    assert(((mx * dl) * (60 * e)) * (255 * d) == e * (((255 * d) * mx) * (1 * ((dl * 60) * 1))))
        by (nonlinear_arith);
    assert(((255 * d) * mx) * (1 * ((dl * 60) * 1)) > 0) by (nonlinear_arith)
        requires
            mx >= 1,
            dl >= 1,
            d >= 1,
    ;
}

/// One output channel over a common denominator: when the sector base is
/// `w / (255 * dd)` and `m` is `q / (255 * dd)` as rational values, the
/// channel `(base + m) * 255` is `(w + q) / dd`.
proof fn lemma_channel_eq(base: Rat, s: Rat, v: Rat, w: int, q: int, dd: int)
    requires
        rat_wf(base),
        rat_wf(s),
        rat_wf(v),
        dd >= 1,
        rat_eq(base, Rat { n: w, d: 255 * dd }),
        rat_eq(spec_m_term(s, v), Rat { n: q, d: 255 * dd }),
    ensures
        rat_eq(spec_rgb_channel(base, s, v), Rat { n: w + q, d: dd }),
        rat_wf(spec_rgb_channel(base, s, v)),
{
    let m = spec_m_term(s, v);
    let sm = Rat { n: w, d: 255 * dd };
    let qm = Rat { n: q, d: 255 * dd };
    assert(m.d == (v.d) * (v.d * s.d));
    assert(m.d > 0) by (nonlinear_arith)
        requires
            v.d > 0,
            s.d > 0,
            m.d == (v.d) * (v.d * s.d),
    ;
    lemma_rat_add_congr(base, sm, m, qm);
    let a1 = rat_add(base, m);
    let a2 = rat_add(sm, qm);
    let a3 = Rat { n: w + q, d: 255 * dd };
    assert(rat_eq(a2, a3)) by {
        assert((w * (255 * dd) + q * (255 * dd)) * (255 * dd) == (w + q) * ((255 * dd) * (255 * dd)))
            by (nonlinear_arith);
    }
    assert(rat_wf(a1) && rat_wf(a2)) by (nonlinear_arith)
        requires
            a1.d == base.d * m.d,
            a2.d == (255 * dd) * (255 * dd),
            base.d > 0,
            m.d > 0,
            dd >= 1,
    ;
    lemma_rat_eq_trans(a1, a2, a3);
    lemma_rat_mul_congr(a1, a3, rat_of_int(255), rat_of_int(255));
    let ch = rat_mul(a1, rat_of_int(255));
    let ch2 = rat_mul(a3, rat_of_int(255));
    assert(rat_eq(ch2, Rat { n: w + q, d: dd })) by {
        assert(((w + q) * 255) * dd == (w + q) * ((255 * dd) * 1)) by (nonlinear_arith);
    }
    assert(rat_wf(ch) && rat_wf(ch2)) by (nonlinear_arith)
        requires
            ch.d == a1.d * 1,
            ch2.d == (255 * dd) * 1,
            a1.d > 0,
            dd >= 1,
    ;
    lemma_rat_eq_trans(ch, ch2, Rat { n: w + q, d: dd });
    assert(spec_rgb_channel(base, s, v) == ch);
}

/// The chroma and `m` terms of a chromatic color (`delta > 0`) are
/// `delta / 255` and `min / 255` on the unit scale.
proof fn lemma_c_m_eval(s: Rat, v: Rat, mx: int, mn: int, dl: int, d: int)
    requires
        mx >= 1,
        mn >= 0,
        dl == mx - mn,
        d >= 1,
        s == (Rat { n: dl, d: mx }),
        v == (Rat { n: mx, d: 255 * d }),
    ensures
        rat_eq(spec_chroma(s, v), Rat { n: dl, d: 255 * d }),
        rat_eq(spec_m_term(s, v), Rat { n: mn, d: 255 * d }),
        rat_wf(spec_chroma(s, v)),
        rat_wf(spec_m_term(s, v)),
{
    let c = spec_chroma(s, v);
    let m = spec_m_term(s, v);
    assert(c.n == mx * dl && c.d == (255 * d) * mx);
    assert(rat_eq(c, Rat { n: dl, d: 255 * d })) by {
        assert((mx * dl) * (255 * d) == dl * ((255 * d) * mx)) by (nonlinear_arith);
    }
    assert(m.n == mx * ((255 * d) * mx) - (mx * dl) * (255 * d));
    assert(m.d == (255 * d) * ((255 * d) * mx));
    assert(rat_eq(m, Rat { n: mn, d: 255 * d })) by {
        assert((mx * ((255 * d) * mx) - (mx * dl) * (255 * d)) * (255 * d) == mn * ((255 * d) * ((
        255 * d) * mx))) by (nonlinear_arith)
            requires
                dl == mx - mn,
        ;
    }
    assert(rat_wf(c) && rat_wf(m)) by (nonlinear_arith)
        requires
            c.d == (255 * d) * mx,
            m.d == (255 * d) * ((255 * d) * mx),
            mx >= 1,
            d >= 1,
    ;
}

/// Converting an RGB triple (channel numerators over a common positive
/// denominator `d`, each channel in `[0, 255]`) to HSV and back through the
/// six-sector transform returns exactly the original channels, as rational
/// values.
#[verifier::rlimit(100)]
pub proof fn lemma_rgb_hsv_round_trip(rn: int, gn: int, bn: int, d: int)
    requires
        d >= 1,
        0 <= rn <= 255 * d,
        0 <= gn <= 255 * d,
        0 <= bn <= 255 * d,
    ensures
        ({
            let h = spec_hsv_hue(rn, gn, bn, d);
            let s = spec_hsv_sat(rn, gn, bn, d);
            let v = spec_hsv_value(rn, gn, bn, d);
            &&& rat_eq(spec_rgb_red(h, s, v), Rat { n: rn, d: d })
            &&& rat_eq(spec_rgb_green(h, s, v), Rat { n: gn, d: d })
            &&& rat_eq(spec_rgb_blue(h, s, v), Rat { n: bn, d: d })
            &&& rat_wf(spec_rgb_red(h, s, v))
            &&& rat_wf(spec_rgb_green(h, s, v))
            &&& rat_wf(spec_rgb_blue(h, s, v))
        }),
{
    let mx = spec_max3(rn, gn, bn);
    let mn = spec_min3(rn, gn, bn);
    let dl = mx - mn;
    let h = spec_hsv_hue(rn, gn, bn, d);
    let s = spec_hsv_sat(rn, gn, bn, d);
    let v = spec_hsv_value(rn, gn, bn, d);
    let c = spec_chroma(s, v);
    let hp = spec_hue_prime(h);
    let z = rat_of_int(0);
    assert(mn <= rn <= mx && mn <= gn <= mx && mn <= bn <= mx);
    assert(rat_eq(z, Rat { n: 0, d: 255 * d }));
    if dl == 0 {
        // achromatic: all channels equal, hue and saturation zero
        let m = spec_m_term(s, v);
        let xr = spec_x_term(h, s, v);
        assert(rn == mx && gn == mx && bn == mx);
        assert(h == Rat { n: 0, d: 1 });
        assert(hp.n == 0 && hp.d == 60);
        assert(rat_le(rat_of_int(0), hp) && rat_lt(hp, rat_of_int(1)));
        assert(s.n == 0 && c.n == 0 && xr.n == 0);
        assert(c.n * (255 * d) == 0 * c.d && xr.n * (255 * d) == 0 * xr.d);
        assert(rat_eq(c, Rat { n: 0, d: 255 * d }) && rat_eq(xr, Rat { n: 0, d: 255 * d }));
        assert(rat_wf(c) && rat_wf(m) && rat_wf(xr)) by (nonlinear_arith)
            requires
                c.d == v.d * s.d,
                m.d == v.d * (v.d * s.d),
                xr.d == (v.d * s.d) * (1 * ((h.d * 60) * 1)),
                v.d > 0,
                s.d > 0,
                h.d > 0,
        ;
        if mx == 0 {
            assert(m.n == 0);
            assert(rat_eq(m, Rat { n: mn, d: 255 * d }));
        } else {
            assert(m.n == mx * ((255 * d) * mx) - (mx * 0) * (255 * d));
            assert(m.n * (255 * d) == mn * m.d) by (nonlinear_arith)
                requires
                    m.n == mx * ((255 * d) * mx) - (mx * 0) * (255 * d),
                    m.d == (255 * d) * ((255 * d) * mx),
                    mn == mx,
            ;
        }
        assert(spec_sector_rgb(h, s, v) == (c, xr, z));
        lemma_channel_eq(c, s, v, 0, mn, d);
        lemma_channel_eq(xr, s, v, 0, mn, d);
        lemma_channel_eq(z, s, v, 0, mn, d);
        assert(0 + mn == rn && 0 + mn == gn && 0 + mn == bn);
    } else {
        assert(mx >= 1 && mn >= 0);
        assert(s == Rat { n: dl, d: mx } && v == Rat { n: mx, d: 255 * d });
        lemma_c_m_eval(s, v, mx, mn, dl, d);
        let xr = spec_x_term(h, s, v);
        assert(hp.n == h.n && hp.d == dl * 60);
        if mx == rn {
            if gn >= bn {
                let e = gn - bn;
                assert(h == Rat { n: 60 * e, d: dl });
                assert(e <= dl && mn == bn);
                lemma_x_eval(h, s, v, mx, dl, d, 0, e);
                if e < dl {
                    assert(rat_lt(hp, rat_of_int(1)));
                    assert(spec_sector_rgb(h, s, v) == (c, xr, z));
                    lemma_channel_eq(c, s, v, dl, mn, d);
                    lemma_channel_eq(xr, s, v, e, mn, d);
                    lemma_channel_eq(z, s, v, 0, mn, d);
                    assert(dl + mn == rn && e + mn == gn && 0 + mn == bn);
                } else {
                    // g - b == delta: g is also maximal and h' is exactly 1
                    assert(e == dl && gn == mx && bn == mn);
                    assert(!rat_lt(hp, rat_of_int(1)));
                    assert(rat_le(rat_of_int(1), hp) && rat_lt(hp, rat_of_int(2)));
                    assert(spec_sector_rgb(h, s, v) == (xr, c, z));
                    lemma_channel_eq(xr, s, v, e, mn, d);
                    lemma_channel_eq(c, s, v, dl, mn, d);
                    lemma_channel_eq(z, s, v, 0, mn, d);
                    assert(e + mn == rn && dl + mn == gn && 0 + mn == bn);
                }
            } else {
                // g < b: the red-sector hue came out negative and was shifted
                let e = bn - gn;
                assert(h == Rat { n: 60 * (gn - bn) + 360 * dl, d: dl });
                assert(e <= dl && mn == gn);
                assert(h.n - 120 * dl * 2 >= 60 * dl && 60 * e == 120 * dl - (h.n - 120 * dl * 2));
                lemma_x_eval(h, s, v, mx, dl, d, 2, e);
                assert(!rat_lt(hp, rat_of_int(5)));
                assert(spec_sector_rgb(h, s, v) == (c, z, xr));
                lemma_channel_eq(c, s, v, dl, mn, d);
                lemma_channel_eq(z, s, v, 0, mn, d);
                lemma_channel_eq(xr, s, v, e, mn, d);
                assert(dl + mn == rn && 0 + mn == gn && e + mn == bn);
            }
        } else if mx == gn {
            assert(rn < mx);
            assert(h == Rat { n: 60 * (bn - rn) + 120 * dl, d: dl });
            if bn >= rn {
                let e = bn - rn;
                assert(e <= dl);
                assert(h.n - 120 * dl * 1 == 60 * e && 60 * e <= 60 * dl);
                lemma_x_eval(h, s, v, mx, dl, d, 1, e);
                if e < dl {
                    assert(mn == rn);
                    assert(rat_le(rat_of_int(2), hp) && rat_lt(hp, rat_of_int(3)));
                    assert(spec_sector_rgb(h, s, v) == (z, c, xr));
                    lemma_channel_eq(z, s, v, 0, mn, d);
                    lemma_channel_eq(c, s, v, dl, mn, d);
                    lemma_channel_eq(xr, s, v, e, mn, d);
                    assert(0 + mn == rn && dl + mn == gn && e + mn == bn);
                } else {
                    // b - r == delta: b is also maximal and h' is exactly 3
                    assert(e == dl && bn == mx && rn == mn);
                    assert(!rat_lt(hp, rat_of_int(3)));
                    assert(rat_le(rat_of_int(3), hp) && rat_lt(hp, rat_of_int(4)));
                    assert(spec_sector_rgb(h, s, v) == (z, xr, c));
                    lemma_channel_eq(z, s, v, 0, mn, d);
                    lemma_channel_eq(xr, s, v, e, mn, d);
                    lemma_channel_eq(c, s, v, dl, mn, d);
                    assert(0 + mn == rn && e + mn == gn && dl + mn == bn);
                }
            } else {
                let e = rn - bn;
                assert(e < dl && mn == bn);
                assert(0 <= h.n - 120 * dl * 0 && h.n - 120 * dl * 0 >= 60 * dl && 60 * e == 120
                    * dl - (h.n - 120 * dl * 0));
                lemma_x_eval(h, s, v, mx, dl, d, 0, e);
                assert(rat_le(rat_of_int(1), hp) && rat_lt(hp, rat_of_int(2)));
                assert(!rat_lt(hp, rat_of_int(1)));
                assert(spec_sector_rgb(h, s, v) == (xr, c, z));
                lemma_channel_eq(xr, s, v, e, mn, d);
                lemma_channel_eq(c, s, v, dl, mn, d);
                lemma_channel_eq(z, s, v, 0, mn, d);
                assert(e + mn == rn && dl + mn == gn && 0 + mn == bn);
            }
        } else {
            assert(mx == bn && rn < mx && gn < mx);
            assert(h == Rat { n: 60 * (rn - gn) + 240 * dl, d: dl });
            if rn >= gn {
                let e = rn - gn;
                assert(e < dl && mn == gn);
                assert(h.n - 120 * dl * 2 == 60 * e && 60 * e < 60 * dl);
                lemma_x_eval(h, s, v, mx, dl, d, 2, e);
                assert(rat_le(rat_of_int(4), hp) && rat_lt(hp, rat_of_int(5)));
                assert(spec_sector_rgb(h, s, v) == (xr, z, c));
                lemma_channel_eq(xr, s, v, e, mn, d);
                lemma_channel_eq(z, s, v, 0, mn, d);
                lemma_channel_eq(c, s, v, dl, mn, d);
                assert(e + mn == rn && 0 + mn == gn && dl + mn == bn);
            } else {
                let e = gn - rn;
                assert(e < dl && mn == rn);
                assert(h.n - 120 * dl * 1 >= 60 * dl && 60 * e == 120 * dl - (h.n - 120 * dl * 1));
                lemma_x_eval(h, s, v, mx, dl, d, 1, e);
                assert(rat_le(rat_of_int(3), hp) && rat_lt(hp, rat_of_int(4)));
                assert(spec_sector_rgb(h, s, v) == (z, xr, c));
                lemma_channel_eq(z, s, v, 0, mn, d);
                lemma_channel_eq(xr, s, v, e, mn, d);
                lemma_channel_eq(c, s, v, dl, mn, d);
                assert(0 + mn == rn && e + mn == gn && dl + mn == bn);
            }
        }
    }
}

/// Round trip for integer RGB triples: after converting `(r, g, b)` to HSV,
/// the exact RGB channels of the color are the original integers, so rounding
/// reproduces them exactly — directly to integers (as `Channel::round_to_int`
/// and `Color::to_hex` round), on the gradient's blending grid, and from that
/// grid back to integers.
pub proof fn lemma_rgb_int_round_trip(r: int, g: int, b: int)
    requires
        0 <= r <= 255,
        0 <= g <= 255,
        0 <= b <= 255,
    ensures
        ({
            let h = spec_hsv_hue(r, g, b, 1);
            let s = spec_hsv_sat(r, g, b, 1);
            let v = spec_hsv_value(r, g, b, 1);
            &&& rat_round_scaled(spec_rgb_red(h, s, v), BLEND_SCALE as int) == r * BLEND_SCALE
            &&& rat_round_scaled(spec_rgb_green(h, s, v), BLEND_SCALE as int) == g * BLEND_SCALE
            &&& rat_round_scaled(spec_rgb_blue(h, s, v), BLEND_SCALE as int) == b * BLEND_SCALE
            &&& rat_round(spec_rgb_red(h, s, v)) == r
            &&& rat_round(spec_rgb_green(h, s, v)) == g
            &&& rat_round(spec_rgb_blue(h, s, v)) == b
        }),
        rat_round(Rat { n: r * BLEND_SCALE, d: BLEND_SCALE as int }) == r,
        rat_round(Rat { n: g * BLEND_SCALE, d: BLEND_SCALE as int }) == g,
        rat_round(Rat { n: b * BLEND_SCALE, d: BLEND_SCALE as int }) == b,
{
    lemma_rgb_hsv_round_trip(r, g, b, 1);
    let h = spec_hsv_hue(r, g, b, 1);
    let s = spec_hsv_sat(r, g, b, 1);
    let v = spec_hsv_value(r, g, b, 1);
    lemma_round_units(spec_rgb_red(h, s, v), r);
    lemma_round_units(spec_rgb_green(h, s, v), g);
    lemma_round_units(spec_rgb_blue(h, s, v), b);
}

/// Rounding a rational equal to the integer `x`, to integers or to the
/// blending grid, gives back `x` (scaled).
proof fn lemma_round_units(a: Rat, x: int)
    requires
        rat_wf(a),
        rat_eq(a, Rat { n: x, d: 1 }),
    ensures
        rat_round(a) == x,
        rat_round_scaled(a, BLEND_SCALE as int) == x * BLEND_SCALE,
        rat_round(Rat { n: x * BLEND_SCALE, d: BLEND_SCALE as int }) == x,
{
    let u = Rat { n: x, d: 1 };
    let k: int = BLEND_SCALE as int;
    lemma_rat_round_congr(a, u);
    lemma_fundamental_div_mod_converse(2 * x + 1, 2, x, 1);
    lemma_rat_round_scaled_congr(a, u, k);
    assert(2 * k * x + 1 == (k * x) * 2 + 1) by (nonlinear_arith);
    lemma_fundamental_div_mod_converse(2 * k * x + 1, 2, k * x, 1);
    lemma_fundamental_div_mod_converse(2 * (x * k) + k, 2 * k, x, k);
}

/// A lowercase hexadecimal digit character comes back from its value:
/// formatting inverts parsing, digit by digit.
proof fn lemma_hex_digit_inverse(c: char)
    requires
        is_lower_hex_digit(c),
    ensures
        spec_hex_digit(hex_digit_value(c)) == c,
        0 <= hex_digit_value(c) <= 15,
{
    if c as int == 48 {
        assert(c == '0');
    } else if c as int == 49 {
        assert(c == '1');
    } else if c as int == 50 {
        assert(c == '2');
    } else if c as int == 51 {
        assert(c == '3');
    } else if c as int == 52 {
        assert(c == '4');
    } else if c as int == 53 {
        assert(c == '5');
    } else if c as int == 54 {
        assert(c == '6');
    } else if c as int == 55 {
        assert(c == '7');
    } else if c as int == 56 {
        assert(c == '8');
    } else if c as int == 57 {
        assert(c == '9');
    } else if c as int == 97 {
        assert(c == 'a');
    } else if c as int == 98 {
        assert(c == 'b');
    } else if c as int == 99 {
        assert(c == 'c');
    } else if c as int == 100 {
        assert(c == 'd');
    } else if c as int == 101 {
        assert(c == 'e');
    } else {
        assert(c as int == 102);
        assert(c == 'f');
    }
}

/// Round trip for six-digit lowercase hexadecimal strings: parsing the
/// string into channels, converting to HSV and back, rounding the exact
/// channels to integers and writing them as hexadecimal digits gives the
/// original string. This is `color_to_hex(color_from_hex(t)) == t`, stated
/// over the spec functions of `Color::from_hex` and `Color::to_hex`.
pub proof fn lemma_hex_round_trip(t: Seq<char>)
    requires
        t.len() == 6,
        forall|i: int| 0 <= i < 6 ==> is_lower_hex_digit(#[trigger] t[i]),
    ensures
        ({
            let r = hex_channel(t, 0);
            let g = hex_channel(t, 1);
            let b = hex_channel(t, 2);
            let h = spec_hsv_hue(r, g, b, 1);
            let s = spec_hsv_sat(r, g, b, 1);
            let v = spec_hsv_value(r, g, b, 1);
            spec_hex6(
                rat_round(spec_rgb_red(h, s, v)),
                rat_round(spec_rgb_green(h, s, v)),
                rat_round(spec_rgb_blue(h, s, v)),
            ) == t
        }),
{
    lemma_hex_digit_inverse(t[0]);
    lemma_hex_digit_inverse(t[1]);
    lemma_hex_digit_inverse(t[2]);
    lemma_hex_digit_inverse(t[3]);
    lemma_hex_digit_inverse(t[4]);
    lemma_hex_digit_inverse(t[5]);
    let r = hex_channel(t, 0);
    let g = hex_channel(t, 1);
    let b = hex_channel(t, 2);
    assert(r == 16 * hex_digit_value(t[0]) + hex_digit_value(t[1]));
    lemma_rgb_int_round_trip(r, g, b);
    lemma_fundamental_div_mod_converse(r, 16, hex_digit_value(t[0]), hex_digit_value(t[1]));
    lemma_fundamental_div_mod_converse(g, 16, hex_digit_value(t[2]), hex_digit_value(t[3]));
    lemma_fundamental_div_mod_converse(b, 16, hex_digit_value(t[4]), hex_digit_value(t[5]));
    let h = spec_hsv_hue(r, g, b, 1);
    let s = spec_hsv_sat(r, g, b, 1);
    let v = spec_hsv_value(r, g, b, 1);
    assert(spec_hex6(
        rat_round(spec_rgb_red(h, s, v)),
        rat_round(spec_rgb_green(h, s, v)),
        rat_round(spec_rgb_blue(h, s, v)),
    ) =~= t);
}

/// A blend at `t = 0` is its first operand.
proof fn lemma_blend_zero(r0: int, r1: int, td: int)
    requires
        td >= 1,
    ensures
        spec_blend(r0, r1, 0, td) == r0,
{
    assert(2 * (r0 * (td - 0) + r1 * 0) + td == r0 * (2 * td) + td) by (nonlinear_arith);
    lemma_fundamental_div_mod_converse(2 * (r0 * (td - 0) + r1 * 0) + td, 2 * td, r0, td);
}

/// Gradient endpoints: the first and last samples of a gradient are the
/// first and last input colors, converted to RGB on the blending grid and
/// wrapped back into colors — the round trip through RGB that every sample
/// takes, with nothing blended in.
pub proof fn lemma_gradient_endpoints(cs: Seq<Color>, number: int, first: Color, last: Color)
    requires
        number >= 2,
        cs.len() >= 1,
        gradient_sample(cs, number, 0, first),
        gradient_sample(cs, number, number - 1, last),
    ensures
        ({
            let f = spec_rgb_fx(cs[0]);
            &&& first.hue() == spec_hsv_hue(f.0, f.1, f.2, BLEND_SCALE as int)
            &&& first.saturation() == spec_hsv_sat(f.0, f.1, f.2, BLEND_SCALE as int)
            &&& first.value() == spec_hsv_value(f.0, f.1, f.2, BLEND_SCALE as int)
        }),
        ({
            let l = spec_rgb_fx(cs[cs.len() - 1]);
            &&& last.hue() == spec_hsv_hue(l.0, l.1, l.2, BLEND_SCALE as int)
            &&& last.saturation() == spec_hsv_sat(l.0, l.1, l.2, BLEND_SCALE as int)
            &&& last.value() == spec_hsv_value(l.0, l.1, l.2, BLEND_SCALE as int)
        }),
{
    let len = cs.len() as int;
    let td = number - 1;
    lemma_fundamental_div_mod_converse(0 * (len - 1), td, 0, 0);
    assert(grad_index0(0, number, len) == 0 && grad_tnum(0, number, len) == 0);
    let f = spec_rgb_fx(cs[0]);
    let f1 = spec_rgb_fx(cs[grad_index1(0, number, len)]);
    lemma_blend_zero(f.0, f1.0, td);
    lemma_blend_zero(f.1, f1.1, td);
    lemma_blend_zero(f.2, f1.2, td);
    assert((number - 1) * (len - 1) == (len - 1) * td + 0) by (nonlinear_arith)
        requires
            td == number - 1,
    ;
    lemma_fundamental_div_mod_converse((number - 1) * (len - 1), td, len - 1, 0);
    assert(grad_index0(number - 1, number, len) == len - 1 && grad_tnum(number - 1, number, len)
        == 0);
    assert(grad_index1(number - 1, number, len) == len - 1);
    let l = spec_rgb_fx(cs[len - 1]);
    lemma_blend_zero(l.0, l.0, td);
    lemma_blend_zero(l.1, l.1, td);
    lemma_blend_zero(l.2, l.2, td);
}

/// Lossless RGB re-emission: a color sent through `Color::to_rgb` (exact
/// channels) and wrapped back into a color by `Color::from_rgbf` hex-emits
/// exactly as the original. The hypotheses are those two functions'
/// postconditions; the conclusion makes the rounded channels — and with them
/// the `Color::to_hex` strings — of the two colors equal.
pub proof fn lemma_rgb_reemission_lossless(
    c0: Color,
    r: Channel,
    g: Channel,
    b: Channel,
    c1: Color,
)
    requires
        r.wf(),
        g.wf(),
        b.wf(),
        r.den == g.den && g.den == b.den,
        rat_eq(r.as_rat(), spec_rgb_red(c0.hue(), c0.saturation(), c0.value())),
        rat_eq(g.as_rat(), spec_rgb_green(c0.hue(), c0.saturation(), c0.value())),
        rat_eq(b.as_rat(), spec_rgb_blue(c0.hue(), c0.saturation(), c0.value())),
        rat_wf(spec_rgb_red(c0.hue(), c0.saturation(), c0.value())),
        rat_wf(spec_rgb_green(c0.hue(), c0.saturation(), c0.value())),
        rat_wf(spec_rgb_blue(c0.hue(), c0.saturation(), c0.value())),
        c1.hue() == spec_hsv_hue(
            scaled_red(r, g, b),
            scaled_green(r, g, b),
            scaled_blue(r, g, b),
            common_den3(r, g, b),
        ),
        c1.saturation() == spec_hsv_sat(
            scaled_red(r, g, b),
            scaled_green(r, g, b),
            scaled_blue(r, g, b),
            common_den3(r, g, b),
        ),
        c1.value() == spec_hsv_value(
            scaled_red(r, g, b),
            scaled_green(r, g, b),
            scaled_blue(r, g, b),
            common_den3(r, g, b),
        ),
    ensures
        rat_round(spec_rgb_red(c1.hue(), c1.saturation(), c1.value())) == rat_round(
            spec_rgb_red(c0.hue(), c0.saturation(), c0.value()),
        ),
        rat_round(spec_rgb_green(c1.hue(), c1.saturation(), c1.value())) == rat_round(
            spec_rgb_green(c0.hue(), c0.saturation(), c0.value()),
        ),
        rat_round(spec_rgb_blue(c1.hue(), c1.saturation(), c1.value())) == rat_round(
            spec_rgb_blue(c0.hue(), c0.saturation(), c0.value()),
        ),
        spec_hex6(
            rat_round(spec_rgb_red(c1.hue(), c1.saturation(), c1.value())),
            rat_round(spec_rgb_green(c1.hue(), c1.saturation(), c1.value())),
            rat_round(spec_rgb_blue(c1.hue(), c1.saturation(), c1.value())),
        ) == spec_hex6(
            rat_round(spec_rgb_red(c0.hue(), c0.saturation(), c0.value())),
            rat_round(spec_rgb_green(c0.hue(), c0.saturation(), c0.value())),
            rat_round(spec_rgb_blue(c0.hue(), c0.saturation(), c0.value())),
        ),
{
    let d = r.den as int;
    assert(common_den3(r, g, b) == d);
    assert(scaled_red(r, g, b) == r.num as int && scaled_green(r, g, b) == g.num as int
        && scaled_blue(r, g, b) == b.num as int);
    lemma_rgb_hsv_round_trip(r.num as int, g.num as int, b.num as int, d);
    let cr0 = spec_rgb_red(c0.hue(), c0.saturation(), c0.value());
    let cg0 = spec_rgb_green(c0.hue(), c0.saturation(), c0.value());
    let cb0 = spec_rgb_blue(c0.hue(), c0.saturation(), c0.value());
    let cr1 = spec_rgb_red(c1.hue(), c1.saturation(), c1.value());
    let cg1 = spec_rgb_green(c1.hue(), c1.saturation(), c1.value());
    let cb1 = spec_rgb_blue(c1.hue(), c1.saturation(), c1.value());
    lemma_rat_eq_trans(cr1, Rat { n: r.num as int, d: d }, cr0);
    lemma_rat_eq_trans(cg1, Rat { n: g.num as int, d: d }, cg0);
    lemma_rat_eq_trans(cb1, Rat { n: b.num as int, d: d }, cb0);
    lemma_rat_round_congr(cr1, cr0);
    lemma_rat_round_congr(cg1, cg0);
    lemma_rat_round_congr(cb1, cb0);
}

} // verus!
