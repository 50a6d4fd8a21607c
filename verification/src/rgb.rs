//! The derived RGB and hexadecimal forms of a color.
//!
//! The HSV-to-RGB transform: `c = value * saturation`, `h' = hue / 60`,
//! `x = c * (1 - |h' mod 2 - 1|)`, `m = value - c`; the base triple before
//! adding `m` is chosen by the unit sector `h'` falls into, and each channel
//! is `(base + m) * 255`. [`Color::to_rgb`] returns the three channels as
//! exact rationals — no rounding and no clamping is performed — and
//! [`Color::to_hex`] rounds those same exact channels to the nearest
//! integers, so the two derived forms always agree.
use vstd::prelude::*;

verus! {

use vstd::arithmetic::div_mod::lemma_fundamental_div_mod;
use crate::color::Channel;
use crate::color::Color;
use crate::color::CHAN_DEN_LIMIT;
use crate::color::WF_DEN_PRODUCT;
use crate::rat::Rat;
use crate::rat::rat_of_int;
use crate::rat::rat_le;
use crate::rat::rat_lt;
use crate::rat::rat_add;
use crate::rat::rat_sub;
use crate::rat::rat_mul;
use crate::rat::rat_div;
use crate::rat::rat_abs;
use crate::rat::rat_mod2;
use crate::rat::rat_eq;
use crate::rat::rat_wf;
use crate::rat::rat_round;
use crate::rat::lemma_rat_add_congr;
use crate::rat::lemma_rat_mul_congr;
use crate::rat::lemma_rat_eq_trans;
use crate::rat::lemma_rat_round_congr;

/// `chroma = value * saturation`.
pub open spec fn spec_chroma(s: Rat, v: Rat) -> Rat {
    rat_mul(v, s)
}

/// `h' = hue / 60`, the hue in sector units.
pub open spec fn spec_hue_prime(h: Rat) -> Rat {
    rat_div(h, rat_of_int(60))
}

/// `x = chroma * (1 - |h' mod 2 - 1|)`.
pub open spec fn spec_x_term(h: Rat, s: Rat, v: Rat) -> Rat {
    rat_mul(
        spec_chroma(s, v),
        rat_sub(rat_of_int(1), rat_abs(rat_sub(rat_mod2(spec_hue_prime(h)), rat_of_int(1)))),
    )
}

/// `m = value - chroma`, the amount added to every channel.
pub open spec fn spec_m_term(s: Rat, v: Rat) -> Rat {
    rat_sub(v, spec_chroma(s, v))
}

/// The base `(r, g, b)` triple before adding `m`, selected by the sector of
/// `h'`: `[0,1)` gives `(c,x,0)`, `[1,2)` gives `(x,c,0)`, `[2,3)` gives
/// `(0,c,x)`, `[3,4)` gives `(0,x,c)`, `[4,5)` gives `(x,0,c)`, and anything
/// else gives `(c,0,x)`.
pub open spec fn spec_sector_rgb(h: Rat, s: Rat, v: Rat) -> (Rat, Rat, Rat) {
    let hp = spec_hue_prime(h);
    let c = spec_chroma(s, v);
    let x = spec_x_term(h, s, v);
    let z = rat_of_int(0);
    if rat_le(rat_of_int(0), hp) && rat_lt(hp, rat_of_int(1)) {
        (c, x, z)
    } else if rat_le(rat_of_int(1), hp) && rat_lt(hp, rat_of_int(2)) {
        (x, c, z)
    } else if rat_le(rat_of_int(2), hp) && rat_lt(hp, rat_of_int(3)) {
        (z, c, x)
    } else if rat_le(rat_of_int(3), hp) && rat_lt(hp, rat_of_int(4)) {
        (z, x, c)
    } else if rat_le(rat_of_int(4), hp) && rat_lt(hp, rat_of_int(5)) {
        (x, z, c)
    } else {
        (c, z, x)
    }
}

/// One output channel on the `0..=255` scale: `(base + m) * 255`.
pub open spec fn spec_rgb_channel(base: Rat, s: Rat, v: Rat) -> Rat {
    rat_mul(rat_add(base, spec_m_term(s, v)), rat_of_int(255))
}

/// The exact red channel of the RGB form, on the `0..=255` scale.
pub open spec fn spec_rgb_red(h: Rat, s: Rat, v: Rat) -> Rat {
    spec_rgb_channel(spec_sector_rgb(h, s, v).0, s, v)
}

/// The exact green channel of the RGB form, on the `0..=255` scale.
pub open spec fn spec_rgb_green(h: Rat, s: Rat, v: Rat) -> Rat {
    spec_rgb_channel(spec_sector_rgb(h, s, v).1, s, v)
}

/// The exact blue channel of the RGB form, on the `0..=255` scale.
pub open spec fn spec_rgb_blue(h: Rat, s: Rat, v: Rat) -> Rat {
    spec_rgb_channel(spec_sector_rgb(h, s, v).2, s, v)
}

/// A channel `(base + m) * 255` over a common denominator: when the sector
/// base is `bc / dd` and `m` is `mc / dd` as rational values, the channel is
/// `(bc + mc) * 255 / dd`.
proof fn lemma_channel_exact(base: Rat, s: Rat, v: Rat, bc: int, mc: int, dd: int)
    requires
        rat_wf(base),
        rat_wf(s),
        rat_wf(v),
        dd >= 1,
        rat_eq(base, Rat { n: bc, d: dd }),
        rat_eq(spec_m_term(s, v), Rat { n: mc, d: dd }),
    ensures
        rat_eq(spec_rgb_channel(base, s, v), Rat { n: (bc + mc) * 255, d: dd }),
        rat_wf(spec_rgb_channel(base, s, v)),
{
    let m = spec_m_term(s, v);
    let bm = Rat { n: bc, d: dd };
    let mm = Rat { n: mc, d: dd };
    assert(m.d == (v.d) * (v.d * s.d));
    assert(m.d > 0) by (nonlinear_arith)
        requires
            v.d > 0,
            s.d > 0,
            m.d == (v.d) * (v.d * s.d),
    ;
    lemma_rat_add_congr(base, bm, m, mm);
    let a1 = rat_add(base, m);
    let a2 = rat_add(bm, mm);
    let a3 = Rat { n: bc + mc, d: dd };
    assert(rat_eq(a2, a3)) by {
        assert((bc * dd + mc * dd) * dd == (bc + mc) * (dd * dd)) by (nonlinear_arith);
    }
    assert(rat_wf(a1) && rat_wf(a2)) by (nonlinear_arith)
        requires
            a1.d == base.d * m.d,
            a2.d == dd * dd,
            base.d > 0,
            m.d > 0,
            dd >= 1,
    ;
    lemma_rat_eq_trans(a1, a2, a3);
    lemma_rat_mul_congr(a1, a3, rat_of_int(255), rat_of_int(255));
    let ch = rat_mul(a1, rat_of_int(255));
    let ch2 = rat_mul(a3, rat_of_int(255));
    assert(rat_eq(ch2, Rat { n: (bc + mc) * 255, d: dd })) by {
        assert(((bc + mc) * 255) * dd == ((bc + mc) * 255) * (dd * 1)) by (nonlinear_arith);
    }
    assert(rat_wf(ch) && rat_wf(ch2)) by (nonlinear_arith)
        requires
            ch.d == a1.d * 1,
            ch2.d == dd * 1,
            a1.d > 0,
            dd >= 1,
    ;
    lemma_rat_eq_trans(ch, ch2, Rat { n: (bc + mc) * 255, d: dd });
    assert(spec_rgb_channel(base, s, v) == ch);
}

/// The exact channel numerators of the HSV-to-RGB transform, over the common
/// denominator `val_den * sat_den * (60 * hue_den)` returned last.
#[verifier::rlimit(100)]
fn channels_exact(c: &Color) -> (t: (u128, u128, u128, u128))
    requires
        c.wf(),
    ensures
        1 <= t.3 <= CHAN_DEN_LIMIT,
        t.0 <= 255 * t.3,
        t.1 <= 255 * t.3,
        t.2 <= 255 * t.3,
        rat_eq(
            Rat { n: t.0 as int, d: t.3 as int },
            spec_rgb_red(c.hue(), c.saturation(), c.value()),
        ),
        rat_eq(
            Rat { n: t.1 as int, d: t.3 as int },
            spec_rgb_green(c.hue(), c.saturation(), c.value()),
        ),
        rat_eq(
            Rat { n: t.2 as int, d: t.3 as int },
            spec_rgb_blue(c.hue(), c.saturation(), c.value()),
        ),
        rat_wf(spec_rgb_red(c.hue(), c.saturation(), c.value())),
        rat_wf(spec_rgb_green(c.hue(), c.saturation(), c.value())),
        rat_wf(spec_rgb_blue(c.hue(), c.saturation(), c.value())),
{
    let hn = c.hue_num as u128;
    let hd = c.hue_den as u128;
    let sn = c.sat_num as u128;
    let sd = c.sat_den as u128;
    let vn = c.val_num as u128;
    let vd = c.val_den as u128;
    proof {
        assert((c.hue_den as int) * (c.sat_den as int) * (c.val_den as int) == (hd as int) * (
        sd as int) * (vd as int));
        assert(vn * sn <= vd * sd && 1 <= vd * sd && vd * sd <= WF_DEN_PRODUCT && vd * sd * hd
            <= WF_DEN_PRODUCT && (vd * sd) * (hd * 60) <= 60 * WF_DEN_PRODUCT && (vd * sd) * (hd
            * 60) >= 1 && hd * sd * vd == vd * sd * hd) by (nonlinear_arith)
            requires
                vn <= vd,
                sn <= sd,
                1 <= vd,
                1 <= sd,
                1 <= hd,
                hd * sd * vd <= WF_DEN_PRODUCT,
        ;
    }
    let cn = vn * sn;
    let cd = vd * sd;
    let hd6 = hd * 60;
    let dc = cd * hd6;
    let j2 = hn / (2 * hd6);
    proof {
        lemma_fundamental_div_mod(hn as int, 2 * hd6 as int);
        assert((2 * hd6) * j2 == 2 * j2 * hd6) by (nonlinear_arith);
        assert(2 * j2 * hd6 <= hn && hn - 2 * j2 * hd6 < 2 * hd6);
    }
    let hm = hn - 2 * j2 * hd6;
    let fnum = if hm >= hd6 {
        hm - hd6
    } else {
        hd6 - hm
    };
    proof {
        assert(cn * (hd6 - fnum) <= cn * hd6 && cn * hd6 <= 60 * WF_DEN_PRODUCT && vn * (sd - sn)
            <= vd * sd && (vn * (sd - sn)) * hd6 <= 60 * WF_DEN_PRODUCT && (vn * (sd - sn)) * hd6
            + cn * hd6 == (vn * sd) * hd6 && (vn * sd) * hd6 <= dc) by (nonlinear_arith)
            requires
                0 <= cn,
                cn == vn * sn,
                vn <= vd,
                sn <= sd,
                fnum <= hd6,
                1 <= hd6,
                dc == (vd * sd) * hd6,
                vn * sn <= vd * sd,
                vd * sd * hd <= WF_DEN_PRODUCT,
                hd6 == hd * 60,
        ;
    }
    let cc = cn * hd6;
    let xn = cn * (hd6 - fnum);
    let mc = (vn * (sd - sn)) * hd6;
    proof {
        let h = c.hue();
        let sa = c.saturation();
        let va = c.value();
        // the exec values are the spec rationals of the transform, brought
        // to the common denominator dc
        assert(Rat { n: cn as int, d: cd as int } == spec_chroma(sa, va));
        assert(spec_hue_prime(h) == Rat { n: hn as int, d: hd6 as int });
        assert(spec_x_term(h, sa, va) == Rat { n: xn as int, d: dc as int });
        assert(rat_eq(spec_chroma(sa, va), Rat { n: cc as int, d: dc as int })) by {
            assert(cn * dc == cc * cd) by (nonlinear_arith)
                requires
                    dc == cd * hd6,
                    cc == cn * hd6,
            ;
        }
        assert(rat_eq(spec_m_term(sa, va), Rat { n: mc as int, d: dc as int })) by {
            assert((vn * cd - cn * vd) * dc == mc * (vd * cd)) by (nonlinear_arith)
                requires
                    cn == vn * sn,
                    cd == vd * sd,
                    dc == cd * hd6,
                    mc == (vn * (sd - sn)) * hd6,
            ;
            assert(spec_m_term(sa, va).n == vn * cd - cn * vd && spec_m_term(sa, va).d == vd * cd);
        }
        assert(rat_eq(spec_x_term(h, sa, va), Rat { n: xn as int, d: dc as int }));
        assert(rat_eq(rat_of_int(0), Rat { n: 0, d: dc as int }));
        assert(rat_wf(spec_chroma(sa, va)) && rat_wf(spec_x_term(h, sa, va))) by (nonlinear_arith)
            requires
                spec_chroma(sa, va).d == cd,
                spec_x_term(h, sa, va).d == dc,
                cd >= 1,
                dc >= 1,
        ;
        assert(xn + mc <= dc && cc + mc <= dc && mc <= dc);
        assert(255 * dc <= 255 * (60 * WF_DEN_PRODUCT)) by (nonlinear_arith)
            requires
                dc <= 60 * WF_DEN_PRODUCT,
        ;
    }
    let (r, g, b) = if hn < hd6 {
        proof {
            lemma_sector_channels(c, cc as int, xn as int, 0, mc as int, dc as int);
        }
        ((cc + mc) * 255, (xn + mc) * 255, mc * 255)
    } else if hn < 2 * hd6 {
        proof {
            lemma_sector_channels(c, xn as int, cc as int, 0, mc as int, dc as int);
        }
        ((xn + mc) * 255, (cc + mc) * 255, mc * 255)
    } else if hn < 3 * hd6 {
        proof {
            lemma_sector_channels(c, 0, cc as int, xn as int, mc as int, dc as int);
        }
        (mc * 255, (cc + mc) * 255, (xn + mc) * 255)
    } else if hn < 4 * hd6 {
        proof {
            lemma_sector_channels(c, 0, xn as int, cc as int, mc as int, dc as int);
        }
        (mc * 255, (xn + mc) * 255, (cc + mc) * 255)
    } else if hn < 5 * hd6 {
        proof {
            lemma_sector_channels(c, xn as int, 0, cc as int, mc as int, dc as int);
        }
        ((xn + mc) * 255, mc * 255, (cc + mc) * 255)
    } else {
        proof {
            lemma_sector_channels(c, cc as int, 0, xn as int, mc as int, dc as int);
        }
        ((cc + mc) * 255, mc * 255, (xn + mc) * 255)
    };
    (r, g, b, dc)
}

/// The three channels of a color over the common denominator `dd`, given the
/// sector bases (each the chroma, the `x` term or zero) over `dd`.
proof fn lemma_sector_channels(c: &Color, rc: int, gc: int, bc: int, mc: int, dd: int)
    requires
        dd >= 1,
        rat_wf(c.saturation()),
        rat_wf(c.value()),
        ({
            let h = c.hue();
            let sa = c.saturation();
            let va = c.value();
            let sec = spec_sector_rgb(h, sa, va);
            &&& rat_wf(sec.0) && rat_wf(sec.1) && rat_wf(sec.2)
            &&& rat_eq(sec.0, Rat { n: rc, d: dd })
            &&& rat_eq(sec.1, Rat { n: gc, d: dd })
            &&& rat_eq(sec.2, Rat { n: bc, d: dd })
            &&& rat_eq(spec_m_term(sa, va), Rat { n: mc, d: dd })
        }),
    ensures
        ({
            let h = c.hue();
            let sa = c.saturation();
            let va = c.value();
            &&& rat_eq(spec_rgb_red(h, sa, va), Rat { n: (rc + mc) * 255, d: dd })
            &&& rat_eq(spec_rgb_green(h, sa, va), Rat { n: (gc + mc) * 255, d: dd })
            &&& rat_eq(spec_rgb_blue(h, sa, va), Rat { n: (bc + mc) * 255, d: dd })
            &&& rat_wf(spec_rgb_red(h, sa, va))
            &&& rat_wf(spec_rgb_green(h, sa, va))
            &&& rat_wf(spec_rgb_blue(h, sa, va))
        }),
{
    let h = c.hue();
    let sa = c.saturation();
    let va = c.value();
    let sec = spec_sector_rgb(h, sa, va);
    lemma_channel_exact(sec.0, sa, va, rc, mc, dd);
    lemma_channel_exact(sec.1, sa, va, gc, mc, dd);
    lemma_channel_exact(sec.2, sa, va, bc, mc, dd);
}

impl Color {
    /// The RGB form: the three channels of the HSV-to-RGB transform on the
    /// `0..=255` scale, as exact rational values over one common
    /// denominator. No rounding and no clamping is performed.
    pub fn to_rgb(&self) -> (rgb: [Channel; 3])
        requires
            self.wf(),
        ensures
            rat_eq(rgb[0].as_rat(), spec_rgb_red(self.hue(), self.saturation(), self.value())),
            rat_eq(rgb[1].as_rat(), spec_rgb_green(self.hue(), self.saturation(), self.value())),
            rat_eq(rgb[2].as_rat(), spec_rgb_blue(self.hue(), self.saturation(), self.value())),
            rat_wf(spec_rgb_red(self.hue(), self.saturation(), self.value())),
            rat_wf(spec_rgb_green(self.hue(), self.saturation(), self.value())),
            rat_wf(spec_rgb_blue(self.hue(), self.saturation(), self.value())),
            rgb[0].wf(),
            rgb[1].wf(),
            rgb[2].wf(),
            rgb[0].den == rgb[1].den && rgb[1].den == rgb[2].den,
    {
        let (r, g, b, d) = channels_exact(self);
        [Channel { num: r, den: d }, Channel { num: g, den: d }, Channel { num: b, den: d }]
    }

    /// The hexadecimal form: each channel of the RGB form rounded to the
    /// nearest integer (halves up) and written as exactly two lowercase
    /// hexadecimal digits, in red, green, blue order, with no prefix.
    pub fn to_hex(&self) -> (s: String)
        requires
            self.wf(),
        ensures
            s@ == spec_hex6(
                rat_round(spec_rgb_red(self.hue(), self.saturation(), self.value())),
                rat_round(spec_rgb_green(self.hue(), self.saturation(), self.value())),
                rat_round(spec_rgb_blue(self.hue(), self.saturation(), self.value())),
            ),
    {
        let (rn, gn, bn, d) = channels_exact(self);
        let r = Channel { num: rn, den: d }.round_to_int() as u64;
        let g = Channel { num: gn, den: d }.round_to_int() as u64;
        let b = Channel { num: bn, den: d }.round_to_int() as u64;
        proof {
            let h = self.hue();
            let sa = self.saturation();
            let va = self.value();
            lemma_rat_round_congr(
                Rat { n: rn as int, d: d as int },
                spec_rgb_red(h, sa, va),
            );
            lemma_rat_round_congr(
                Rat { n: gn as int, d: d as int },
                spec_rgb_green(h, sa, va),
            );
            lemma_rat_round_congr(
                Rat { n: bn as int, d: d as int },
                spec_rgb_blue(h, sa, va),
            );
        }
        let mut out = String::new();
        out.append(hex_digit_str(r / 16));
        out.append(hex_digit_str(r % 16));
        out.append(hex_digit_str(g / 16));
        out.append(hex_digit_str(g % 16));
        out.append(hex_digit_str(b / 16));
        out.append(hex_digit_str(b % 16));
        proof {
            let h = self.hue();
            let sa = self.saturation();
            let va = self.value();
            assert(r as int == rat_round(spec_rgb_red(h, sa, va)));
            assert(g as int == rat_round(spec_rgb_green(h, sa, va)));
            assert(b as int == rat_round(spec_rgb_blue(h, sa, va)));
            assert(out@ =~= spec_hex6(r as int, g as int, b as int));
        }
        out
    }
}

/// The lowercase hexadecimal digit of a value in `0..=15`.
pub open spec fn spec_hex_digit(v: int) -> char {
    if v == 0 {
        '0'
    } else if v == 1 {
        '1'
    } else if v == 2 {
        '2'
    } else if v == 3 {
        '3'
    } else if v == 4 {
        '4'
    } else if v == 5 {
        '5'
    } else if v == 6 {
        '6'
    } else if v == 7 {
        '7'
    } else if v == 8 {
        '8'
    } else if v == 9 {
        '9'
    } else if v == 10 {
        'a'
    } else if v == 11 {
        'b'
    } else if v == 12 {
        'c'
    } else if v == 13 {
        'd'
    } else if v == 14 {
        'e'
    } else {
        'f'
    }
}

/// A value in `0..=255` as exactly two lowercase hexadecimal digits.
pub open spec fn spec_hex_byte(v: int) -> Seq<char> {
    seq![spec_hex_digit(v / 16), spec_hex_digit(v % 16)]
}

/// Three channel values as six lowercase hexadecimal digits, in order.
pub open spec fn spec_hex6(r: int, g: int, b: int) -> Seq<char> {
    spec_hex_byte(r) + spec_hex_byte(g) + spec_hex_byte(b)
}

/// The lowercase hexadecimal digit of `v` as a one-character string.
fn hex_digit_str(v: u64) -> (s: &'static str)
    requires
        v <= 15,
    ensures
        s@ == seq![spec_hex_digit(v as int)],
{
    let s = if v == 0 {
        proof { reveal_strlit("0"); }
        "0"
    } else if v == 1 {
        proof { reveal_strlit("1"); }
        "1"
    } else if v == 2 {
        proof { reveal_strlit("2"); }
        "2"
    } else if v == 3 {
        proof { reveal_strlit("3"); }
        "3"
    } else if v == 4 {
        proof { reveal_strlit("4"); }
        "4"
    } else if v == 5 {
        proof { reveal_strlit("5"); }
        "5"
    } else if v == 6 {
        proof { reveal_strlit("6"); }
        "6"
    } else if v == 7 {
        proof { reveal_strlit("7"); }
        "7"
    } else if v == 8 {
        proof { reveal_strlit("8"); }
        "8"
    } else if v == 9 {
        proof { reveal_strlit("9"); }
        "9"
    } else if v == 10 {
        proof { reveal_strlit("a"); }
        "a"
    } else if v == 11 {
        proof { reveal_strlit("b"); }
        "b"
    } else if v == 12 {
        proof { reveal_strlit("c"); }
        "c"
    } else if v == 13 {
        proof { reveal_strlit("d"); }
        "d"
    } else if v == 14 {
        proof { reveal_strlit("e"); }
        "e"
    } else {
        proof { reveal_strlit("f"); }
        "f"
    };
    proof {
        assert(s@ =~= seq![spec_hex_digit(v as int)]);
    }
    s
}

} // verus!
