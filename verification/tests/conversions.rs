use vividry::Channel;
use vividry::Color;
use vividry::ParseError;

#[test]
fn black_is_achromatic() {
    let c = Color::from_rgb(0, 0, 0);
    assert_eq!(c.hue_num, 0);
    assert_eq!(c.sat_num, 0);
    assert_eq!(c.val_num, 0);
}

#[test]
fn white_is_achromatic_full_value() {
    let c = Color::from_rgb(255, 255, 255);
    assert_eq!(c.hue_num, 0);
    assert_eq!(c.sat_num, 0);
    assert_eq!(c.val_num, c.val_den);
}

#[test]
fn red_green_tie_prefers_red() {
    // r and g are both maximal; the red branch gives hue 60 via (g-b)/delta
    let c = Color::from_rgb(200, 200, 100);
    assert_eq!(c.hue_num, 6000);
    assert_eq!(c.hue_den, 100);
    assert_eq!(c.hue_num, 60 * c.hue_den);
}

#[test]
fn pure_red_from_hex() {
    let c = Color::from_hex("#ff0000").unwrap();
    assert_eq!(c.hue_num, 0);
    assert_eq!(c.sat_num, c.sat_den);
    assert_eq!(c.val_num, c.val_den);
    assert_eq!(c.to_hex(), "ff0000");
}

#[test]
fn hex_round_trip_six_digits() {
    for s in ["ff5733", "00ff00", "0000ff", "123456", "abcdef", "808080"] {
        let c = Color::from_hex(s).unwrap();
        assert_eq!(c.to_hex(), s);
    }
}

#[test]
fn hex_accepts_hash_and_uppercase() {
    let c = Color::from_hex("#ABCDEF").unwrap();
    assert_eq!(c.to_hex(), "abcdef");
}

#[test]
fn three_digit_hex_is_not_expanded() {
    // each digit is a channel value 0..=15, not duplicated to 0..=255
    let c = Color::from_hex("fff").unwrap();
    assert_eq!(c.to_hex(), "0f0f0f");
}

#[test]
fn five_digit_hex_is_a_length_error() {
    let res = Color::from_hex("12345");
    assert!(matches!(res, Err(ParseError::InvalidLength { len: 5 })));
}

#[test]
fn empty_hex_is_a_length_error() {
    assert!(matches!(Color::from_hex(""), Err(ParseError::InvalidLength { len: 0 })));
    assert!(matches!(Color::from_hex("#"), Err(ParseError::InvalidLength { len: 0 })));
}

#[test]
fn non_hex_digit_is_reported() {
    let res = Color::from_hex("#12z");
    assert!(matches!(res, Err(ParseError::InvalidDigit { ch: 'z' })));
    let res6 = Color::from_hex("12x4g6");
    assert!(matches!(res6, Err(ParseError::InvalidDigit { ch: 'x' })));
}

#[test]
fn rgb_round_trip_is_exact() {
    for (r, g, b) in [(0, 0, 0), (255, 255, 255), (12, 200, 34), (200, 100, 150), (1, 2, 3)] {
        let c = Color::from_rgb(r, g, b);
        let rgb = c.to_rgb();
        assert_eq!(rgb[0].round_to_int(), r);
        assert_eq!(rgb[1].round_to_int(), g);
        assert_eq!(rgb[2].round_to_int(), b);
        // the exact rational channels are exactly the integers
        assert_eq!(rgb[0].num, (r as u128) * rgb[0].den);
        assert_eq!(rgb[1].num, (g as u128) * rgb[1].den);
        assert_eq!(rgb[2].num, (b as u128) * rgb[2].den);
    }
}

#[test]
fn from_rgbf_matches_from_rgb_on_integer_channels() {
    let cf = Color::from_rgbf(Channel::from_int(255), Channel::from_int(87), Channel::from_int(51));
    let ci = Color::from_rgb(255, 87, 51);
    assert_eq!(cf.to_hex(), "ff5733");
    assert_eq!(ci.to_hex(), "ff5733");
}

#[test]
fn hue_sectors_come_back_exactly() {
    // one color per hue sector of the six-sector transform
    for s in ["ff8000", "80ff00", "00ff80", "0080ff", "8000ff", "ff0080"] {
        let c = Color::from_hex(s).unwrap();
        assert_eq!(c.to_hex(), s);
    }
}

#[test]
fn channel_rounding_is_half_up() {
    // 1.5 on the 0..=255 scale rounds up
    assert_eq!(Channel { num: 3, den: 2 }.round_to_int(), 2);
    assert_eq!(Channel { num: 383, den: 256 }.round_to_int(), 1);
    assert_eq!(Channel::from_int(255).round_to_int(), 255);
}

#[test]
fn reemission_is_lossless_on_constructor_colors() {
    for s in ["000000", "ffffff", "ff5733", "123456", "0f0f0f", "808080"] {
        let c0 = Color::from_hex(s).unwrap();
        let rgb = c0.to_rgb();
        let c1 = Color::from_rgbf(rgb[0], rgb[1], rgb[2]);
        assert_eq!(c1.to_hex(), c0.to_hex());
    }
}

#[test]
fn reemission_is_lossless_on_grid_boundary_colors() {
    // value 1/512: the exact red channel is 255/512, half a unit below 0.5
    let c0 = Color {
        hue_num: 0,
        hue_den: 1,
        sat_num: 0,
        sat_den: 1,
        val_num: 1,
        val_den: 512,
    };
    assert_eq!(c0.to_hex(), "000000");
    let rgb = c0.to_rgb();
    // to_rgb and to_hex agree: the exact channel rounds down
    assert_eq!(rgb[0].round_to_int(), 0);
    assert_eq!(rgb[0].num * 512, 255 * rgb[0].den);
    let c1 = Color::from_rgbf(rgb[0], rgb[1], rgb[2]);
    assert_eq!(c1.to_hex(), "000000");
}

#[test]
fn from_rgbf_takes_fractional_channels() {
    // 127.5 rounds half up to 128 in the hexadecimal form
    let half = Channel { num: 255, den: 2 };
    let c = Color::from_rgbf(half, Channel::from_int(0), Channel::from_int(0));
    assert_eq!(c.to_hex(), "800000");
}

#[test]
fn from_str_parses_hex() {
    let c: Color = "#00ff00".parse().unwrap();
    assert_eq!(c.to_hex(), "00ff00");
    assert!("zz".parse::<Color>().is_err());
}
