use nowplaying_skin::color::{parse_color, ColorError, Rgba};
use nowplaying_skin::number::parse_number;

fn rgba(r: u8, g: u8, b: u8, a: u8) -> Rgba {
    Rgba { r, g, b, a }
}

#[test]
fn hex_six_digits_is_opaque() {
    assert_eq!(parse_color("#FF8800"), Ok(rgba(255, 136, 0, 255)));
}

#[test]
fn hex_eight_digits_carries_alpha() {
    assert_eq!(parse_color("#112233CC"), Ok(rgba(17, 34, 51, 204)));
}

#[test]
fn rgba_fraction_alpha_is_scaled_and_rounded() {
    assert_eq!(parse_color("rgba(10,20,30,0.5)"), Ok(rgba(10, 20, 30, 128)));
}

#[test]
fn transparent_keyword() {
    assert_eq!(parse_color("transparent"), Ok(rgba(0, 0, 0, 0)));
    assert_eq!(parse_color("  TransParent "), Ok(rgba(0, 0, 0, 0)));
}

#[test]
fn rgb_channel_out_of_range_fails() {
    assert_eq!(parse_color("rgb(999,0,0)"), Err(ColorError::ChannelOutOfRange));
}

#[test]
fn rgb_with_spaces_and_integer_alpha() {
    assert_eq!(parse_color(" rgb( 1, 2 ,3 ) "), Ok(rgba(1, 2, 3, 255)));
    assert_eq!(parse_color("rgba(76, 141, 255, 0.45)"), Ok(rgba(76, 141, 255, 115)));
    assert_eq!(parse_color("rgba(1,2,3,200)"), Ok(rgba(1, 2, 3, 200)));
}

#[test]
fn lower_case_hex_and_rounded_channels() {
    assert_eq!(parse_color("#15161b"), Ok(rgba(0x15, 0x16, 0x1b, 255)));
    assert_eq!(parse_color("rgb(10.5, 0.4, 254.6)"), Ok(rgba(11, 0, 255, 255)));
}

#[test]
fn each_color_error() {
    assert_eq!(parse_color("#12345"), Err(ColorError::InvalidHex));
    assert_eq!(parse_color("#12345G"), Err(ColorError::InvalidHex));
    assert_eq!(parse_color("rgb(1,2)"), Err(ColorError::ComponentCount));
    assert_eq!(parse_color("rgba(1,2,3)"), Err(ColorError::ComponentCount));
    assert_eq!(parse_color("rgb(a,2,3)"), Err(ColorError::InvalidChannel));
    assert_eq!(parse_color("rgb(-1,2,3)"), Err(ColorError::ChannelOutOfRange));
    assert_eq!(parse_color("rgba(1,2,3,0.x)"), Err(ColorError::InvalidAlpha));
    assert_eq!(parse_color("rgba(1,2,3,1.5)"), Err(ColorError::AlphaOutOfRange));
    assert_eq!(parse_color("blue"), Err(ColorError::UnsupportedFormat));
    assert_eq!(parse_color(""), Err(ColorError::UnsupportedFormat));
}

#[test]
fn numbers_are_thousandths() {
    assert_eq!(parse_number("18"), Some(18000));
    assert_eq!(parse_number(" 0.45 "), Some(450));
    assert_eq!(parse_number("-1.5"), Some(-1500));
    assert_eq!(parse_number("+2"), Some(2000));
    assert_eq!(parse_number(".5"), Some(500));
    assert_eq!(parse_number("3."), Some(3000));
    assert_eq!(parse_number("1.2345"), Some(1235));
    assert_eq!(parse_number("1.2344"), Some(1234));
}

#[test]
fn numbers_that_fail() {
    assert_eq!(parse_number("abc"), None);
    assert_eq!(parse_number(""), None);
    assert_eq!(parse_number("."), None);
    assert_eq!(parse_number("1.2.3"), None);
    assert_eq!(parse_number("{vars.a}"), None);
    assert_eq!(parse_number("99999999999999999999"), None);
}

#[test]
fn rounding_happens_once_on_the_exact_value() {
    assert_eq!(parse_color("rgba(1,2,3,0.0019)"), Ok(rgba(1, 2, 3, 0)));
    assert_eq!(parse_color("rgb(127.4996,0,0)"), Ok(rgba(127, 0, 0, 255)));
    assert_eq!(parse_color("rgb(127.5,0,0)"), Ok(rgba(128, 0, 0, 255)));
    assert_eq!(parse_color("rgba(0,0,0,0.002)"), Ok(rgba(0, 0, 0, 1)));
    assert_eq!(parse_color("rgba(0,0,0,1.0)"), Ok(rgba(0, 0, 0, 255)));
    assert_eq!(parse_color("rgba(0,0,0,1.0001)"), Err(ColorError::AlphaOutOfRange));
    assert_eq!(parse_color("rgb(255.0001,0,0)"), Err(ColorError::ChannelOutOfRange));
    assert_eq!(parse_color("rgb(-0.0,0,0)"), Ok(rgba(0, 0, 0, 255)));
    assert_eq!(parse_color("rgb(99999999999999999999,0,0)"), Err(ColorError::ChannelOutOfRange));
}

#[test]
fn exponents_move_the_point() {
    assert_eq!(parse_color("rgb(1e2,0,0)"), Ok(rgba(100, 0, 0, 255)));
    assert_eq!(parse_color("rgba(0,0,0,5.0e-1)"), Ok(rgba(0, 0, 0, 128)));
    assert_eq!(parse_color("rgb(2.55E2,0,0)"), Ok(rgba(255, 0, 0, 255)));
    assert_eq!(parse_color("rgb(3e2,0,0)"), Err(ColorError::ChannelOutOfRange));
    assert_eq!(parse_number("1.5e3"), Some(1_500_000));
    assert_eq!(parse_number("2E-3"), Some(2));
    assert_eq!(parse_number("-25e-1"), Some(-2500));
    assert_eq!(parse_number("1e"), None);
    assert_eq!(parse_number("e5"), None);
    assert_eq!(parse_number("1e2e3"), None);
    assert_eq!(parse_number("1e65"), None);
}
