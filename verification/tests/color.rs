use divoom_ditoo_pro_controller::color::{parse_color, ColorError};

#[test]
fn named_and_hex_colors() {
    assert_eq!(parse_color("red"), Ok([255, 0, 0]));
    assert_eq!(parse_color("white"), Ok([255, 255, 255]));
    assert_eq!(parse_color("black"), Ok([0, 0, 0]));
    assert_eq!(parse_color("#FF0000"), Ok([255, 0, 0]));
    assert_eq!(parse_color("#001100"), Ok([0, 17, 0]));
    assert_eq!(parse_color("rgb(255,0,0)"), Ok([255, 0, 0]));
    assert_eq!(parse_color("rgb(0,17,0)"), Ok([0, 17, 0]));
}

#[test]
fn alpha_is_dropped() {
    assert_eq!(parse_color("#12345680"), Ok([0x12, 0x34, 0x56]));
    assert_eq!(parse_color("rgba(1,2,3,0.5)"), Ok([1, 2, 3]));
}

#[test]
fn invalid_colors_carry_the_reason() {
    let r = parse_color("not a colour");
    assert!(matches!(r, Err(ColorError::Invalid(_))));
    let Err(ColorError::Invalid(reason)) = parse_color("#12") else {
        panic!("a two-digit hex colour is no colour");
    };
    assert_eq!(reason, csscolorparser::ParseColorError::InvalidHex);
    assert_eq!(format!("{}", reason), "invalid hex format");
}
