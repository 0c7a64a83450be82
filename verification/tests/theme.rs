use dbug_desktop::theme::{hex_to_color, Mode, Rgb};

fn rgb(r: u8, g: u8, b: u8) -> Rgb {
    Rgb { r, g, b }
}

#[test]
fn six_digits_are_three_components() {
    assert_eq!(hex_to_color("#ff8000"), rgb(255, 128, 0));
    assert_eq!(hex_to_color("#000000"), rgb(0, 0, 0));
    assert_eq!(hex_to_color("#FFFFFF"), rgb(255, 255, 255));
    assert_eq!(hex_to_color("#1a2B3c"), rgb(0x1a, 0x2b, 0x3c));
}

#[test]
fn the_number_sign_is_optional_and_may_repeat() {
    assert_eq!(hex_to_color("102030"), rgb(16, 32, 48));
    assert_eq!(hex_to_color("###102030"), rgb(16, 32, 48));
    assert_eq!(hex_to_color("#1020#0"), rgb(16, 32, 0));
}

#[test]
fn any_other_length_is_black() {
    assert_eq!(hex_to_color("#fff"), rgb(0, 0, 0));
    assert_eq!(hex_to_color(""), rgb(0, 0, 0));
    assert_eq!(hex_to_color("#"), rgb(0, 0, 0));
    assert_eq!(hex_to_color("#ffffff0"), rgb(0, 0, 0));
    assert_eq!(hex_to_color("#fffff"), rgb(0, 0, 0));
    assert_eq!(hex_to_color(" ffffff"), rgb(0, 0, 0));
}

#[test]
fn a_component_that_is_no_number_is_zero() {
    assert_eq!(hex_to_color("#gg8000"), rgb(0, 128, 0));
    assert_eq!(hex_to_color("#ff80zz"), rgb(255, 128, 0));
    assert_eq!(hex_to_color("#f 8000"), rgb(0, 128, 0));
    assert_eq!(hex_to_color("#-1-2-3"), rgb(0, 0, 0));
    assert_eq!(hex_to_color("#++0000"), rgb(0, 0, 0));
}

#[test]
fn a_plus_sign_may_stand_for_the_first_digit() {
    assert_eq!(hex_to_color("#+f+0+a"), rgb(15, 0, 10));
}

#[test]
fn components_agree_with_the_standard_parser() {
    for text in ["00", "ff", "Ff", "+1", "+g", "1+", "-1", "g0", "0g", "++", "7f", " 1"] {
        let hex = format!("{}0000", text);
        let expected = u8::from_str_radix(text, 16).unwrap_or(0);
        assert_eq!(hex_to_color(&hex), rgb(expected, 0, 0), "for {:?}", text);
    }
}

#[test]
fn characters_of_more_than_one_byte_count_by_their_bytes() {
    // Two bytes for the letter, four for the digits: six in all.
    assert_eq!(hex_to_color("é1020"), rgb(0, 16, 32));
    assert_eq!(hex_to_color("ééé"), rgb(0, 0, 0));
    assert_eq!(hex_to_color("é10203"), rgb(0, 0, 0));
}

#[test]
fn modes_are_two() {
    assert_ne!(Mode::Light, Mode::Dark);
    assert_eq!(Mode::Dark, Mode::Dark.clone());
}
