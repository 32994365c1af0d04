use engine::hex_color::{hex_color_error_message, parse_hex_color, parse_hex_color_components, HexColorError, Rgb};

#[test]
fn parses_six_digits() {
    assert_eq!(parse_hex_color("#40465B"), Ok(Rgb { r: 0x40, g: 0x46, b: 0x5B }));
    assert_eq!(parse_hex_color("ff00aa"), Ok(Rgb { r: 255, g: 0, b: 170 }));
    assert_eq!(parse_hex_color("##000000"), Ok(Rgb { r: 0, g: 0, b: 0 }));
}

#[test]
fn wrong_length() {
    assert_eq!(parse_hex_color("#fff"), Err("Invalid hex color format".to_string()));
    assert_eq!(parse_hex_color(""), Err("Invalid hex color format".to_string()));
    assert_eq!(parse_hex_color("#1234567"), Err("Invalid hex color format".to_string()));
}

#[test]
fn bad_components() {
    assert_eq!(parse_hex_color("zz0000"), Err("Invalid red component".to_string()));
    assert_eq!(parse_hex_color("00zz00"), Err("Invalid green component".to_string()));
    assert_eq!(parse_hex_color("0000zz"), Err("Invalid blue component".to_string()));
    assert_eq!(parse_hex_color_components("00-100"), Err(HexColorError::Green));
}

#[test]
fn plus_sign_is_accepted() {
    assert_eq!(parse_hex_color("+f0000"), Ok(Rgb { r: 15, g: 0, b: 0 }));
    assert_eq!(parse_hex_color("+f0000"), Ok(Rgb { r: u8::from_str_radix("+f", 16).unwrap(), g: 0, b: 0 }));
}

#[test]
fn messages() {
    assert_eq!(hex_color_error_message(HexColorError::Format), "Invalid hex color format");
    assert_eq!(hex_color_error_message(HexColorError::Red), "Invalid red component");
    assert_eq!(hex_color_error_message(HexColorError::Green), "Invalid green component");
    assert_eq!(hex_color_error_message(HexColorError::Blue), "Invalid blue component");
}

#[test]
fn written_color_reads_back() {
    for (r, g, b) in [(0u8, 0u8, 0u8), (255, 255, 255), (0x40, 0x46, 0x5B), (1, 171, 16)] {
        let text = format!("#{:02X}{:02X}{:02X}", r, g, b);
        assert_eq!(parse_hex_color(&text), Ok(Rgb { r, g, b }));
    }
}
