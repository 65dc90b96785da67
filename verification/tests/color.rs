use colorctl::rgb::{parse_color, ColorComponent, ColorError};
use colorctl::text::IntErrorKind;

#[test]
fn color_names_in_any_case() {
    assert_eq!(parse_color("red"), Ok([255, 0, 0]));
    assert_eq!(parse_color("  Cyan \t"), Ok([0, 255, 255]));
    assert_eq!(parse_color("PURPLE"), Ok([255, 0, 255]));
    assert_eq!(parse_color("magenta"), Ok([255, 0, 255]));
    assert_eq!(parse_color("off"), Ok([0, 0, 0]));
    assert_eq!(parse_color("black"), Ok([0, 0, 0]));
    assert_eq!(parse_color("orange"), Ok([255, 128, 0]));
    assert_eq!(parse_color("yellow"), Ok([255, 255, 0]));
    assert_eq!(parse_color("white"), Ok([255, 255, 255]));
    assert_eq!(parse_color("green"), Ok([0, 255, 0]));
    assert_eq!(parse_color("blue"), Ok([0, 0, 255]));
}

#[test]
fn color_hex_forms() {
    assert_eq!(parse_color("ff0088"), Ok([255, 0, 136]));
    assert_eq!(parse_color("#00ff88"), Ok([0, 255, 136]));
    assert_eq!(parse_color("0x00FF88"), Ok([0, 255, 136]));
    assert_eq!(parse_color("##0x0xABCDEF"), Ok([0xab, 0xcd, 0xef]));
}

#[test]
fn color_hex_errors_name_the_component() {
    assert_eq!(
        parse_color("gg0000"),
        Err(ColorError::InvalidHex(ColorComponent::Red, IntErrorKind::InvalidDigit))
    );
    assert_eq!(
        parse_color("00zz00"),
        Err(ColorError::InvalidHex(ColorComponent::Green, IntErrorKind::InvalidDigit))
    );
    assert_eq!(
        parse_color("0000-1"),
        Err(ColorError::InvalidHex(ColorComponent::Blue, IntErrorKind::InvalidDigit))
    );
    assert_eq!(
        parse_color("\u{e9}\u{e9}00"),
        Err(ColorError::InvalidHex(ColorComponent::Red, IntErrorKind::InvalidDigit))
    );
}

#[test]
fn color_bad_format_keeps_trimmed_text() {
    assert_eq!(parse_color("#12345"), Err(ColorError::InvalidFormat("#12345".to_string())));
    assert_eq!(parse_color("  nope "), Err(ColorError::InvalidFormat("nope".to_string())));
    assert_eq!(parse_color(""), Err(ColorError::InvalidFormat(String::new())));
    assert_eq!(parse_color("0X00FF88"), Err(ColorError::InvalidFormat("0X00FF88".to_string())));
}

#[test]
fn hex_round_trip() {
    for (r, g, b) in [(0u8, 0u8, 0u8), (255, 255, 255), (0x12, 0xab, 0xf0), (1, 2, 3)] {
        for text in [
            format!("{r:02x}{g:02x}{b:02x}"),
            format!("#{r:02x}{g:02x}{b:02x}"),
            format!("0x{r:02X}{g:02X}{b:02X}"),
            format!(" \t#{r:02X}{g:02x}{b:02X}\n "),
        ] {
            assert_eq!(parse_color(&text), Ok([r, g, b]), "{text:?}");
        }
    }
}

#[test]
fn components_must_be_two_hex_digits() {
    assert_eq!(
        parse_color("+f+f+f"),
        Err(ColorError::InvalidHex(ColorComponent::Red, IntErrorKind::InvalidDigit))
    );
    assert_eq!(
        parse_color("ff+f00"),
        Err(ColorError::InvalidHex(ColorComponent::Green, IntErrorKind::InvalidDigit))
    );
    assert_eq!(
        parse_color("ff00 1"),
        Err(ColorError::InvalidHex(ColorComponent::Blue, IntErrorKind::InvalidDigit))
    );
    assert_eq!(parse_color("ff00"), Err(ColorError::InvalidFormat("ff00".to_string())));
    assert_eq!(parse_color("#ff00881"), Err(ColorError::InvalidFormat("#ff00881".to_string())));
}

#[test]
fn components_cut_inside_a_character_are_no_colour() {
    // offset 2 falls inside the euro sign
    assert_eq!(
        parse_color("a\u{20ac}bc"),
        Err(ColorError::InvalidFormat("a\u{20ac}bc".to_string()))
    );
    // red is read first and fails
    assert_eq!(
        parse_color("zza\u{20ac}"),
        Err(ColorError::InvalidHex(ColorComponent::Red, IntErrorKind::InvalidDigit))
    );
    // red reads, then offset 4 falls inside the euro sign
    assert_eq!(
        parse_color(" ffa\u{20ac} "),
        Err(ColorError::InvalidFormat("ffa\u{20ac}".to_string()))
    );
}
