use colorctl::text::{chars_of, is_white_space, parse_unsigned_range, IntErrorKind};

fn std_kind(e: &std::num::ParseIntError) -> IntErrorKind {
    match e.kind() {
        std::num::IntErrorKind::Empty => IntErrorKind::Empty,
        std::num::IntErrorKind::InvalidDigit => IntErrorKind::InvalidDigit,
        std::num::IntErrorKind::PosOverflow => IntErrorKind::PosOverflow,
        other => panic!("unexpected kind {other:?}"),
    }
}

const SAMPLES: &[&str] = &[
    "", "+", "-", "+5", "-5", "0", "255", "256", "999x", "99x9", "0x10", " 1", "1 ", "ff", "FF",
    "+ff", "1_0", "00000000255", "4294967295", "4294967296", "12F4C", "\u{e9}", "++1", "z",
];

#[test]
fn parse_agrees_with_from_str_radix() {
    for s in SAMPLES {
        let v = chars_of(s);
        for radix in [10u32, 16] {
            let mine8 = parse_unsigned_range(&v, 0, v.len(), radix, 255).map(|n| n as u8);
            let std8 = u8::from_str_radix(s, radix).map_err(|e| std_kind(&e));
            assert_eq!(mine8, std8, "u8 {s:?} radix {radix}");
            let mine32 = parse_unsigned_range(&v, 0, v.len(), radix, u32::MAX);
            let std32 = u32::from_str_radix(s, radix).map_err(|e| std_kind(&e));
            assert_eq!(mine32, std32, "u32 {s:?} radix {radix}");
        }
    }
}

#[test]
fn white_space_agrees_with_char_is_whitespace() {
    for u in 0u32..=0x10FFFF {
        if let Some(c) = char::from_u32(u) {
            assert_eq!(is_white_space(c), c.is_whitespace(), "U+{u:04X}");
        }
    }
}

#[test]
fn chars_of_keeps_every_char() {
    assert_eq!(chars_of("a\u{e9}\u{3000}z"), vec!['a', '\u{e9}', '\u{3000}', 'z']);
    assert_eq!(chars_of(""), Vec::<char>::new());
}
