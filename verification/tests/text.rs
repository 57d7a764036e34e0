use heavy::numbers::{decimal, hexadecimal, parse_number, parse_u32, parse_u64};
use heavy::text::{chars_of, cut_last, cut_once, split_at_any, text_of, to_lower, trim, trim_matches};

#[test]
fn numbers_read_as_the_standard_library_does() {
    let texts = [
        "", "+", "-", "0", "007", "+7", "-7", "++7", "10", "ff", "FF", "g", " 1", "1 ", "1_0",
        "255", "256", "4294967295", "4294967296", "18446744073709551615", "18446744073709551616",
        "99999999999999999999999999", "ffffffffffffffff", "10000000000000000", "\u{661}",
    ];
    for text in texts {
        assert_eq!(parse_u64(text), text.parse().ok(), "{text:?}");
        assert_eq!(parse_u32(text), text.parse().ok(), "{text:?}");
        assert_eq!(
            parse_number(&chars_of(text), 16, u64::MAX),
            u64::from_str_radix(text, 16).ok(),
            "{text:?}"
        );
    }
}

#[test]
fn numbers_are_written_as_the_standard_library_does() {
    for n in [0, 1, 9, 10, 15, 16, 255, 256, 0xc0ffee, u32::MAX as u64, u64::MAX] {
        assert_eq!(decimal(n), n.to_string());
        assert_eq!(hexadecimal(n), format!("{n:x}"));
    }
}

#[test]
fn texts_are_cut_as_the_standard_library_does() {
    let owned = |parts: Vec<Vec<char>>| -> Vec<String> { parts.iter().map(|p| text_of(p)).collect() };
    for text in ["", "=", "a", "a=b", "a=b=c", "=a", ",;a,,b;", "caf\u{e9}=\u{1f980}", " a \t", "\"\"x\""] {
        let chars = chars_of(text);
        assert_eq!(text_of(&chars), text);
        assert_eq!(
            owned(split_at_any(&chars, &[',', ';'])),
            text.split([',', ';']).collect::<Vec<_>>()
        );
        assert_eq!(
            cut_once(&chars, '=').map(|(a, b)| (text_of(a), text_of(b))),
            text.split_once('=').map(|(a, b)| (a.to_string(), b.to_string()))
        );
        assert_eq!(
            cut_last(&chars, '=').map(text_of),
            text.rsplit_once('=').map(|(a, _)| a.to_string())
        );
        assert_eq!(text_of(trim(&chars)), text.trim());
        assert_eq!(text_of(trim_matches(&chars, '"')), text.trim_matches('"'));
        assert_eq!(text_of(&to_lower(&chars)), text.to_ascii_lowercase());
    }
}

#[test]
fn white_space_is_that_of_unicode() {
    for c in (0..=0x10ffff).filter_map(char::from_u32) {
        assert_eq!(heavy::text::white_space(c), c.is_whitespace(), "{c:?}");
        assert_eq!(heavy::text::lower_char(c), c.to_ascii_lowercase(), "{c:?}");
    }
}
