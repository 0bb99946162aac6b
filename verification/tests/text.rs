use dar_extensions::text::{decimal_chars, is_whitespace, parse_number, trim};

fn chars(text: &str) -> Vec<char> {
    text.chars().collect()
}

#[test]
fn white_space_is_that_of_unicode() {
    for c in '\0'..=char::MAX {
        assert_eq!(is_whitespace(c), c.is_whitespace(), "{:x}", c as u32);
    }
}

#[test]
fn trimming_takes_white_space_from_both_ends() {
    for text in ["", " ", "a", " a b\u{3000}\n", "\u{85}x\u{a0}", "\u{200b}x"] {
        assert_eq!(trim(&chars(text)), chars(text.trim()), "{text:?}");
    }
}

#[test]
fn numbers_are_written_and_read() {
    for number in [0, 7, 10, 6697, u64::MAX] {
        assert_eq!(decimal_chars(number), chars(&number.to_string()));
        assert_eq!(parse_number(&decimal_chars(number), u64::MAX), Some(number));
    }
    for text in ["", "-1", "1 ", "18446744073709551616", "0x10", "+", "1.5"] {
        assert_eq!(parse_number(&chars(text), u64::MAX), None, "{text:?}");
    }
    assert_eq!(parse_number(&chars("+12"), u64::MAX), Some(12));
    assert_eq!(parse_number(&chars("65536"), 65535), None);
}
