use oxide::text::{is_blank, is_space, trim};

#[test]
fn white_space_is_that_of_unicode() {
    for code in 0..=0x0010_ffff_u32 {
        if let Some(c) = char::from_u32(code) {
            assert_eq!(is_space(c), c.is_whitespace(), "{:?}", c);
        }
    }
}

#[test]
fn blank_text_is_empty_once_trimmed() {
    for text in ["", " ", "\t\r\n", "\u{3000}\u{a0}", "a", " a ", "  \u{200b}"] {
        assert_eq!(is_blank(text), text.trim().is_empty(), "{:?}", text);
    }
}

#[test]
fn text_is_trimmed_on_both_sides() {
    for text in [
        "", " ", "\t\r\n ", "a", " a", "a ", "  a b  ",
        "\u{3000}\u{e9}\u{a0}x\u{2028}", "\u{200b} ", " \u{1f600} ",
    ] {
        assert_eq!(trim(text), text.trim(), "{:?}", text);
        assert_eq!(is_blank(text), trim(text).is_empty());
    }
}
