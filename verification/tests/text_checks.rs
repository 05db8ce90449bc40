use michaelator::text::{chars_of, is_space, trim};

#[test]
fn chars_of_keeps_order_and_counts_characters() {
    assert_eq!(chars_of(""), Vec::<char>::new());
    assert_eq!(chars_of("a+b"), vec!['a', '+', 'b']);
    assert_eq!(chars_of("é(π)"), vec!['é', '(', 'π', ')']);
}

#[test]
fn white_space_is_what_the_standard_library_says() {
    for n in 0..=0x10FFFFu32 {
        if let Some(c) = char::from_u32(n) {
            assert_eq!(is_space(c), c.is_whitespace(), "{:#x}", n);
        }
    }
}

#[test]
fn trim_cuts_both_ends() {
    assert_eq!(trim("  x  "), "x");
    assert_eq!(trim("x"), "x");
    assert_eq!(trim(" x"), "x");
    assert_eq!(trim("x "), "x");
    assert_eq!(trim("\t\r\n x y \u{000B}\u{000C}"), "x y");
}

#[test]
fn trim_of_nothing_but_white_space_is_empty() {
    assert_eq!(trim(""), "");
    assert_eq!(trim(" "), "");
    assert_eq!(trim(" \t\n"), "");
}

#[test]
fn trim_keeps_inner_white_space() {
    assert_eq!(trim(" a  b "), "a  b");
}

#[test]
fn trim_agrees_with_the_standard_library() {
    for s in [
        "",
        " ",
        "a",
        " a",
        "a ",
        "  a b  ",
        "\u{00A0}a\u{2003}",
        "\u{1680}\u{2028}x\u{2029}\u{202F}\u{205F}\u{3000}",
        "\u{0085}é\u{0085}",
        "\u{200B}a\u{200B}",
        "\u{FEFF}a",
    ] {
        assert_eq!(trim(s), s.trim(), "{:?}", s);
    }
}
