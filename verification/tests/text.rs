use devfolio_cli_rust::text::{chars_of, is_whitespace, str_lt, trimmed_len, u32_text};

#[test]
fn whitespace_agrees_with_char_is_whitespace() {
    for u in 0u32..0x3100 {
        if let Some(c) = char::from_u32(u) {
            assert_eq!(is_whitespace(c), c.is_whitespace(), "U+{:04X}", u);
        }
    }
    assert!(!is_whitespace('\u{feff}'));
    assert!(!is_whitespace('\u{200b}'));
}

#[test]
fn trimmed_len_agrees_with_trim() {
    let samples = [
        "",
        " ",
        "abc",
        "  abc  ",
        "\n\t x y \r\n",
        "\u{3000}é\u{a0}",
        "\u{2028}\u{2029}\u{85}",
        "a\u{200a}",
        "  中文 text ",
    ];
    for s in samples {
        assert_eq!(trimmed_len(s), s.trim().chars().count(), "{:?}", s);
    }
}

#[test]
fn chars_are_listed_in_order() {
    assert_eq!(chars_of("aé中"), vec!['a', 'é', '中']);
    assert!(chars_of("").is_empty());
}

#[test]
fn decimal_text() {
    for n in [0u32, 7, 10, 99, 100, 12345, u32::MAX] {
        assert_eq!(u32_text(n), n.to_string());
    }
}

#[test]
fn order_agrees_with_str_order() {
    let words = ["", "a", "A", "ab", "abc", "b", "Z", "é", "e", "中", "aé", "a\u{0}", "zz"];
    for x in words {
        for y in words {
            assert_eq!(str_lt(x, y), x < y, "{:?} < {:?}", x, y);
        }
    }
}
