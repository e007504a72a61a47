use topic_model::text::{decimal_string, is_whitespace, trim_end};

#[test]
fn numerals_are_those_of_the_standard_library() {
    let samples = [
        0usize, 1, 9, 10, 11, 19, 20, 99, 100, 101, 999, 1000, 4096, 65535, 1_000_000,
        usize::MAX / 10, usize::MAX - 1, usize::MAX,
    ];
    for n in samples {
        assert_eq!(decimal_string(n), n.to_string());
    }
    for n in 0..2000usize {
        assert_eq!(decimal_string(n), n.to_string());
    }
}

#[test]
fn numerals_of_small_numbers() {
    assert_eq!(decimal_string(0), "0");
    assert_eq!(decimal_string(7), "7");
    assert_eq!(decimal_string(10), "10");
    assert_eq!(decimal_string(305), "305");
}

#[test]
fn white_space_is_that_of_the_standard_library() {
    let mut count = 0;
    for code in 0..=0x10FFFFu32 {
        if let Some(c) = char::from_u32(code) {
            assert_eq!(is_whitespace(c), c.is_whitespace(), "U+{:04X}", code);
            if is_whitespace(c) {
                count += 1;
            }
        }
    }
    assert_eq!(count, 25);
}

#[test]
fn some_white_space_and_some_not() {
    for c in [' ', '\t', '\n', '\r', '\u{b}', '\u{c}', '\u{85}', '\u{a0}', '\u{2003}', '\u{3000}'] {
        assert!(is_whitespace(c));
    }
    for c in ['a', '0', ':', '\0', '\u{8}', '\u{e}', '\u{200b}', '\u{180e}', '\u{feff}'] {
        assert!(!is_whitespace(c));
    }
}

#[test]
fn trimming_is_that_of_the_standard_library() {
    let samples = [
        "",
        " ",
        "   \t\n",
        "a",
        "a ",
        " a",
        " a  ",
        "Topic 0: ",
        "Topic 0: cat dog ",
        "word\u{a0}\u{2003}\u{3000}",
        "word\u{200b} ",
        "two  words \r\n",
        "\u{e9}t\u{e9} \u{85}",
        "tab\tinside\t",
    ];
    for text in samples {
        assert_eq!(trim_end(text), text.trim_end());
    }
}

#[test]
fn trimming_keeps_what_stands_before() {
    assert_eq!(trim_end("  a b  "), "  a b");
    assert_eq!(trim_end("\n"), "");
    assert_eq!(trim_end("x"), "x");
}
