use merkle_tree::text::{chars_of, contains_marker, is_space_char, line_end, trim_bounds};

#[test]
fn blanks_are_the_characters_that_trim_removes() {
    for code in 0..=0x10ffffu32 {
        if let Some(c) = char::from_u32(code) {
            assert_eq!(is_space_char(c), c.is_whitespace());
        }
    }
}

#[test]
fn characters_lines_and_markers() {
    let chars = chars_of("ab\n 0x1 \ncd");
    assert_eq!(chars, vec!['a', 'b', '\n', ' ', '0', 'x', '1', ' ', '\n', 'c', 'd']);
    assert_eq!(line_end(&chars, 0), 2);
    assert_eq!(line_end(&chars, 2), 2);
    assert_eq!(line_end(&chars, 3), 8);
    assert_eq!(line_end(&chars, 9), 11);
    assert_eq!(line_end(&chars, 11), 11);
    assert!(!contains_marker(&chars, 0, 2));
    assert!(contains_marker(&chars, 3, 8));
    assert!(!contains_marker(&chars, 5, 8));
    assert!(!contains_marker(&chars, 3, 5));
    assert_eq!(trim_bounds(&chars, 3, 8), (4, 7));
    assert_eq!(trim_bounds(&chars, 0, 2), (0, 2));
    assert_eq!(trim_bounds(&chars, 7, 9), (9, 9));
    assert_eq!(chars_of("h\u{e9}\u{1f600}"), vec!['h', '\u{e9}', '\u{1f600}']);
}

#[test]
fn trimming_agrees_with_trim() {
    let samples = [
        "",
        " ",
        "a",
        " a",
        "a ",
        "\t a b \r\n",
        "\u{a0}\u{2003}x\u{3000}\u{85}",
        "\u{200b}x\u{200b}",
        " \u{1680} ",
    ];
    for sample in samples {
        let chars = chars_of(sample);
        let (from, to) = trim_bounds(&chars, 0, chars.len());
        let kept: String = chars[from..to].iter().collect();
        assert_eq!(kept, sample.trim());
    }
}
