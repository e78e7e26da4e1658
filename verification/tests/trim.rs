use uniq::trim::lines_match;

fn listed_as_whitespace(c: char) -> bool {
    matches!(
        c,
        '\u{9}'..='\u{d}'
            | '\u{20}'
            | '\u{85}'
            | '\u{a0}'
            | '\u{1680}'
            | '\u{2000}'..='\u{200a}'
            | '\u{2028}'
            | '\u{2029}'
            | '\u{202f}'
            | '\u{205f}'
            | '\u{3000}'
    )
}

#[test]
fn lines_match_ignores_line_endings_and_trailing_blanks() {
    assert!(lines_match("a\n", "a"));
    assert!(lines_match("a \n", "a\n"));
    assert!(lines_match("a\r\n", "a\n"));
    assert!(lines_match("a \t \n", "a"));
    assert!(lines_match("", "\n"));
    assert!(lines_match("  ", "\n"));
    assert!(lines_match("a b  ", "a b"));
}

#[test]
fn lines_match_is_exact_on_what_is_left() {
    assert!(!lines_match("a\n", "b\n"));
    assert!(!lines_match("a\n", "A\n"));
    assert!(!lines_match(" a\n", "a\n"));
    assert!(!lines_match("a b\n", "ab\n"));
    assert!(!lines_match("a\n", "aa\n"));
    assert!(!lines_match("a\n", "\n"));
    assert!(!lines_match("a \n", "a .\n"));
}

#[test]
fn lines_match_needs_more_than_equal_untrimmed_prefixes() {
    assert!(!lines_match("a\n", "a\nb"));
    assert!(lines_match("a\n\n\n", "a"));
}

#[test]
fn every_character_is_trailing_whitespace_exactly_if_listed() {
    for code in 0..=0x10ffff_u32 {
        if let Some(c) = char::from_u32(code) {
            let line = format!("a{}", c);
            assert_eq!(lines_match(&line, "a"), listed_as_whitespace(c), "U+{:04X}", code);
        }
    }
}

#[test]
fn whitespace_inside_a_line_is_kept() {
    assert!(!lines_match("a\u{3000}b", "ab"));
    assert!(lines_match("a\u{3000}", "a\u{85}\u{a0}"));
    assert!(!lines_match("a\u{200b}", "a"));
    assert!(!lines_match("a\u{1c}", "a"));
}
