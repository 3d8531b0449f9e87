use pylinefix::layout::{group_close_text, group_open_text, line_break_text};
use pylinefix::text::{byte_len, count_leading_spaces, push_chars, word_char};

#[test]
fn no_leading_spaces() {
    assert_eq!(count_leading_spaces(""), 0);
    assert_eq!(count_leading_spaces("x = 1"), 0);
}

#[test]
fn leading_spaces_are_counted() {
    assert_eq!(count_leading_spaces("    error = 1"), 4);
    assert_eq!(count_leading_spaces(" a b"), 1);
}

#[test]
fn only_spaces() {
    assert_eq!(count_leading_spaces("   "), 3);
}

#[test]
fn spaces_after_the_first_other_character_do_not_count() {
    assert_eq!(count_leading_spaces("  a   "), 2);
}

#[test]
fn tab_is_no_space() {
    assert_eq!(count_leading_spaces("\t  x"), 0);
    assert_eq!(count_leading_spaces("  \t  x"), 2);
}

#[test]
fn spaces_before_a_wide_character() {
    assert_eq!(count_leading_spaces("  \u{1f600} "), 2);
}

#[test]
fn letters_and_digits_are_word_characters() {
    for c in ['0', '5', '9', 'A', 'M', 'Z', 'a', 'm', 'z'] {
        assert!(word_char(c), "{}", c);
        assert_eq!(word_char(c), c.is_ascii_alphanumeric());
    }
}

#[test]
fn other_characters_are_not() {
    for c in [' ', '"', '\'', '(', ')', '-', '_', '/', ':', '@', '[', '`', '{', '\n', '\u{e9}', '\u{661}'] {
        assert!(!word_char(c), "{}", c);
        assert_eq!(word_char(c), c.is_ascii_alphanumeric());
    }
}

#[test]
fn word_char_is_what_std_takes_for_ascii_alphanumeric() {
    for code in 0u32..=0x10ffff {
        if let Some(c) = char::from_u32(code) {
            assert_eq!(word_char(c), c.is_ascii_alphanumeric(), "{:x}", code);
        }
    }
}

#[test]
fn byte_len_counts_bytes() {
    assert_eq!(byte_len(""), 0);
    assert_eq!(byte_len("abc"), 3);
    assert_eq!(byte_len("\u{e9}t\u{e9}"), 5);
}

#[test]
fn push_chars_appends_in_order() {
    let mut out = String::from("ab");
    push_chars(&mut out, &vec!['c', '\u{e9}', 'd']);
    assert_eq!(out, "abc\u{e9}d");
    push_chars(&mut out, &Vec::new());
    assert_eq!(out, "abc\u{e9}d");
}

#[test]
fn line_break_closes_and_reopens() {
    let text: String = line_break_text(2, '"').into_iter().collect();
    assert_eq!(text, "\"\n      \"");
}

#[test]
fn group_opening() {
    let text: String = group_open_text(0, '\'').into_iter().collect();
    assert_eq!(text, "(\n    '");
}

#[test]
fn group_closing() {
    let text: String = group_close_text(3, '"').into_iter().collect();
    assert_eq!(text, "\"\n   )");
}
