use pylinefix::wrap::{wrap_line, wrap_long_line};

const LONG: &str = "    error = \"this is a ridiculously long explanation that needs to be wrapped appropriately in order for it to be PEP-8\",";

const LONG_WRAPPED: &str = "    error = (\n        \"this is a ridiculously long explanation that needs to be wrapped \"\n        \"appropriately in order for it to be PEP-8\"\n    ),\n";

#[test]
fn long_assignment_is_wrapped_at_column_80() {
    assert_eq!(wrap_line(LONG, 80, '"'), LONG_WRAPPED);
}

#[test]
fn short_line_is_returned_unchanged() {
    assert_eq!(wrap_line("x = 1", 80, '"'), "x = 1");
}

#[test]
fn short_line_gets_no_newline() {
    let out = wrap_line("    name = \"short\"", 80, '"');
    assert_eq!(out, "    name = \"short\"");
    assert!(!out.ends_with('\n'));
}

#[test]
fn empty_line_is_unchanged_below_the_width() {
    assert_eq!(wrap_line("", 1, '"'), "");
}

#[test]
fn empty_line_at_width_zero_is_a_bare_newline() {
    assert_eq!(wrap_line("", 0, '"'), "\n");
}

#[test]
fn reflowing_a_short_line_twice_changes_nothing() {
    let once = wrap_line("value = compute(1, 2)", 80, '"');
    let twice = wrap_line(&once, 80, '"');
    assert_eq!(once, "value = compute(1, 2)");
    assert_eq!(twice, once);
}

#[test]
fn line_one_short_of_the_width_is_unchanged() {
    assert_eq!(wrap_line("a = \"b\";", 9, '"'), "a = \"b\";");
}

#[test]
fn line_of_exactly_the_width_is_wrapped() {
    // Eight characters, width eight. The opening sets the column back to
    // four, so no cut is due.
    assert_eq!(wrap_line("a = \"b\";", 8, '"'), "a = (\n    \"b\"\n);\n");
}

#[test]
fn line_of_exactly_the_width_ends_in_a_newline() {
    let line = "x".repeat(80);
    let out = wrap_line(&line, 80, '"');
    assert!(out.ends_with('\n'));
    assert_ne!(out, line);
}

#[test]
fn length_is_counted_in_characters_not_bytes() {
    // Fifty characters in a hundred bytes stay below a width of eighty.
    let line = "\u{e9}".repeat(50);
    assert_eq!(line.len(), 100);
    assert_eq!(wrap_line(&line, 80, '"'), line);
}

#[test]
fn word_that_ends_the_line_is_dropped() {
    assert_eq!(wrap_long_line("a = b", 80, '"'), "a = \n");
    assert_eq!(wrap_line("abcde", 5, '"'), "\"\n    \"\n");
}

#[test]
fn wrap_long_line_wraps_a_short_line_too() {
    assert_eq!(wrap_long_line("x = \"y\";", 80, '"'), "x = (\n    \"y\"\n);\n");
}

#[test]
fn wrap_long_line_agrees_with_wrap_line_on_long_lines() {
    assert_eq!(wrap_long_line(LONG, 80, '"'), wrap_line(LONG, 80, '"'));
}

#[test]
fn words_are_not_broken() {
    let out = wrap_line(LONG, 80, '"');
    for word in [
        "error", "this", "is", "a", "ridiculously", "long", "explanation", "that", "needs", "to",
        "be", "wrapped", "appropriately", "in", "order", "for", "it", "PEP", "8",
    ] {
        assert!(out.lines().any(|l| l.contains(word)), "{}", word);
    }
}

#[test]
fn word_in_progress_moves_to_the_continuation_line() {
    // The cut is due at the last letter of the word and comes before all of it.
    let out = wrap_long_line("\"abcdefgh ij\"", 12, '"');
    assert_eq!(out, "(\n    \"\"\n    \"abcdefgh ij\"\n)\n");
}

#[test]
fn cut_reopens_the_literal_on_a_continuation_line() {
    let out = wrap_long_line("s = \"aa bb cc dd ee ff\"", 12, '"');
    assert_eq!(out, "s = (\n    \"aa bb \"\n    \"cc dd \"\n    \"ee ff\"\n)\n");
}

#[test]
fn two_quotes_give_one_group() {
    let out = wrap_line(LONG, 80, '"');
    assert_eq!(out.matches('(').count(), 1);
    assert_eq!(out.matches(')').count(), 1);
    assert!(out.find('(').unwrap() < out.find(')').unwrap());
}

#[test]
fn parentheses_of_the_line_are_kept() {
    let out = wrap_long_line("f(g(\"ab\"))", 80, '"');
    assert_eq!(out, "f(g((\n    \"ab\"\n)))\n");
    assert_eq!(out.matches('(').count(), 3);
    assert_eq!(out.matches(')').count(), 3);
}

#[test]
fn held_word_is_written_before_the_closing_quote() {
    let out = wrap_long_line("\"word\"", 80, '"');
    assert_eq!(out, "(\n    \"word\"\n)\n");
}

#[test]
fn word_before_the_first_quote_follows_the_opening() {
    let out = wrap_long_line("ab\"cd\"", 80, '"');
    assert_eq!(out, "(\n    \"abcd\"\n)\n");
}

#[test]
fn third_quote_closes_again() {
    let out = wrap_long_line("\"a\" \"b\"", 80, '"');
    assert_eq!(out, "(\n    \"a\"\n) \"\n)b\"\n)\n");
    assert_eq!(out.matches('(').count(), 1);
    assert_eq!(out.matches(')').count(), 3);
}

#[test]
fn indentation_of_the_line_is_kept() {
    let out = wrap_line(LONG, 80, '"');
    let lines: Vec<&str> = out.lines().collect();
    assert_eq!(lines.len(), 4);
    assert!(lines[0].starts_with("    error"));
    assert!(lines[1].starts_with("        \""));
    assert!(lines[2].starts_with("        \""));
    assert_eq!(lines[3], "    ),");
}

#[test]
fn line_without_indentation_continues_at_four_spaces() {
    let out = wrap_long_line("e = \"x y\"", 80, '"');
    assert_eq!(out, "e = (\n    \"x y\"\n)\n");
}

#[test]
fn deeper_indentation_is_kept() {
    let out = wrap_long_line("        e = \"x\"", 80, '"');
    assert_eq!(out, "        e = (\n            \"x\"\n        )\n");
}

#[test]
fn tabs_are_no_indentation() {
    let out = wrap_long_line("\te = \"x\"", 80, '"');
    assert_eq!(out, "\te = (\n    \"x\"\n)\n");
}

#[test]
fn other_quote_character() {
    let out = wrap_long_line("  s = 'a \"b\" c'", 80, '\'');
    assert_eq!(out, "  s = (\n      'a \"b\" c'\n  )\n");
}

#[test]
fn line_without_a_quote_is_cut_all_the_same() {
    let out = wrap_long_line("aa bb cc dd", 8, '"');
    assert_eq!(out, "aa bb \"\n    \"cc \"\n    \"\n");
}

#[test]
fn width_within_the_prefix_cuts_before_every_character() {
    // After a cut the column is five, which a width of four has been reached by.
    let out = wrap_long_line("aa bb cc", 4, '"');
    assert_eq!(out, "aa \"\n    \"\"\n    \"\"\n    \"bb \"\n    \"\"\n    \"\n");
}

#[test]
fn width_zero_cuts_before_every_character() {
    let out = wrap_long_line("a.", 0, '"');
    assert_eq!(out, "\"\n    \"\"\n    \"a.\n");
}

#[test]
fn letters_outside_ascii_are_word_boundaries() {
    let out = wrap_long_line("\u{e9}t\u{e9}", 80, '"');
    assert_eq!(out, "\u{e9}t\u{e9}\n");
}

#[test]
fn letter_as_quote_is_not_held() {
    let out = wrap_long_line("xxayy ", 80, 'a');
    assert_eq!(out, "(\n    axxyy \n");
}

fn words_of(line: &str) -> Vec<String> {
    // The runs of letters and digits that another character follows.
    let mut words = Vec::new();
    let mut word = String::new();
    for c in line.chars() {
        if c.is_ascii_alphanumeric() {
            word.push(c);
        } else {
            if !word.is_empty() {
                words.push(word.clone());
            }
            word.clear();
        }
    }
    words
}

#[test]
fn words_are_not_broken_at_any_width() {
    for width in 0u8..=255 {
        let out = wrap_long_line(LONG, width, '"');
        for word in words_of(LONG) {
            assert!(out.lines().any(|l| l.contains(&word)), "{} at {}", word, width);
        }
    }
}

#[test]
fn continuation_lines_are_indented_at_any_width() {
    for width in 0u8..=255 {
        let out = wrap_long_line(LONG, width, '"');
        assert!(out.ends_with('\n'));
        let lines: Vec<&str> = out.lines().collect();
        assert!(lines.len() >= 3);
        for line in &lines[1..] {
            assert!(line.starts_with("        \"") || line.starts_with("    )"), "{:?}", line);
        }
        assert_eq!(lines.iter().filter(|l| l.starts_with("    )")).count(), 1);
    }
}

#[test]
fn two_quotes_give_one_group_at_any_width() {
    for width in 0u8..=255 {
        let out = wrap_long_line(LONG, width, '"');
        assert_eq!(out.matches('(').count(), 1, "{}", width);
        assert_eq!(out.matches(')').count(), 1, "{}", width);
        assert!(out.find('(').unwrap() < out.find(')').unwrap());
        assert!(out.contains("8\"\n    )"));
    }
}

#[test]
fn wrapped_form_is_never_the_line() {
    for line in ["", "\n", "a\n", "x = 1", "\"\"", "a \"b\" c\n"] {
        for width in [0u8, 1, 5, 80] {
            assert_ne!(wrap_long_line(line, width, '"'), line);
        }
    }
}

#[test]
fn one_quote_opens_a_group_that_stays_open() {
    let out = wrap_long_line("a = \"bc ", 80, '"');
    assert_eq!(out, "a = (\n    \"bc \n");
    assert_eq!(out.matches('(').count(), 1);
    assert_eq!(out.matches(')').count(), 0);
}

#[test]
fn no_quote_no_group() {
    let out = wrap_long_line("a = (b) ", 80, '"');
    assert_eq!(out, "a = (b) \n");
}
