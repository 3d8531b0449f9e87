use pylinefix::wrap::Scanner;

fn read_all(sc: &mut Scanner, text: &str) {
    for c in text.chars() {
        sc.read(c);
    }
}

#[test]
fn new_scanner_has_written_nothing() {
    let sc = Scanner::new(80, '"', 4);
    assert_eq!(sc.output(), "");
    assert_eq!(sc.finish(), "\n");
}

#[test]
fn letters_are_held_until_the_word_ends() {
    let mut sc = Scanner::new(80, '"', 0);
    read_all(&mut sc, "abc");
    assert_eq!(sc.output(), "");
    sc.read(' ');
    assert_eq!(sc.output(), "abc ");
}

#[test]
fn first_quote_opens_the_group() {
    let mut sc = Scanner::new(80, '"', 2);
    read_all(&mut sc, "  x = ");
    sc.read('"');
    assert_eq!(sc.output(), "  x = (\n      \"");
}

#[test]
fn second_quote_writes_the_held_word_and_closes_the_group() {
    let mut sc = Scanner::new(80, '"', 2);
    read_all(&mut sc, "  x = \"some word");
    assert_eq!(sc.output(), "  x = (\n      \"some ");
    sc.read('"');
    assert_eq!(sc.output(), "  x = (\n      \"some word\"\n  )");
}

#[test]
fn cut_comes_when_the_column_reaches_the_width() {
    let mut sc = Scanner::new(4, '"', 0);
    read_all(&mut sc, "a b");
    assert_eq!(sc.output(), "a ");
    sc.read(' ');
    assert_eq!(sc.output(), "a \"\n    \"b ");
}

#[test]
fn column_starts_at_the_prefix_after_the_opening() {
    // After the opening the column is that of the prefix, four: the cut is
    // due with the sixth character after the quote.
    let mut sc = Scanner::new(10, '"', 0);
    read_all(&mut sc, "\"a b c");
    assert_eq!(sc.output(), "(\n    \"a b ");
    sc.read(' ');
    assert_eq!(sc.output(), "(\n    \"a b \"\n    \"c ");
}

#[test]
fn column_counts_the_quote_after_a_cut() {
    // After a cut the column is that of the prefix and one, five: the next
    // cut is due with the third character after the one that was cut before.
    let mut sc = Scanner::new(8, '"', 0);
    read_all(&mut sc, ".......");
    assert_eq!(sc.output(), ".......");
    read_all(&mut sc, "ab");
    assert_eq!(sc.output(), ".......\"\n    \"");
    read_all(&mut sc, ".");
    assert_eq!(sc.output(), ".......\"\n    \"ab.");
    read_all(&mut sc, ".");
    assert_eq!(sc.output(), ".......\"\n    \"ab.\"\n    \".");
}

#[test]
fn finish_adds_the_newline_and_drops_the_held_word() {
    let mut sc = Scanner::new(80, '"', 0);
    read_all(&mut sc, "a = bcd");
    assert_eq!(sc.finish(), "a = \n");
}
