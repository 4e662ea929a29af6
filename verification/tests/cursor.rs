use helix::expr::{param_is_local, param_name, parse_u32, Cursor};

#[test]
fn peek_and_next_walk_the_text() {
    let mut c = Cursor::new("ab");
    assert_eq!(c.peek(), Some('a'));
    assert_eq!(c.peek_after(), Some('b'));
    assert_eq!(c.next(), Some('a'));
    assert_eq!(c.pos, 1);
    assert_eq!(c.peek_after(), None);
    assert_eq!(c.next(), Some('b'));
    assert_eq!(c.next(), None);
    assert_eq!(c.pos, 2);
    assert_eq!(c.peek(), None);
}

#[test]
fn whitespace_and_end() {
    let mut c = Cursor::new(" \t x ");
    c.skip_ws();
    assert_eq!(c.pos, 3);
    assert!(!c.at_end());
    c.next();
    assert!(c.at_end());
    assert_eq!(c.pos, 5);
    let mut e = Cursor::new("");
    assert!(e.at_end());
}

#[test]
fn keywords_match_whole_words_in_any_case() {
    let mut c = Cursor::new("  and 1");
    assert!(c.starts_with_kw("AND"));
    assert_eq!(c.pos, 5);

    let mut c = Cursor::new("ANDY");
    assert!(!c.starts_with_kw("AND"));
    assert_eq!(c.pos, 0);

    let mut c = Cursor::new("AND2");
    assert!(!c.starts_with_kw("AND"));

    let mut c = Cursor::new("AN");
    assert!(!c.starts_with_kw("AND"));

    let mut c = Cursor::new("mod[3]");
    assert!(c.starts_with_kw("MOD"));
    assert_eq!(c.peek(), Some('['));

    // a keyword ending in a symbol may run into anything
    let mut c = Cursor::new("**2");
    assert!(c.starts_with_kw("**"));
    assert_eq!(c.pos, 2);
}

#[test]
fn numbers_are_cut_out() {
    let mut c = Cursor::new("  12.5X");
    assert_eq!(c.number_text(), "12.5");
    assert_eq!(c.peek(), Some('X'));
    let mut c = Cursor::new("X");
    assert_eq!(c.number_text(), "");
    assert_eq!(c.pos, 0);
    let mut c = Cursor::new("1.2.3");
    assert_eq!(c.number_text(), "1.2.3");
}

#[test]
fn named_parameters() {
    let mut c = Cursor::new("<My Depth>=3");
    assert_eq!(param_name(&mut c).unwrap(), "mydepth");
    assert_eq!(c.peek(), Some('='));
    let mut c = Cursor::new("<_Ä>");
    assert_eq!(param_name(&mut c).unwrap(), "_ä");
    let mut c = Cursor::new("<open");
    assert_eq!(param_name(&mut c).unwrap_err(), "unterminated #<name>");
    assert_eq!(c.pos, 5);
}

#[test]
fn parameter_scope() {
    // outside a subroutine everything is global
    assert!(!param_is_local(false, "1"));
    assert!(!param_is_local(false, "name"));
    // inside one, numbered 1–30 and plain names are local
    assert!(param_is_local(true, "1"));
    assert!(param_is_local(true, "30"));
    assert!(!param_is_local(true, "31"));
    assert!(!param_is_local(true, "0"));
    assert!(param_is_local(true, "depth"));
    assert!(!param_is_local(true, "_global"));
    assert!(param_is_local(true, "+5"));
    assert!(param_is_local(true, "-5"));
}

#[test]
fn u32_keys() {
    let v = |s: &str| s.chars().collect::<Vec<char>>();
    assert_eq!(parse_u32(&v("17")), Some(17));
    assert_eq!(parse_u32(&v("+017")), Some(17));
    assert_eq!(parse_u32(&v("4294967295")), Some(u32::MAX));
    assert_eq!(parse_u32(&v("4294967296")), None);
    assert_eq!(parse_u32(&v("-1")), None);
    assert_eq!(parse_u32(&v("")), None);
}

#[test]
fn next_reads_each_character_once() {
    let mut c = Cursor::new("G1");
    assert_eq!(c.next(), Some('G'));
    assert_eq!(c.next(), Some('1'));
    assert_eq!(c.next(), None);
    assert_eq!(c.pos, 2);
}
