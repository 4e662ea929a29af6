use helix::gcode::{
    effective, err, find_o, o_parts, o_word_at, plane_axes, rfind_o, same_chars, strip_comments, Keyword, Target,
};
use helix::text::{chars_eq, chars_of, skip_ws, slice_of, split_lines, trim_chars};

fn v(s: &str) -> Vec<char> {
    s.chars().collect()
}

fn s(c: &[char]) -> String {
    c.iter().collect()
}

fn program(src: &str) -> Vec<Vec<char>> {
    src.lines().map(v).collect()
}

#[test]
fn comments_are_stripped() {
    assert_eq!(s(&strip_comments(&v("G1 X1 (move) Y2 ; tail"))), "G1 X1  Y2 ");
    assert_eq!(s(&strip_comments(&v("(a (b) c)G0"))), "G0");
    assert_eq!(s(&strip_comments(&v("G0 X1) Y2"))), "G0 X1) Y2");
    assert_eq!(s(&strip_comments(&v("(open G0"))), "");
    // a semicolon inside a comment does not end the line
    assert_eq!(s(&strip_comments(&v("(a;b) G0 ; c"))), " G0 ");
}

#[test]
fn stripping_twice_changes_nothing() {
    for line in ["G1 (x) Y2 ; t", "(a (b) c)G0", "G0 X1) Y2", "((("] {
        let once = strip_comments(&v(line));
        assert_eq!(strip_comments(&once), once);
    }
}

#[test]
fn effective_text_and_block_delete() {
    assert_eq!(effective(&v("  G0 X1  "), false).map(|t| s(&t)), Some("G0 X1".to_string()));
    assert_eq!(effective(&v("/ G0 X1"), false).map(|t| s(&t)), Some("G0 X1".to_string()));
    assert_eq!(effective(&v("/ G0 X1"), true), None);
    assert_eq!(effective(&v("%"), false), None);
    assert_eq!(effective(&v("   "), false), None);
    assert_eq!(effective(&v("(only a comment)"), false), None);
    assert_eq!(effective(&v("G0 (c) X2 ; t"), true).map(|t| s(&t)), Some("G0  X2".to_string()));
}

#[test]
fn block_delete_keeps_surviving_lines_identical() {
    for line in ["G0 X1", " (c) G1 Y2 ", "%x", "", "/G0", "#1 = 2"] {
        let on = effective(&v(line), true);
        let off = effective(&v(line), false);
        if let Some(t) = on {
            assert_eq!(Some(t), off);
        }
    }
}

#[test]
fn o_words_are_split() {
    let w = o_parts(&v("o010 sub")).unwrap();
    assert_eq!(s(&w.id), "10");
    assert_eq!(s(&w.word), "sub");
    assert_eq!(w.keyword, Keyword::Sub);
    assert_eq!(s(&w.rest), "");

    let w = o_parts(&v(" O <My Name> CALL [1] [2]")).unwrap();
    assert_eq!(s(&w.id), "my name");
    assert_eq!(w.keyword, Keyword::Call);
    assert_eq!(s(&w.word), "call");
    assert_eq!(s(&w.rest), " [1] [2]");

    let w = o_parts(&v("o000 while [#1 LT 3]")).unwrap();
    assert_eq!(s(&w.id), "0");
    assert_eq!(w.keyword, Keyword::While);
    assert_eq!(s(&w.rest), " [#1 LT 3]");

    let w = o_parts(&v("o7 frobnicate")).unwrap();
    assert_eq!(w.keyword, Keyword::Other);
    assert_eq!(s(&w.word), "frobnicate");

    assert!(o_parts(&v("G1 X1")).is_none());
    assert!(o_parts(&v("o100")).is_none());
    assert!(o_parts(&v("o sub")).is_none());
    assert!(o_parts(&v("")).is_none());
}

#[test]
fn closing_lines_are_found() {
    let p = program("o1 if [1]\n(o1 endif)\no2 endif\n/o1 endif\no1 else\no1 endif");
    let id = v("1");
    assert_eq!(find_o(&p, false, 1, &id, Target::EndIf, false), Some(3));
    assert_eq!(find_o(&p, true, 1, &id, Target::EndIf, false), Some(5));
    assert_eq!(find_o(&p, true, 1, &id, Target::Branch, false), Some(4));
    assert_eq!(find_o(&p, false, 6, &id, Target::EndIf, false), None);
    assert_eq!(rfind_o(&p, false, 6, &id, Keyword::If), Some(0));
    assert_eq!(rfind_o(&p, false, 0, &id, Keyword::If), None);
    assert_eq!(rfind_o(&p, false, 6, &v("2"), Keyword::If), None);
}

#[test]
fn nested_subs_are_skipped() {
    let p = program("o1 sub\no2 sub\no1 endsub\no2 endsub\no1 endsub");
    let id = v("1");
    assert_eq!(find_o(&p, false, 1, &id, Target::EndSub, false), Some(2));
    assert_eq!(find_o(&p, false, 1, &id, Target::EndSub, true), Some(4));
}

#[test]
fn o_word_at_reads_one_line() {
    let p = program("G0\no5 repeat [2]\n/o6 endrepeat");
    assert!(o_word_at(&p, false, 0).is_none());
    assert_eq!(o_word_at(&p, false, 1).unwrap().keyword, Keyword::Repeat);
    assert!(o_word_at(&p, true, 2).is_none());
    assert_eq!(o_word_at(&p, false, 2).unwrap().keyword, Keyword::EndRepeat);
}

#[test]
fn plane_axes_per_plane() {
    assert_eq!(plane_axes(17), (0, 1, 2));
    assert_eq!(plane_axes(18), (2, 0, 1));
    assert_eq!(plane_axes(19), (1, 2, 0));
    assert_eq!(plane_axes(0), (0, 1, 2));
}

#[test]
fn error_carries_line_and_message() {
    let e = err(7, "bad".to_string());
    assert_eq!(e.line, 7);
    assert_eq!(e.message, "bad");
}

#[test]
fn text_helpers() {
    assert_eq!(chars_of("añb"), vec!['a', 'ñ', 'b']);
    assert_eq!(skip_ws(&v("  \tx"), 0), 3);
    assert_eq!(skip_ws(&v("ab"), 2), 2);
    assert_eq!(s(&slice_of(&v("abcdef"), 1, 4)), "bcd");
    assert_eq!(s(&trim_chars(&v("\u{2003} a b \n"))), "a b");
    assert!(chars_eq(&v("ab"), &['a', 'b']));
    assert!(!chars_eq(&v("ab"), &['a']));
    assert!(same_chars(&v("x"), &v("x")));
    assert!(!same_chars(&v("x"), &v("y")));
}

#[test]
fn program_text_splits_into_lines() {
    let l = |src: &str| split_lines(src).iter().map(|v| s(v)).collect::<Vec<String>>();
    assert_eq!(l(""), Vec::<String>::new());
    assert_eq!(l("G0"), vec!["G0"]);
    assert_eq!(l("G0\n"), vec!["G0"]);
    assert_eq!(l("\n"), vec![""]);
    assert_eq!(l("a\r\nb\n\nc"), vec!["a", "b", "", "c"]);
    for src in ["G21 G90\nG0 X10 Y0\r\nG1 Z-1 F500\n\nX20\n", "x\ny\r\n", "a\rb\nc"] {
        assert_eq!(l(src), src.lines().collect::<Vec<&str>>());
    }
}
