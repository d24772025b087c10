use chatgpt_notes::text::{from_chars, has_at, has_part, joined, same_text, to_chars, trimmed};

#[test]
fn trimmed_cuts_whitespace_at_both_ends_only() {
    assert_eq!(trimmed("  a b \n"), "a b");
    assert_eq!(trimmed("a"), "a");
    assert_eq!(trimmed(""), "");
    assert_eq!(trimmed(" \t\r\n"), "");
    assert_eq!(trimmed("\u{a0}x\u{3000}"), "x");
    assert_eq!(trimmed("x  y"), "x  y");
    assert_eq!(trimmed("\u{b}\u{c}a\u{9}"), "a");
    assert_eq!(trimmed("\u{8}a\u{e}\u{1f}\u{7f}"), "\u{8}a\u{e}\u{1f}\u{7f}");
}

#[test]
fn ascii_whitespace_is_the_space_and_tab_to_carriage_return() {
    for code in 0u32..128 {
        let c = char::from_u32(code).unwrap();
        let expected = code == 0x20 || (0x09..=0x0d).contains(&code);
        let text = format!("{c}x{c}");
        assert_eq!(trimmed(&text) == "x", expected);
    }
}

#[test]
fn chars_go_there_and_back() {
    let chars = to_chars("h\u{e9}llo");
    assert_eq!(chars, vec!['h', '\u{e9}', 'l', 'l', 'o']);
    assert_eq!(from_chars(&chars, 1, 4), "\u{e9}ll");
    assert_eq!(from_chars(&chars, 2, 2), "");
    assert_eq!(from_chars(&chars, 0, 5), "h\u{e9}llo");
}

#[test]
fn same_text_tells_equal_from_different() {
    assert!(same_text("div", "div"));
    assert!(same_text("", ""));
    assert!(!same_text("div", "dix"));
    assert!(!same_text("div", "di"));
    assert!(!same_text("Div", "div"));
}

#[test]
fn parts_are_found_where_they_stand() {
    let hay = to_chars("sidebar-widget");
    assert!(has_part(&hay, &to_chars("sidebar")));
    assert!(has_part(&hay, &to_chars("widget")));
    assert!(has_part(&hay, &to_chars("r-w")));
    assert!(has_part(&hay, &to_chars("")));
    assert!(!has_part(&hay, &to_chars("widgets")));
    assert!(!has_part(&hay, &to_chars("sidebar-widget-")));
    assert!(!has_part(&to_chars(""), &to_chars("a")));
    assert!(has_part(&to_chars(""), &to_chars("")));
    assert!(has_at(&hay, &to_chars("bar"), 4));
    assert!(!has_at(&hay, &to_chars("bar"), 3));
}

#[test]
fn joined_puts_the_separator_between_parts() {
    let parts = vec!["a".to_string(), "b c".to_string(), "d".to_string()];
    assert_eq!(joined(&parts, " "), "a b c d");
    assert_eq!(joined(&parts, ", "), "a, b c, d");
    assert_eq!(joined(&vec!["one".to_string()], " "), "one");
    assert_eq!(joined(&Vec::new(), " "), "");
}
