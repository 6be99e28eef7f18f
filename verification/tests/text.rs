use ssh_commander::text::{chars_of, is_blank_line, is_whitespace, same_text};

#[test]
fn whitespace_is_what_std_calls_whitespace() {
    let mut code: u32 = 0;
    while code <= 0x10ffff {
        if let Some(c) = char::from_u32(code) {
            assert_eq!(is_whitespace(c), c.is_whitespace(), "U+{:04X}", code);
        }
        code += 1;
    }
}

#[test]
fn whitespace_of_named_characters() {
    assert!(is_whitespace(' '));
    assert!(is_whitespace('\t'));
    assert!(is_whitespace('\n'));
    assert!(is_whitespace('\r'));
    assert!(is_whitespace('\u{a0}'));
    assert!(is_whitespace('\u{3000}'));
    assert!(!is_whitespace('#'));
    assert!(!is_whitespace('H'));
    assert!(!is_whitespace('\u{200b}'));
}

#[test]
fn chars_of_gives_each_character() {
    assert_eq!(chars_of(""), Vec::<char>::new());
    assert_eq!(chars_of("Host a"), vec!['H', 'o', 's', 't', ' ', 'a']);
    assert_eq!(chars_of("ключ\n"), vec!['к', 'л', 'ю', 'ч', '\n']);
}

#[test]
fn blank_lines_hold_only_whitespace() {
    assert!(is_blank_line(""));
    assert!(is_blank_line("   "));
    assert!(is_blank_line(" \t\r"));
    assert!(is_blank_line("\u{2003}"));
    assert!(!is_blank_line(" # "));
    assert!(!is_blank_line("Host a"));
}

#[test]
fn same_text_compares_all_characters() {
    assert!(same_text("", ""));
    assert!(same_text("config", "config"));
    assert!(!same_text("config", "config "));
    assert!(!same_text("config", "confih"));
    assert!(!same_text("conf", "config"));
}
