use git_remote_iroh::text::{
    chars_of, decimal_usize, first_chars, join, rest_after_last, same, split_once, strip_newline,
    strip_prefix, trim, trim_matches,
};

#[test]
fn white_space_is_trimmed() {
    let mut spaces = Vec::new();
    for c in '\0'..=char::MAX {
        let mut buf = [0u8; 4];
        if trim(c.encode_utf8(&mut buf)).is_empty() {
            spaces.push(c as u32);
        }
        assert_eq!(trim(c.encode_utf8(&mut buf)).is_empty(), c.is_whitespace());
    }
    let mut expected: Vec<u32> = (0x09..=0x0d).collect();
    expected.extend([0x20, 0x85, 0xa0, 0x1680]);
    expected.extend(0x2000..=0x200a);
    expected.extend([0x2028, 0x2029, 0x202f, 0x205f, 0x3000]);
    assert_eq!(spaces, expected);
    assert_eq!(trim(" \u{3000}a b\n"), "a b");
}

#[test]
fn one_newline_is_stripped() {
    assert_eq!(strip_newline("a \n"), "a ");
    assert_eq!(strip_newline("a\n\n"), "a\n");
    assert_eq!(strip_newline("a"), "a");
    assert_eq!(strip_newline(""), "");
}

#[test]
fn trimming_one_character() {
    assert_eq!(trim_matches("//a/b/", '/'), "a/b");
    assert_eq!(trim_matches("///", '/'), "");
    assert_eq!(trim_matches("", '/'), "");
    assert_eq!(trim_matches("\u{e9}/", '/'), "\u{e9}");
}

#[test]
fn parts_of_a_text() {
    assert_eq!(strip_prefix("push a", "push "), Some("a"));
    assert_eq!(strip_prefix("push", "push "), None);
    assert_eq!(split_once("a/b/c", '/'), Some(("a", "b/c")));
    assert_eq!(split_once("/", '/'), Some(("", "")));
    assert_eq!(split_once("abc", '/'), None);
    assert_eq!(rest_after_last("a:b:c", ':'), "c");
    assert_eq!(rest_after_last("abc", ':'), "abc");
    assert_eq!(rest_after_last("abc:", ':'), "");
    assert_eq!(first_chars("\u{e9}t\u{e9}", 2), "\u{e9}t");
    assert_eq!(chars_of("a\u{e9}"), ['a', '\u{e9}']);
}

#[test]
fn texts_compared_and_joined() {
    assert!(same("abc", "abc"));
    assert!(!same("abc", "abd"));
    assert!(!same("abc", "ab"));
    assert_eq!(join("a", "\u{e9}"), "a\u{e9}");
}

#[test]
fn decimal_digits() {
    assert_eq!(decimal_usize(0), "0");
    assert_eq!(decimal_usize(1234567890), "1234567890");
    assert_eq!(decimal_usize(usize::MAX), usize::MAX.to_string());
}
