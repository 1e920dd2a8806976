use instocr::text::{
    chars_of, is_blank, is_whitespace, push_chars, split_whitespace_chars, string_from_chars, string_from_str,
    trim_chars, upper_chars,
};

fn s(cs: &[char]) -> String {
    cs.iter().collect()
}

#[test]
fn whitespace_matches_std() {
    for u in 0u32..0x3100 {
        if let Some(c) = char::from_u32(u) {
            assert_eq!(is_whitespace(c), c.is_whitespace(), "U+{u:04X}");
        }
    }
}

#[test]
fn trim_matches_std() {
    for t in ["", "   ", " a ", "\u{3000}漢字\u{3000}", "\r\nline\r\n", "a b", "\u{2028}x\u{85}"] {
        assert_eq!(s(&trim_chars(&chars_of(t))), t.trim(), "{t:?}");
        assert_eq!(is_blank(t), t.trim().is_empty());
    }
}

#[test]
fn split_whitespace_matches_std() {
    for t in ["", "  a  b\tc\n", "one", "\u{a0}x\u{a0}\u{a0}y"] {
        let ours: Vec<String> = split_whitespace_chars(&chars_of(t)).iter().map(|w| s(w)).collect();
        let theirs: Vec<String> = t.split_whitespace().map(str::to_string).collect();
        assert_eq!(ours, theirs, "{t:?}");
    }
}

#[test]
fn ascii_upper_case() {
    assert_eq!(s(&upper_chars(&chars_of("abc-xyzé"))), "abc-xyzé".to_ascii_uppercase());
}

#[test]
fn strings_are_built_char_by_char() {
    assert_eq!(string_from_str("Ctrl+Alt+D"), "Ctrl+Alt+D");
    assert_eq!(string_from_chars(&vec!['é', '漢', '\n']), "é漢\n");
    let mut out = String::from("ab");
    push_chars(&mut out, &vec!['c', 'd']);
    assert_eq!(out, "abcd");
}
