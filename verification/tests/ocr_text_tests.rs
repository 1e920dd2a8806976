use instocr::ocr_text::{
    format_ocr_lines, is_no_space_language, is_right_to_left, join_line_words, reverse_words,
    word_usually_separated_by_space, OcrLine,
};

fn words(ws: &[&str]) -> Vec<String> {
    ws.iter().map(|w| w.to_string()).collect()
}

#[test]
fn language_kinds() {
    assert!(is_no_space_language("zh-Hans-CN"));
    assert!(is_no_space_language("ja"));
    assert!(!is_no_space_language("en-US"));
    assert!(!is_no_space_language("z"));
    for tag in ["ar-SA", "fa", "he-IL", "ur-PK"] {
        assert!(is_right_to_left(tag), "{tag}");
    }
    assert!(!is_right_to_left("fr-FR"));
    assert!(!is_right_to_left(""));
}

#[test]
fn word_spacing_kinds() {
    assert!(!word_usually_separated_by_space(""));
    assert!(word_usually_separated_by_space("ab"));
    assert!(word_usually_separated_by_space("漢字"));
    assert!(word_usually_separated_by_space("x"));
    assert!(word_usually_separated_by_space("7"));
    assert!(!word_usually_separated_by_space("漢"));
    assert!(!word_usually_separated_by_space("。"));
}

#[test]
fn cjk_words_join_without_spaces() {
    assert_eq!(join_line_words(&words(&["漢", "字", "。"])), "漢字。");
    assert_eq!(join_line_words(&words(&["漢", "OCR", "字"])), "漢 OCR 字");
    assert_eq!(join_line_words(&words(&["a", "b"])), "a b");
    assert_eq!(join_line_words(&words(&["", "字", ""])), "字");
    assert_eq!(join_line_words(&words(&[])), "");
}

#[test]
fn words_reverse() {
    assert_eq!(reverse_words("  one two\tthree "), "three two one");
    assert_eq!(reverse_words(""), "");
    assert_eq!(reverse_words("solo"), "solo");
}

#[test]
fn reverse_words_twice_normalizes_spacing() {
    let once = reverse_words("a  b   c");
    assert_eq!(reverse_words(&once), "a b c");
}

#[test]
fn lines_are_trimmed_and_blank_lines_dropped() {
    let lines = vec![
        OcrLine::Text("  first line ".to_string()),
        OcrLine::Text("   ".to_string()),
        OcrLine::Text("second".to_string()),
    ];
    assert_eq!(format_ocr_lines("en-US", &lines), "first line\r\nsecond");
    assert_eq!(format_ocr_lines("en-US", &vec![]), "");
}

#[test]
fn right_to_left_lines_reverse_words() {
    let lines = vec![OcrLine::Text("مرحبا بك  هنا".to_string())];
    assert_eq!(format_ocr_lines("ar-SA", &lines), "هنا بك مرحبا");
}

#[test]
fn no_space_language_lines_use_words() {
    let lines = vec![
        OcrLine::Words(words(&["日", "本", "Windows", "語"])),
        OcrLine::Words(words(&[])),
        OcrLine::Words(words(&["東", "京"])),
    ];
    assert_eq!(format_ocr_lines("ja-JP", &lines), "日本 Windows 語\r\n東京");
}

#[test]
fn reversing_twice_restores_word_order() {
    for text in ["", "   ", "one", "مرحبا بالعالم", "  a  b\tc  ", "x\u{3000}y z"] {
        let twice = reverse_words(&reverse_words(text));
        assert_eq!(twice, text.split_whitespace().collect::<Vec<_>>().join(" "), "{text:?}");
    }
}
