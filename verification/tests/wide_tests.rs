use instocr::wide::{copy_wide_fixed, startup_command_bytes, wide_null};

#[test]
fn wide_null_matches_encode_utf16() {
    for s in ["", "InstOCR", "héllo", "😀 ok", "\u{10FFFF}"] {
        let mut expected: Vec<u16> = s.encode_utf16().collect();
        expected.push(0);
        assert_eq!(wide_null(s), expected, "{s:?}");
    }
}

#[test]
fn fixed_buffer_is_truncated_and_terminated() {
    let mut buf = [7u16; 6];
    copy_wide_fixed(&mut buf, "InstOCR Rust");
    assert_eq!(buf, [73, 110, 115, 116, 79, 0]);
    let mut buf = [7u16; 6];
    copy_wide_fixed(&mut buf, "ab");
    assert_eq!(buf, [97, 98, 0, 0, 0, 0]);
    let mut empty: [u16; 0] = [];
    copy_wide_fixed(&mut empty, "ab");
}

#[test]
fn startup_value_bytes() {
    let path = r"C:\Apps\instocr.exe";
    let command = format!("\"{}\"", path);
    let mut wide: Vec<u16> = command.encode_utf16().collect();
    wide.push(0);
    let expected: Vec<u8> = wide.iter().flat_map(|u| u.to_le_bytes()).collect();
    assert_eq!(startup_command_bytes(path), expected);
    assert_eq!(&startup_command_bytes("é")[..6], &[0x22, 0, 0xE9, 0, 0x22, 0]);
}
