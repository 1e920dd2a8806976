use instocr::hotkey::{parse_virtual_key, Hotkey, MOD_ALT, MOD_CONTROL, MOD_SHIFT};

fn ok(text: &str) -> Hotkey {
    match Hotkey::parse(text) {
        Ok(h) => h,
        Err(e) => panic!("{text:?} rejected: {e}"),
    }
}

fn err(text: &str) -> String {
    match Hotkey::parse(text) {
        Ok(h) => panic!("{text:?} accepted as {}", h.display),
        Err(e) => e,
    }
}

#[test]
fn default_capture_hotkey_parses() {
    let h = ok("Ctrl+Alt+D");
    assert_eq!(h.modifiers, MOD_CONTROL | MOD_ALT);
    assert_eq!(h.virtual_key, 'D' as u32);
    assert_eq!(h.display, "Ctrl+Alt+D");
}

#[test]
fn default_cycle_hotkey_parses() {
    let h = ok("Ctrl+Alt+W");
    assert_eq!(h.virtual_key, 0x57);
    assert_eq!(h.display, "Ctrl+Alt+W");
}

#[test]
fn readme_examples_parse() {
    assert_eq!(ok("Ctrl+Shift+P").display, "Ctrl+Shift+P");
    assert_eq!(ok("Ctrl+Shift+P").modifiers, MOD_CONTROL | MOD_SHIFT);
    let f8 = ok("Alt+F8");
    assert_eq!(f8.display, "Alt+F8");
    assert_eq!(f8.virtual_key, 0x77);
    assert_eq!(f8.modifiers, MOD_ALT);
    let ps = ok("Ctrl+Alt+PrintScreen");
    assert_eq!(ps.virtual_key, 0x2C);
    assert_eq!(ps.display, "Ctrl+Alt+PrintScreen");
}

#[test]
fn pieces_are_trimmed_and_case_insensitive() {
    let h = ok("  shift + control +  x ");
    assert_eq!(h.display, "Ctrl+Shift+X");
    assert_eq!(h.virtual_key, 'X' as u32);
    assert_eq!(ok("alt++ +q").display, "Alt+Q");
    assert_eq!(ok("Ctrl+Alt+prtsc").display, "Ctrl+Alt+PrintScreen");
    assert_eq!(ok("ALT+escape").display, "Alt+Esc");
    assert_eq!(ok("Ctrl+space").virtual_key, 0x20);
    assert_eq!(ok("Ctrl+tab").display, "Ctrl+Tab");
    assert_eq!(ok("Ctrl+Enter").virtual_key, 0x0D);
    assert_eq!(ok("ctrl+7").display, "Ctrl+7");
}

#[test]
fn function_keys_read_as_numbers() {
    assert_eq!(ok("Ctrl+f05").display, "Ctrl+F5");
    assert_eq!(ok("Ctrl+f05").virtual_key, 0x74);
    assert_eq!(err("Ctrl+F+5"), "Hotkey can only contain one non-modifier key");
}

#[test]
fn function_key_bounds() {
    assert_eq!(ok("Ctrl+F1").virtual_key, 0x70);
    assert_eq!(ok("Ctrl+F24").virtual_key, 0x87);
    assert_eq!(err("Ctrl+F25"), "Unsupported key: F25");
    assert_eq!(err("Ctrl+F0"), "Unsupported key: F0");
    assert_eq!(err("Ctrl+F-1"), "Unsupported key: F-1");
    assert_eq!(ok("Ctrl+F").display, "Ctrl+F");
    assert_eq!(ok("Ctrl+F").virtual_key, 0x46);
}

#[test]
fn rejected_hotkeys() {
    assert_eq!(err("Win+D"), "Win hotkeys are reserved by Windows");
    assert_eq!(err("Ctrl+meta+D"), "Win hotkeys are reserved by Windows");
    assert_eq!(err("Shift+D"), "Hotkey must include Ctrl or Alt");
    assert_eq!(err("Ctrl+Alt"), "Hotkey must include a key");
    assert_eq!(err(""), "Hotkey must include Ctrl or Alt");
    assert_eq!(err("Ctrl+A+B"), "Hotkey can only contain one non-modifier key");
    assert_eq!(err("Ctrl+F12"), "F12 is reserved for debuggers");
    assert_eq!(err("Ctrl+Home"), "Unsupported key: HOME");
    assert_eq!(err("Ctrl+-"), "Unsupported key: -");
}

#[test]
fn first_rejected_piece_decides() {
    assert_eq!(err("Ctrl+Home+Win"), "Unsupported key: HOME");
    assert_eq!(err("Win+Home"), "Win hotkeys are reserved by Windows");
    assert_eq!(err("A+B+Win"), "Hotkey can only contain one non-modifier key");
}

#[test]
fn non_ascii_key_is_unsupported() {
    assert_eq!(err("Ctrl+é"), "Unsupported key: é");
    assert_eq!(err("Ctrl+ß"), "Unsupported key: ß");
}

#[test]
fn display_reparses_to_same_hotkey() {
    for text in ["Ctrl+Alt+D", "shift+alt+f9", " control + prtsc", "Alt+escape", "Ctrl+Shift+0", "Alt+Space"] {
        let h = ok(text);
        let again = ok(&h.display);
        assert_eq!(again.display, h.display);
        assert_eq!(again.modifiers, h.modifiers);
        assert_eq!(again.virtual_key, h.virtual_key);
    }
}

#[test]
fn virtual_key_tokens() {
    assert_eq!(parse_virtual_key("a").unwrap(), ('A' as u32, "A".to_string()));
    assert_eq!(parse_virtual_key("9").unwrap(), ('9' as u32, "9".to_string()));
    assert_eq!(parse_virtual_key("F10").unwrap(), (0x79, "F10".to_string()));
    assert_eq!(parse_virtual_key("F+7").unwrap(), (0x76, "F7".to_string()));
    assert_eq!(parse_virtual_key("ESC").unwrap(), (0x1B, "Esc".to_string()));
    assert_eq!(parse_virtual_key("esc").unwrap_err(), "Unsupported key: esc");
    assert_eq!(parse_virtual_key("").unwrap_err(), "Unsupported key: ");
}

#[test]
fn key_names_read_back_with_supported_codes() {
    let tokens = ["a", "Z", "0", "9", "F1", "F05", "F24", "SPACE", "TAB", "ENTER", "ESC", "ESCAPE", "PRTSC", "PRINTSCREEN"];
    for t in tokens {
        let (vk, d) = parse_virtual_key(t).unwrap();
        assert_eq!(parse_virtual_key(&d.to_ascii_uppercase()).unwrap(), (vk, d.clone()), "{t:?}");
        assert!(
            matches!(vk, 0x30..=0x39 | 0x41..=0x5A | 0x70..=0x87 | 0x09 | 0x0D | 0x1B | 0x20 | 0x2C),
            "{t:?} gave {vk:#x}"
        );
    }
}
