use instocr::settings::{RustSettings, DEFAULT_CAPTURE_HOTKEY, DEFAULT_CYCLE_HOTKEY};
use instocr::hotkey::Hotkey;

#[test]
fn defaults() {
    let d = RustSettings::default();
    assert_eq!(d.language_tag, None);
    assert_eq!(d.capture_hotkey, DEFAULT_CAPTURE_HOTKEY);
    assert_eq!(d.cycle_hotkey, DEFAULT_CYCLE_HOTKEY);
    assert_eq!(d.capture_hotkey, "Ctrl+Alt+D");
    assert_eq!(d.cycle_hotkey, "Ctrl+Alt+W");
}

#[test]
fn reads_values_and_ignores_other_lines() {
    let s = RustSettings::parse("# note\nlanguage_tag= fr-FR \r\ncapture_hotkey=Ctrl+Shift+P\ncycle_hotkey=Alt+F8\nother=1");
    assert_eq!(s.language_tag.as_deref(), Some("fr-FR"));
    assert_eq!(s.capture_hotkey, "Ctrl+Shift+P");
    assert_eq!(s.cycle_hotkey, "Alt+F8");
}

#[test]
fn later_lines_override_and_empty_tag_means_auto() {
    let s = RustSettings::parse("language_tag=de-DE\nlanguage_tag=\n");
    assert_eq!(s.language_tag, None);
    let s = RustSettings::parse("language_tag=\nlanguage_tag=ja");
    assert_eq!(s.language_tag.as_deref(), Some("ja"));
}

#[test]
fn invalid_hotkeys_fall_back() {
    let s = RustSettings::parse("capture_hotkey=Win+D\ncycle_hotkey=Ctrl+F12\n");
    assert_eq!(s.capture_hotkey, "Ctrl+Alt+D");
    assert_eq!(s.cycle_hotkey, "Ctrl+Alt+W");
}

#[test]
fn clashing_hotkeys_both_fall_back() {
    let s = RustSettings::parse("capture_hotkey=ctrl+q\ncycle_hotkey=CTRL+Q\n");
    assert_eq!(s.capture_hotkey, "Ctrl+Alt+D");
    assert_eq!(s.cycle_hotkey, "Ctrl+Alt+W");
}

#[test]
fn setting_to_default_clash() {
    let s = RustSettings::parse("cycle_hotkey=Ctrl+Alt+D\n");
    assert_eq!(s.capture_hotkey, "Ctrl+Alt+D");
    assert_eq!(s.cycle_hotkey, "Ctrl+Alt+W");
}

#[test]
fn empty_file_gives_defaults() {
    let s = RustSettings::parse("");
    assert_eq!(s.language_tag, None);
    assert_eq!(s.capture_hotkey, "Ctrl+Alt+D");
}

#[test]
fn file_text() {
    let s = RustSettings {
        language_tag: Some("en-US".to_string()),
        capture_hotkey: "Ctrl+Shift+P".to_string(),
        cycle_hotkey: "Alt+F8".to_string(),
    };
    assert_eq!(s.to_text(), "language_tag=en-US\ncapture_hotkey=Ctrl+Shift+P\ncycle_hotkey=Alt+F8\n");
    assert_eq!(RustSettings::default().to_text(), "language_tag=\ncapture_hotkey=Ctrl+Alt+D\ncycle_hotkey=Ctrl+Alt+W\n");
}

#[test]
fn saved_settings_read_back() {
    for (tag, capture, cycle) in [
        (Some("en-US"), "Ctrl+Shift+P", "Alt+F8"),
        (None, "Ctrl+Alt+D", "Ctrl+Alt+W"),
        (Some("zh-Hans-CN"), "Alt+Space", "Ctrl+PrintScreen"),
    ] {
        let s = RustSettings {
            language_tag: tag.map(str::to_string),
            capture_hotkey: capture.to_string(),
            cycle_hotkey: cycle.to_string(),
        };
        let back = RustSettings::parse(&s.to_text());
        assert_eq!(back.language_tag, s.language_tag);
        assert_eq!(back.capture_hotkey, s.capture_hotkey);
        assert_eq!(back.cycle_hotkey, s.cycle_hotkey);
    }
}

#[test]
fn loaded_hotkeys_are_always_usable() {
    for text in [
        "",
        "garbage",
        "capture_hotkey=\ncycle_hotkey=",
        "capture_hotkey=Ctrl+Alt+W\n",
        "capture_hotkey=alt+x\ncycle_hotkey=ALT+X",
        "capture_hotkey=Shift+Q\ncycle_hotkey=Ctrl+Q",
        "capture_hotkey=Alt+F8\ncycle_hotkey=Ctrl+Shift+P",
    ] {
        let s = RustSettings::parse(text);
        assert!(Hotkey::parse(&s.capture_hotkey).is_ok(), "{text:?}");
        assert!(Hotkey::parse(&s.cycle_hotkey).is_ok(), "{text:?}");
        assert!(!s.capture_hotkey.eq_ignore_ascii_case(&s.cycle_hotkey), "{text:?}");
    }
}

#[test]
fn loaded_tag_is_trimmed() {
    for text in ["language_tag=  fr-FR\t", "language_tag=\u{3000}ja\u{3000}\r\n", "language_tag= \n", "language_tag=en-US"] {
        let s = RustSettings::parse(text);
        if let Some(t) = &s.language_tag {
            assert!(!t.is_empty());
            assert_eq!(t.trim(), t.as_str());
        }
    }
    assert_eq!(RustSettings::parse("language_tag= \n").language_tag, None);
    assert_eq!(RustSettings::parse("language_tag=  fr-FR\t").language_tag.as_deref(), Some("fr-FR"));
}
