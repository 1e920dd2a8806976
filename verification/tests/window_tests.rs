use instocr::geometry::{PointI, RectI};
use instocr::languages::{LanguageEntry, LanguageSelection};
use instocr::window::{hotkey_command, language_menu_entries, menu_command, HotkeyCommand, MenuCommand, OverlaySelection};

#[test]
fn menu_ids() {
    assert_eq!(menu_command(100), MenuCommand::Capture);
    assert_eq!(menu_command(101), MenuCommand::CycleLanguage);
    assert_eq!(menu_command(102), MenuCommand::ToggleStartup);
    assert_eq!(menu_command(103), MenuCommand::ListLanguages);
    assert_eq!(menu_command(199), MenuCommand::Exit);
    assert_eq!(menu_command(300), MenuCommand::SelectLanguage(0));
    assert_eq!(menu_command(0x7_0000 + 302), MenuCommand::SelectLanguage(2));
    assert_eq!(menu_command(399), MenuCommand::SelectLanguage(99));
    assert_eq!(menu_command(400), MenuCommand::Ignored);
    assert_eq!(menu_command(104), MenuCommand::Ignored);
}

#[test]
fn hotkey_ids() {
    assert_eq!(hotkey_command(1), HotkeyCommand::Capture);
    assert_eq!(hotkey_command(2), HotkeyCommand::CycleLanguage);
    assert_eq!(hotkey_command(3), HotkeyCommand::Ignored);
}

#[test]
fn language_menu_marks_selection() {
    let entries = vec![
        LanguageEntry { tag: "fr-FR".to_string(), display_name: "French".to_string(), handle: 0 },
        LanguageEntry { tag: "en-US".to_string(), display_name: "English".to_string(), handle: 1 },
    ];
    let mut sel = LanguageSelection::new(&entries);
    sel.set_current_index(2);
    let menu = language_menu_entries(&sel);
    let labels: Vec<&str> = menu.iter().map(|e| e.label.as_str()).collect();
    assert_eq!(labels, ["OCR: Auto", "OCR: English (en-US)", "OCR: French (fr-FR) \u{2713}"]);
    let ids: Vec<usize> = menu.iter().map(|e| e.id).collect();
    assert_eq!(ids, [300, 301, 302]);
    let checked: Vec<bool> = menu.iter().map(|e| e.checked).collect();
    assert_eq!(checked, [false, false, true]);
    sel.set_current_index(0);
    assert_eq!(language_menu_entries(&sel)[0].label, "OCR: Auto \u{2713}");
}

#[test]
fn drag_gives_clamped_rectangle() {
    let mut o = OverlaySelection::new();
    assert!(!o.drag_to(PointI { x: 5, y: 5 }));
    assert_eq!(o.release(PointI { x: 1, y: 1 }, 100, 100), None);
    o.press(PointI { x: 90, y: 40 });
    assert!(o.drag_to(PointI { x: 20, y: 10 }));
    assert_eq!(o.selection_rect(100, 100), Some(RectI { left: 20, top: 10, right: 90, bottom: 40 }));
    let r = o.release(PointI { x: 150, y: -3 }, 100, 50);
    assert_eq!(r, Some(RectI { left: 90, top: 0, right: 100, bottom: 40 }));
    assert!(!o.dragging);
    assert_eq!(o.selection_rect(100, 100), None);
}
