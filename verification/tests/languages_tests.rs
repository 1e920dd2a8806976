use instocr::languages::{engine_choice, sort_languages, EngineChoice, LanguageEntry, LanguageSelection};

fn entry(tag: &str, name: &str) -> LanguageEntry {
    LanguageEntry { tag: tag.to_string(), display_name: name.to_string(), handle: 0 }
}

fn sample() -> Vec<LanguageEntry> {
    vec![
        entry("fr-FR", "French"),
        entry("en-US", "English (United States)"),
        entry("ar-SA", "Arabic"),
        entry("en-GB", "English (United Kingdom)"),
    ]
}

#[test]
fn sorting_matches_std_stable_sort() {
    let input: Vec<LanguageEntry> = ["b", "a", "b", "ab", "", "a", "é", "z", "B", "aa"]
        .iter()
        .enumerate()
        .map(|(i, t)| LanguageEntry { tag: t.to_string(), display_name: format!("L{i}"), handle: i })
        .collect();
    let mut expected: Vec<(String, String, usize)> =
        input.iter().map(|e| (e.tag.clone(), e.display_name.clone(), e.handle)).collect();
    expected.sort_by(|l, r| l.0.cmp(&r.0));
    let ours: Vec<(String, String, usize)> = sort_languages(&input)
        .iter()
        .map(|e| (e.tag.clone(), e.display_name.clone(), e.handle))
        .collect();
    assert_eq!(ours, expected);
}

#[test]
fn new_selection_is_sorted_and_automatic() {
    let sel = LanguageSelection::new(&sample());
    let tags: Vec<&str> = sel.installed.iter().map(|e| e.tag.as_str()).collect();
    assert_eq!(tags, ["ar-SA", "en-GB", "en-US", "fr-FR"]);
    assert_eq!(sel.current_index(), 0);
    assert_eq!(sel.current_label(), "Auto (user profile languages)");
    assert_eq!(sel.current_language_tag(), None);
}

#[test]
fn cycling_visits_every_language_and_returns() {
    let mut sel = LanguageSelection::new(&sample());
    assert_eq!(sel.cycle_language(), "Arabic (ar-SA)");
    assert_eq!(sel.cycle_language(), "English (United Kingdom) (en-GB)");
    assert_eq!(sel.cycle_language(), "English (United States) (en-US)");
    assert_eq!(sel.cycle_language(), "French (fr-FR)");
    assert_eq!(sel.cycle_language(), "Auto (user profile languages)");
    assert_eq!(sel.current_index(), 0);
}

#[test]
fn cycling_with_no_languages_stays_automatic() {
    let mut sel = LanguageSelection::new(&vec![]);
    assert_eq!(sel.cycle_language(), "Auto (user profile languages)");
    assert_eq!(sel.current_index(), 0);
}

#[test]
fn index_is_taken_modulo_choices() {
    let mut sel = LanguageSelection::new(&sample());
    sel.set_current_index(7);
    assert_eq!(sel.current_index(), 2);
    assert_eq!(sel.current_language_tag().as_deref(), Some("en-GB"));
}

#[test]
fn tag_selects_case_insensitively() {
    let mut sel = LanguageSelection::new(&sample());
    sel.set_current_language_tag(Some("EN-us"));
    assert_eq!(sel.current_index(), 3);
    sel.set_current_language_tag(Some("de-DE"));
    assert_eq!(sel.current_index(), 0);
    sel.set_current_language_tag(Some("fr-FR"));
    sel.set_current_language_tag(None);
    assert_eq!(sel.current_index(), 0);
}

#[test]
fn saved_tag_restores_selection() {
    let mut sel = LanguageSelection::new(&sample());
    for index in 0..5 {
        sel.set_current_index(index);
        let tag = sel.current_language_tag();
        sel.set_current_index(0);
        sel.set_current_language_tag(tag.as_deref());
        assert_eq!(sel.current_index(), index);
    }
}

#[test]
fn out_of_range_index_is_unknown() {
    let sel = LanguageSelection { installed: sample(), current_index: 9 };
    assert_eq!(sel.current_label(), "Unknown");
    assert_eq!(sel.current_language_tag(), None);
}

#[test]
fn engine_choice_reuses_kept_engines() {
    assert_eq!(engine_choice(0, false, None), EngineChoice::Auto { create: true });
    assert_eq!(engine_choice(0, true, Some(3)), EngineChoice::Auto { create: false });
    assert_eq!(engine_choice(2, true, None), EngineChoice::Language { index: 1, create: true });
    assert_eq!(engine_choice(2, false, Some(1)), EngineChoice::Language { index: 1, create: false });
    assert_eq!(engine_choice(3, false, Some(1)), EngineChoice::Language { index: 2, create: true });
}
