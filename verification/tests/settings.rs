use axiomd::settings::{
    autosave_after, bounds, chosen_position, chosen_value, color_scheme, measure, plugin_enabled, with_plugin,
    ColorScheme, Key, THEMES,
};

fn list(ids: &[&str]) -> Vec<String> {
    ids.iter().map(|id| id.to_string()).collect()
}

#[test]
fn every_setting_is_named_once_as_the_schema_names_it() {
    let names: Vec<&str> = Key::all().into_iter().map(|key| key.name()).collect();
    assert_eq!(
        names,
        [
            "theme",
            "reading-width-limited",
            "reading-width",
            "outline",
            "sidebar-width",
            "window-width",
            "window-height",
            "is-maximized",
            "autosave",
            "autosave-delay",
            "spellcheck",
            "engine",
            "disabled-plugins",
        ],
    );
    for (i, a) in names.iter().enumerate() {
        for b in &names[i + 1..] {
            assert_ne!(a, b);
        }
    }
}

#[test]
fn the_theme_override_is_the_reader_choosing_over_the_desktop() {
    assert_eq!(color_scheme("system"), ColorScheme::Default);
    assert_eq!(color_scheme("light"), ColorScheme::ForceLight);
    assert_eq!(color_scheme("dark"), ColorScheme::ForceDark);
    assert_eq!(color_scheme("sepia"), ColorScheme::Default);
}

#[test]
fn a_document_fills_the_window_only_when_the_reader_switched_the_measure_off() {
    assert_eq!(measure(true, 46), Some(46));
    assert_eq!(measure(false, 46), None);
    assert_eq!(measure(true, 0), Some(1));
    assert_eq!(measure(true, -3), Some(1));
}

#[test]
fn autosave_off_and_autosave_at_once_are_not_the_same_thing() {
    assert_eq!(autosave_after(true, 5), Some(5));
    assert_eq!(autosave_after(true, 0), Some(1));
    assert_eq!(autosave_after(false, 5), None);
}

#[test]
fn switching_a_plugin_keeps_every_other_id_the_store_holds() {
    let disabled = list(&["mermaid", "from-a-newer-build"]);
    assert!(!plugin_enabled(&disabled, "mermaid"));
    assert!(plugin_enabled(&disabled, "math"));

    assert_eq!(with_plugin(&disabled, "mermaid", true), Some(list(&["from-a-newer-build"])));
    assert_eq!(with_plugin(&disabled, "math", false), Some(list(&["mermaid", "from-a-newer-build", "math"])));
    assert_eq!(with_plugin(&disabled, "mermaid", false), None, "nothing to write");
    assert_eq!(with_plugin(&disabled, "math", true), None, "nothing to write");
}

#[test]
fn a_numeric_setting_is_offered_within_the_bounds_its_key_declares() {
    assert_eq!(bounds(Key::ReadingWidth), Some((20, 200)));
    assert_eq!(bounds(Key::AutosaveDelay), Some((1, 60)));
    assert_eq!(bounds(Key::Theme), None);
}

#[test]
fn a_stored_answer_this_build_has_never_heard_of_shows_the_first_choice() {
    let values: Vec<String> = THEMES.iter().map(|v| v.to_string()).collect();
    assert_eq!(chosen_position(&values, "dark"), 2);
    assert_eq!(chosen_position(&values, "solarized"), 0);
    assert_eq!(chosen_value(&values, 1), Some("light".to_owned()));
    assert_eq!(chosen_value(&values, 3), None);
}
