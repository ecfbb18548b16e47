use alexo_io::theme::{initial_theme, resolve_theme, Icon, Theme, STORAGE_KEY};

#[test]
fn toggle_switches_between_the_two_themes() {
    assert_eq!(Theme::Dark.toggle(), Theme::Light);
    assert_eq!(Theme::Light.toggle(), Theme::Dark);
}

#[test]
fn toggle_twice_is_identity() {
    for t in [Theme::Dark, Theme::Light] {
        assert_eq!(t.toggle().toggle(), t);
        assert_ne!(t.toggle(), t);
    }
}

#[test]
fn css_classes() {
    assert_eq!(Theme::Dark.css_class(), "theme-dark");
    assert_eq!(Theme::Light.css_class(), "theme-light");
}

#[test]
fn storage_values() {
    assert_eq!(Theme::Dark.storage_value(), "dark");
    assert_eq!(Theme::Light.storage_value(), "light");
    assert_eq!(STORAGE_KEY, "theme");
}

#[test]
fn storage_round_trip() {
    for t in [Theme::Dark, Theme::Light] {
        assert_eq!(Theme::from_storage_value(t.storage_value()), Some(t));
    }
}

#[test]
fn unknown_storage_values_are_rejected() {
    assert_eq!(Theme::from_storage_value(""), None);
    assert_eq!(Theme::from_storage_value("Dark"), None);
    assert_eq!(Theme::from_storage_value("dark "), None);
    assert_eq!(Theme::from_storage_value("darkness"), None);
    assert_eq!(Theme::from_storage_value("lite"), None);
}

#[test]
fn icons_follow_the_theme() {
    assert_eq!(Theme::Dark.icon_theme(), Icon::LightMode);
    assert_eq!(Theme::Light.icon_theme(), Icon::DarkMode);
    assert_eq!(Theme::Dark.icon_up(), Icon::ArrowUpLight);
    assert_eq!(Theme::Light.icon_up(), Icon::ArrowUpDark);
}

#[test]
fn toggle_labels_and_pressed_state() {
    assert_eq!(Theme::Dark.toggle_label(), "Switch to light theme");
    assert_eq!(Theme::Light.toggle_label(), "Switch to dark theme");
    assert!(Theme::Dark.is_dark());
    assert!(!Theme::Light.is_dark());
}

#[test]
fn first_render_is_light() {
    assert_eq!(initial_theme(), Theme::Light);
}

#[test]
fn saved_choice_wins_over_preference() {
    assert_eq!(resolve_theme(Some("dark"), Some(false)), Some(Theme::Dark));
    assert_eq!(resolve_theme(Some("light"), Some(true)), Some(Theme::Light));
    assert_eq!(resolve_theme(Some("light"), None), Some(Theme::Light));
}

#[test]
fn preference_decides_without_a_usable_saved_choice() {
    assert_eq!(resolve_theme(None, Some(true)), Some(Theme::Dark));
    assert_eq!(resolve_theme(None, Some(false)), Some(Theme::Light));
    assert_eq!(resolve_theme(Some("sepia"), Some(true)), Some(Theme::Dark));
    assert_eq!(resolve_theme(Some(""), Some(false)), Some(Theme::Light));
}

#[test]
fn nothing_known_keeps_the_default() {
    assert_eq!(resolve_theme(None, None), None);
    assert_eq!(resolve_theme(Some("blue"), None), None);
}

#[test]
fn saved_theme_is_resolved_next_visit() {
    for t in [Theme::Dark, Theme::Light] {
        for pref in [None, Some(true), Some(false)] {
            assert_eq!(resolve_theme(Some(t.storage_value()), pref), Some(t));
        }
    }
}
