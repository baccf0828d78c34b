use dkb::config::{join_path, monospace_fonts, same_path, Config, ThemeMode};
use dkb::i18n::Language;
use dkb::theme::Theme;
use dkb::viewer::ViewerPreference;

#[test]
fn test_default_data_dir() {
    let dir = Config::default_data_dir(None);
    assert!(dir.contains("dkb"));
}

#[test]
fn settings_locations_under_home() {
    assert_eq!(Config::config_dir(Some("/Users/me")), "/Users/me/Library/Application Support/dkb");
    assert_eq!(Config::config_dir(None), "Library/Application Support/dkb");
    assert_eq!(
        Config::default_data_dir(Some("/Users/me/")),
        "/Users/me/Library/Application Support/dkb/data"
    );
    assert_eq!(
        Config::config_file_path(Some("/home/u")),
        "/home/u/Library/Application Support/dkb/config.toml"
    );
}

#[test]
fn join_path_rules() {
    assert_eq!(join_path("a", "b"), "a/b");
    assert_eq!(join_path("a/", "b"), "a/b");
    assert_eq!(join_path("", "b"), "b");
    assert_eq!(join_path("a", "/abs"), "/abs");
    assert_eq!(join_path("a", ""), "a/");
}

#[test]
fn tilde_expansion() {
    assert_eq!(Config::expand_tilde("~/dkb-data", Some("/home/u")), "/home/u/dkb-data");
    assert_eq!(Config::expand_tilde("~/dkb-data", None), "~/dkb-data");
    assert_eq!(Config::expand_tilde("~dkb", Some("/home/u")), "~dkb");
    assert_eq!(Config::expand_tilde("/abs/~/x", Some("/home/u")), "/abs/~/x");
}

#[test]
fn paths_compare_by_components() {
    assert!(same_path("/a/b", "/a/b/"));
    assert!(same_path("/a//b", "/a/./b"));
    assert!(same_path("./a", "./a/"));
    assert!(!same_path("/a/b", "a/b"));
    assert!(!same_path("./a", "a"));
    assert!(!same_path("/a/b", "/a/c"));
    assert!(!same_path("/a", "/a/b"));
}

#[test]
fn defaults_of_the_settings() {
    let c = Config::defaults(Some("/h"));
    assert!(!c.vi_mode);
    assert!(!c.line_numbers);
    assert_eq!(c.theme_mode, ThemeMode::System);
    assert_eq!(c.language, Language::Auto);
    assert_eq!(c.markdown_viewer, ViewerPreference::Auto);
    assert_eq!(c.font_family, "Menlo");
    assert_eq!(c.data_dir, "/h/Library/Application Support/dkb/data");
    assert_eq!(ThemeMode::default(), ThemeMode::System);
    assert_eq!(monospace_fonts()[0], "Menlo");
    assert_eq!(monospace_fonts().len(), 8);
}

#[test]
fn settling_a_loaded_file() {
    let mut c = Config::defaults(Some("/h"));
    c.data_dir = "~/dkb-data".to_string();
    c.markdown_viewer = ViewerPreference::Custom("~/Apps/Viewer.app".to_string());
    let (s, save) = c.settled(Some("/h"));
    assert!(!save);
    assert_eq!(s.data_dir, "/h/dkb-data");
    assert_eq!(s.markdown_viewer, ViewerPreference::Custom("/h/Apps/Viewer.app".to_string()));

    let mut c = Config::defaults(Some("/h"));
    c.data_dir = "~/Library/Application Support/dkb/".to_string();
    let (s, save) = c.settled(Some("/h"));
    assert!(save);
    assert_eq!(s.data_dir, "/h/Library/Application Support/dkb/data");
}

#[test]
fn theme_follows_mode() {
    let dark = Theme::resolve(ThemeMode::Dark, false);
    let light = Theme::resolve(ThemeMode::Light, true);
    assert_eq!(dark.bg_window, 0x1e1e1e);
    assert_eq!(light.bg_window, 0xf5f5f5);
    assert_eq!(Theme::resolve(ThemeMode::System, true), dark);
    assert_eq!(Theme::resolve(ThemeMode::System, false), light);
    assert_eq!(light.accent, 0x007aff);
}

#[test]
fn test_theme_mode_settings_applied() {
    let mut config = Config::defaults(None);
    config.vi_mode = true;
    config.line_numbers = true;
    config.theme_mode = ThemeMode::Dark;
    let theme = Theme::resolve(config.theme_mode, false);
    // Dark theme should have dark window background
    assert_eq!(theme.bg_window, 0x1e1e1e);

    config.theme_mode = ThemeMode::Light;
    let theme_light = Theme::resolve(config.theme_mode, false);
    assert_eq!(theme_light.bg_window, 0xf5f5f5);
}
