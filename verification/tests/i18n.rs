use dkb::i18n::{language_from_environment, t, Language};

#[test]
fn test_supported_languages_count() {
    assert_eq!(Language::all().len(), 45); // Auto + 44 languages
}

#[test]
fn test_translation_fallback() {
    let detected = language_from_environment(&Vec::new(), &Vec::new());
    assert_eq!(t("tab.backlog", Language::EnUs, detected), "Backlog");
    assert_eq!(t("tab.backlog", Language::EsEs, detected), "Pendientes");
    assert_eq!(t("tab.backlog", Language::FrFr, detected), "Backlog");
    assert_eq!(t("tab.backlog", Language::De, detected), "Rückstand");
    // Fallback to English when key is missing in custom language
    assert_eq!(
        t("tab.backlog", Language::Auto, detected),
        t("tab.backlog", detected, detected)
    );
}

#[test]
fn test_language_display_names() {
    assert_eq!(Language::EnUs.display_name(), "English (US)");
    assert_eq!(Language::Auto.display_name(), "System Default (Auto)");
    assert_eq!(Language::Ja.display_name(), "Japanese");
    assert_eq!(Language::ZhHans.display_name(), "Chinese (Simplified)");
    assert_eq!(Language::ZhHant.display_name(), "Chinese (Traditional)");
}

#[test]
fn test_language_codes_and_from_code() {
    assert_eq!(Language::EnUs.code(), "en-US");
    assert_eq!(Language::from_code("en-US"), Some(Language::EnUs));
    assert_eq!(Language::from_code("en_US"), Some(Language::EnUs));
    assert_eq!(Language::from_code("en"), Some(Language::EnUs));
    assert_eq!(Language::from_code("es-ES"), Some(Language::EsEs));
    assert_eq!(Language::from_code("es-MX"), Some(Language::EsMx));
    assert_eq!(Language::from_code("es_419"), Some(Language::Es419));
    assert_eq!(Language::from_code("zh-Hans"), Some(Language::ZhHans));
    assert_eq!(Language::from_code("zh-Hant"), Some(Language::ZhHant));
    assert_eq!(Language::from_code("ja_JP"), Some(Language::Ja));
    assert_eq!(Language::from_code("auto"), Some(Language::Auto));
    assert_eq!(Language::from_code("unknown_code"), None);
}

#[test]
fn test_all_catalog_keys_exist_in_english() {
    let keys = [
        "tab.backlog",
        "tab.active",
        "tab.done",
        "tab.settings",
        "col.yesterday",
        "col.today",
        "col.this_week",
        "col.next_week",
        "col.backlog",
        "col.done",
        "col.sub_items",
        "menu.app.settings",
        "menu.app.quit",
        "menu.file",
        "menu.file.new_item",
        "menu.file.new_sub_item",
        "menu.file.new_window",
        "menu.file.close_window",
        "menu.view",
        "menu.item",
        "menu.item.open_edit",
        "menu.item.open_markdown_viewer",
        "menu.item.mark_done",
        "menu.item.delete",
        "settings.title",
        "settings.appearance",
        "settings.vi_mode",
        "settings.line_numbers",
        "settings.language",
        "settings.markdown_viewer",
        "settings.storage_dir",
        "settings.browse",
        "settings.reset_auto",
        "editor.save",
        "editor.cancel",
        "editor.tear_off",
    ];

    for key in keys {
        let text = t(key, Language::EnUs, Language::EnUs);
        assert_ne!(text, key, "Key {key} should have translation in EnUs");
    }
}

#[test]
fn every_code_reads_back_as_its_language() {
    for lang in Language::all() {
        assert_eq!(Language::from_code(lang.code()), Some(lang), "{}", lang.code());
    }
}

#[test]
fn from_code_normalizes_locale_strings() {
    assert_eq!(Language::from_code("  de_DE.UTF-8  "), Some(Language::De));
    assert_eq!(Language::from_code("fr_FR@euro"), Some(Language::FrFr));
    assert_eq!(Language::from_code("PT_br"), Some(Language::PtBr));
    assert_eq!(Language::from_code("zh"), Some(Language::ZhHans));
    assert_eq!(Language::from_code("zh_TW"), Some(Language::ZhHant));
    assert_eq!(Language::from_code("iw"), Some(Language::He));
    assert_eq!(Language::from_code("no_NO"), Some(Language::Nb));
    // prefix fallback: unknown region of a known language
    assert_eq!(Language::from_code("de-LU"), Some(Language::De));
    assert_eq!(Language::from_code("en-NZ"), Some(Language::EnUs));
    assert_eq!(Language::from_code("es-AR"), Some(Language::EsEs));
    assert_eq!(Language::from_code("pt-AO"), Some(Language::PtPt));
    // no language at all
    assert_eq!(Language::from_code(""), None);
    assert_eq!(Language::from_code("   "), None);
    assert_eq!(Language::from_code(".UTF-8"), None);
    assert_eq!(Language::from_code("xx-YY"), None);
    assert_eq!(Language::from_code("zh-XX"), None);
}

#[test]
fn base_languages_of_regional_variants() {
    assert_eq!(Language::EnGb.base_language(), Some(Language::EnUs));
    assert_eq!(Language::FrCa.base_language(), Some(Language::FrFr));
    assert_eq!(Language::Es419.base_language(), Some(Language::EsEs));
    assert_eq!(Language::PtBr.base_language(), Some(Language::PtPt));
    assert_eq!(Language::EnUs.base_language(), None);
    assert_eq!(Language::De.base_language(), None);
}

#[test]
fn translation_falls_back_through_base_and_english() {
    // a regional variant uses its base language's text
    assert_eq!(t("tab.backlog", Language::EsMx, Language::EnUs), "Pendientes");
    // a language without the key uses English (US)
    assert_eq!(t("tab.active", Language::De, Language::EnUs), "Active");
    assert_eq!(t("menu.file", Language::De, Language::EnUs), "Ablage");
    assert_eq!(t("menu.file.new_window", Language::Ja, Language::EnUs), "新規ウィンドウ");
    // an unknown key comes back unchanged
    assert_eq!(t("no.such.key", Language::Ja, Language::EnUs), "no.such.key");
    // Auto follows the detected language, and English when nothing was detected
    assert_eq!(t("tab.backlog", Language::Auto, Language::De), "Rückstand");
    assert_eq!(t("tab.backlog", Language::Auto, Language::Auto), "Backlog");
}

#[test]
fn system_language_from_environment_values() {
    let s = |v: &[&str]| v.iter().map(|x| x.to_string()).collect::<Vec<String>>();
    assert_eq!(language_from_environment(&s(&["", "C", "de_DE.UTF-8"]), &Vec::new()), Language::De);
    assert_eq!(language_from_environment(&s(&["POSIX", " ja_JP "]), &Vec::new()), Language::Ja);
    assert_eq!(language_from_environment(&s(&["auto", "xx"]), &Vec::new()), Language::EnUs);
    let listing = s(&["(", "    \"fr-CA\",", "    \"en-US\"", ")"]);
    assert_eq!(language_from_environment(&s(&["C"]), &listing), Language::FrCa);
    assert_eq!(language_from_environment(&s(&["it_IT"]), &listing), Language::It);
    assert_eq!(language_from_environment(&Vec::new(), &s(&["(", ")"])), Language::EnUs);
}
