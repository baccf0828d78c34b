//! Interface languages: their names and codes, reading a locale code, and
//! looking up translated interface texts with fallbacks.
use vstd::prelude::*;

use crate::text::{
    back_white, chars_eq, chars_eq_at, chars_of, end_at, end_index, is_white, lemma_end_at,
    skip_white, str_eq,
    trim_bounds,
};

verus! {

broadcast use vstd::string::group_string_axioms;

/// A language of the interface; `Auto` follows the system setting.
#[derive(Debug, Clone, Copy, PartialEq, Eq, Hash, Structural)]
pub enum Language {
    Auto,
    Ar,
    Ca,
    ZhHans,
    ZhHant,
    Hr,
    Cs,
    Da,
    Nl,
    EnAu,
    EnCa,
    EnIn,
    EnJp,
    EnGb,
    EnUs,
    Fi,
    FrCa,
    FrFr,
    De,
    El,
    He,
    Hi,
    Hu,
    Id,
    It,
    Ja,
    Ko,
    Ms,
    Nb,
    Pl,
    PtBr,
    PtPt,
    Ro,
    Ru,
    Sk,
    EsCl,
    Es419,
    EsMx,
    EsEs,
    EsUs,
    Sv,
    Th,
    Tr,
    Uk,
    Vi,
}

impl Default for Language {
    fn default() -> (r: Self)
        ensures
            r == Language::Auto,
    {
        Language::Auto
    }
}

/// Every language, `Auto` first, in the order the settings list shows them.
pub open spec fn all_languages() -> Seq<Language> {
    seq![Language::Auto, Language::Ar, Language::Ca, Language::ZhHans, Language::ZhHant, Language::Hr, Language::Cs, Language::Da, Language::Nl, Language::EnAu, Language::EnCa, Language::EnIn, Language::EnJp, Language::EnGb, Language::EnUs, Language::Fi, Language::FrCa, Language::FrFr, Language::De, Language::El, Language::He, Language::Hi, Language::Hu, Language::Id, Language::It, Language::Ja, Language::Ko, Language::Ms, Language::Nb, Language::Pl, Language::PtBr, Language::PtPt, Language::Ro, Language::Ru, Language::Sk, Language::EsCl, Language::Es419, Language::EsMx, Language::EsEs, Language::EsUs, Language::Sv, Language::Th, Language::Tr, Language::Uk, Language::Vi]
}

/// The name of a language as the settings show it.
pub open spec fn name_of(l: Language) -> Seq<char> {
    match l {
        Language::Auto => "System Default (Auto)"@,
        Language::Ar => "Arabic"@,
        Language::Ca => "Catalan"@,
        Language::ZhHans => "Chinese (Simplified)"@,
        Language::ZhHant => "Chinese (Traditional)"@,
        Language::Hr => "Croatian"@,
        Language::Cs => "Czech"@,
        Language::Da => "Danish"@,
        Language::Nl => "Dutch"@,
        Language::EnAu => "English (Australia)"@,
        Language::EnCa => "English (Canada)"@,
        Language::EnIn => "English (India)"@,
        Language::EnJp => "English (Japan)"@,
        Language::EnGb => "English (UK)"@,
        Language::EnUs => "English (US)"@,
        Language::Fi => "Finnish"@,
        Language::FrCa => "French (Canada)"@,
        Language::FrFr => "French (France)"@,
        Language::De => "German"@,
        Language::El => "Greek"@,
        Language::He => "Hebrew"@,
        Language::Hi => "Hindi"@,
        Language::Hu => "Hungarian"@,
        Language::Id => "Indonesian"@,
        Language::It => "Italian"@,
        Language::Ja => "Japanese"@,
        Language::Ko => "Korean"@,
        Language::Ms => "Malay"@,
        Language::Nb => "Norwegian Bokmål"@,
        Language::Pl => "Polish"@,
        Language::PtBr => "Portuguese (Brazil)"@,
        Language::PtPt => "Portuguese (Portugal)"@,
        Language::Ro => "Romanian"@,
        Language::Ru => "Russian"@,
        Language::Sk => "Slovak"@,
        Language::EsCl => "Spanish (Chile)"@,
        Language::Es419 => "Spanish (Latin America)"@,
        Language::EsMx => "Spanish (Mexico)"@,
        Language::EsEs => "Spanish (Spain)"@,
        Language::EsUs => "Spanish (United States)"@,
        Language::Sv => "Swedish"@,
        Language::Th => "Thai"@,
        Language::Tr => "Turkish"@,
        Language::Uk => "Ukrainian"@,
        Language::Vi => "Vietnamese"@,
    }
}

/// The canonical code of a language.
pub open spec fn code_of(l: Language) -> Seq<char> {
    match l {
        Language::Auto => "auto"@,
        Language::Ar => "ar"@,
        Language::Ca => "ca"@,
        Language::ZhHans => "zh-Hans"@,
        Language::ZhHant => "zh-Hant"@,
        Language::Hr => "hr"@,
        Language::Cs => "cs"@,
        Language::Da => "da"@,
        Language::Nl => "nl"@,
        Language::EnAu => "en-AU"@,
        Language::EnCa => "en-CA"@,
        Language::EnIn => "en-IN"@,
        Language::EnJp => "en-JP"@,
        Language::EnGb => "en-GB"@,
        Language::EnUs => "en-US"@,
        Language::Fi => "fi"@,
        Language::FrCa => "fr-CA"@,
        Language::FrFr => "fr-FR"@,
        Language::De => "de"@,
        Language::El => "el"@,
        Language::He => "he"@,
        Language::Hi => "hi"@,
        Language::Hu => "hu"@,
        Language::Id => "id"@,
        Language::It => "it"@,
        Language::Ja => "ja"@,
        Language::Ko => "ko"@,
        Language::Ms => "ms"@,
        Language::Nb => "nb"@,
        Language::Pl => "pl"@,
        Language::PtBr => "pt-BR"@,
        Language::PtPt => "pt-PT"@,
        Language::Ro => "ro"@,
        Language::Ru => "ru"@,
        Language::Sk => "sk"@,
        Language::EsCl => "es-CL"@,
        Language::Es419 => "es-419"@,
        Language::EsMx => "es-MX"@,
        Language::EsEs => "es-ES"@,
        Language::EsUs => "es-US"@,
        Language::Sv => "sv"@,
        Language::Th => "th"@,
        Language::Tr => "tr"@,
        Language::Uk => "uk"@,
        Language::Vi => "vi"@,
    }
}

/// The language whose texts a regional variant falls back to.
pub open spec fn base_of(l: Language) -> Option<Language> {
    match l {
        Language::EnAu | Language::EnCa | Language::EnIn | Language::EnJp | Language::EnGb => Some(Language::EnUs),
        Language::FrCa => Some(Language::FrFr),
        Language::EsCl | Language::Es419 | Language::EsMx | Language::EsUs => Some(Language::EsEs),
        Language::PtBr => Some(Language::PtPt),
        _ => None,
    }
}

/// The language of a normalized (lower-case, `-`-separated) code.
pub open spec fn code_table(s: Seq<char>) -> Option<Language> {
    if s == "auto"@ {
        Some(Language::Auto)
    } else if s == "ar"@ || s == "ar-sa"@ || s == "ar-ae"@ || s == "ar-eg"@ {
        Some(Language::Ar)
    } else if s == "ca"@ || s == "ca-es"@ {
        Some(Language::Ca)
    } else if s == "zh-hans"@ || s == "zh-cn"@ || s == "zh-sg"@ || s == "zh-hans-cn"@ || s == "zh-hans-us"@ {
        Some(Language::ZhHans)
    } else if s == "zh-hant"@ || s == "zh-tw"@ || s == "zh-hk"@ || s == "zh-mo"@ || s == "zh-hant-tw"@ || s == "zh-hant-hk"@ {
        Some(Language::ZhHant)
    } else if s == "zh"@ {
        Some(Language::ZhHans)
    } else if s == "hr"@ || s == "hr-hr"@ {
        Some(Language::Hr)
    } else if s == "cs"@ || s == "cs-cz"@ {
        Some(Language::Cs)
    } else if s == "da"@ || s == "da-dk"@ {
        Some(Language::Da)
    } else if s == "nl"@ || s == "nl-nl"@ || s == "nl-be"@ {
        Some(Language::Nl)
    } else if s == "en-au"@ {
        Some(Language::EnAu)
    } else if s == "en-ca"@ {
        Some(Language::EnCa)
    } else if s == "en-in"@ {
        Some(Language::EnIn)
    } else if s == "en-jp"@ {
        Some(Language::EnJp)
    } else if s == "en-gb"@ || s == "en-uk"@ {
        Some(Language::EnGb)
    } else if s == "en-us"@ || s == "en"@ {
        Some(Language::EnUs)
    } else if s == "fi"@ || s == "fi-fi"@ {
        Some(Language::Fi)
    } else if s == "fr-ca"@ {
        Some(Language::FrCa)
    } else if s == "fr-fr"@ || s == "fr"@ || s == "fr-be"@ || s == "fr-ch"@ {
        Some(Language::FrFr)
    } else if s == "de"@ || s == "de-de"@ || s == "de-at"@ || s == "de-ch"@ {
        Some(Language::De)
    } else if s == "el"@ || s == "el-gr"@ {
        Some(Language::El)
    } else if s == "he"@ || s == "he-il"@ || s == "iw"@ || s == "iw-il"@ {
        Some(Language::He)
    } else if s == "hi"@ || s == "hi-in"@ {
        Some(Language::Hi)
    } else if s == "hu"@ || s == "hu-hu"@ {
        Some(Language::Hu)
    } else if s == "id"@ || s == "id-id"@ || s == "in"@ {
        Some(Language::Id)
    } else if s == "it"@ || s == "it-it"@ || s == "it-ch"@ {
        Some(Language::It)
    } else if s == "ja"@ || s == "ja-jp"@ {
        Some(Language::Ja)
    } else if s == "ko"@ || s == "ko-kr"@ {
        Some(Language::Ko)
    } else if s == "ms"@ || s == "ms-my"@ {
        Some(Language::Ms)
    } else if s == "nb"@ || s == "nb-no"@ || s == "no"@ || s == "no-no"@ || s == "nn"@ || s == "nn-no"@ {
        Some(Language::Nb)
    } else if s == "pl"@ || s == "pl-pl"@ {
        Some(Language::Pl)
    } else if s == "pt-br"@ {
        Some(Language::PtBr)
    } else if s == "pt-pt"@ || s == "pt"@ {
        Some(Language::PtPt)
    } else if s == "ro"@ || s == "ro-ro"@ {
        Some(Language::Ro)
    } else if s == "ru"@ || s == "ru-ru"@ {
        Some(Language::Ru)
    } else if s == "sk"@ || s == "sk-sk"@ {
        Some(Language::Sk)
    } else if s == "es-cl"@ {
        Some(Language::EsCl)
    } else if s == "es-419"@ || s == "es419"@ || s == "es-latinamerica"@ {
        Some(Language::Es419)
    } else if s == "es-mx"@ {
        Some(Language::EsMx)
    } else if s == "es-us"@ {
        Some(Language::EsUs)
    } else if s == "es-es"@ || s == "es"@ {
        Some(Language::EsEs)
    } else if s == "sv"@ || s == "sv-se"@ {
        Some(Language::Sv)
    } else if s == "th"@ || s == "th-th"@ {
        Some(Language::Th)
    } else if s == "tr"@ || s == "tr-tr"@ {
        Some(Language::Tr)
    } else if s == "uk"@ || s == "uk-ua"@ {
        Some(Language::Uk)
    } else if s == "vi"@ || s == "vi-vn"@ {
        Some(Language::Vi)
    } else {
        None
    }
}

/// The language of the first subtag of a normalized code that is not in the full table.
pub open spec fn prefix_table(s: Seq<char>) -> Option<Language> {
    if s == "ar"@ {
        Some(Language::Ar)
    } else if s == "ca"@ {
        Some(Language::Ca)
    } else if s == "hr"@ {
        Some(Language::Hr)
    } else if s == "cs"@ {
        Some(Language::Cs)
    } else if s == "da"@ {
        Some(Language::Da)
    } else if s == "nl"@ {
        Some(Language::Nl)
    } else if s == "en"@ {
        Some(Language::EnUs)
    } else if s == "fi"@ {
        Some(Language::Fi)
    } else if s == "fr"@ {
        Some(Language::FrFr)
    } else if s == "de"@ {
        Some(Language::De)
    } else if s == "el"@ {
        Some(Language::El)
    } else if s == "he"@ || s == "iw"@ {
        Some(Language::He)
    } else if s == "hi"@ {
        Some(Language::Hi)
    } else if s == "hu"@ {
        Some(Language::Hu)
    } else if s == "id"@ {
        Some(Language::Id)
    } else if s == "it"@ {
        Some(Language::It)
    } else if s == "ja"@ {
        Some(Language::Ja)
    } else if s == "ko"@ {
        Some(Language::Ko)
    } else if s == "ms"@ {
        Some(Language::Ms)
    } else if s == "nb"@ || s == "no"@ || s == "nn"@ {
        Some(Language::Nb)
    } else if s == "pl"@ {
        Some(Language::Pl)
    } else if s == "pt"@ {
        Some(Language::PtPt)
    } else if s == "ro"@ {
        Some(Language::Ro)
    } else if s == "ru"@ {
        Some(Language::Ru)
    } else if s == "sk"@ {
        Some(Language::Sk)
    } else if s == "es"@ {
        Some(Language::EsEs)
    } else if s == "sv"@ {
        Some(Language::Sv)
    } else if s == "th"@ {
        Some(Language::Th)
    } else if s == "tr"@ {
        Some(Language::Tr)
    } else if s == "uk"@ {
        Some(Language::Uk)
    } else if s == "vi"@ {
        Some(Language::Vi)
    } else {
        None
    }
}

/// Looks a normalized code up in the full table.
fn lookup_code(v: &Vec<char>) -> (r: Option<Language>)
    ensures
        r == code_table(v@),
{
    if chars_eq(v, "auto") {
        Some(Language::Auto)
    } else if chars_eq(v, "ar") || chars_eq(v, "ar-sa") || chars_eq(v, "ar-ae") || chars_eq(v, "ar-eg") {
        Some(Language::Ar)
    } else if chars_eq(v, "ca") || chars_eq(v, "ca-es") {
        Some(Language::Ca)
    } else if chars_eq(v, "zh-hans") || chars_eq(v, "zh-cn") || chars_eq(v, "zh-sg") || chars_eq(v, "zh-hans-cn") || chars_eq(v, "zh-hans-us") {
        Some(Language::ZhHans)
    } else if chars_eq(v, "zh-hant") || chars_eq(v, "zh-tw") || chars_eq(v, "zh-hk") || chars_eq(v, "zh-mo") || chars_eq(v, "zh-hant-tw") || chars_eq(v, "zh-hant-hk") {
        Some(Language::ZhHant)
    } else if chars_eq(v, "zh") {
        Some(Language::ZhHans)
    } else if chars_eq(v, "hr") || chars_eq(v, "hr-hr") {
        Some(Language::Hr)
    } else if chars_eq(v, "cs") || chars_eq(v, "cs-cz") {
        Some(Language::Cs)
    } else if chars_eq(v, "da") || chars_eq(v, "da-dk") {
        Some(Language::Da)
    } else if chars_eq(v, "nl") || chars_eq(v, "nl-nl") || chars_eq(v, "nl-be") {
        Some(Language::Nl)
    } else if chars_eq(v, "en-au") {
        Some(Language::EnAu)
    } else if chars_eq(v, "en-ca") {
        Some(Language::EnCa)
    } else if chars_eq(v, "en-in") {
        Some(Language::EnIn)
    } else if chars_eq(v, "en-jp") {
        Some(Language::EnJp)
    } else if chars_eq(v, "en-gb") || chars_eq(v, "en-uk") {
        Some(Language::EnGb)
    } else if chars_eq(v, "en-us") || chars_eq(v, "en") {
        Some(Language::EnUs)
    } else if chars_eq(v, "fi") || chars_eq(v, "fi-fi") {
        Some(Language::Fi)
    } else if chars_eq(v, "fr-ca") {
        Some(Language::FrCa)
    } else if chars_eq(v, "fr-fr") || chars_eq(v, "fr") || chars_eq(v, "fr-be") || chars_eq(v, "fr-ch") {
        Some(Language::FrFr)
    } else if chars_eq(v, "de") || chars_eq(v, "de-de") || chars_eq(v, "de-at") || chars_eq(v, "de-ch") {
        Some(Language::De)
    } else if chars_eq(v, "el") || chars_eq(v, "el-gr") {
        Some(Language::El)
    } else if chars_eq(v, "he") || chars_eq(v, "he-il") || chars_eq(v, "iw") || chars_eq(v, "iw-il") {
        Some(Language::He)
    } else if chars_eq(v, "hi") || chars_eq(v, "hi-in") {
        Some(Language::Hi)
    } else if chars_eq(v, "hu") || chars_eq(v, "hu-hu") {
        Some(Language::Hu)
    } else if chars_eq(v, "id") || chars_eq(v, "id-id") || chars_eq(v, "in") {
        Some(Language::Id)
    } else if chars_eq(v, "it") || chars_eq(v, "it-it") || chars_eq(v, "it-ch") {
        Some(Language::It)
    } else if chars_eq(v, "ja") || chars_eq(v, "ja-jp") {
        Some(Language::Ja)
    } else if chars_eq(v, "ko") || chars_eq(v, "ko-kr") {
        Some(Language::Ko)
    } else if chars_eq(v, "ms") || chars_eq(v, "ms-my") {
        Some(Language::Ms)
    } else if chars_eq(v, "nb") || chars_eq(v, "nb-no") || chars_eq(v, "no") || chars_eq(v, "no-no") || chars_eq(v, "nn") || chars_eq(v, "nn-no") {
        Some(Language::Nb)
    } else if chars_eq(v, "pl") || chars_eq(v, "pl-pl") {
        Some(Language::Pl)
    } else if chars_eq(v, "pt-br") {
        Some(Language::PtBr)
    } else if chars_eq(v, "pt-pt") || chars_eq(v, "pt") {
        Some(Language::PtPt)
    } else if chars_eq(v, "ro") || chars_eq(v, "ro-ro") {
        Some(Language::Ro)
    } else if chars_eq(v, "ru") || chars_eq(v, "ru-ru") {
        Some(Language::Ru)
    } else if chars_eq(v, "sk") || chars_eq(v, "sk-sk") {
        Some(Language::Sk)
    } else if chars_eq(v, "es-cl") {
        Some(Language::EsCl)
    } else if chars_eq(v, "es-419") || chars_eq(v, "es419") || chars_eq(v, "es-latinamerica") {
        Some(Language::Es419)
    } else if chars_eq(v, "es-mx") {
        Some(Language::EsMx)
    } else if chars_eq(v, "es-us") {
        Some(Language::EsUs)
    } else if chars_eq(v, "es-es") || chars_eq(v, "es") {
        Some(Language::EsEs)
    } else if chars_eq(v, "sv") || chars_eq(v, "sv-se") {
        Some(Language::Sv)
    } else if chars_eq(v, "th") || chars_eq(v, "th-th") {
        Some(Language::Th)
    } else if chars_eq(v, "tr") || chars_eq(v, "tr-tr") {
        Some(Language::Tr)
    } else if chars_eq(v, "uk") || chars_eq(v, "uk-ua") {
        Some(Language::Uk)
    } else if chars_eq(v, "vi") || chars_eq(v, "vi-vn") {
        Some(Language::Vi)
    } else {
        None
    }
}

/// Looks the first subtag of a normalized code up.
fn lookup_prefix(v: &Vec<char>) -> (r: Option<Language>)
    ensures
        r == prefix_table(v@),
{
    if chars_eq(v, "ar") {
        Some(Language::Ar)
    } else if chars_eq(v, "ca") {
        Some(Language::Ca)
    } else if chars_eq(v, "hr") {
        Some(Language::Hr)
    } else if chars_eq(v, "cs") {
        Some(Language::Cs)
    } else if chars_eq(v, "da") {
        Some(Language::Da)
    } else if chars_eq(v, "nl") {
        Some(Language::Nl)
    } else if chars_eq(v, "en") {
        Some(Language::EnUs)
    } else if chars_eq(v, "fi") {
        Some(Language::Fi)
    } else if chars_eq(v, "fr") {
        Some(Language::FrFr)
    } else if chars_eq(v, "de") {
        Some(Language::De)
    } else if chars_eq(v, "el") {
        Some(Language::El)
    } else if chars_eq(v, "he") || chars_eq(v, "iw") {
        Some(Language::He)
    } else if chars_eq(v, "hi") {
        Some(Language::Hi)
    } else if chars_eq(v, "hu") {
        Some(Language::Hu)
    } else if chars_eq(v, "id") {
        Some(Language::Id)
    } else if chars_eq(v, "it") {
        Some(Language::It)
    } else if chars_eq(v, "ja") {
        Some(Language::Ja)
    } else if chars_eq(v, "ko") {
        Some(Language::Ko)
    } else if chars_eq(v, "ms") {
        Some(Language::Ms)
    } else if chars_eq(v, "nb") || chars_eq(v, "no") || chars_eq(v, "nn") {
        Some(Language::Nb)
    } else if chars_eq(v, "pl") {
        Some(Language::Pl)
    } else if chars_eq(v, "pt") {
        Some(Language::PtPt)
    } else if chars_eq(v, "ro") {
        Some(Language::Ro)
    } else if chars_eq(v, "ru") {
        Some(Language::Ru)
    } else if chars_eq(v, "sk") {
        Some(Language::Sk)
    } else if chars_eq(v, "es") {
        Some(Language::EsEs)
    } else if chars_eq(v, "sv") {
        Some(Language::Sv)
    } else if chars_eq(v, "th") {
        Some(Language::Th)
    } else if chars_eq(v, "tr") {
        Some(Language::Tr)
    } else if chars_eq(v, "uk") {
        Some(Language::Uk)
    } else if chars_eq(v, "vi") {
        Some(Language::Vi)
    } else {
        None
    }
}

/// The text that the catalogue of `l` holds for `key`, if any.
pub open spec fn catalogue(l: Language, key: Seq<char>) -> Option<Seq<char>> {
    match l {
        Language::EnUs => {
            if key == "tab.backlog"@ {
                Some("Backlog"@)
            } else if key == "tab.active"@ {
                Some("Active"@)
            } else if key == "tab.done"@ {
                Some("Done"@)
            } else if key == "tab.settings"@ {
                Some("Settings"@)
            } else if key == "col.yesterday"@ {
                Some("Yesterday"@)
            } else if key == "col.today"@ {
                Some("Today"@)
            } else if key == "col.this_week"@ {
                Some("This Week"@)
            } else if key == "col.next_week"@ {
                Some("Next Week"@)
            } else if key == "col.backlog"@ {
                Some("Backlog"@)
            } else if key == "col.done"@ {
                Some("Done"@)
            } else if key == "col.sub_items"@ {
                Some("Sub-items"@)
            } else if key == "menu.app.settings"@ {
                Some("Settings..."@)
            } else if key == "menu.app.quit"@ {
                Some("Quit"@)
            } else if key == "menu.file"@ {
                Some("File"@)
            } else if key == "menu.file.new_item"@ {
                Some("New Item"@)
            } else if key == "menu.file.new_sub_item"@ {
                Some("New Sub-item"@)
            } else if key == "menu.file.new_window"@ {
                Some("New Window"@)
            } else if key == "menu.file.close_window"@ {
                Some("Close Window"@)
            } else if key == "menu.view"@ {
                Some("View"@)
            } else if key == "menu.item"@ {
                Some("Item"@)
            } else if key == "menu.item.open_edit"@ {
                Some("Open / Edit"@)
            } else if key == "menu.item.open_markdown_viewer"@ {
                Some("Open in Markdown Viewer"@)
            } else if key == "menu.item.mark_done"@ {
                Some("Mark Done / Reopen"@)
            } else if key == "menu.item.delete"@ {
                Some("Delete"@)
            } else if key == "settings.title"@ {
                Some("Settings"@)
            } else if key == "settings.appearance"@ {
                Some("Appearance"@)
            } else if key == "settings.vi_mode"@ {
                Some("Vi Mode"@)
            } else if key == "settings.line_numbers"@ {
                Some("Line Numbers"@)
            } else if key == "settings.language"@ {
                Some("Language"@)
            } else if key == "settings.markdown_viewer"@ {
                Some("Markdown Viewer"@)
            } else if key == "settings.storage_dir"@ {
                Some("Storage Directory"@)
            } else if key == "settings.browse"@ {
                Some("Browse..."@)
            } else if key == "settings.reset_auto"@ {
                Some("Reset to Auto"@)
            } else if key == "editor.save"@ {
                Some("Save"@)
            } else if key == "editor.cancel"@ {
                Some("Cancel"@)
            } else if key == "editor.tear_off"@ {
                Some("Tear Off"@)
            } else if key == "editor.status.normal"@ {
                Some("NORMAL"@)
            } else if key == "editor.status.insert"@ {
                Some("INSERT"@)
            } else if key == "editor.status.visual"@ {
                Some("VISUAL"@)
            } else if key == "editor.status.command"@ {
                Some("COMMAND"@)
            } else {
                None
            }
        },
        Language::De => {
            if key == "tab.backlog"@ {
                Some("Rückstand"@)
            } else if key == "menu.file"@ {
                Some("Ablage"@)
            } else if key == "menu.file.new_window"@ {
                Some("Neues Fenster"@)
            } else if key == "menu.item"@ {
                Some("Element"@)
            } else if key == "menu.item.open_markdown_viewer"@ {
                Some("In Markdown-Viewer öffnen"@)
            } else {
                None
            }
        },
        Language::EsEs => {
            if key == "tab.backlog"@ {
                Some("Pendientes"@)
            } else {
                None
            }
        },
        Language::FrFr => {
            if key == "tab.backlog"@ {
                Some("Backlog"@)
            } else {
                None
            }
        },
        Language::Ja => {
            if key == "menu.file"@ {
                Some("ファイル"@)
            } else if key == "menu.file.new_window"@ {
                Some("新規ウィンドウ"@)
            } else {
                None
            }
        },
        _ => None,
    }
}

/// Looks `key` up in the catalogue of `l`.
fn lookup(l: Language, key: &str) -> (r: Option<&'static str>)
    ensures
        r matches Some(v) ==> catalogue(l, key@) == Some(v@),
        r is None ==> catalogue(l, key@) is None,
{
    match l {
        Language::EnUs => {
            if str_eq(key, "tab.backlog") {
                Some("Backlog")
            } else if str_eq(key, "tab.active") {
                Some("Active")
            } else if str_eq(key, "tab.done") {
                Some("Done")
            } else if str_eq(key, "tab.settings") {
                Some("Settings")
            } else if str_eq(key, "col.yesterday") {
                Some("Yesterday")
            } else if str_eq(key, "col.today") {
                Some("Today")
            } else if str_eq(key, "col.this_week") {
                Some("This Week")
            } else if str_eq(key, "col.next_week") {
                Some("Next Week")
            } else if str_eq(key, "col.backlog") {
                Some("Backlog")
            } else if str_eq(key, "col.done") {
                Some("Done")
            } else if str_eq(key, "col.sub_items") {
                Some("Sub-items")
            } else if str_eq(key, "menu.app.settings") {
                Some("Settings...")
            } else if str_eq(key, "menu.app.quit") {
                Some("Quit")
            } else if str_eq(key, "menu.file") {
                Some("File")
            } else if str_eq(key, "menu.file.new_item") {
                Some("New Item")
            } else if str_eq(key, "menu.file.new_sub_item") {
                Some("New Sub-item")
            } else if str_eq(key, "menu.file.new_window") {
                Some("New Window")
            } else if str_eq(key, "menu.file.close_window") {
                Some("Close Window")
            } else if str_eq(key, "menu.view") {
                Some("View")
            } else if str_eq(key, "menu.item") {
                Some("Item")
            } else if str_eq(key, "menu.item.open_edit") {
                Some("Open / Edit")
            } else if str_eq(key, "menu.item.open_markdown_viewer") {
                Some("Open in Markdown Viewer")
            } else if str_eq(key, "menu.item.mark_done") {
                Some("Mark Done / Reopen")
            } else if str_eq(key, "menu.item.delete") {
                Some("Delete")
            } else if str_eq(key, "settings.title") {
                Some("Settings")
            } else if str_eq(key, "settings.appearance") {
                Some("Appearance")
            } else if str_eq(key, "settings.vi_mode") {
                Some("Vi Mode")
            } else if str_eq(key, "settings.line_numbers") {
                Some("Line Numbers")
            } else if str_eq(key, "settings.language") {
                Some("Language")
            } else if str_eq(key, "settings.markdown_viewer") {
                Some("Markdown Viewer")
            } else if str_eq(key, "settings.storage_dir") {
                Some("Storage Directory")
            } else if str_eq(key, "settings.browse") {
                Some("Browse...")
            } else if str_eq(key, "settings.reset_auto") {
                Some("Reset to Auto")
            } else if str_eq(key, "editor.save") {
                Some("Save")
            } else if str_eq(key, "editor.cancel") {
                Some("Cancel")
            } else if str_eq(key, "editor.tear_off") {
                Some("Tear Off")
            } else if str_eq(key, "editor.status.normal") {
                Some("NORMAL")
            } else if str_eq(key, "editor.status.insert") {
                Some("INSERT")
            } else if str_eq(key, "editor.status.visual") {
                Some("VISUAL")
            } else if str_eq(key, "editor.status.command") {
                Some("COMMAND")
            } else {
                None
            }
        },
        Language::De => {
            if str_eq(key, "tab.backlog") {
                Some("Rückstand")
            } else if str_eq(key, "menu.file") {
                Some("Ablage")
            } else if str_eq(key, "menu.file.new_window") {
                Some("Neues Fenster")
            } else if str_eq(key, "menu.item") {
                Some("Element")
            } else if str_eq(key, "menu.item.open_markdown_viewer") {
                Some("In Markdown-Viewer öffnen")
            } else {
                None
            }
        },
        Language::EsEs => {
            if str_eq(key, "tab.backlog") {
                Some("Pendientes")
            } else {
                None
            }
        },
        Language::FrFr => {
            if str_eq(key, "tab.backlog") {
                Some("Backlog")
            } else {
                None
            }
        },
        Language::Ja => {
            if str_eq(key, "menu.file") {
                Some("ファイル")
            } else if str_eq(key, "menu.file.new_window") {
                Some("新規ウィンドウ")
            } else {
                None
            }
        },
        _ => None,
    }
}

impl Language {
    /// Every language, `Auto` first.
    pub fn all() -> (r: Vec<Language>)
        ensures
            r@ == all_languages(),
    {
        vec![Language::Auto, Language::Ar, Language::Ca, Language::ZhHans, Language::ZhHant, Language::Hr, Language::Cs, Language::Da, Language::Nl, Language::EnAu, Language::EnCa, Language::EnIn, Language::EnJp, Language::EnGb, Language::EnUs, Language::Fi, Language::FrCa, Language::FrFr, Language::De, Language::El, Language::He, Language::Hi, Language::Hu, Language::Id, Language::It, Language::Ja, Language::Ko, Language::Ms, Language::Nb, Language::Pl, Language::PtBr, Language::PtPt, Language::Ro, Language::Ru, Language::Sk, Language::EsCl, Language::Es419, Language::EsMx, Language::EsEs, Language::EsUs, Language::Sv, Language::Th, Language::Tr, Language::Uk, Language::Vi] 
    }

    /// The name shown in the settings.
    pub fn display_name(&self) -> (r: &'static str)
        ensures
            r@ == name_of(*self),
    {
        match self {
            Language::Auto => "System Default (Auto)",
            Language::Ar => "Arabic",
            Language::Ca => "Catalan",
            Language::ZhHans => "Chinese (Simplified)",
            Language::ZhHant => "Chinese (Traditional)",
            Language::Hr => "Croatian",
            Language::Cs => "Czech",
            Language::Da => "Danish",
            Language::Nl => "Dutch",
            Language::EnAu => "English (Australia)",
            Language::EnCa => "English (Canada)",
            Language::EnIn => "English (India)",
            Language::EnJp => "English (Japan)",
            Language::EnGb => "English (UK)",
            Language::EnUs => "English (US)",
            Language::Fi => "Finnish",
            Language::FrCa => "French (Canada)",
            Language::FrFr => "French (France)",
            Language::De => "German",
            Language::El => "Greek",
            Language::He => "Hebrew",
            Language::Hi => "Hindi",
            Language::Hu => "Hungarian",
            Language::Id => "Indonesian",
            Language::It => "Italian",
            Language::Ja => "Japanese",
            Language::Ko => "Korean",
            Language::Ms => "Malay",
            Language::Nb => "Norwegian Bokmål",
            Language::Pl => "Polish",
            Language::PtBr => "Portuguese (Brazil)",
            Language::PtPt => "Portuguese (Portugal)",
            Language::Ro => "Romanian",
            Language::Ru => "Russian",
            Language::Sk => "Slovak",
            Language::EsCl => "Spanish (Chile)",
            Language::Es419 => "Spanish (Latin America)",
            Language::EsMx => "Spanish (Mexico)",
            Language::EsEs => "Spanish (Spain)",
            Language::EsUs => "Spanish (United States)",
            Language::Sv => "Swedish",
            Language::Th => "Thai",
            Language::Tr => "Turkish",
            Language::Uk => "Ukrainian",
            Language::Vi => "Vietnamese",
        }
    }

    /// The canonical code, such as `en-US` or `zh-Hans`.
    pub fn code(&self) -> (r: &'static str)
        ensures
            r@ == code_of(*self),
    {
        match self {
            Language::Auto => "auto",
            Language::Ar => "ar",
            Language::Ca => "ca",
            Language::ZhHans => "zh-Hans",
            Language::ZhHant => "zh-Hant",
            Language::Hr => "hr",
            Language::Cs => "cs",
            Language::Da => "da",
            Language::Nl => "nl",
            Language::EnAu => "en-AU",
            Language::EnCa => "en-CA",
            Language::EnIn => "en-IN",
            Language::EnJp => "en-JP",
            Language::EnGb => "en-GB",
            Language::EnUs => "en-US",
            Language::Fi => "fi",
            Language::FrCa => "fr-CA",
            Language::FrFr => "fr-FR",
            Language::De => "de",
            Language::El => "el",
            Language::He => "he",
            Language::Hi => "hi",
            Language::Hu => "hu",
            Language::Id => "id",
            Language::It => "it",
            Language::Ja => "ja",
            Language::Ko => "ko",
            Language::Ms => "ms",
            Language::Nb => "nb",
            Language::Pl => "pl",
            Language::PtBr => "pt-BR",
            Language::PtPt => "pt-PT",
            Language::Ro => "ro",
            Language::Ru => "ru",
            Language::Sk => "sk",
            Language::EsCl => "es-CL",
            Language::Es419 => "es-419",
            Language::EsMx => "es-MX",
            Language::EsEs => "es-ES",
            Language::EsUs => "es-US",
            Language::Sv => "sv",
            Language::Th => "th",
            Language::Tr => "tr",
            Language::Uk => "uk",
            Language::Vi => "vi",
        }
    }

    /// The language a regional variant falls back to (`en-GB` to `en-US`,
    /// `es-MX` to `es-ES`, ...), or `None`.
    pub fn base_language(&self) -> (r: Option<Language>)
        ensures
            r == base_of(*self),
    {
        match self {
            Language::EnAu | Language::EnCa | Language::EnIn | Language::EnJp | Language::EnGb => Some(Language::EnUs),
            Language::FrCa => Some(Language::FrFr),
            Language::EsCl | Language::Es419 | Language::EsMx | Language::EsUs => Some(Language::EsEs),
            Language::PtBr => Some(Language::PtPt),
            _ => None,
        }
    }

    /// The language named by a locale code such as `en_US.UTF-8`,
    /// `zh-Hant` or `es-419`, or `None` when it names none.
    pub fn from_code(raw_code: &str) -> (r: Option<Language>)
        ensures
            r == language_of(raw_code@, 0, raw_code@.len() as int),
    {
        let cs = chars_of(raw_code);
        language_in(&cs, 0, cs.len())
    }
}

/// How a character of a code is compared: ASCII capitals are lower-cased and
/// `_` reads as `-`.
pub open spec fn norm_char(c: char) -> char {
    if c == '_' {
        '-'
    } else if 65 <= (c as u32) <= 90 {
        ((c as u32) + 32) as char
    } else {
        c
    }
}

/// A code with every character normalized.
pub open spec fn normalized(s: Seq<char>) -> Seq<char> {
    s.map_values(|c: char| norm_char(c))
}

/// The language that the locale code in `cs[a..b]` names: surrounding
/// whitespace is dropped, then everything from the first `.` (a charset) and
/// from the first `@` (a modifier), then whitespace again; what is left is
/// normalized and looked up in the full table, and failing that its first
/// subtag in the table of prefixes.
pub open spec fn language_of(cs: Seq<char>, a: int, b: int) -> Option<Language> {
    let s = skip_white(cs, a, b);
    let e = back_white(cs, s, b);
    if s >= e {
        None
    } else {
        let d = end_at(cs, '@', s, end_at(cs, '.', s, e));
        let s2 = skip_white(cs, s, d);
        let norm = normalized(cs.subrange(s2, back_white(cs, s2, d)));
        match code_table(norm) {
            Some(l) => Some(l),
            None => prefix_table(norm.take(end_at(norm, '-', 0, norm.len() as int))),
        }
    }
}

fn norm_exec(c: char) -> (r: char)
    ensures
        r == norm_char(c),
{
    let v = c as u32;
    if c == '_' {
        '-'
    } else if 65 <= v && v <= 90 {
        let low = (v as u8) + 32;
        low as char
    } else {
        c
    }
}

/// `language_of` over `cs[a..b]`.
fn language_in(cs: &Vec<char>, a: usize, b: usize) -> (r: Option<Language>)
    requires
        a <= b <= cs@.len(),
    ensures
        r == language_of(cs@, a as int, b as int),
{
    let (s, e) = trim_bounds(cs, a, b);
    if s >= e {
        return None;
    }
    let dot = end_index(cs, '.', s, e);
    let d = end_index(cs, '@', s, dot);
    let (s2, e2) = trim_bounds(cs, s, d);
    let mut norm: Vec<char> = Vec::new();
    let mut i = s2;
    while i < e2
        invariant
            s2 <= i <= e2 <= cs@.len(),
            norm@ == normalized(cs@.subrange(s2 as int, i as int)),
        decreases e2 - i,
    {
        let c = norm_exec(cs[i]);
        proof {
            assert(normalized(cs@.subrange(s2 as int, i + 1)) =~= normalized(
                cs@.subrange(s2 as int, i as int),
            ).push(c));
        }
        norm.push(c);
        i = i + 1;
    }
    match lookup_code(&norm) {
        Some(l) => Some(l),
        None => {
            let p = end_index(&norm, '-', 0, norm.len());
            let mut head: Vec<char> = Vec::new();
            let mut j: usize = 0;
            while j < p
                invariant
                    j <= p <= norm@.len(),
                    head@ == norm@.take(j as int),
                decreases p - j,
            {
                head.push(norm[j]);
                proof {
                    assert(head@ =~= norm@.take(j + 1));
                }
                j = j + 1;
            }
            lookup_prefix(&head)
        },
    }
}

/// The language the system language resolves to: `Auto` when nothing was
/// detected counts as English (US).
pub open spec fn effective(lang: Language, detected: Language) -> Language {
    if lang == Language::Auto {
        if detected == Language::Auto {
            Language::EnUs
        } else {
            detected
        }
    } else {
        lang
    }
}

/// The interface text for `key` in `lang` (with `detected` standing for the
/// system language): the language's own text, else that of its base
/// language, else the English (US) one, else the key itself.
pub open spec fn translation(key: Seq<char>, lang: Language, detected: Language) -> Seq<char> {
    let e = effective(lang, detected);
    if catalogue(e, key) is Some {
        catalogue(e, key)->0
    } else if base_of(e) is Some && catalogue(base_of(e)->0, key) is Some {
        catalogue(base_of(e)->0, key)->0
    } else if catalogue(Language::EnUs, key) is Some {
        catalogue(Language::EnUs, key)->0
    } else {
        key
    }
}

/// The interface text for `key` in `lang`; `detected` is the system
/// language, which `Auto` follows.
pub fn t<'a>(key: &'a str, lang: Language, detected: Language) -> (r: &'a str)
    ensures
        r@ == translation(key@, lang, detected),
{
    let e = if lang == Language::Auto {
        if detected == Language::Auto {
            Language::EnUs
        } else {
            detected
        }
    } else {
        lang
    };
    if let Some(v) = lookup(e, key) {
        return v;
    }
    if let Some(b) = e.base_language() {
        if let Some(v) = lookup(b, key) {
            return v;
        }
    }
    if let Some(v) = lookup(Language::EnUs, key) {
        return v;
    }
    key
}

/// The language an environment value (`LC_ALL`, `LANG`, ...) selects: its
/// trimmed text must be neither empty, `C` nor `POSIX`, and name a language
/// other than `Auto`.
pub open spec fn env_choice(v: Seq<char>) -> Option<Language> {
    let s = skip_white(v, 0, v.len() as int);
    let e = back_white(v, s, v.len() as int);
    if s < e && v.subrange(s, e) != "C"@ && v.subrange(s, e) != "POSIX"@ && language_of(
        v,
        s,
        e,
    ) is Some && language_of(v, s, e)->0 != Language::Auto {
        language_of(v, s, e)
    } else {
        None
    }
}

/// Characters stripped around an entry of the AppleLanguages listing.
pub open spec fn is_punct(c: char) -> bool {
    c == '(' || c == ')' || c == ','
}

/// Index of the first character in `cs[a..b]` that is not punctuation, or `b`.
pub open spec fn skip_punct(cs: Seq<char>, q: bool, a: int, b: int) -> int
    decreases b - a,
{
    if a >= b {
        b
    } else if (if q { cs[a] == '"' } else { is_punct(cs[a]) }) {
        skip_punct(cs, q, a + 1, b)
    } else {
        a
    }
}

/// One past the last character in `cs[a..b]` that is not punctuation, or `a`.
pub open spec fn back_punct(cs: Seq<char>, q: bool, a: int, b: int) -> int
    decreases b - a,
{
    if b <= a {
        a
    } else if (if q { cs[b - 1] == '"' } else { is_punct(cs[b - 1]) }) {
        back_punct(cs, q, a, b - 1)
    } else {
        b
    }
}

/// The language a line of the AppleLanguages listing selects: the line is
/// trimmed, stripped of brackets and commas, trimmed again and stripped of
/// quotes; what is left must name a language other than `Auto`.
pub open spec fn listing_choice(line: Seq<char>) -> Option<Language> {
    let n = line.len() as int;
    let s1 = skip_white(line, 0, n);
    let e1 = back_white(line, s1, n);
    let s2 = skip_punct(line, false, s1, e1);
    let e2 = back_punct(line, false, s2, e1);
    let s3 = skip_white(line, s2, e2);
    let e3 = back_white(line, s3, e2);
    let s4 = skip_punct(line, true, s3, e3);
    let e4 = back_punct(line, true, s4, e3);
    if s4 < e4 && language_of(line, s4, e4) is Some && language_of(line, s4, e4)->0
        != Language::Auto {
        language_of(line, s4, e4)
    } else {
        None
    }
}

/// The first choice among `vs[i..]` made by `env_choice` (or, with
/// `listing`, by `listing_choice`).
pub open spec fn first_choice(vs: Seq<Seq<char>>, listing: bool, i: int) -> Option<Language>
    decreases vs.len() - i,
{
    if i < 0 || i >= vs.len() {
        None
    } else {
        let c = if listing {
            listing_choice(vs[i])
        } else {
            env_choice(vs[i])
        };
        if c is Some {
            c
        } else {
            first_choice(vs, listing, i + 1)
        }
    }
}

/// The system language: the first environment value that selects one, else
/// the first AppleLanguages line that does, else English (US).
pub open spec fn system_language(envs: Seq<Seq<char>>, lines: Seq<Seq<char>>) -> Language {
    if first_choice(envs, false, 0) is Some {
        first_choice(envs, false, 0)->0
    } else if first_choice(lines, true, 0) is Some {
        first_choice(lines, true, 0)->0
    } else {
        Language::EnUs
    }
}

proof fn lemma_skip_punct(cs: Seq<char>, q: bool, a: int, b: int)
    requires
        a <= b,
    ensures
        a <= skip_punct(cs, q, a, b) <= b,
    decreases b - a,
{
    if a < b {
        lemma_skip_punct(cs, q, a + 1, b);
    }
}

proof fn lemma_back_punct(cs: Seq<char>, q: bool, a: int, b: int)
    requires
        a <= b,
    ensures
        a <= back_punct(cs, q, a, b) <= b,
    decreases b - a,
{
    if a < b {
        lemma_back_punct(cs, q, a, b - 1);
    }
}

fn strips(c: char, q: bool) -> (r: bool)
    ensures
        r == (if q { c == '"' } else { is_punct(c) }),
{
    if q {
        c == '"'
    } else {
        c == '(' || c == ')' || c == ','
    }
}

fn strip_exec(cs: &Vec<char>, q: bool, a: usize, b: usize) -> (r: (usize, usize))
    requires
        a <= b <= cs@.len(),
    ensures
        r.0 == skip_punct(cs@, q, a as int, b as int),
        r.1 == back_punct(cs@, q, r.0 as int, b as int),
        a <= r.0 <= r.1 <= b,
{
    proof {
        lemma_skip_punct(cs@, q, a as int, b as int);
    }
    let mut s = a;
    while s < b && strips(cs[s], q)
        invariant
            a <= s <= b <= cs@.len(),
            skip_punct(cs@, q, a as int, b as int) == skip_punct(cs@, q, s as int, b as int),
        decreases b - s,
    {
        s = s + 1;
    }
    proof {
        lemma_back_punct(cs@, q, s as int, b as int);
    }
    let mut e = b;
    while e > s && strips(cs[e - 1], q)
        invariant
            s <= e <= b <= cs@.len(),
            back_punct(cs@, q, s as int, b as int) == back_punct(cs@, q, s as int, e as int),
        decreases e - s,
    {
        e = e - 1;
    }
    (s, e)
}

fn env_choice_exec(v: &str) -> (r: Option<Language>)
    ensures
        r == env_choice(v@),
{
    let cs = chars_of(v);
    let (s, e) = trim_bounds(&cs, 0, cs.len());
    if s < e && !chars_eq_at(&cs, s, e, "C") && !chars_eq_at(&cs, s, e, "POSIX") {
        match language_in(&cs, s, e) {
            Some(l) => {
                if l != Language::Auto {
                    Some(l)
                } else {
                    None
                }
            },
            None => None,
        }
    } else {
        None
    }
}

fn listing_choice_exec(line: &str) -> (r: Option<Language>)
    ensures
        r == listing_choice(line@),
{
    let cs = chars_of(line);
    let (s1, e1) = trim_bounds(&cs, 0, cs.len());
    let (s2, e2) = strip_exec(&cs, false, s1, e1);
    let (s3, e3) = trim_bounds(&cs, s2, e2);
    let (s4, e4) = strip_exec(&cs, true, s3, e3);
    if s4 < e4 {
        match language_in(&cs, s4, e4) {
            Some(l) => {
                if l != Language::Auto {
                    Some(l)
                } else {
                    None
                }
            },
            None => None,
        }
    } else {
        None
    }
}

/// The first choice among `vs`, as `first_choice` from 0.
fn first_choice_exec(vs: &Vec<String>, listing: bool) -> (r: Option<Language>)
    ensures
        r == first_choice(vs@.map_values(|s: String| s@), listing, 0),
{
    let ghost texts = vs@.map_values(|s: String| s@);
    let mut i: usize = 0;
    while i < vs.len()
        invariant
            i <= vs@.len(),
            texts == vs@.map_values(|s: String| s@),
            first_choice(texts, listing, 0) == first_choice(texts, listing, i as int),
        decreases vs@.len() - i,
    {
        let c = if listing {
            listing_choice_exec(vs[i].as_str())
        } else {
            env_choice_exec(vs[i].as_str())
        };
        assert(texts[i as int] == vs@[i as int]@);
        if c.is_some() {
            return c;
        }
        i = i + 1;
    }
    None
}

/// The system language from the values of `LC_ALL`, `LC_MESSAGES`, `LANG`
/// and `LANGUAGE` (in that order, unset ones left out or empty) and the lines
/// of the AppleLanguages listing (empty where there is none).
pub fn language_from_environment(env_values: &Vec<String>, listing_lines: &Vec<String>) -> (r:
    Language)
    ensures
        r == system_language(
            env_values@.map_values(|s: String| s@),
            listing_lines@.map_values(|s: String| s@),
        ),
{
    if let Some(l) = first_choice_exec(env_values, false) {
        return l;
    }
    if let Some(l) = first_choice_exec(listing_lines, true) {
        return l;
    }
    Language::EnUs
}

/// A character that may stand in a language code.
pub open spec fn code_char(c: char) -> bool {
    let v = c as u32;
    (97 <= v <= 122) || (65 <= v <= 90) || (48 <= v <= 57) || v == 45
}

proof fn lemma_end_at_none(cs: Seq<char>, c: char, a: int, b: int)
    requires
        0 <= a <= b <= cs.len(),
        forall|j: int| a <= j < b ==> cs[j] != c,
    ensures
        end_at(cs, c, a, b) == b,
    decreases b - a,
{
    if a < b {
        lemma_end_at_none(cs, c, a + 1, b);
    }
}

/// A code made only of letters, digits and `-` is looked up as it stands,
/// lower-cased.
proof fn lemma_plain_code(cs: Seq<char>)
    requires
        cs.len() > 0,
        forall|j: int| 0 <= j < cs.len() ==> code_char(#[trigger] cs[j]),
    ensures
        language_of(cs, 0, cs.len() as int) == match code_table(normalized(cs)) {
            Some(l) => Some(l),
            None => prefix_table(
                normalized(cs).take(end_at(normalized(cs), '-', 0, normalized(cs).len() as int)),
            ),
        },
{
    let n = cs.len() as int;
    assert(!is_white(cs[0]));
    assert(!is_white(cs[n - 1]));
    assert(skip_white(cs, 0, n) == 0);
    assert(back_white(cs, 0, n) == n);
    lemma_end_at_none(cs, '.', 0, n);
    lemma_end_at_none(cs, '@', 0, n);
    assert(cs.subrange(0, n) =~= cs);
}

/// Every language reads back from its own code; so no two languages share a
/// code.
pub proof fn law_code_reads_back(l: Language, m: Language)
    ensures
        language_of(code_of(l), 0, code_of(l).len() as int) == Some(l),
        code_of(l) == code_of(m) ==> l == m,
{
    lemma_code_reads_back(l);
    lemma_code_reads_back(m);
}

#[verifier::spinoff_prover]
#[verifier::rlimit(100)]
proof fn lemma_code_reads_back(l: Language)
    ensures
        language_of(code_of(l), 0, code_of(l).len() as int) == Some(l),
{
    reveal_strlit("auto");
    reveal_strlit("ar");
    reveal_strlit("ar-sa");
    reveal_strlit("ar-ae");
    reveal_strlit("ar-eg");
    reveal_strlit("ca");
    reveal_strlit("ca-es");
    reveal_strlit("zh-hans");
    reveal_strlit("zh-cn");
    reveal_strlit("zh-sg");
    reveal_strlit("zh-hans-cn");
    reveal_strlit("zh-hans-us");
    reveal_strlit("zh-hant");
    reveal_strlit("zh-tw");
    reveal_strlit("zh-hk");
    reveal_strlit("zh-mo");
    reveal_strlit("zh-hant-tw");
    reveal_strlit("zh-hant-hk");
    reveal_strlit("zh");
    reveal_strlit("hr");
    reveal_strlit("hr-hr");
    reveal_strlit("cs");
    reveal_strlit("cs-cz");
    reveal_strlit("da");
    reveal_strlit("da-dk");
    reveal_strlit("nl");
    reveal_strlit("nl-nl");
    reveal_strlit("nl-be");
    reveal_strlit("en-au");
    reveal_strlit("en-ca");
    reveal_strlit("en-in");
    reveal_strlit("en-jp");
    reveal_strlit("en-gb");
    reveal_strlit("en-uk");
    reveal_strlit("en-us");
    reveal_strlit("en");
    reveal_strlit("fi");
    reveal_strlit("fi-fi");
    reveal_strlit("fr-ca");
    reveal_strlit("fr-fr");
    reveal_strlit("fr");
    reveal_strlit("fr-be");
    reveal_strlit("fr-ch");
    reveal_strlit("de");
    reveal_strlit("de-de");
    reveal_strlit("de-at");
    reveal_strlit("de-ch");
    reveal_strlit("el");
    reveal_strlit("el-gr");
    reveal_strlit("he");
    reveal_strlit("he-il");
    reveal_strlit("iw");
    reveal_strlit("iw-il");
    reveal_strlit("hi");
    reveal_strlit("hi-in");
    reveal_strlit("hu");
    reveal_strlit("hu-hu");
    reveal_strlit("id");
    reveal_strlit("id-id");
    reveal_strlit("in");
    reveal_strlit("it");
    reveal_strlit("it-it");
    reveal_strlit("it-ch");
    reveal_strlit("ja");
    reveal_strlit("ja-jp");
    reveal_strlit("ko");
    reveal_strlit("ko-kr");
    reveal_strlit("ms");
    reveal_strlit("ms-my");
    reveal_strlit("nb");
    reveal_strlit("nb-no");
    reveal_strlit("no");
    reveal_strlit("no-no");
    reveal_strlit("nn");
    reveal_strlit("nn-no");
    reveal_strlit("pl");
    reveal_strlit("pl-pl");
    reveal_strlit("pt-br");
    reveal_strlit("pt-pt");
    reveal_strlit("pt");
    reveal_strlit("ro");
    reveal_strlit("ro-ro");
    reveal_strlit("ru");
    reveal_strlit("ru-ru");
    reveal_strlit("sk");
    reveal_strlit("sk-sk");
    reveal_strlit("es-cl");
    reveal_strlit("es-419");
    reveal_strlit("es419");
    reveal_strlit("es-latinamerica");
    reveal_strlit("es-mx");
    reveal_strlit("es-us");
    reveal_strlit("es-es");
    reveal_strlit("es");
    reveal_strlit("sv");
    reveal_strlit("sv-se");
    reveal_strlit("th");
    reveal_strlit("th-th");
    reveal_strlit("tr");
    reveal_strlit("tr-tr");
    reveal_strlit("uk");
    reveal_strlit("uk-ua");
    reveal_strlit("vi");
    reveal_strlit("vi-vn");
    match l {
        Language::Auto => {
            reveal_strlit("auto");
            lemma_plain_code("auto"@);
            let t = normalized("auto"@);
            assert(t[0] == 'a' && t[1] == 'u' && t[2] == 't' && t[3] == 'o');
            assert(t =~= "auto"@);
        },
        Language::Ar => {
            reveal_strlit("ar");
            lemma_plain_code("ar"@);
            let t = normalized("ar"@);
            assert(t[0] == 'a' && t[1] == 'r');
            assert(t =~= "ar"@);
        },
        Language::Ca => {
            reveal_strlit("ca");
            lemma_plain_code("ca"@);
            let t = normalized("ca"@);
            assert(t[0] == 'c' && t[1] == 'a');
            assert(t =~= "ca"@);
        },
        Language::ZhHans => {
            reveal_strlit("zh-Hans");
            lemma_plain_code("zh-Hans"@);
            let t = normalized("zh-Hans"@);
            assert(t[0] == 'z' && t[1] == 'h' && t[2] == '-' && t[3] == 'h' && t[4] == 'a' && t[5] == 'n' && t[6] == 's');
            assert(t =~= "zh-hans"@);
        },
        Language::ZhHant => {
            reveal_strlit("zh-Hant");
            lemma_plain_code("zh-Hant"@);
            let t = normalized("zh-Hant"@);
            assert(t[0] == 'z' && t[1] == 'h' && t[2] == '-' && t[3] == 'h' && t[4] == 'a' && t[5] == 'n' && t[6] == 't');
            assert(t =~= "zh-hant"@);
        },
        Language::Hr => {
            reveal_strlit("hr");
            lemma_plain_code("hr"@);
            let t = normalized("hr"@);
            assert(t[0] == 'h' && t[1] == 'r');
            assert(t =~= "hr"@);
        },
        Language::Cs => {
            reveal_strlit("cs");
            lemma_plain_code("cs"@);
            let t = normalized("cs"@);
            assert(t[0] == 'c' && t[1] == 's');
            assert(t =~= "cs"@);
        },
        Language::Da => {
            reveal_strlit("da");
            lemma_plain_code("da"@);
            let t = normalized("da"@);
            assert(t[0] == 'd' && t[1] == 'a');
            assert(t =~= "da"@);
        },
        Language::Nl => {
            reveal_strlit("nl");
            lemma_plain_code("nl"@);
            let t = normalized("nl"@);
            assert(t[0] == 'n' && t[1] == 'l');
            assert(t =~= "nl"@);
        },
        Language::EnAu => {
            reveal_strlit("en-AU");
            lemma_plain_code("en-AU"@);
            let t = normalized("en-AU"@);
            assert(t[0] == 'e' && t[1] == 'n' && t[2] == '-' && t[3] == 'a' && t[4] == 'u');
            assert(t =~= "en-au"@);
        },
        Language::EnCa => {
            reveal_strlit("en-CA");
            lemma_plain_code("en-CA"@);
            let t = normalized("en-CA"@);
            assert(t[0] == 'e' && t[1] == 'n' && t[2] == '-' && t[3] == 'c' && t[4] == 'a');
            assert(t =~= "en-ca"@);
        },
        Language::EnIn => {
            reveal_strlit("en-IN");
            lemma_plain_code("en-IN"@);
            let t = normalized("en-IN"@);
            assert(t[0] == 'e' && t[1] == 'n' && t[2] == '-' && t[3] == 'i' && t[4] == 'n');
            assert(t =~= "en-in"@);
        },
        Language::EnJp => {
            reveal_strlit("en-JP");
            lemma_plain_code("en-JP"@);
            let t = normalized("en-JP"@);
            assert(t[0] == 'e' && t[1] == 'n' && t[2] == '-' && t[3] == 'j' && t[4] == 'p');
            assert(t =~= "en-jp"@);
        },
        Language::EnGb => {
            reveal_strlit("en-GB");
            lemma_plain_code("en-GB"@);
            let t = normalized("en-GB"@);
            assert(t[0] == 'e' && t[1] == 'n' && t[2] == '-' && t[3] == 'g' && t[4] == 'b');
            assert(t =~= "en-gb"@);
        },
        Language::EnUs => {
            reveal_strlit("en-US");
            lemma_plain_code("en-US"@);
            let t = normalized("en-US"@);
            assert(t[0] == 'e' && t[1] == 'n' && t[2] == '-' && t[3] == 'u' && t[4] == 's');
            assert(t =~= "en-us"@);
        },
        Language::Fi => {
            reveal_strlit("fi");
            lemma_plain_code("fi"@);
            let t = normalized("fi"@);
            assert(t[0] == 'f' && t[1] == 'i');
            assert(t =~= "fi"@);
        },
        Language::FrCa => {
            reveal_strlit("fr-CA");
            lemma_plain_code("fr-CA"@);
            let t = normalized("fr-CA"@);
            assert(t[0] == 'f' && t[1] == 'r' && t[2] == '-' && t[3] == 'c' && t[4] == 'a');
            assert(t =~= "fr-ca"@);
        },
        Language::FrFr => {
            reveal_strlit("fr-FR");
            lemma_plain_code("fr-FR"@);
            let t = normalized("fr-FR"@);
            assert(t[0] == 'f' && t[1] == 'r' && t[2] == '-' && t[3] == 'f' && t[4] == 'r');
            assert(t =~= "fr-fr"@);
        },
        Language::De => {
            reveal_strlit("de");
            lemma_plain_code("de"@);
            let t = normalized("de"@);
            assert(t[0] == 'd' && t[1] == 'e');
            assert(t =~= "de"@);
        },
        Language::El => {
            reveal_strlit("el");
            lemma_plain_code("el"@);
            let t = normalized("el"@);
            assert(t[0] == 'e' && t[1] == 'l');
            assert(t =~= "el"@);
        },
        Language::He => {
            reveal_strlit("he");
            lemma_plain_code("he"@);
            let t = normalized("he"@);
            assert(t[0] == 'h' && t[1] == 'e');
            assert(t =~= "he"@);
        },
        Language::Hi => {
            reveal_strlit("hi");
            lemma_plain_code("hi"@);
            let t = normalized("hi"@);
            assert(t[0] == 'h' && t[1] == 'i');
            assert(t =~= "hi"@);
        },
        Language::Hu => {
            reveal_strlit("hu");
            lemma_plain_code("hu"@);
            let t = normalized("hu"@);
            assert(t[0] == 'h' && t[1] == 'u');
            assert(t =~= "hu"@);
        },
        Language::Id => {
            reveal_strlit("id");
            lemma_plain_code("id"@);
            let t = normalized("id"@);
            assert(t[0] == 'i' && t[1] == 'd');
            assert(t =~= "id"@);
        },
        Language::It => {
            reveal_strlit("it");
            lemma_plain_code("it"@);
            let t = normalized("it"@);
            assert(t[0] == 'i' && t[1] == 't');
            assert(t =~= "it"@);
        },
        Language::Ja => {
            reveal_strlit("ja");
            lemma_plain_code("ja"@);
            let t = normalized("ja"@);
            assert(t[0] == 'j' && t[1] == 'a');
            assert(t =~= "ja"@);
        },
        Language::Ko => {
            reveal_strlit("ko");
            lemma_plain_code("ko"@);
            let t = normalized("ko"@);
            assert(t[0] == 'k' && t[1] == 'o');
            assert(t =~= "ko"@);
        },
        Language::Ms => {
            reveal_strlit("ms");
            lemma_plain_code("ms"@);
            let t = normalized("ms"@);
            assert(t[0] == 'm' && t[1] == 's');
            assert(t =~= "ms"@);
        },
        Language::Nb => {
            reveal_strlit("nb");
            lemma_plain_code("nb"@);
            let t = normalized("nb"@);
            assert(t[0] == 'n' && t[1] == 'b');
            assert(t =~= "nb"@);
        },
        Language::Pl => {
            reveal_strlit("pl");
            lemma_plain_code("pl"@);
            let t = normalized("pl"@);
            assert(t[0] == 'p' && t[1] == 'l');
            assert(t =~= "pl"@);
        },
        Language::PtBr => {
            reveal_strlit("pt-BR");
            lemma_plain_code("pt-BR"@);
            let t = normalized("pt-BR"@);
            assert(t[0] == 'p' && t[1] == 't' && t[2] == '-' && t[3] == 'b' && t[4] == 'r');
            assert(t =~= "pt-br"@);
        },
        Language::PtPt => {
            reveal_strlit("pt-PT");
            lemma_plain_code("pt-PT"@);
            let t = normalized("pt-PT"@);
            assert(t[0] == 'p' && t[1] == 't' && t[2] == '-' && t[3] == 'p' && t[4] == 't');
            assert(t =~= "pt-pt"@);
        },
        Language::Ro => {
            reveal_strlit("ro");
            lemma_plain_code("ro"@);
            let t = normalized("ro"@);
            assert(t[0] == 'r' && t[1] == 'o');
            assert(t =~= "ro"@);
        },
        Language::Ru => {
            reveal_strlit("ru");
            lemma_plain_code("ru"@);
            let t = normalized("ru"@);
            assert(t[0] == 'r' && t[1] == 'u');
            assert(t =~= "ru"@);
        },
        Language::Sk => {
            reveal_strlit("sk");
            lemma_plain_code("sk"@);
            let t = normalized("sk"@);
            assert(t[0] == 's' && t[1] == 'k');
            assert(t =~= "sk"@);
        },
        Language::EsCl => {
            reveal_strlit("es-CL");
            lemma_plain_code("es-CL"@);
            let t = normalized("es-CL"@);
            assert(t[0] == 'e' && t[1] == 's' && t[2] == '-' && t[3] == 'c' && t[4] == 'l');
            assert(t =~= "es-cl"@);
        },
        Language::Es419 => {
            reveal_strlit("es-419");
            lemma_plain_code("es-419"@);
            let t = normalized("es-419"@);
            assert(t[0] == 'e' && t[1] == 's' && t[2] == '-' && t[3] == '4' && t[4] == '1' && t[5] == '9');
            assert(t =~= "es-419"@);
        },
        Language::EsMx => {
            reveal_strlit("es-MX");
            lemma_plain_code("es-MX"@);
            let t = normalized("es-MX"@);
            assert(t[0] == 'e' && t[1] == 's' && t[2] == '-' && t[3] == 'm' && t[4] == 'x');
            assert(t =~= "es-mx"@);
        },
        Language::EsEs => {
            reveal_strlit("es-ES");
            lemma_plain_code("es-ES"@);
            let t = normalized("es-ES"@);
            assert(t[0] == 'e' && t[1] == 's' && t[2] == '-' && t[3] == 'e' && t[4] == 's');
            assert(t =~= "es-es"@);
        },
        Language::EsUs => {
            reveal_strlit("es-US");
            lemma_plain_code("es-US"@);
            let t = normalized("es-US"@);
            assert(t[0] == 'e' && t[1] == 's' && t[2] == '-' && t[3] == 'u' && t[4] == 's');
            assert(t =~= "es-us"@);
        },
        Language::Sv => {
            reveal_strlit("sv");
            lemma_plain_code("sv"@);
            let t = normalized("sv"@);
            assert(t[0] == 's' && t[1] == 'v');
            assert(t =~= "sv"@);
        },
        Language::Th => {
            reveal_strlit("th");
            lemma_plain_code("th"@);
            let t = normalized("th"@);
            assert(t[0] == 't' && t[1] == 'h');
            assert(t =~= "th"@);
        },
        Language::Tr => {
            reveal_strlit("tr");
            lemma_plain_code("tr"@);
            let t = normalized("tr"@);
            assert(t[0] == 't' && t[1] == 'r');
            assert(t =~= "tr"@);
        },
        Language::Uk => {
            reveal_strlit("uk");
            lemma_plain_code("uk"@);
            let t = normalized("uk"@);
            assert(t[0] == 'u' && t[1] == 'k');
            assert(t =~= "uk"@);
        },
        Language::Vi => {
            reveal_strlit("vi");
            lemma_plain_code("vi"@);
            let t = normalized("vi"@);
            assert(t[0] == 'v' && t[1] == 'i');
            assert(t =~= "vi"@);
        },
    }
}

/// The ASCII upper case of a character.
pub open spec fn ascii_upper(c: char) -> char {
    if 97 <= (c as u32) <= 122 {
        ((c as u32) - 32) as char
    } else {
        c
    }
}

/// `_` written as `-`.
pub open spec fn dash_for_underscore(c: char) -> char {
    if c == '_' {
        '-'
    } else {
        c
    }
}

/// Two texts a code reader cannot tell apart: at each place both or neither
/// are white space, a `.` or an `@`, and both normalize to the same
/// character.
pub open spec fn read_alike(a: Seq<char>, b: Seq<char>) -> bool {
    &&& a.len() == b.len()
    &&& forall|j: int|
        0 <= j < a.len() ==> (is_white(#[trigger] a[j]) == is_white(b[j]) && (a[j] == '.') == (
        b[j] == '.') && (a[j] == '@') == (b[j] == '@') && norm_char(a[j]) == norm_char(b[j]))
}

proof fn lemma_alike_skip(a: Seq<char>, b: Seq<char>, i: int, e: int)
    requires
        read_alike(a, b),
        0 <= i <= e <= a.len(),
    ensures
        skip_white(a, i, e) == skip_white(b, i, e),
    decreases e - i,
{
    if i < e {
        assert(is_white(a[i]) == is_white(b[i]));
        lemma_alike_skip(a, b, i + 1, e);
    }
}

proof fn lemma_alike_back(a: Seq<char>, b: Seq<char>, i: int, e: int)
    requires
        read_alike(a, b),
        0 <= i <= e <= a.len(),
    ensures
        back_white(a, i, e) == back_white(b, i, e),
    decreases e - i,
{
    if i < e {
        assert(is_white(a[e - 1]) == is_white(b[e - 1]));
        lemma_alike_back(a, b, i, e - 1);
    }
}

proof fn lemma_alike_end(a: Seq<char>, b: Seq<char>, c: char, i: int, e: int)
    requires
        read_alike(a, b),
        c == '.' || c == '@',
        0 <= i <= e <= a.len(),
    ensures
        end_at(a, c, i, e) == end_at(b, c, i, e),
    decreases e - i,
{
    if i < e {
        assert((a[i] == '.') == (b[i] == '.') && (a[i] == '@') == (b[i] == '@'));
        lemma_alike_end(a, b, c, i + 1, e);
    }
}

/// Texts that read alike name the same language.
proof fn lemma_alike(a: Seq<char>, b: Seq<char>)
    requires
        read_alike(a, b),
    ensures
        language_of(a, 0, a.len() as int) == language_of(b, 0, b.len() as int),
{
    let n = a.len() as int;
    lemma_alike_skip(a, b, 0, n);
    let s = skip_white(a, 0, n);
    crate::text::lemma_skip_white(a, 0, n);
    lemma_alike_back(a, b, s, n);
    let e = back_white(a, s, n);
    crate::text::lemma_back_white(a, s, n);
    if s < e {
        lemma_alike_end(a, b, '.', s, e);
        let dot = end_at(a, '.', s, e);
        lemma_end_at(a, '.', s, e);
        lemma_alike_end(a, b, '@', s, dot);
        let d = end_at(a, '@', s, dot);
        lemma_end_at(a, '@', s, dot);
        lemma_alike_skip(a, b, s, d);
        let s2 = skip_white(a, s, d);
        crate::text::lemma_skip_white(a, s, d);
        lemma_alike_back(a, b, s2, d);
        let e2 = back_white(a, s2, d);
        crate::text::lemma_back_white(a, s2, d);
        assert(normalized(a.subrange(s2, e2)) =~= normalized(b.subrange(s2, e2)));
    }
}

/// `from_code` does not care about the case of ASCII letters, nor whether
/// subtags are joined by `_` or `-`.
pub proof fn law_from_code_ignores_case(cs: Seq<char>)
    ensures
        language_of(cs.map_values(|c: char| ascii_upper(c)), 0, cs.len() as int) == language_of(
            cs,
            0,
            cs.len() as int,
        ),
        language_of(cs.map_values(|c: char| dash_for_underscore(c)), 0, cs.len() as int)
            == language_of(cs, 0, cs.len() as int),
{
    let up = cs.map_values(|c: char| ascii_upper(c));
    let dash = cs.map_values(|c: char| dash_for_underscore(c));
    assert(read_alike(up, cs)) by {
        assert forall|j: int| 0 <= j < up.len() implies (is_white(#[trigger] up[j]) == is_white(
            cs[j],
        ) && (up[j] == '.') == (cs[j] == '.') && (up[j] == '@') == (cs[j] == '@') && norm_char(
            up[j],
        ) == norm_char(cs[j])) by {
            assert(up[j] == ascii_upper(cs[j]));
        }
    }
    assert(read_alike(dash, cs)) by {
        assert forall|j: int| 0 <= j < dash.len() implies (is_white(#[trigger] dash[j])
            == is_white(cs[j]) && (dash[j] == '.') == (cs[j] == '.') && (dash[j] == '@') == (cs[j]
            == '@') && norm_char(dash[j]) == norm_char(cs[j])) by {
            assert(dash[j] == dash_for_underscore(cs[j]));
        }
    }
    lemma_alike(up, cs);
    lemma_alike(dash, cs);
}

proof fn lemma_shift_skip(cs: Seq<char>, k: int, i: int, e: int, m: int)
    requires
        0 <= k <= i <= e <= m <= cs.len(),
    ensures
        skip_white(cs, i, e) == k + skip_white(cs.subrange(k, m), i - k, e - k),
    decreases e - i,
{
    if i < e {
        lemma_shift_skip(cs, k, i + 1, e, m);
    }
}

proof fn lemma_shift_back(cs: Seq<char>, k: int, i: int, e: int, m: int)
    requires
        0 <= k <= i <= e <= m <= cs.len(),
    ensures
        back_white(cs, i, e) == k + back_white(cs.subrange(k, m), i - k, e - k),
    decreases e - i,
{
    if i < e {
        lemma_shift_back(cs, k, i, e - 1, m);
    }
}

proof fn lemma_shift_end(cs: Seq<char>, c: char, k: int, i: int, e: int, m: int)
    requires
        0 <= k <= i <= e <= m <= cs.len(),
    ensures
        end_at(cs, c, i, e) == k + end_at(cs.subrange(k, m), c, i - k, e - k),
    decreases e - i,
{
    if i < e {
        lemma_shift_end(cs, c, k, i + 1, e, m);
    }
}

/// Reading a code in `cs[a..b]` is reading it in any stretch of `cs` that
/// holds that range.
proof fn lemma_language_shift(cs: Seq<char>, k: int, a: int, b: int, m: int)
    requires
        0 <= k <= a <= b <= m <= cs.len(),
    ensures
        language_of(cs, a, b) == language_of(cs.subrange(k, m), a - k, b - k),
{
    let x = cs.subrange(k, m);
    lemma_shift_skip(cs, k, a, b, m);
    let s = skip_white(cs, a, b);
    crate::text::lemma_skip_white(cs, a, b);
    lemma_shift_back(cs, k, s, b, m);
    let e = back_white(cs, s, b);
    crate::text::lemma_back_white(cs, s, b);
    if s < e {
        lemma_shift_end(cs, '.', k, s, e, m);
        let dot = end_at(cs, '.', s, e);
        lemma_end_at(cs, '.', s, e);
        lemma_shift_end(cs, '@', k, s, dot, m);
        let d = end_at(cs, '@', s, dot);
        lemma_end_at(cs, '@', s, dot);
        lemma_shift_skip(cs, k, s, d, m);
        let s2 = skip_white(cs, s, d);
        crate::text::lemma_skip_white(cs, s, d);
        lemma_shift_back(cs, k, s2, d, m);
        let e2 = back_white(cs, s2, d);
        crate::text::lemma_back_white(cs, s2, d);
        assert(cs.subrange(s2, e2) =~= x.subrange(s2 - k, e2 - k));
    }
}

/// Reading a code ignores white space around it.
proof fn lemma_language_trim(cs: Seq<char>, a: int, b: int)
    requires
        0 <= a <= b <= cs.len(),
    ensures
        language_of(cs, a, b) == language_of(
            cs,
            skip_white(cs, a, b),
            back_white(cs, skip_white(cs, a, b), b),
        ),
{
    let s = skip_white(cs, a, b);
    crate::text::lemma_skip_white(cs, a, b);
    let e = back_white(cs, s, b);
    crate::text::lemma_back_white(cs, s, b);
    if s < e {
        crate::text::lemma_skip_stops(cs, a, b, e);
        assert(skip_white(cs, s, e) == s);
        crate::text::lemma_back_stops(cs, s, s, b);
        assert(back_white(cs, s, e) == e);
    }
}

/// White space on either side of a code changes nothing.
pub proof fn law_from_code_ignores_padding(cs: Seq<char>)
    ensures
        language_of(seq![' '] + cs + seq![' '], 0, cs.len() + 2int) == language_of(
            cs,
            0,
            cs.len() as int,
        ),
{
    let n = cs.len() as int;
    let p = seq![' '] + cs + seq![' '];
    assert(p.subrange(1, n + 1) =~= cs);
    lemma_language_shift(p, 1, 1, n + 1, n + 1);
    lemma_language_trim(p, 0, n + 2);
    lemma_language_trim(p, 1, n + 1);
    assert(is_white(p[0]) && is_white(p[n + 1]));
    crate::text::lemma_skip_white(p, 1, n + 1);
    let s1 = skip_white(p, 1, n + 1);
    if s1 < n + 1 {
        crate::text::lemma_skip_stops(p, 1, n + 1, n + 2);
        assert(skip_white(p, 0, n + 2) == s1);
        assert(back_white(p, s1, n + 2) == back_white(p, s1, n + 1));
    } else {
        crate::text::lemma_skip_all(p, 1, n + 1);
        assert forall|j: int| 0 <= j < n + 2 implies is_white(#[trigger] p[j]) by {}
        lemma_skip_white_all(p, 0, n + 2);
    }
}

proof fn lemma_skip_white_all(cs: Seq<char>, a: int, b: int)
    requires
        0 <= a <= b <= cs.len(),
        forall|j: int| 0 <= j < cs.len() ==> is_white(#[trigger] cs[j]),
    ensures
        skip_white(cs, a, b) == b,
    decreases b - a,
{
    if a < b {
        lemma_skip_white_all(cs, a + 1, b);
    }
}

proof fn lemma_end_at_extend(cs: Seq<char>, c: char, a: int, b1: int, b2: int)
    requires
        0 <= a <= b1 <= b2 <= cs.len(),
    ensures
        end_at(cs, c, a, b1) < b1 ==> end_at(cs, c, a, b2) == end_at(cs, c, a, b1),
        end_at(cs, c, a, b1) == b1 ==> end_at(cs, c, a, b2) == end_at(cs, c, b1, b2),
    decreases b1 - a,
{
    if a < b1 {
        lemma_end_at_extend(cs, c, a + 1, b1, b2);
    }
}

proof fn lemma_back_white_tail(cs: Seq<char>, a: int, b1: int, b2: int)
    requires
        0 <= a <= b1 <= b2 <= cs.len(),
        forall|j: int| b1 <= j < b2 ==> is_white(#[trigger] cs[j]),
    ensures
        back_white(cs, a, b2) == back_white(cs, a, b1),
    decreases b2 - b1,
{
    if b1 < b2 {
        lemma_back_white_tail(cs, a, b1, b2 - 1);
    }
}

/// The empty code names no language.
proof fn lemma_empty_code()
    ensures
        code_table(seq![]) is None,
        prefix_table(seq![]) is None,
{
    reveal_strlit("auto");
    assert("auto"@.len() == 4);
    reveal_strlit("ar");
    assert("ar"@.len() == 2);
    reveal_strlit("ar-sa");
    assert("ar-sa"@.len() == 5);
    reveal_strlit("ar-ae");
    assert("ar-ae"@.len() == 5);
    reveal_strlit("ar-eg");
    assert("ar-eg"@.len() == 5);
    reveal_strlit("ca");
    assert("ca"@.len() == 2);
    reveal_strlit("ca-es");
    assert("ca-es"@.len() == 5);
    reveal_strlit("zh-hans");
    assert("zh-hans"@.len() == 7);
    reveal_strlit("zh-cn");
    assert("zh-cn"@.len() == 5);
    reveal_strlit("zh-sg");
    assert("zh-sg"@.len() == 5);
    reveal_strlit("zh-hans-cn");
    assert("zh-hans-cn"@.len() == 10);
    reveal_strlit("zh-hans-us");
    assert("zh-hans-us"@.len() == 10);
    reveal_strlit("zh-hant");
    assert("zh-hant"@.len() == 7);
    reveal_strlit("zh-tw");
    assert("zh-tw"@.len() == 5);
    reveal_strlit("zh-hk");
    assert("zh-hk"@.len() == 5);
    reveal_strlit("zh-mo");
    assert("zh-mo"@.len() == 5);
    reveal_strlit("zh-hant-tw");
    assert("zh-hant-tw"@.len() == 10);
    reveal_strlit("zh-hant-hk");
    assert("zh-hant-hk"@.len() == 10);
    reveal_strlit("zh");
    assert("zh"@.len() == 2);
    reveal_strlit("hr");
    assert("hr"@.len() == 2);
    reveal_strlit("hr-hr");
    assert("hr-hr"@.len() == 5);
    reveal_strlit("cs");
    assert("cs"@.len() == 2);
    reveal_strlit("cs-cz");
    assert("cs-cz"@.len() == 5);
    reveal_strlit("da");
    assert("da"@.len() == 2);
    reveal_strlit("da-dk");
    assert("da-dk"@.len() == 5);
    reveal_strlit("nl");
    assert("nl"@.len() == 2);
    reveal_strlit("nl-nl");
    assert("nl-nl"@.len() == 5);
    reveal_strlit("nl-be");
    assert("nl-be"@.len() == 5);
    reveal_strlit("en-au");
    assert("en-au"@.len() == 5);
    reveal_strlit("en-ca");
    assert("en-ca"@.len() == 5);
    reveal_strlit("en-in");
    assert("en-in"@.len() == 5);
    reveal_strlit("en-jp");
    assert("en-jp"@.len() == 5);
    reveal_strlit("en-gb");
    assert("en-gb"@.len() == 5);
    reveal_strlit("en-uk");
    assert("en-uk"@.len() == 5);
    reveal_strlit("en-us");
    assert("en-us"@.len() == 5);
    reveal_strlit("en");
    assert("en"@.len() == 2);
    reveal_strlit("fi");
    assert("fi"@.len() == 2);
    reveal_strlit("fi-fi");
    assert("fi-fi"@.len() == 5);
    reveal_strlit("fr-ca");
    assert("fr-ca"@.len() == 5);
    reveal_strlit("fr-fr");
    assert("fr-fr"@.len() == 5);
    reveal_strlit("fr");
    assert("fr"@.len() == 2);
    reveal_strlit("fr-be");
    assert("fr-be"@.len() == 5);
    reveal_strlit("fr-ch");
    assert("fr-ch"@.len() == 5);
    reveal_strlit("de");
    assert("de"@.len() == 2);
    reveal_strlit("de-de");
    assert("de-de"@.len() == 5);
    reveal_strlit("de-at");
    assert("de-at"@.len() == 5);
    reveal_strlit("de-ch");
    assert("de-ch"@.len() == 5);
    reveal_strlit("el");
    assert("el"@.len() == 2);
    reveal_strlit("el-gr");
    assert("el-gr"@.len() == 5);
    reveal_strlit("he");
    assert("he"@.len() == 2);
    reveal_strlit("he-il");
    assert("he-il"@.len() == 5);
    reveal_strlit("iw");
    assert("iw"@.len() == 2);
    reveal_strlit("iw-il");
    assert("iw-il"@.len() == 5);
    reveal_strlit("hi");
    assert("hi"@.len() == 2);
    reveal_strlit("hi-in");
    assert("hi-in"@.len() == 5);
    reveal_strlit("hu");
    assert("hu"@.len() == 2);
    reveal_strlit("hu-hu");
    assert("hu-hu"@.len() == 5);
    reveal_strlit("id");
    assert("id"@.len() == 2);
    reveal_strlit("id-id");
    assert("id-id"@.len() == 5);
    reveal_strlit("in");
    assert("in"@.len() == 2);
    reveal_strlit("it");
    assert("it"@.len() == 2);
    reveal_strlit("it-it");
    assert("it-it"@.len() == 5);
    reveal_strlit("it-ch");
    assert("it-ch"@.len() == 5);
    reveal_strlit("ja");
    assert("ja"@.len() == 2);
    reveal_strlit("ja-jp");
    assert("ja-jp"@.len() == 5);
    reveal_strlit("ko");
    assert("ko"@.len() == 2);
    reveal_strlit("ko-kr");
    assert("ko-kr"@.len() == 5);
    reveal_strlit("ms");
    assert("ms"@.len() == 2);
    reveal_strlit("ms-my");
    assert("ms-my"@.len() == 5);
    reveal_strlit("nb");
    assert("nb"@.len() == 2);
    reveal_strlit("nb-no");
    assert("nb-no"@.len() == 5);
    reveal_strlit("no");
    assert("no"@.len() == 2);
    reveal_strlit("no-no");
    assert("no-no"@.len() == 5);
    reveal_strlit("nn");
    assert("nn"@.len() == 2);
    reveal_strlit("nn-no");
    assert("nn-no"@.len() == 5);
    reveal_strlit("pl");
    assert("pl"@.len() == 2);
    reveal_strlit("pl-pl");
    assert("pl-pl"@.len() == 5);
    reveal_strlit("pt-br");
    assert("pt-br"@.len() == 5);
    reveal_strlit("pt-pt");
    assert("pt-pt"@.len() == 5);
    reveal_strlit("pt");
    assert("pt"@.len() == 2);
    reveal_strlit("ro");
    assert("ro"@.len() == 2);
    reveal_strlit("ro-ro");
    assert("ro-ro"@.len() == 5);
    reveal_strlit("ru");
    assert("ru"@.len() == 2);
    reveal_strlit("ru-ru");
    assert("ru-ru"@.len() == 5);
    reveal_strlit("sk");
    assert("sk"@.len() == 2);
    reveal_strlit("sk-sk");
    assert("sk-sk"@.len() == 5);
    reveal_strlit("es-cl");
    assert("es-cl"@.len() == 5);
    reveal_strlit("es-419");
    assert("es-419"@.len() == 6);
    reveal_strlit("es419");
    assert("es419"@.len() == 5);
    reveal_strlit("es-latinamerica");
    assert("es-latinamerica"@.len() == 15);
    reveal_strlit("es-mx");
    assert("es-mx"@.len() == 5);
    reveal_strlit("es-us");
    assert("es-us"@.len() == 5);
    reveal_strlit("es-es");
    assert("es-es"@.len() == 5);
    reveal_strlit("es");
    assert("es"@.len() == 2);
    reveal_strlit("sv");
    assert("sv"@.len() == 2);
    reveal_strlit("sv-se");
    assert("sv-se"@.len() == 5);
    reveal_strlit("th");
    assert("th"@.len() == 2);
    reveal_strlit("th-th");
    assert("th-th"@.len() == 5);
    reveal_strlit("tr");
    assert("tr"@.len() == 2);
    reveal_strlit("tr-tr");
    assert("tr-tr"@.len() == 5);
    reveal_strlit("uk");
    assert("uk"@.len() == 2);
    reveal_strlit("uk-ua");
    assert("uk-ua"@.len() == 5);
    reveal_strlit("vi");
    assert("vi"@.len() == 2);
    reveal_strlit("vi-vn");
    assert("vi-vn"@.len() == 5);
}

/// A charset (or anything else) after a `.` changes nothing: the code is
/// read up to the first `.`.
pub proof fn law_from_code_ignores_charset(cs: Seq<char>, rest: Seq<char>)
    ensures
        language_of(cs + seq!['.'] + rest, 0, cs.len() + 1int + rest.len()) == language_of(
            cs,
            0,
            cs.len() as int,
        ),
{
    let n = cs.len() as int;
    let q = cs + seq!['.'] + rest;
    let big = n + 1 + rest.len();
    assert(q.subrange(0, n) =~= cs);
    lemma_language_shift(q, 0, 0, n, n);
    assert(q[n] == '.');
    crate::text::lemma_skip_white(q, 0, n);
    let s0 = skip_white(q, 0, n);
    if s0 == n {
        // only white space before the `.`: the code is empty
        crate::text::lemma_skip_all(q, 0, n);
        lemma_skip_to(q, 0, n, big);
        assert(skip_white(q, 0, big) == n);
        crate::text::lemma_back_above(q, n, n, big);
        let e = back_white(q, n, big);
        assert(end_at(q, '.', n, e) == n);
        assert(end_at(q, '@', n, n) == n);
        assert(skip_white(q, n, n) == n);
        assert(back_white(q, n, n) == n);
        assert(normalized(q.subrange(n, n)) =~= seq![]);
        lemma_empty_code();
        assert(seq![].take(end_at(seq![], '-', 0, 0)) =~= Seq::<char>::empty());
        assert(language_of(q, 0, n) is None);
    } else {
        crate::text::lemma_skip_stops(q, 0, n, big);
        let s = s0;
        let e1 = back_white(q, s, n);
        crate::text::lemma_back_above(q, s, s, n);
        crate::text::lemma_back_white(q, s, n);
        crate::text::lemma_back_above(q, s, n, big);
        let e = back_white(q, s, big);
        crate::text::lemma_back_white(q, s, big);
        // between the end of the code and the `.` there is only white space
        assert forall|j: int| e1 <= j < n implies is_white(#[trigger] q[j]) by {
            lemma_back_white_gap(q, s, n, j);
        }
        lemma_end_at_extend(q, '.', s, e1, e);
        lemma_end_at_none(q, '.', e1, n);
        lemma_end_at_extend(q, '.', e1, n, e);
        let dot = end_at(q, '.', s, e);
        let dot1 = end_at(q, '.', s, e1);
        lemma_end_at(q, '.', s, e1);
        if dot1 == e1 {
            assert(dot == n);
            lemma_end_at_extend(q, '@', s, e1, n);
            lemma_end_at_none(q, '@', e1, n);
            lemma_end_at(q, '@', s, e1);
            let d1 = end_at(q, '@', s, e1);
            if d1 == e1 {
                assert(end_at(q, '@', s, n) == n);
                crate::text::lemma_skip_stops(q, s, n, e1);
                assert(skip_white(q, s, e1) == s);
                assert(skip_white(q, s, n) == s);
                lemma_back_white_tail(q, s, e1, n);
            }
        }
    }
}

proof fn lemma_skip_to(cs: Seq<char>, a: int, b: int, b2: int)
    requires
        0 <= a <= b < b2 <= cs.len(),
        forall|j: int| a <= j < b ==> is_white(#[trigger] cs[j]),
    ensures
        skip_white(cs, a, b2) == skip_white(cs, b, b2),
    decreases b - a,
{
    if a < b {
        lemma_skip_to(cs, a + 1, b, b2);
    }
}

/// Past `back_white` only white space is left.
proof fn lemma_back_white_gap(cs: Seq<char>, a: int, b: int, j: int)
    requires
        0 <= a <= b <= cs.len(),
        back_white(cs, a, b) <= j < b,
    ensures
        is_white(cs[j]),
    decreases b - a,
{
    if b > a && is_white(cs[b - 1]) && j < b - 1 {
        lemma_back_white_gap(cs, a, b - 1, j);
    }
}


/// The Chinese codes: Traditional Chinese for `zh-Hant` (alone or with the
/// `TW` or `HK` region) and for Taiwan, Hong Kong and Macau; Simplified
/// Chinese for bare `zh`, for `zh-Hans` (alone or with the `CN` or `US`
/// region) and for mainland China and Singapore.
#[verifier::spinoff_prover]
#[verifier::rlimit(100)]
pub proof fn law_chinese_scripts(cs: Seq<char>)
    ensures
        cs == "zh-Hant"@ || cs == "zh-TW"@ || cs == "zh-HK"@ || cs == "zh-MO"@ || cs == "zh-Hant-TW"@ || cs == "zh-Hant-HK"@ ==> language_of(cs, 0, cs.len() as int) == Some(Language::ZhHant),
        cs == "zh"@ || cs == "zh-Hans"@ || cs == "zh-CN"@ || cs == "zh-SG"@ || cs == "zh-Hans-CN"@ || cs == "zh-Hans-US"@ ==> language_of(cs, 0, cs.len() as int) == Some(Language::ZhHans),
{
    reveal_strlit("auto");
    reveal_strlit("ar");
    reveal_strlit("ar-sa");
    reveal_strlit("ar-ae");
    reveal_strlit("ar-eg");
    reveal_strlit("ca");
    reveal_strlit("ca-es");
    reveal_strlit("zh-hans");
    reveal_strlit("zh-cn");
    reveal_strlit("zh-sg");
    reveal_strlit("zh-hans-cn");
    reveal_strlit("zh-hans-us");
    reveal_strlit("zh-hant");
    reveal_strlit("zh-tw");
    reveal_strlit("zh-hk");
    reveal_strlit("zh-mo");
    reveal_strlit("zh-hant-tw");
    reveal_strlit("zh-hant-hk");
    reveal_strlit("zh");
    if cs == "zh-Hant"@ {
        reveal_strlit("zh-Hant");
        lemma_plain_code("zh-Hant"@);
        let t = normalized("zh-Hant"@);
        assert(t[0] == 'z' && t[1] == 'h' && t[2] == '-' && t[3] == 'h' && t[4] == 'a' && t[5] == 'n' && t[6] == 't');
        assert(t =~= "zh-hant"@);
    }
    if cs == "zh-TW"@ {
        reveal_strlit("zh-TW");
        lemma_plain_code("zh-TW"@);
        let t = normalized("zh-TW"@);
        assert(t[0] == 'z' && t[1] == 'h' && t[2] == '-' && t[3] == 't' && t[4] == 'w');
        assert(t =~= "zh-tw"@);
    }
    if cs == "zh-HK"@ {
        reveal_strlit("zh-HK");
        lemma_plain_code("zh-HK"@);
        let t = normalized("zh-HK"@);
        assert(t[0] == 'z' && t[1] == 'h' && t[2] == '-' && t[3] == 'h' && t[4] == 'k');
        assert(t =~= "zh-hk"@);
    }
    if cs == "zh-MO"@ {
        reveal_strlit("zh-MO");
        lemma_plain_code("zh-MO"@);
        let t = normalized("zh-MO"@);
        assert(t[0] == 'z' && t[1] == 'h' && t[2] == '-' && t[3] == 'm' && t[4] == 'o');
        assert(t =~= "zh-mo"@);
    }
    if cs == "zh-Hant-TW"@ {
        reveal_strlit("zh-Hant-TW");
        lemma_plain_code("zh-Hant-TW"@);
        let t = normalized("zh-Hant-TW"@);
        assert(t[0] == 'z' && t[1] == 'h' && t[2] == '-' && t[3] == 'h' && t[4] == 'a' && t[5] == 'n' && t[6] == 't' && t[7] == '-' && t[8] == 't' && t[9] == 'w');
        assert(t =~= "zh-hant-tw"@);
    }
    if cs == "zh-Hant-HK"@ {
        reveal_strlit("zh-Hant-HK");
        lemma_plain_code("zh-Hant-HK"@);
        let t = normalized("zh-Hant-HK"@);
        assert(t[0] == 'z' && t[1] == 'h' && t[2] == '-' && t[3] == 'h' && t[4] == 'a' && t[5] == 'n' && t[6] == 't' && t[7] == '-' && t[8] == 'h' && t[9] == 'k');
        assert(t =~= "zh-hant-hk"@);
    }
    if cs == "zh"@ {
        reveal_strlit("zh");
        lemma_plain_code("zh"@);
        let t = normalized("zh"@);
        assert(t[0] == 'z' && t[1] == 'h');
        assert(t =~= "zh"@);
    }
    if cs == "zh-Hans"@ {
        reveal_strlit("zh-Hans");
        lemma_plain_code("zh-Hans"@);
        let t = normalized("zh-Hans"@);
        assert(t[0] == 'z' && t[1] == 'h' && t[2] == '-' && t[3] == 'h' && t[4] == 'a' && t[5] == 'n' && t[6] == 's');
        assert(t =~= "zh-hans"@);
    }
    if cs == "zh-CN"@ {
        reveal_strlit("zh-CN");
        lemma_plain_code("zh-CN"@);
        let t = normalized("zh-CN"@);
        assert(t[0] == 'z' && t[1] == 'h' && t[2] == '-' && t[3] == 'c' && t[4] == 'n');
        assert(t =~= "zh-cn"@);
    }
    if cs == "zh-SG"@ {
        reveal_strlit("zh-SG");
        lemma_plain_code("zh-SG"@);
        let t = normalized("zh-SG"@);
        assert(t[0] == 'z' && t[1] == 'h' && t[2] == '-' && t[3] == 's' && t[4] == 'g');
        assert(t =~= "zh-sg"@);
    }
    if cs == "zh-Hans-CN"@ {
        reveal_strlit("zh-Hans-CN");
        lemma_plain_code("zh-Hans-CN"@);
        let t = normalized("zh-Hans-CN"@);
        assert(t[0] == 'z' && t[1] == 'h' && t[2] == '-' && t[3] == 'h' && t[4] == 'a' && t[5] == 'n' && t[6] == 's' && t[7] == '-' && t[8] == 'c' && t[9] == 'n');
        assert(t =~= "zh-hans-cn"@);
    }
    if cs == "zh-Hans-US"@ {
        reveal_strlit("zh-Hans-US");
        lemma_plain_code("zh-Hans-US"@);
        let t = normalized("zh-Hans-US"@);
        assert(t[0] == 'z' && t[1] == 'h' && t[2] == '-' && t[3] == 'h' && t[4] == 'a' && t[5] == 'n' && t[6] == 's' && t[7] == '-' && t[8] == 'u' && t[9] == 's');
        assert(t =~= "zh-hans-us"@);
    }
}

} // verus!
