use vb_manager::languages::{
    dictionary_code_for, get_hyphenation_dict, language_to_bcp47, prepare_titles, section_dictionary,
    DetectedLanguage,
};

const SOFT_HYPHEN: char = '\u{ad}';

#[test]
fn dictionary_codes_follow_the_language_tag() {
    assert_eq!(dictionary_code_for("de-DE"), Some("de-1996"));
    assert_eq!(dictionary_code_for("de-AT"), Some("de-1996"));
    assert_eq!(dictionary_code_for("de-CH"), Some("de-ch-1901"));
    assert_eq!(dictionary_code_for("en-US"), Some("en-us"));
    assert_eq!(dictionary_code_for("en-GB"), Some("en-gb"));
    assert_eq!(dictionary_code_for("fr-029"), Some("fr"));
    assert_eq!(dictionary_code_for("es-419"), Some("es"));
    assert_eq!(dictionary_code_for("ca-ES-valencia"), Some("ca"));
    assert_eq!(dictionary_code_for("mn-Mong-MN"), Some("mn-cyrl"));
    assert_eq!(dictionary_code_for("zh-TW"), Some("zh-latn-pinyin"));
    assert_eq!(dictionary_code_for("cy-GB"), Some("cy"));
}

#[test]
fn languages_without_dictionary_have_no_code() {
    assert_eq!(dictionary_code_for("ar-SA"), None);
    assert_eq!(dictionary_code_for("de"), None);
    assert_eq!(dictionary_code_for("de-de"), None);
    assert_eq!(dictionary_code_for(""), None);
    assert!(get_hyphenation_dict("ja-JP").is_none());
}

#[test]
fn every_listed_language_loads_its_dictionary() {
    for tag in ["af-ZA", "de-DE", "de-CH", "en-US", "fr-FR", "zh-CN", "sr-Cyrl-RS", "hsb-DE"] {
        assert!(get_hyphenation_dict(tag).is_some(), "{}", tag);
    }
}

#[test]
fn titles_are_hyphenated_when_asked() {
    let lang = Some("de-DE".to_string());
    let (title, subtitle) = prepare_titles(
        "Donaudampfschifffahrtsgesellschaft".to_string(),
        Some("Silbentrennung".to_string()),
        &lang,
        true,
    );
    assert!(title.contains(SOFT_HYPHEN));
    let plain: String = title.chars().filter(|c| *c != SOFT_HYPHEN).collect();
    assert_eq!(plain, "Donaudampfschifffahrtsgesellschaft");
    let subtitle = subtitle.unwrap();
    assert!(subtitle.contains(SOFT_HYPHEN));
    let plain: String = subtitle.chars().filter(|c| *c != SOFT_HYPHEN).collect();
    assert_eq!(plain, "Silbentrennung");
}

#[test]
fn titles_stay_unchanged_without_soft_hyphens() {
    let lang = Some("de-DE".to_string());
    let (title, subtitle) = prepare_titles("Silbentrennung".to_string(), None, &lang, false);
    assert_eq!(title, "Silbentrennung");
    assert_eq!(subtitle, None);
}

#[test]
fn unknown_language_falls_back_to_english() {
    let unknown = Some("xx-YY".to_string());
    let (title, _) = prepare_titles("hyphenation".to_string(), None, &unknown, true);
    let (english, _) = prepare_titles("hyphenation".to_string(), None, &Some("en-US".to_string()), true);
    assert_eq!(title, english);
    assert!(title.contains(SOFT_HYPHEN));
    let _ = section_dictionary(&None);
}

#[test]
fn detected_languages_get_regional_tags() {
    assert_eq!(language_to_bcp47(DetectedLanguage::German), Some("de-DE"));
    assert_eq!(language_to_bcp47(DetectedLanguage::English), Some("en-US"));
    assert_eq!(language_to_bcp47(DetectedLanguage::Bokmal), Some("nb-NO"));
    assert_eq!(language_to_bcp47(DetectedLanguage::Serbian), Some("sr-Latn-RS"));
    assert_eq!(language_to_bcp47(DetectedLanguage::Other), None);
}

#[test]
fn detected_language_tags_choose_dictionaries() {
    let tag = language_to_bcp47(DetectedLanguage::French).unwrap();
    assert_eq!(dictionary_code_for(tag), Some("fr"));
    let tag = language_to_bcp47(DetectedLanguage::Japanese).unwrap();
    assert_eq!(dictionary_code_for(tag), None);
}
