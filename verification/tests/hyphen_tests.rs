use vb_manager::hyphen::{hyphenate_text, runs_of};
use vb_manager::languages::{get_hyphenation_dict, section_dictionary};

fn strs(v: &[&str]) -> Vec<String> {
    v.iter().map(|s| s.to_string()).collect()
}

#[test]
fn text_is_split_into_runs() {
    assert_eq!(runs_of("  a bc\td\n  "), strs(&["  ", "a", " ", "bc", "\t", "d", "\n  "]));
    assert_eq!(runs_of(" \u{3000} "), strs(&[" \u{3000} "]));
    assert!(runs_of("").is_empty());
}

#[test]
fn white_space_between_words_is_kept() {
    let dict = section_dictionary(&None);
    assert_eq!(hyphenate_text("a  b".to_string(), &dict), "a  b");
    assert_eq!(hyphenate_text(" x\t<br>\n".to_string(), &dict), " x\t<br>\n");
}

#[test]
fn hyphenation_only_adds_soft_hyphens() {
    let dict = get_hyphenation_dict("en-US").unwrap();
    let text = "hyphenation  of  extraordinary   words class=\"x\"".to_string();
    let out = hyphenate_text(text.clone(), &dict);
    assert!(out.contains('\u{ad}'));
    let stripped: String = out.chars().filter(|c| *c != '\u{ad}').collect();
    assert_eq!(stripped, text);
}

#[test]
fn markup_words_are_not_hyphenated() {
    let dict = section_dictionary(&None);
    let text = "class=\"extraordinary\" a=extraordinary &extraordinary".to_string();
    assert_eq!(hyphenate_text(text.clone(), &dict), text);
}
