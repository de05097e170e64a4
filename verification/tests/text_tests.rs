use vb_manager::text::{escape_html, join_with_space, replace_all, split_on_space, unescape_html};

#[test]
fn escape_html_replaces_the_four_special_characters() {
    assert_eq!(
        escape_html("a < b & \"c\" > d"),
        "a &lt; b &amp; &quot;c&quot; &gt; d"
    );
}

#[test]
fn unescape_html_replaces_ampersand_first() {
    assert_eq!(
        unescape_html("&lt;p&gt; &quot;x&quot; &amp;amp;"),
        "<p> \"x\" &amp;"
    );
}

#[test]
fn unescape_undoes_escape_without_ampersand() {
    let s = "<tag attr=\"v\">text</tag>";
    assert_eq!(unescape_html(&escape_html(s)), s);
}

#[test]
fn escape_then_unescape_of_an_ampersand_entity_is_not_the_identity() {
    let s = "&lt;";
    assert_eq!(unescape_html(&escape_html(s)), "<");
}

#[test]
fn replace_all_scans_left_to_right_without_overlap() {
    assert_eq!(replace_all("aaa", "aa", "b"), "ba");
    assert_eq!(replace_all("abcabc", "bc", "X"), "aXaX");
    assert_eq!(replace_all("none", "zz", "y"), "none");
}

#[test]
fn split_on_space_keeps_empty_pieces() {
    assert_eq!(split_on_space("a  b"), vec!["a", "", "b"]);
    assert_eq!(split_on_space(""), vec![""]);
}

#[test]
fn split_undoes_join_of_pieces_without_spaces() {
    let parts = vec!["class1".to_string(), "class2".to_string(), "x".to_string()];
    let joined = join_with_space(&parts);
    assert_eq!(joined, "class1 class2 x");
    assert_eq!(split_on_space(&joined), parts);
}

#[test]
fn replace_all_with_empty_pattern_inserts_everywhere() {
    assert_eq!(replace_all("abc", "", "x"), "xaxbxcx");
    assert_eq!(replace_all("", "", "x"), "x");
    assert_eq!(replace_all("", "a", "x"), "");
}

#[test]
fn unescape_undoes_escape_with_ampersands() {
    let s = "a & b &amp; c <d> \"e\" &x;";
    assert_eq!(unescape_html(&escape_html(s)), s);
    assert_eq!(unescape_html(&escape_html("&lt;")), "<");
}
