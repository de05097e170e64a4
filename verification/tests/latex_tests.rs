use vb_manager::latex::{postprocess_latex, preprocess_latex};

fn strs(v: &[&str]) -> Vec<String> {
    v.iter().map(|s| s.to_string()).collect()
}

#[test]
fn citation_commands_become_numbered_marks() {
    let (out, marks) =
        preprocess_latex("See \\cite{abc} and \\footcite[p. 3]{def}.\\endnote{x}".to_string());
    assert_eq!(out, "See vb-cite-0 and vb-cite-1.\\footnote{x}");
    assert_eq!(marks, strs(&["abc", "def"]));
}

#[test]
fn longer_command_names_and_two_option_groups() {
    let (out, marks) = preprocess_latex("\\footcitetext[a][b]{k}\\fullcite{m}\\footfullcite{n}".to_string());
    assert_eq!(out, "vb-cite-0vb-cite-1vb-cite-2");
    assert_eq!(marks, strs(&["k", "m", "n"]));
}

#[test]
fn other_commands_and_broken_keys_stay() {
    for s in ["\\citep{x}", "\\cite{a\nb}", "\\cite[unclosed{k}", "\\cite", "cite{k}"] {
        let (out, marks) = preprocess_latex(s.to_string());
        assert_eq!(out, s);
        assert!(marks.is_empty());
    }
}

#[test]
fn marks_become_citations() {
    let marks = strs(&["a", "b"]);
    assert_eq!(
        postprocess_latex("<p>vb-cite-1 and vb-cite-0 vb-cite-9 vb-cite-x</p>".to_string(), &marks),
        "<p><citation data-key=\"b\">C</citation> and <citation data-key=\"a\">C</citation> <citation data-key=\"\">C</citation> vb-cite-x</p>"
    );
}

#[test]
fn marks_that_are_no_number_are_flagged() {
    let marks = strs(&["a"]);
    assert_eq!(postprocess_latex("vb-cite-99999999999999999999".to_string(), &marks), "invalid-citation!");
    assert_eq!(postprocess_latex("vb-cite-\u{663}z".to_string(), &marks), "invalid-citation!z");
}

#[test]
fn marks_survive_a_round_trip() {
    let (out, marks) = preprocess_latex("A \\cite{k1} B \\cite{k2}".to_string());
    assert_eq!(
        postprocess_latex(out, &marks),
        "A <citation data-key=\"k1\">C</citation> B <citation data-key=\"k2\">C</citation>"
    );
}

#[test]
fn digit_after_citation_joins_the_mark() {
    let (out, marks) = preprocess_latex("\\cite{a}1".to_string());
    assert_eq!(out, "vb-cite-01");
    assert_eq!(postprocess_latex(out, &marks), "<citation data-key=\"\">C</citation>");
}
