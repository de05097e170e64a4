use vb_manager::languages::{section_dictionary, HyphenationDictionary};
use vb_manager::richtext::render_text;

fn dict() -> HyphenationDictionary {
    section_dictionary(&None)
}

fn bib(key: &str, value: &str) -> Vec<(String, String)> {
    vec![(key.to_string(), value.to_string())]
}

#[test]
fn test_citation_prefix_suffix_extraction() {
    let html = String::from(
        r#"<p>Before <citation data-key="5136e861-cb95-47d6-8236-a892aee6850c" data-prefix="TESTprefix" data-suffix="TESTsuffix">C</citation> After</p>"#,
    );
    let mut endnotes: Vec<(String, String)> = Vec::new();
    let citation_bib = bib("5136e861-cb95-47d6-8236-a892aee6850c", "RenderedCitation");
    let _rendered = render_text(&html, &mut endnotes, &dict(), &citation_bib, false, false);
    assert_eq!(endnotes.len(), 1, "Exactly one endnote should be created");
    let (_id, content) = &endnotes[0];
    assert_eq!(content, "TESTprefixRenderedCitationTESTsuffix");
}

#[test]
fn citation_becomes_a_numbered_endnote_call() {
    let html = r#"<p>A <citation data-key="k">C</citation> B</p>"#;
    let mut endnotes = vec![("earlier".to_string(), "first".to_string())];
    let out = render_text(html, &mut endnotes, &dict(), &bib("k", "Smith & Jones"), false, false);
    assert_eq!(endnotes.len(), 2);
    let id = endnotes[1].0.clone();
    assert_eq!(endnotes[1].1, "Smith &amp; Jones");
    assert_eq!(
        out,
        format!(r##"<p>A <sup class="endnote"><a href="#note-{}">2</a></sup> B</p>"##, id)
    );
}

#[test]
fn unknown_citation_key_is_marked_invalid() {
    let html = r#"<citation data-key="missing">C</citation>"#;
    let mut endnotes = Vec::new();
    render_text(html, &mut endnotes, &dict(), &bib("k", "x"), false, false);
    assert_eq!(endnotes.len(), 1);
    assert_eq!(endnotes[0].1, "!!INVALID CITATION!!");
}

#[test]
fn citation_as_footnote_stores_no_endnote() {
    let html = r#"<p><citation data-key="k">C</citation></p>"#;
    let mut endnotes = Vec::new();
    let out = render_text(html, &mut endnotes, &dict(), &bib("k", "Cited"), false, true);
    assert!(endnotes.is_empty());
    assert!(out.starts_with(r##"<p><span class="footnote" id="footnote-"##));
    assert!(out.contains(r##"<a class="footnote-marker" href="#footnote-call-"##));
    assert!(out.contains(r##"</a>Cited</span><a class="footnote-call" href="#footnote-"##));
    assert!(out.ends_with("</a></p>"));
}

#[test]
fn footnote_span_content_is_parsed_as_html() {
    let html = r#"<p>x<span note-type="footnote" note-content="a &lt;b&gt;bold&lt;/b&gt; note">*</span></p>"#;
    let mut endnotes = Vec::new();
    let out = render_text(html, &mut endnotes, &dict(), &Vec::new(), false, false);
    assert!(endnotes.is_empty());
    assert!(out.contains("</a>a <b>bold</b> note</span>"));
    assert!(!out.contains("note-type"));
}

#[test]
fn endnote_span_content_is_escaped() {
    let html = r#"<p><span note-type="endnote" note-content="1 &lt; 2">*</span></p>"#;
    let mut endnotes = Vec::new();
    let out = render_text(html, &mut endnotes, &dict(), &Vec::new(), false, false);
    assert_eq!(endnotes.len(), 1);
    assert_eq!(endnotes[0].1, "1 &lt; 2");
    assert!(out.contains(">1</a></sup>"));
}

#[test]
fn endnote_span_without_content_gets_placeholder() {
    let html = r#"<span note-type="endnote">*</span>"#;
    let mut endnotes = Vec::new();
    render_text(html, &mut endnotes, &dict(), &Vec::new(), false, false);
    assert_eq!(endnotes[0].1, "Missing note content");
}

#[test]
fn custom_style_becomes_span() {
    let html = r#"<p><customstyle classes="c1 c2" inline-style="color: red">styled</customstyle></p>"#;
    let mut endnotes = Vec::new();
    let out = render_text(html, &mut endnotes, &dict(), &Vec::new(), false, false);
    assert_eq!(out, r#"<p><span class="c1 c2" style="color: red">styled</span></p>"#);
}

#[test]
fn plain_text_is_written_back() {
    let mut endnotes = Vec::new();
    let out = render_text("<p>Just <b>text</b></p>", &mut endnotes, &dict(), &Vec::new(), false, false);
    assert_eq!(out, "<p>Just <b>text</b></p>");
    assert!(endnotes.is_empty());
}

#[test]
fn soft_hyphens_are_added_on_request() {
    let mut endnotes = Vec::new();
    let out = render_text("<p>an extraordinary situation</p>", &mut endnotes, &dict(), &Vec::new(), true, false);
    assert!(out.contains('\u{ad}'));
}

#[test]
fn endnote_ids_are_hyphenated_identifiers() {
    let html = r#"<p>A <citation data-key="k">C</citation></p>"#;
    let mut endnotes = Vec::new();
    render_text(html, &mut endnotes, &dict(), &bib("k", "Cited"), false, false);
    let id: Vec<char> = endnotes[0].0.chars().collect();
    assert_eq!(id.len(), 36);
    for (i, c) in id.iter().enumerate() {
        if i == 8 || i == 13 || i == 18 || i == 23 {
            assert_eq!(*c, '-');
        } else {
            assert!(c.is_ascii_hexdigit() && !c.is_ascii_uppercase());
        }
    }
}
