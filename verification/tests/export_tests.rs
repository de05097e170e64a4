use vb_manager::content::{BlockData, BlockType, NewContentBlock, UploadedImage};
use vb_manager::export::{block_html, expand_options, valid_persons, ExpandOptions, PersonUuidOrString};
use vb_manager::export::{prepare_endnotes, render_content_block};
use vb_manager::export::{add_remaining_authors_editors_from_section, SectionPersons};
use vb_manager::export::{
    adds_soft_hyphens, citation_locale, citation_style, extend_options, require_metadata, sections_to_prepare,
    RenderingError,
};
use vb_manager::projects::ProjectSettingsV5;
use vb_manager::languages::section_dictionary;

fn block(id: &str, data: BlockData, classes: &[&str]) -> NewContentBlock {
    NewContentBlock {
        id: id.to_string(),
        block_type: BlockType::Paragraph,
        data,
        css_classes: classes.iter().map(|s| s.to_string()).collect(),
        revision_id: None,
    }
}

#[test]
fn paragraphs_and_headings() {
    let p = block_html(&block("x", BlockData::Paragraph { text: "T".to_string() }, &["a", "b"]), None);
    assert_eq!(p.html, "<p id='x'  class='a b'>T</p>");
    assert_eq!(p.id, "x");
    let h = block_html(&block("h", BlockData::Heading { text: "T".to_string(), level: 2 }, &[]), None);
    assert_eq!(h.html, "<h2 id='h' >T</h2>");
}

#[test]
fn lists_quotes_and_raw_html() {
    let l = block_html(
        &block("L", BlockData::List { style: "ordered".to_string(), items: vec!["i1".to_string(), "i2".to_string()] }, &[]),
        None,
    );
    assert_eq!(l.html, "<ol id='L' ><li id='L'>i1</li><li id='L'>i2</li></ol>");
    let u = block_html(
        &block("U", BlockData::List { style: "unordered".to_string(), items: vec![] }, &["c"]),
        None,
    );
    assert_eq!(u.html, "<ul id='U'  class='c'></ul>");
    let q = block_html(
        &block(
            "q",
            BlockData::Quote { text: "t".to_string(), caption: "c".to_string(), alignment: "center".to_string() },
            &["k"],
        ),
        None,
    );
    assert_eq!(q.html, "<blockquote id='q' class=\"align-center k\"><p>t</p><footer>c</footer></blockquote>");
    let r = block_html(&block("r", BlockData::Raw { html: "<div>Raw</div>".to_string() }, &[]), None);
    assert_eq!(r.html, "<div>Raw</div>");
}

#[test]
fn images_are_written_with_their_data_url() {
    let img = BlockData::Image {
        file: UploadedImage { url: "u".to_string(), filename: "f.png".to_string() },
        caption: None,
        with_border: false,
        with_background: false,
        stretched: false,
    };
    let b = block("m", img, &[]);
    assert_eq!(
        block_html(&b, Some("data:image/png;base64,AA".to_string())).html,
        "<img id='m' src=\"data:image/png;base64,AA\" alt=\"\" />"
    );
    assert_eq!(block_html(&b, None).html, "");
}

#[test]
fn expand_options_read_comma_separated_parts() {
    assert_eq!(expand_options(Some("authors,foo")), ExpandOptions { authors: true, editors: false });
    assert_eq!(expand_options(Some("editors,authors")), ExpandOptions { authors: true, editors: true });
    assert_eq!(expand_options(Some("authorseditors")), ExpandOptions { authors: false, editors: false });
    assert_eq!(expand_options(None), ExpandOptions { authors: false, editors: false });
}

#[test]
fn references_to_missing_persons_are_dropped() {
    let persons = vec![
        PersonUuidOrString::PersonUuid(1),
        PersonUuidOrString::NameString("Jane".to_string()),
        PersonUuidOrString::PersonUuid(2),
    ];
    assert_eq!(
        valid_persons(&persons, &vec![false, false, true]),
        vec![PersonUuidOrString::NameString("Jane".to_string()), PersonUuidOrString::PersonUuid(2)]
    );
    assert_eq!(valid_persons(&persons, &vec![true, true, true]), persons);
}

#[test]
fn content_block_texts_are_rendered_in_order() {
    let dict = section_dictionary(&None);
    let bib = vec![("k".to_string(), "Cited".to_string())];
    let mut endnotes = vec![("e0".to_string(), "before".to_string())];
    let quote = block(
        "q",
        BlockData::Quote {
            text: r#"Q <citation data-key="k">C</citation>"#.to_string(),
            caption: r#"<span note-type="endnote" note-content="cap">*</span>"#.to_string(),
            alignment: "left".to_string(),
        },
        &["c"],
    );
    let r = render_content_block(&quote, &mut endnotes, &dict, &bib, false, None);
    assert_eq!(endnotes.len(), 3);
    assert_eq!(endnotes[1].1, "Cited");
    assert_eq!(endnotes[2].1, "cap");
    let expected = format!(
        r##"<blockquote id='q' class="align-left c"><p>Q <sup class="endnote"><a href="#note-{}">2</a></sup></p><footer><sup class="endnote"><a href="#note-{}">3</a></sup></footer></blockquote>"##,
        endnotes[1].0, endnotes[2].0
    );
    assert_eq!(r.html, expected);
    assert_eq!(r.id, "q");
}

#[test]
fn content_block_list_items_are_rendered() {
    let dict = section_dictionary(&None);
    let mut endnotes = Vec::new();
    let list = block(
        "l",
        BlockData::List {
            style: "unordered".to_string(),
            items: vec!["<b>a</b>".to_string(), r#"<customstyle classes="x" inline-style="">b</customstyle>"#.to_string()],
        },
        &[],
    );
    let r = render_content_block(&list, &mut endnotes, &dict, &Vec::new(), false, None);
    assert_eq!(
        r.html,
        r#"<ul id='l' ><li id='l'><b>a</b></li><li id='l'><span class="x" style="">b</span></li></ul>"#
    );
    assert!(endnotes.is_empty());
}

#[test]
fn endnotes_are_numbered_and_unescaped() {
    let storage = vec![
        ("a".to_string(), "1 &lt; 2".to_string()),
        ("b".to_string(), "x &amp; y".to_string()),
    ];
    let e = prepare_endnotes(&storage);
    assert_eq!(e.len(), 2);
    assert_eq!((e[0].num, e[0].id.as_str(), e[0].content.as_str()), (1, "a", "1 < 2"));
    assert_eq!((e[1].num, e[1].id.as_str(), e[1].content.as_str()), (2, "b", "x & y"));
}

#[test]
fn endnote_note_comes_back_as_written() {
    let dict = section_dictionary(&None);
    let mut endnotes = Vec::new();
    let p = block(
        "p",
        BlockData::Paragraph { text: r#"<span note-type="endnote" note-content="a < b > c">*</span>"#.to_string() },
        &[],
    );
    render_content_block(&p, &mut endnotes, &dict, &Vec::new(), false, None);
    let prepared = prepare_endnotes(&endnotes);
    assert_eq!(prepared[0].content, "a < b > c");
}

fn settings(style: Option<&str>, lang: Option<&str>, soft: bool) -> ProjectSettingsV5 {
    ProjectSettingsV5 {
        toc_enabled: true,
        csl_style: style.map(|s| s.to_string()),
        csl_language_code: lang.map(|s| s.to_string()),
        metadata_page_additional_html: None,
        cover_image_path: None,
        backcover_image_path: None,
        add_soft_hyphens: soft,
    }
}

#[test]
fn project_preparation_choices() {
    assert_eq!(require_metadata(false), Err(RenderingError::ProjectMetadataMissing));
    assert_eq!(require_metadata(true), Ok(()));
    assert!(!adds_soft_hyphens(&None));
    assert!(adds_soft_hyphens(&Some(settings(None, None, true))));
    let styles = vec!["apa".to_string(), "mla".to_string(), "mla".to_string()];
    assert_eq!(citation_style(&None, &styles), 0);
    assert_eq!(citation_style(&Some(settings(Some("mla"), None, false)), &styles), 1);
    assert_eq!(citation_style(&Some(settings(Some("chicago"), None, false)), &styles), 0);
    assert_eq!(citation_style(&Some(settings(None, None, false)), &styles), 0);
    assert_eq!(citation_locale(&None), "en-us");
    assert_eq!(citation_locale(&Some(settings(None, None, false))), "en-us");
    assert_eq!(citation_locale(&Some(settings(None, Some("de-DE"), false))), "de-DE");
}

#[test]
fn sections_without_id_or_not_listed_are_skipped() {
    let ids = vec![Some(1), None, Some(2), Some(3)];
    assert_eq!(sections_to_prepare(&ids, &None), vec![0, 2, 3]);
    assert_eq!(sections_to_prepare(&ids, &Some(vec![3, 1])), vec![0, 3]);
    assert_eq!(sections_to_prepare(&ids, &Some(vec![])), Vec::<usize>::new());
}

#[test]
fn project_extend_parts() {
    let none = extend_options(None);
    assert!(!none.template && !none.metadata && !none.sections);
    let o = extend_options(Some("metadata,metadata.authors,sections,available_csl_styles"));
    assert!(o.metadata && o.metadata_authors && !o.metadata_editors);
    assert!(o.sections && o.available_csl_styles && !o.available_csl_locales);
    assert!(!o.template && !o.settings && !o.bibliography);
    let only_authors = extend_options(Some("metadata.authors,template"));
    assert!(!only_authors.metadata && !only_authors.metadata_authors && only_authors.template);
    assert!(!extend_options(Some("metadata ,settings")).metadata);
}

#[test]
fn section_persons_are_gathered_once_in_order() {
    let name = |s: &str| PersonUuidOrString::NameString(s.to_string());
    let id = PersonUuidOrString::PersonUuid;
    let section = SectionPersons {
        authors: vec![id(1), name("Ann")],
        editors: vec![name("Ed")],
        sub_sections: vec![
            SectionPersons {
                authors: vec![id(2), id(1)],
                editors: vec![],
                sub_sections: vec![SectionPersons {
                    authors: vec![name("Ann"), name("Bo")],
                    editors: vec![name("Ed"), id(9)],
                    sub_sections: vec![],
                }],
            },
            SectionPersons { authors: vec![id(3)], editors: vec![], sub_sections: vec![] },
        ],
    };
    let mut authors = vec![id(2)];
    let mut editors = vec![];
    add_remaining_authors_editors_from_section(&section, &mut authors, &mut editors);
    assert_eq!(authors, vec![id(2), id(1), name("Ann"), name("Bo"), id(3)]);
    assert_eq!(editors, vec![name("Ed"), id(9)]);
}
