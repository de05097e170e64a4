use vb_manager::metadata::CalendarDate;
use vb_manager::import::{import_status_answer, StatusRequestError};
use vb_manager::import::imported_section;
use vb_manager::content::BlockType;
use vb_manager::import::{ filter_posts_request, should_start_import, total_to_process, FileImportData, ImportJobData, WordpressFilterData, };
use vb_manager::wordpress::WordpressAPIContext;
use vb_manager::import::detection_text;
use vb_manager::content::BlockData;
use vb_manager::html::{render_nodes, HtmlDom, HtmlElement, HtmlNode};
use vb_manager::import::{
    blocks_from_blog_dom, blocks_from_converter_dom, import_html_from_pandoc, import_html_from_wp,
    input_format_for, post_passes_filters, select_posts, ConverterInput, ImportError,
    ImportStatus, ProcessingDetails,
};

fn text(t: &str) -> HtmlNode {
    HtmlNode::Text(t.to_string())
}

fn el(name: &str, children: Vec<HtmlNode>) -> HtmlNode {
    HtmlNode::Element(HtmlElement {
        name: name.to_string(),
        id: None,
        classes: vec![],
        attributes: vec![],
        children,
    })
}

fn el_full(
    name: &str,
    id: Option<&str>,
    classes: Vec<&str>,
    attributes: Vec<(&str, Option<&str>)>,
    children: Vec<HtmlNode>,
) -> HtmlNode {
    HtmlNode::Element(HtmlElement {
        name: name.to_string(),
        id: id.map(|s| s.to_string()),
        classes: classes.into_iter().map(|s| s.to_string()).collect(),
        attributes: attributes
            .into_iter()
            .map(|(k, v)| (k.to_string(), v.map(|s| s.to_string())))
            .collect(),
        children,
    })
}

fn no_links() -> Vec<(String, String)> {
    vec![]
}

#[test]
fn processing_details_keep_their_numbers() {
    let p = ProcessingDetails::new(3, Some(10));
    assert_eq!(p, ProcessingDetails { current: 3, total: Some(10) });
    let s = ImportStatus::Processing(p);
    assert_eq!(s, ImportStatus::Processing(ProcessingDetails { current: 3, total: Some(10) }));
}

#[test]
fn content_types_select_the_converter_input() {
    assert_eq!(input_format_for("text/x-tex"), Ok(ConverterInput::Latex));
    assert_eq!(input_format_for("application/x-tex"), Ok(ConverterInput::Latex));
    assert_eq!(
        input_format_for("application/vnd.openxmlformats-officedocument.wordprocessingml.document"),
        Ok(ConverterInput::Docx)
    );
    assert_eq!(input_format_for("text/x-markdown"), Ok(ConverterInput::Markdown));
    assert_eq!(input_format_for("image/png"), Err(ImportError::UnsupportedFileType));
}

#[test]
fn category_filters_select_posts() {
    let inc = Some(vec![1, 2]);
    let exc = Some(vec![9]);
    assert!(post_passes_filters(&vec![2, 5], &inc, &exc));
    assert!(!post_passes_filters(&vec![2, 9], &inc, &exc));
    assert!(!post_passes_filters(&vec![5], &inc, &None));
    assert!(post_passes_filters(&vec![], &None, &exc));
    let posts = vec![vec![1], vec![3], vec![2, 9], vec![2]];
    assert_eq!(select_posts(&posts, &inc, &exc), vec![0, 3]);
}

#[test]
fn top_level_nodes_become_blocks() {
    let dom = HtmlDom {
        is_document: false,
        children: vec![
            el("H1", vec![text("Title")]),
            text("loose text"),
            el("h3", vec![text("Third")]),
            el("ul", vec![el("li", vec![text("a")]), text(" "), el("LI", vec![text("b")])]),
            el("blockquote", vec![el("p", vec![text("q")])]),
            HtmlNode::Comment("c".to_string()),
            el_full("aside", Some("other"), vec![], vec![], vec![text("x")]),
            el("div", vec![text("d")]),
        ],
    };
    let blocks = blocks_from_converter_dom(&dom, false, true, false, &no_links()).unwrap();
    assert_eq!(
        blocks,
        vec![
            BlockData::Heading { text: "Title".to_string(), level: 1 },
            BlockData::Paragraph { text: "loose text".to_string() },
            BlockData::Heading { text: "Third".to_string(), level: 2 },
            BlockData::List {
                style: "unordered".to_string(),
                items: vec!["a".to_string(), "b".to_string()],
            },
            BlockData::Quote {
                text: "<p>q</p>".to_string(),
                caption: String::new(),
                alignment: String::new(),
            },
            BlockData::Paragraph { text: "d".to_string() },
        ]
    );
}

#[test]
fn headings_move_up_a_level_when_asked() {
    let dom = HtmlDom { is_document: false, children: vec![el("h2", vec![text("T")]), el("h1", vec![text("U")])] };
    let shifted = blocks_from_converter_dom(&dom, false, true, false, &no_links()).unwrap();
    assert_eq!(
        shifted,
        vec![
            BlockData::Heading { text: "T".to_string(), level: 1 },
            BlockData::Heading { text: "U".to_string(), level: 1 },
        ]
    );
    let kept = blocks_from_converter_dom(&dom, false, false, false, &no_links()).unwrap();
    assert_eq!(kept[0], BlockData::Heading { text: "T".to_string(), level: 2 });
}

#[test]
fn a_full_document_is_refused() {
    let dom = HtmlDom { is_document: true, children: vec![] };
    assert_eq!(
        blocks_from_converter_dom(&dom, false, false, false, &no_links()),
        Err(ImportError::HtmlConversionFailed)
    );
    assert_eq!(
        blocks_from_blog_dom(&dom, false, false, false, &no_links()),
        Err(ImportError::HtmlConversionFailed)
    );
}

#[test]
fn converter_footnote_references_become_note_spans() {
    let noteref = el_full(
        "a",
        Some("fnref1"),
        vec![],
        vec![("href", Some("#fn1")), ("role", Some("doc-noteref"))],
        vec![el("sup", vec![text(" 1 ")])],
    );
    let aside = el_full(
        "aside",
        Some("footnotes"),
        vec![],
        vec![],
        vec![el(
            "ol",
            vec![el_full(
                "li",
                Some("fn1"),
                vec![],
                vec![],
                vec![el(
                    "p",
                    vec![
                        text("Note \"one\" "),
                        el("em", vec![text("x")]),
                        el_full("a", None, vec![], vec![("role", Some("doc-backlink"))], vec![text("↩")]),
                    ],
                )],
            )],
        )],
    );
    let dom = HtmlDom { is_document: false, children: vec![el("p", vec![text("Text"), noteref]), aside] };
    let footnote = blocks_from_converter_dom(&dom, false, false, false, &no_links()).unwrap();
    assert_eq!(
        footnote,
        vec![BlockData::Paragraph {
            text: "Text<span class=\"note\" note-type=\"footnote\" note-content=\"Note 'one' <em>x</em>\">F</span>".to_string()
        }]
    );
    let endnote = blocks_from_converter_dom(&dom, true, false, false, &no_links()).unwrap();
    assert_eq!(
        endnote,
        vec![BlockData::Paragraph {
            text: "Text<span class=\"note\" note-type=\"endnote\" note-content=\"Note 'one' <em>x</em>\">E</span>".to_string()
        }]
    );
}

#[test]
fn blog_footnotes_and_links_become_notes_and_citations() {
    let noteref = el_full(
        "a",
        None,
        vec![],
        vec![],
        vec![el_full("sup", Some("footnote_plugin_tooltip_1"), vec!["footnote_plugin_tooltip_text"], vec![], vec![text("1")])],
    );
    let link = el_full("a", None, vec![], vec![("href", Some("https://doi.org/x"))], vec![text("a source")]);
    let bare = el_full("a", None, vec![], vec![("href", Some("https://doi.org/x"))], vec![text("https://doi.org/x")]);
    let other = el_full("a", None, vec![], vec![("href", Some("https://else"))], vec![text("else")]);
    let row = el(
        "tr",
        vec![
            el("th", vec![el_full("a", Some("footnote_plugin_reference_1"), vec!["footnote_backlink"], vec![], vec![text("1")])]),
            el_full("td", None, vec!["footnote_plugin_text"], vec![], vec![text("Blog note")]),
        ],
    );
    let container = el_full(
        "div",
        None,
        vec!["footnotes_reference_container"],
        vec![],
        vec![
            el("div", vec![text("Notes")]),
            el("div", vec![el("table", vec![el("thead", vec![]), el("tbody", vec![row])])]),
        ],
    );
    let dom = HtmlDom {
        is_document: false,
        children: vec![el("p", vec![text("T"), noteref, link, bare, other]), container],
    };
    let links = vec![("https://doi.org/x".to_string(), "key-1".to_string())];
    let blocks = blocks_from_blog_dom(&dom, false, false, true, &links).unwrap();
    assert_eq!(
        blocks,
        vec![BlockData::Paragraph {
            text: "T<span class=\"note\" note-type=\"footnote\" note-content=\"Blog note\">F</span>a source<citation data-key=\"key-1\">C</citation><citation data-key=\"key-1\">C</citation><a href=\"https://else\">else</a>".to_string()
        }]
    );
    let unconverted = blocks_from_blog_dom(&dom, false, false, false, &links).unwrap();
    assert_eq!(
        unconverted,
        vec![BlockData::Paragraph {
            text: "T<span class=\"note\" note-type=\"footnote\" note-content=\"Blog note\">F</span><a href=\"https://doi.org/x\">a source</a><a href=\"https://doi.org/x\">https://doi.org/x</a><a href=\"https://else\">else</a>".to_string()
        }]
    );
}

#[test]
fn rendering_writes_elements_back_with_attributes() {
    let nodes = vec![
        text("a"),
        el_full("span", None, vec![], vec![("data-x", Some("1")), ("hidden", None)], vec![text("b")]),
        HtmlNode::Comment("gone".to_string()),
    ];
    let out = render_nodes(&nodes, &None, false, false, &no_links());
    assert_eq!(out, "a<span data-x=\"1\" hidden>b</span>");
}

#[test]
fn converted_html_is_parsed_into_blocks() {
    let blocks = import_html_from_pandoc("<p>Hello</p><h2>Head</h2>", false, true, false, &no_links()).unwrap();
    assert_eq!(
        blocks,
        vec![
            BlockData::Paragraph { text: "Hello".to_string() },
            BlockData::Heading { text: "Head".to_string(), level: 1 },
        ]
    );
    let blog = import_html_from_wp("<blockquote>Quote</blockquote>", false, false, false, &no_links()).unwrap();
    assert_eq!(
        blog,
        vec![BlockData::Quote { text: "Quote".to_string(), caption: String::new(), alignment: String::new() }]
    );
}

#[test]
fn a_parsed_full_document_is_refused() {
    let r = import_html_from_pandoc(
        "<!DOCTYPE html><html><head></head><body><p>x</p></body></html>",
        false,
        false,
        false,
        &no_links(),
    );
    assert_eq!(r, Err(ImportError::HtmlConversionFailed));
}

#[test]
fn job_sizes_and_worker_starts() {
    assert_eq!(total_to_process(&ImportJobData::WordpressLinks(vec!["a".to_string(), "b".to_string()])), Some(2));
    let files = FileImportData {
        files_to_process: vec![("f.tex".to_string(), "text/x-tex".to_string())],
        bib_file: None,
    };
    assert_eq!(total_to_process(&ImportJobData::FileImport(files)), Some(1));
    let filter = WordpressFilterData {
        wp_host: "blog.example.org".to_string(),
        before: Some(CalendarDate { year: 12345, month: 3, day: 9 }),
        after: Some(CalendarDate { year: 2024, month: 1, day: 1 }),
        include_categories: None,
        exclude_categories: Some(vec![3]),
    };
    assert_eq!(total_to_process(&ImportJobData::WordpressFilter(filter.clone())), None);
    let req = filter_posts_request(&filter, 2);
    assert_eq!(req.context, WordpressAPIContext::View);
    assert_eq!(req.page, Some(2));
    assert_eq!(req.per_page, Some(100));
    assert_eq!(req.after, Some("2024-01-01 00:00:00".to_string()));
    assert_eq!(req.before, Some("+12345-03-09 00:00:00".to_string()));
    assert_eq!(req.categories_exclude, None);
    assert!(should_start_import(1, 4, 3));
    assert!(!should_start_import(1, 4, 4));
    assert!(!should_start_import(0, 4, 0));
}

#[test]
fn detection_text_joins_paragraphs() {
    let blocks = vec![
        BlockData::Paragraph { text: "Ein ".to_string() },
        BlockData::Heading { text: "H".to_string(), level: 1 },
        BlockData::Paragraph { text: "Text".to_string() },
    ];
    assert_eq!(detection_text(&blocks), "Ein Text");
}

#[test]
fn imported_blocks_form_the_imported_section() {
    let blocks = import_html_from_pandoc("<h1>A</h1><h3>C</h3>", false, true, false, &no_links()).unwrap();
    assert_eq!(
        blocks,
        vec![
            BlockData::Heading { text: "A".to_string(), level: 1 },
            BlockData::Heading { text: "C".to_string(), level: 2 },
        ]
    );
    let s = imported_section(7, blocks.clone(), vec!["b1".to_string(), "b2".to_string()], Some("en".to_string()));
    assert_eq!(s.metadata.lang, Some("en".to_string()));
    assert_eq!(s.id, Some(7));
    assert_eq!(s.metadata.title, "Imported Section");
    assert!(s.visible_in_toc);
    assert!(s.css_classes.is_empty() && s.sub_sections.is_empty());
    assert_eq!(s.children.len(), 2);
    assert_eq!(s.children[0].id, "b1");
    assert_eq!(s.children[1].id, "b2");
    assert_eq!(s.children[1].block_type, BlockType::Heading);
    assert_eq!(s.children[1].data, blocks[1]);
    assert!(s.children[0].css_classes.is_empty() && s.children[0].revision_id.is_none());
}

#[test]
fn status_requests_are_answered_from_archive_then_queue() {
    assert_eq!(import_status_answer(false, Some(ImportStatus::Complete), true), Err(StatusRequestError::InvalidJobId));
    assert_eq!(import_status_answer(true, Some(ImportStatus::Complete), true), Ok(ImportStatus::Complete));
    assert_eq!(import_status_answer(true, None, true), Ok(ImportStatus::Pending));
    assert_eq!(import_status_answer(true, None, false), Err(StatusRequestError::NotFound));
}
