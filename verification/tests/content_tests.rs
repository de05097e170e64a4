use vb_manager::content::{
    migrate_citations_in_block, replace_citations, BlockData, BlockDataEditorJSFormat,
    BlockStyleTuneEditorJS, BlockTuneEditorJSFormat, BlockType, NewContentBlock,
    NewContentBlockEditorJSFormat, UploadedImage,
};

fn empty_data() -> BlockDataEditorJSFormat {
    BlockDataEditorJSFormat {
        text: None,
        level: None,
        items: None,
        html: None,
        caption: None,
        alignment: None,
        style: None,
        file: None,
        withBorder: None,
        withBackground: None,
        stretched: None,
    }
}

fn editor_block(kind: &str, data: BlockDataEditorJSFormat) -> NewContentBlockEditorJSFormat {
    NewContentBlockEditorJSFormat {
        id: "b1".to_string(),
        block_type: kind.to_string(),
        data,
        tunes: BlockTuneEditorJSFormat { block_style_tune: None },
    }
}

#[test]
fn paragraph_from_editor_format() {
    let mut d = empty_data();
    d.text = Some("Hello world".to_string());
    let b = NewContentBlock::from_editorjs(editor_block("paragraph", d)).unwrap();
    assert_eq!(b.id, "b1");
    assert_eq!(b.block_type, BlockType::Paragraph);
    assert_eq!(b.data, BlockData::Paragraph { text: "Hello world".to_string() });
    assert!(b.css_classes.is_empty());
    assert_eq!(b.revision_id, None);
}

#[test]
fn header_without_level_is_refused() {
    let mut d = empty_data();
    d.text = Some("Heading".to_string());
    let r = NewContentBlock::from_editorjs(editor_block("header", d));
    assert_eq!(r.unwrap_err(), "Missing field 'level' in header block");
}

#[test]
fn quote_without_caption_is_refused() {
    let mut d = empty_data();
    d.text = Some("t".to_string());
    let r = NewContentBlock::from_editorjs(editor_block("quote", d));
    assert_eq!(r.unwrap_err(), "Missing field 'caption' in quote block");
}

#[test]
fn unknown_block_type_is_refused() {
    let r = NewContentBlock::from_editorjs(editor_block("table", empty_data()));
    assert_eq!(r.unwrap_err(), "Unknown block type");
}

#[test]
fn image_flags_default_to_false() {
    let mut d = empty_data();
    d.file = Some(UploadedImage { url: "url".to_string(), filename: "file.png".to_string() });
    d.withBorder = Some(true);
    let b = NewContentBlock::from_editorjs(editor_block("image", d)).unwrap();
    assert_eq!(b.block_type, BlockType::Image);
    assert_eq!(
        b.data,
        BlockData::Image {
            file: UploadedImage { url: "url".to_string(), filename: "file.png".to_string() },
            caption: None,
            with_border: true,
            with_background: false,
            stretched: false,
        }
    );
}

#[test]
fn css_classes_go_to_the_style_tune_and_back() {
    let block = NewContentBlock {
        id: "x".to_string(),
        block_type: BlockType::Paragraph,
        data: BlockData::Paragraph { text: "Text".to_string() },
        css_classes: vec!["class1".to_string(), "class2".to_string()],
        revision_id: None,
    };
    let e = block.clone().into_editorjs();
    assert_eq!(e.block_type, "paragraph");
    assert_eq!(
        e.tunes.block_style_tune,
        Some(BlockStyleTuneEditorJS { css_classes: "class1 class2".to_string() })
    );
    let back = NewContentBlock::from_editorjs(e).unwrap();
    assert_eq!(back, block);
}

#[test]
fn editor_round_trip_takes_the_kind_from_the_payload() {
    let block = NewContentBlock {
        id: "r".to_string(),
        block_type: BlockType::Paragraph,
        data: BlockData::Raw { html: "<div>Raw</div>".to_string() },
        css_classes: vec![],
        revision_id: None,
    };
    let e = block.clone().into_editorjs();
    assert_eq!(e.block_type, "raw");
    assert_eq!(e.data.html, Some("<div>Raw</div>".to_string()));
    let back = NewContentBlock::from_editorjs(e).unwrap();
    assert_eq!(back.block_type, BlockType::Raw);
    assert_eq!(back.data, block.data);
}

#[test]
fn list_and_heading_to_editor_format() {
    let list = NewContentBlock {
        id: "l".to_string(),
        block_type: BlockType::List,
        data: BlockData::List {
            style: "ordered".to_string(),
            items: vec!["item1".to_string(), "item2".to_string()],
        },
        css_classes: vec![],
        revision_id: None,
    };
    let e = list.into_editorjs();
    assert_eq!(e.block_type, "list");
    assert_eq!(e.data.style, Some("ordered".to_string()));
    assert_eq!(e.data.items, Some(vec!["item1".to_string(), "item2".to_string()]));
    assert_eq!(e.tunes.block_style_tune, None);

    let heading = NewContentBlock {
        id: "h".to_string(),
        block_type: BlockType::Heading,
        data: BlockData::Heading { text: "Heading".to_string(), level: 2 },
        css_classes: vec![],
        revision_id: None,
    };
    let e = heading.into_editorjs();
    assert_eq!(e.block_type, "header");
    assert_eq!(e.data.level, Some(2));
    assert_eq!(e.data.text, Some("Heading".to_string()));
}

#[test]
fn replace_citations_rewrites_every_reference() {
    let mapping = vec![(
        "citation_key_1".to_string(),
        "0b1f6f3e-1111-4222-8333-444455556666".to_string(),
    )];
    let input = r#"<citation data-key="citation_key_1">C</citation>"#;
    assert_eq!(
        replace_citations(input, &mapping),
        r#"<citation data-key="0b1f6f3e-1111-4222-8333-444455556666">C</citation>"#
    );
    let input2 = r#"Text <citation data-key="citation_key_1">C</citation> and more <citation data-key="citation_key_1">C</citation>."#;
    assert_eq!(
        replace_citations(input2, &mapping),
        r#"Text <citation data-key="0b1f6f3e-1111-4222-8333-444455556666">C</citation> and more <citation data-key="0b1f6f3e-1111-4222-8333-444455556666">C</citation>."#
    );
}

#[test]
fn replace_citations_applies_pairs_in_order() {
    let mapping = vec![
        ("a".to_string(), "b".to_string()),
        ("b".to_string(), "c".to_string()),
    ];
    assert_eq!(replace_citations(r#"data-key="a""#, &mapping), r#"data-key="c""#);
    assert_eq!(replace_citations("a b", &mapping), "a b");
}

#[test]
fn migrate_citations_rewrites_the_texts_of_a_quote() {
    let mut block = NewContentBlock {
        id: "q".to_string(),
        block_type: BlockType::Quote,
        data: BlockData::Quote {
            text: r#"<citation data-key="k">C</citation>"#.to_string(),
            caption: r#"see data-key="k""#.to_string(),
            alignment: "left".to_string(),
        },
        css_classes: vec!["c".to_string()],
        revision_id: None,
    };
    let mapping = vec![("k".to_string(), "n".to_string())];
    migrate_citations_in_block(&mut block, &mapping);
    assert_eq!(
        block.data,
        BlockData::Quote {
            text: r#"<citation data-key="n">C</citation>"#.to_string(),
            caption: r#"see data-key="n""#.to_string(),
            alignment: "left".to_string(),
        }
    );
    assert_eq!(block.id, "q");
    assert_eq!(block.css_classes, vec!["c".to_string()]);
}

#[test]
fn citation_rewrites_do_not_depend_on_the_order_of_the_pairs() {
    let text = r#"<citation data-key="a">A</citation><citation data-key="b">B</citation>"#;
    let pair = |x: &str, y: &str| (x.to_string(), y.to_string());
    let one = vb_manager::content::replace_citations(text, &vec![pair("a", "x1"), pair("b", "x2")]);
    let two = vb_manager::content::replace_citations(text, &vec![pair("b", "x2"), pair("a", "x1")]);
    assert_eq!(one, two);
    assert_eq!(one, r#"<citation data-key="x1">A</citation><citation data-key="x2">B</citation>"#);
    let chained = vb_manager::content::replace_citations(text, &vec![pair("a", "b"), pair("b", "c")]);
    let reversed = vb_manager::content::replace_citations(text, &vec![pair("b", "c"), pair("a", "b")]);
    assert_ne!(chained, reversed);
}

#[test]
fn citation_rewrites_depend_on_order_when_a_key_holds_an_attribute() {
    let text = r#"data-key="zdata-key="b""#;
    let pair = |x: &str, y: &str| (x.to_string(), y.to_string());
    let one = vb_manager::content::replace_citations(text, &vec![pair("zdata-key=", "A"), pair("b", "B")]);
    let two = vb_manager::content::replace_citations(text, &vec![pair("b", "B"), pair("zdata-key=", "A")]);
    assert_eq!(one, r#"data-key="A"b""#);
    assert_eq!(two, r#"data-key="A"B""#);
}
