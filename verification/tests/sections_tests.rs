use vb_manager::content::{BlockData, BlockType, NewContentBlock};
use vb_manager::export::PersonUuidOrString;
use vb_manager::metadata::Identifier;
use vb_manager::sections::{
    convert_contentblocks_to_yrs, migrate_citations_in_section_v5, section_from_v5_entry, SectionMetadataV4, SectionMetadataV5,
    SectionOrTocV4, SectionOrTocV5, SectionV4, SectionV5, SectionV6,
};
use vb_manager::ydoc::decode_yjs_content;
use yrs::updates::decoder::Decode;
use yrs::{Array, Doc, MapRef, Transact};

fn empty_metadata_v5(title: &str) -> SectionMetadataV5 {
    SectionMetadataV5 {
        title: title.to_string(),
        toc_title_subtitle_override: None,
        subtitle: None,
        authors: vec![],
        editors: vec![],
        web_url: None,
        identifiers: vec![],
        published: None,
        last_changed: None,
        lang: None,
    }
}

fn metadata_v4(
    toc_title_override: Option<&str>,
    subtitle: Option<&str>,
    toc_subtitle_override: Option<&str>,
) -> SectionMetadataV4 {
    SectionMetadataV4 {
        title: "Title".to_string(),
        toc_title_override: toc_title_override.map(|s| s.to_string()),
        subtitle: subtitle.map(|s| s.to_string()),
        toc_subtitle_override: toc_subtitle_override.map(|s| s.to_string()),
        authors: vec![7, 8],
        editors: vec![9],
        web_url: Some("https://example.org".to_string()),
        identifiers: vec![Identifier {
            id: None,
            name: "DOI".to_string(),
            value: "10.1/x".to_string(),
            identifier_type: "DOI".to_string(),
        }],
        published: None,
        last_changed: Some(12),
        lang: Some("de-DE".to_string()),
    }
}

#[test]
fn test_section_v5_to_v6_migration() {
    let block = NewContentBlock {
        id: "1".to_string(),
        block_type: BlockType::Paragraph,
        data: BlockData::Paragraph {
            text: "Hello migration".to_string(),
        },
        css_classes: vec![],
        revision_id: None,
    };

    let section_v5 = SectionV5 {
        id: Some(uuid::Uuid::new_v4().as_u128()),
        css_classes: vec!["class1".to_string()],
        sub_sections: vec![SectionV5 {
            id: Some(uuid::Uuid::new_v4().as_u128()),
            css_classes: vec![],
            sub_sections: vec![],
            children: vec![],
            visible_in_toc: true,
            metadata: empty_metadata_v5("Sub Section"),
        }],
        children: vec![block],
        visible_in_toc: true,
        metadata: SectionMetadataV5 {
            title: "Main Section".to_string(),
            toc_title_subtitle_override: Some("Override".to_string()),
            subtitle: Some("Subtitle".to_string()),
            ..empty_metadata_v5("Main Section")
        },
    };
    let id = section_v5.id;
    let css_classes = section_v5.css_classes.clone();
    let visible_in_toc = section_v5.visible_in_toc;
    let title = section_v5.metadata.title.clone();
    let subtitle = section_v5.metadata.subtitle.clone();

    let section_v6: SectionV6 = SectionV6::from_v5(section_v5);

    assert_eq!(section_v6.id, id);
    assert_eq!(section_v6.css_classes, css_classes);
    assert_eq!(section_v6.visible_in_toc, visible_in_toc);
    assert_eq!(section_v6.metadata.title, title);
    assert_eq!(section_v6.metadata.subtitle, subtitle);
    assert_eq!(section_v6.sub_sections.len(), 1);
    assert_eq!(section_v6.sub_sections[0].metadata.title, "Sub Section");

    // Verify content document
    let doc = Doc::new();
    {
        let mut txn = doc.transact_mut();
        txn.apply_update(yrs::Update::decode_v1(&section_v6.content).unwrap())
            .unwrap();
    }

    let blocks_array = doc.get_or_insert_array("blocks");
    let txn = doc.transact();
    assert_eq!(blocks_array.len(&txn), 1);

    let block_map = blocks_array
        .get(&txn, 0)
        .unwrap()
        .cast::<MapRef>()
        .unwrap();
    assert_eq!(
        yrs::Map::get(&block_map, &txn, "type").unwrap().to_string(&txn),
        "paragraph"
    );
    let data_map = yrs::Map::get(&block_map, &txn, "data")
        .unwrap()
        .cast::<MapRef>()
        .unwrap();
    assert_eq!(
        yrs::Map::get(&data_map, &txn, "text").unwrap().to_string(&txn),
        "Hello migration"
    );
}

#[test]
fn migrated_content_decodes_to_the_blocks() {
    let blocks = vec![
        NewContentBlock {
            id: "a".to_string(),
            block_type: BlockType::Heading,
            data: BlockData::Heading {
                text: "Chapter".to_string(),
                level: 2,
            },
            css_classes: vec!["wide".to_string()],
            revision_id: None,
        },
        NewContentBlock {
            id: "b".to_string(),
            block_type: BlockType::List,
            data: BlockData::List {
                style: "ordered".to_string(),
                items: vec!["one".to_string(), "two".to_string()],
            },
            css_classes: vec![],
            revision_id: None,
        },
    ];
    let content = convert_contentblocks_to_yrs(&blocks);
    let decoded = decode_yjs_content(&content).unwrap();
    assert_eq!(decoded, blocks);
}

#[test]
fn empty_block_list_still_encodes_a_document() {
    let content = convert_contentblocks_to_yrs(&vec![]);
    assert!(!content.is_empty());
    assert_eq!(decode_yjs_content(&content).unwrap(), vec![]);
}

#[test]
fn toc_overrides_are_combined() {
    let m = SectionMetadataV5::from_v4(metadata_v4(None, Some("Sub"), None));
    assert_eq!(m.toc_title_subtitle_override, None);

    let m = SectionMetadataV5::from_v4(metadata_v4(Some("Short"), Some("Sub"), None));
    assert_eq!(m.toc_title_subtitle_override, Some("Short: Sub".to_string()));

    let m = SectionMetadataV5::from_v4(metadata_v4(Some("Short"), None, None));
    assert_eq!(m.toc_title_subtitle_override, Some("Short".to_string()));

    let m = SectionMetadataV5::from_v4(metadata_v4(None, Some("Sub"), Some("S")));
    assert_eq!(m.toc_title_subtitle_override, Some("Title: S".to_string()));

    let m = SectionMetadataV5::from_v4(metadata_v4(Some("T"), None, Some("S")));
    assert_eq!(m.toc_title_subtitle_override, Some("T: S".to_string()));
}

#[test]
fn metadata_v4_keeps_its_fields_and_refers_to_persons() {
    let m = SectionMetadataV5::from_v4(metadata_v4(None, Some("Sub"), None));
    assert_eq!(m.title, "Title");
    assert_eq!(m.subtitle, Some("Sub".to_string()));
    assert_eq!(
        m.authors,
        vec![PersonUuidOrString::PersonUuid(7), PersonUuidOrString::PersonUuid(8)]
    );
    assert_eq!(m.editors, vec![PersonUuidOrString::PersonUuid(9)]);
    assert_eq!(m.web_url, Some("https://example.org".to_string()));
    assert_eq!(m.identifiers.len(), 1);
    assert_eq!(m.last_changed, Some(12));
    assert_eq!(m.lang, Some("de-DE".to_string()));
}

#[test]
fn table_of_contents_entry_becomes_a_section() {
    let toc = section_from_v5_entry(SectionOrTocV5::Toc);
    assert!(toc.id.is_some());
    assert!(toc.visible_in_toc);
    assert!(toc.content.is_empty());
    assert!(toc.sub_sections.is_empty());
    assert_eq!(toc.metadata.title, "Table of Contents");
    assert!(toc.metadata.custom_fields.is_empty());

    let other = section_from_v5_entry(SectionOrTocV5::Toc);
    assert_ne!(toc.id, other.id);

    let section = section_from_v5_entry(SectionOrTocV5::Section(SectionV5 {
        id: Some(5),
        css_classes: vec![],
        sub_sections: vec![],
        children: vec![],
        visible_in_toc: false,
        metadata: empty_metadata_v5("Plain"),
    }));
    assert_eq!(section.id, Some(5));
    assert!(!section.visible_in_toc);
    assert_eq!(section.metadata.title, "Plain");
}

#[test]
fn into_section_drops_the_table_of_contents() {
    assert!(SectionOrTocV5::Toc.into_section().is_none());
    let s = SectionOrTocV5::Section(SectionV5 {
        id: Some(1),
        css_classes: vec![],
        sub_sections: vec![],
        children: vec![],
        visible_in_toc: true,
        metadata: empty_metadata_v5("A"),
    })
    .into_section()
    .unwrap();
    assert_eq!(s.id, Some(1));
}

#[test]
fn clone_without_subsections_drops_only_subsections() {
    let s = SectionV6::from_v5(SectionV5 {
        id: Some(3),
        css_classes: vec!["x".to_string()],
        sub_sections: vec![SectionV5 {
            id: Some(4),
            css_classes: vec![],
            sub_sections: vec![],
            children: vec![],
            visible_in_toc: true,
            metadata: empty_metadata_v5("Inner"),
        }],
        children: vec![],
        visible_in_toc: true,
        metadata: empty_metadata_v5("Outer"),
    });
    let c = s.clone_without_subsections();
    assert_eq!(c.id, Some(3));
    assert_eq!(c.css_classes, vec!["x".to_string()]);
    assert!(c.sub_sections.is_empty());
    assert_eq!(c.content, s.content);
    assert_eq!(c.metadata, s.metadata);
    assert_eq!(s.sub_sections.len(), 1);
}

#[test]
fn sections_v4_convert_with_their_subsections() {
    let block = NewContentBlock {
        id: "p".to_string(),
        block_type: BlockType::Paragraph,
        data: BlockData::Paragraph {
            text: "Text".to_string(),
        },
        css_classes: vec![],
        revision_id: None,
    };
    let v4 = SectionV4 {
        id: Some(1),
        css_classes: vec!["c".to_string()],
        sub_sections: vec![SectionV4 {
            id: Some(2),
            css_classes: vec![],
            sub_sections: vec![],
            children: vec![],
            visible_in_toc: false,
            metadata: metadata_v4(Some("Inner"), None, None),
        }],
        children: vec![block.clone()],
        visible_in_toc: true,
        metadata: metadata_v4(None, Some("Sub"), Some("Short")),
    };
    let v5 = SectionV5::from_v4(v4);
    assert_eq!(v5.id, Some(1));
    assert_eq!(v5.css_classes, vec!["c".to_string()]);
    assert_eq!(v5.children, vec![block]);
    assert!(v5.visible_in_toc);
    assert_eq!(v5.metadata.toc_title_subtitle_override, Some("Title: Short".to_string()));
    assert_eq!(v5.sub_sections.len(), 1);
    assert_eq!(v5.sub_sections[0].id, Some(2));
    assert!(!v5.sub_sections[0].visible_in_toc);
    assert_eq!(
        v5.sub_sections[0].metadata.toc_title_subtitle_override,
        Some("Inner".to_string())
    );
}

#[test]
fn toc_entries_v4_stay_toc_entries() {
    assert!(matches!(SectionOrTocV4::Toc.into_v5(), SectionOrTocV5::Toc));
    let entry = SectionOrTocV4::Section(SectionV4 {
        id: Some(9),
        css_classes: vec![],
        sub_sections: vec![],
        children: vec![],
        visible_in_toc: true,
        metadata: metadata_v4(None, None, None),
    });
    match entry.into_v5() {
        SectionOrTocV5::Section(s) => {
            assert_eq!(s.id, Some(9));
            assert_eq!(s.metadata.toc_title_subtitle_override, None);
        }
        SectionOrTocV5::Toc => panic!("a section became the table of contents"),
    }
}

#[test]
fn citation_keys_are_rewritten_in_all_subsections() {
    let cited = |id: &str, key: &str| NewContentBlock {
        id: id.to_string(),
        block_type: BlockType::Paragraph,
        data: BlockData::Paragraph {
            text: format!(r#"See <citation data-key="{}">C</citation>."#, key),
        },
        css_classes: vec![],
        revision_id: None,
    };
    let mut section = SectionV5 {
        id: Some(1),
        css_classes: vec![],
        sub_sections: vec![SectionV5 {
            id: Some(2),
            css_classes: vec![],
            sub_sections: vec![],
            children: vec![cited("inner", "old")],
            visible_in_toc: true,
            metadata: empty_metadata_v5("Inner"),
        }],
        children: vec![cited("outer", "old"), cited("other", "kept")],
        visible_in_toc: true,
        metadata: empty_metadata_v5("Outer"),
    };
    let mapping = vec![("old".to_string(), "new-id".to_string())];
    migrate_citations_in_section_v5(&mut section, &mapping);
    let text = |b: &NewContentBlock| match &b.data {
        BlockData::Paragraph { text } => text.clone(),
        _ => String::new(),
    };
    assert_eq!(
        text(&section.children[0]),
        r#"See <citation data-key="new-id">C</citation>."#
    );
    assert_eq!(
        text(&section.children[1]),
        r#"See <citation data-key="kept">C</citation>."#
    );
    assert_eq!(
        text(&section.sub_sections[0].children[0]),
        r#"See <citation data-key="new-id">C</citation>."#
    );
    assert_eq!(section.children[0].id, "outer");
    assert_eq!(section.sub_sections[0].metadata.title, "Inner");
}
