//! Sections as the current storage holds them, and their migration from
//! the version that kept content blocks in a list: the blocks are written
//! into a collaborative document, and the metadata gains custom fields.
use vstd::prelude::*;
use crate::content::{migrate_citations_in_block, migrate_data_spec, mapping_view, owned, ContentBlockView, NewContentBlock};
use crate::export::PersonUuidOrString;
use crate::ids::{new_uuid, uuid_value};
use crate::metadata::{CalendarDate, Identifier, SectionMetadata};
use crate::ydoc::{
    block_map_prelim, decodes_to, map_prelim_contents, prelim_map, write_block, written_blocks, written_maps,
};
use yrs::{Doc, MapPrelim, ReadTxn, StateVector, Transact};

verus! {

// ---------------------------------------------------------------------------
// Types
// ---------------------------------------------------------------------------

/// Section metadata of the version with separate overrides of the title
/// and the subtitle in the table of contents.
#[derive(Clone, Debug, PartialEq, Eq)]
pub struct SectionMetadataV4 {
    pub title: String,
    pub toc_title_override: Option<String>,
    pub subtitle: Option<String>,
    pub toc_subtitle_override: Option<String>,
    pub authors: Vec<u128>,
    pub editors: Vec<u128>,
    pub web_url: Option<String>,
    pub identifiers: Vec<Identifier>,
    pub published: Option<CalendarDate>,
    pub last_changed: Option<i64>,
    pub lang: Option<String>,
}

/// Section metadata of the version with one override for the table of
/// contents and without custom fields.
#[derive(Clone, Debug, PartialEq, Eq)]
pub struct SectionMetadataV5 {
    pub title: String,
    pub toc_title_subtitle_override: Option<String>,
    pub subtitle: Option<String>,
    pub authors: Vec<PersonUuidOrString>,
    pub editors: Vec<PersonUuidOrString>,
    pub web_url: Option<String>,
    pub identifiers: Vec<Identifier>,
    pub published: Option<CalendarDate>,
    pub last_changed: Option<i64>,
    pub lang: Option<String>,
}

/// A section of the version with separate overrides for the table of
/// contents.
#[derive(Debug)]
pub struct SectionV4 {
    pub id: Option<u128>,
    pub css_classes: Vec<String>,
    pub sub_sections: Vec<SectionV4>,
    pub children: Vec<NewContentBlock>,
    pub visible_in_toc: bool,
    pub metadata: SectionMetadataV4,
}

/// An entry of a section list of that version: a section, or the place of
/// the table of contents.
#[derive(Debug)]
pub enum SectionOrTocV4 {
    Section(SectionV4),
    Toc,
}

/// A section of the version that kept its content as a list of blocks.
#[derive(Debug)]
pub struct SectionV5 {
    pub id: Option<u128>,
    pub css_classes: Vec<String>,
    pub sub_sections: Vec<SectionV5>,
    pub children: Vec<NewContentBlock>,
    pub visible_in_toc: bool,
    pub metadata: SectionMetadataV5,
}

/// An entry of a section list of that version: a section, or the place of
/// the table of contents.
#[derive(Debug)]
pub enum SectionOrTocV5 {
    Section(SectionV5),
    Toc,
}

/// A section as it is stored now: its content is the encoded state of a
/// collaborative document.
#[derive(Debug)]
pub struct SectionV6 {
    pub id: Option<u128>,
    pub css_classes: Vec<String>,
    pub sub_sections: Vec<SectionV6>,
    pub content: Vec<u8>,
    pub visible_in_toc: bool,
    pub metadata: SectionMetadata,
}

// ---------------------------------------------------------------------------
// Metadata
// ---------------------------------------------------------------------------

/// The single override for the table of contents that two separate ones
/// become: none where neither is set; otherwise the title's override (or
/// the title), followed, after `": "`, by the subtitle's override (or the
/// subtitle) where there is one.
pub open spec fn combined_toc_override(
    title: Seq<char>,
    toc_title_override: Option<Seq<char>>,
    subtitle: Option<Seq<char>>,
    toc_subtitle_override: Option<Seq<char>>,
) -> Option<Seq<char>> {
    if toc_title_override is None && toc_subtitle_override is None {
        None
    } else {
        let first = match toc_title_override {
            Some(t) => t,
            None => title,
        };
        Some(
            match toc_subtitle_override {
                Some(s) => first + ": "@ + s,
                None => match subtitle {
                    Some(s) => first + ": "@ + s,
                    None => first,
                },
            },
        )
    }
}

pub open spec fn opt_view(o: Option<String>) -> Option<Seq<char>> {
    match o {
        Some(s) => Some(s@),
        None => None,
    }
}

/// References to stored persons.
pub open spec fn person_refs(ids: Seq<u128>) -> Seq<PersonUuidOrString> {
    ids.map_values(|id: u128| PersonUuidOrString::PersonUuid(id))
}

fn person_refs_exec(ids: Vec<u128>) -> (r: Vec<PersonUuidOrString>)
    ensures
        r@ == person_refs(ids@),
{
    let mut r: Vec<PersonUuidOrString> = Vec::new();
    let mut i: usize = 0;
    while i < ids.len()
        invariant
            i <= ids.len(),
            r@ == person_refs(ids@.take(i as int)),
        decreases ids.len() - i,
    {
        r.push(PersonUuidOrString::PersonUuid(ids[i]));
        i = i + 1;
        assert(person_refs(ids@.take(i as int)) =~= person_refs(ids@.take(i - 1)).push(
            PersonUuidOrString::PersonUuid(ids@[i - 1]),
        ));
    }
    assert(ids@.take(i as int) =~= ids@);
    r
}

impl SectionMetadataV5 {
    /// The metadata of the earlier version: the two overrides become one,
    /// authors and editors become references to stored persons, the rest
    /// stays.
    pub fn from_v4(value: SectionMetadataV4) -> (r: SectionMetadataV5)
        ensures
            metadata_v5_of(r, value),
    {
        let toc_title_subtitle_override = if value.toc_title_override.is_none()
            && value.toc_subtitle_override.is_none() {
            None
        } else {
            let mut combined = match &value.toc_title_override {
                Some(t) => owned(t.as_str()),
                None => owned(value.title.as_str()),
            };
            match &value.toc_subtitle_override {
                Some(s) => {
                    combined.append(": ");
                    combined.append(s.as_str());
                },
                None => match &value.subtitle {
                    Some(s) => {
                        combined.append(": ");
                        combined.append(s.as_str());
                    },
                    None => {},
                },
            }
            Some(combined)
        };
        SectionMetadataV5 {
            title: value.title,
            toc_title_subtitle_override,
            subtitle: value.subtitle,
            authors: person_refs_exec(value.authors),
            editors: person_refs_exec(value.editors),
            web_url: value.web_url,
            identifiers: value.identifiers,
            published: value.published,
            last_changed: value.last_changed,
            lang: value.lang,
        }
    }
}

/// Whether `r` is the current form of metadata `m`: the same fields, and
/// no custom fields.
pub open spec fn metadata_migrated(r: SectionMetadata, m: SectionMetadataV5) -> bool {
    &&& r.title == m.title
    &&& r.toc_title_subtitle_override == m.toc_title_subtitle_override
    &&& r.subtitle == m.subtitle
    &&& r.authors == m.authors
    &&& r.editors == m.editors
    &&& r.web_url == m.web_url
    &&& r.identifiers == m.identifiers
    &&& r.published == m.published
    &&& r.last_changed == m.last_changed
    &&& r.lang == m.lang
    &&& r.custom_fields@.len() == 0
}

/// The current form of metadata of the earlier version: the same fields,
/// and no custom fields.
pub fn metadata_from_v5(value: SectionMetadataV5) -> (r: SectionMetadata)
    ensures
        metadata_migrated(r, value),
{
    SectionMetadata {
        title: value.title,
        toc_title_subtitle_override: value.toc_title_subtitle_override,
        subtitle: value.subtitle,
        authors: value.authors,
        editors: value.editors,
        web_url: value.web_url,
        identifiers: value.identifiers,
        published: value.published,
        last_changed: value.last_changed,
        lang: value.lang,
        custom_fields: Vec::new(),
    }
}

// ---------------------------------------------------------------------------
// Sections of the version with separate overrides
// ---------------------------------------------------------------------------

/// Whether `m` is the metadata that `SectionMetadataV5::from_v4` makes of
/// `v`.
pub open spec fn metadata_v5_of(m: SectionMetadataV5, v: SectionMetadataV4) -> bool {
    &&& opt_view(m.toc_title_subtitle_override) == combined_toc_override(
        v.title@,
        opt_view(v.toc_title_override),
        opt_view(v.subtitle),
        opt_view(v.toc_subtitle_override),
    )
    &&& m.title == v.title
    &&& m.subtitle == v.subtitle
    &&& m.authors@ == person_refs(v.authors@)
    &&& m.editors@ == person_refs(v.editors@)
    &&& m.web_url == v.web_url
    &&& m.identifiers == v.identifiers
    &&& m.published == v.published
    &&& m.last_changed == v.last_changed
    &&& m.lang == v.lang
}

/// Whether `r` is the section of the next version made of `s`: the same
/// identifier, classes, blocks and visibility, its metadata converted, and
/// its sub-sections, in order, made of those of `s`.
pub open spec fn section_v5_of(r: SectionV5, s: SectionV4) -> bool
    decreases s,
{
    &&& r.id == s.id
    &&& r.css_classes == s.css_classes
    &&& r.children == s.children
    &&& r.visible_in_toc == s.visible_in_toc
    &&& metadata_v5_of(r.metadata, s.metadata)
    &&& r.sub_sections@.len() == s.sub_sections@.len()
    &&& forall|i: int|
        0 <= i < s.sub_sections@.len() ==> {
            &&& decreases_to!(s => s.sub_sections@[i])
            &&& section_v5_of(#[trigger] r.sub_sections@[i], s.sub_sections@[i])
        }
}

impl SectionV5 {
    /// The section of the next version: its metadata converted (see
    /// `SectionMetadataV5::from_v4`), with its sub-sections.
    pub fn from_v4(value: SectionV4) -> (r: SectionV5)
        ensures
            section_v5_of(r, value),
        decreases value,
    {
        let SectionV4 { id, css_classes, sub_sections, children, visible_in_toc, metadata } = value;
        let ghost subs = sub_sections@;
        let mut rest = sub_sections;
        let mut converted: Vec<SectionV5> = Vec::new();
        while rest.len() > 0
            invariant
                converted@.len() + rest@.len() == subs.len(),
                rest@ == subs.skip(converted@.len() as int),
                subs == value.sub_sections@,
                forall|i: int|
                    0 <= i < converted@.len() ==> section_v5_of(#[trigger] converted@[i], subs[i]),
            decreases rest@.len(),
        {
            let ghost k = converted@.len() as int;
            let s = rest.remove(0);
            assert(s == subs[k]);
            assert(decreases_to!(value => value.sub_sections@[k]));
            converted.push(SectionV5::from_v4(s));
            assert(rest@ =~= subs.skip(k + 1));
        }
        assert forall|i: int| 0 <= i < value.sub_sections@.len() implies decreases_to!(value => value.sub_sections@[i]) by {}
        SectionV5 {
            id,
            css_classes,
            sub_sections: converted,
            children,
            visible_in_toc,
            metadata: SectionMetadataV5::from_v4(metadata),
        }
    }
}

impl SectionOrTocV4 {
    /// The entry of the next version: a section converted, the table of
    /// contents kept.
    pub fn into_v5(self) -> (r: SectionOrTocV5)
        ensures
            match self {
                SectionOrTocV4::Section(s) => r matches SectionOrTocV5::Section(t) && section_v5_of(t, s),
                SectionOrTocV4::Toc => r is Toc,
            },
    {
        match self {
            SectionOrTocV4::Section(section) => SectionOrTocV5::Section(SectionV5::from_v4(section)),
            SectionOrTocV4::Toc => SectionOrTocV5::Toc,
        }
    }
}

// ---------------------------------------------------------------------------
// Citation keys
// ---------------------------------------------------------------------------

/// Whether `r` is `s` with the citation keys in the texts of its blocks,
/// and of those of its sub-sections, rewritten along `m` (pairs of old and
/// new key); all else stays.
pub open spec fn citations_migrated(r: SectionV5, s: SectionV5, m: Seq<(Seq<char>, Seq<char>)>) -> bool
    decreases s,
{
    &&& r.id == s.id
    &&& r.css_classes == s.css_classes
    &&& r.visible_in_toc == s.visible_in_toc
    &&& r.metadata == s.metadata
    &&& r.children@.len() == s.children@.len()
    &&& forall|i: int|
        0 <= i < s.children@.len() ==> #[trigger] r.children@[i]@ == (ContentBlockView {
            data: migrate_data_spec(s.children@[i]@.data, m),
            ..s.children@[i]@
        })
    &&& r.sub_sections@.len() == s.sub_sections@.len()
    &&& forall|i: int|
        0 <= i < s.sub_sections@.len() ==> {
            &&& decreases_to!(s => s.sub_sections@[i])
            &&& citations_migrated(#[trigger] r.sub_sections@[i], s.sub_sections@[i], m)
        }
}

/// Rewrites the citation keys in the texts of all blocks of a section and
/// of its sub-sections along `mapping` (pairs of old and new key).
pub fn migrate_citations_in_section_v5(section: &mut SectionV5, mapping: &Vec<(String, String)>)
    ensures
        citations_migrated(*final(section), *old(section), mapping_view(mapping@)),
    decreases *old(section),
{
    let ghost m = mapping_view(mapping@);
    let ghost before = *section;
    let mut children: Vec<NewContentBlock> = Vec::new();
    std::mem::swap(&mut children, &mut section.children);
    let mut blocks: Vec<NewContentBlock> = Vec::new();
    while children.len() > 0
        invariant
            blocks@.len() + children@.len() == before.children@.len(),
            children@ == before.children@.skip(blocks@.len() as int),
            m == mapping_view(mapping@),
            forall|i: int|
                0 <= i < blocks@.len() ==> #[trigger] blocks@[i]@ == (ContentBlockView {
                    data: migrate_data_spec(before.children@[i]@.data, m),
                    ..before.children@[i]@
                }),
        decreases children@.len(),
    {
        let ghost k = blocks@.len() as int;
        let mut b = children.remove(0);
        assert(b == before.children@[k]);
        migrate_citations_in_block(&mut b, mapping);
        blocks.push(b);
        assert(children@ =~= before.children@.skip(k + 1));
    }
    section.children = blocks;
    let mut subs: Vec<SectionV5> = Vec::new();
    std::mem::swap(&mut subs, &mut section.sub_sections);
    let mut done: Vec<SectionV5> = Vec::new();
    while subs.len() > 0
        invariant
            done@.len() + subs@.len() == before.sub_sections@.len(),
            before == *old(section),
            subs@ == before.sub_sections@.skip(done@.len() as int),
            m == mapping_view(mapping@),
            forall|i: int|
                0 <= i < done@.len() ==> citations_migrated(
                    #[trigger] done@[i],
                    before.sub_sections@[i],
                    m,
                ),
        decreases subs@.len(),
    {
        let ghost k = done@.len() as int;
        let mut sub = subs.remove(0);
        assert(sub == before.sub_sections@[k]);
        assert(decreases_to!(before => before.sub_sections@[k]));
        migrate_citations_in_section_v5(&mut sub, mapping);
        done.push(sub);
        assert(subs@ =~= before.sub_sections@.skip(k + 1));
    }
    section.sub_sections = done;
    assert forall|i: int| 0 <= i < before.sub_sections@.len() implies decreases_to!(before => before.sub_sections@[i]) by {}
}

// ---------------------------------------------------------------------------
// Content
// ---------------------------------------------------------------------------

/// A new `yrs::Doc` whose array `blocks` gets the maps pushed in order
/// (`Array::push_back`), then encoded as one update
/// (`encode_state_as_update_v1` against the empty state vector). A new
/// document draws a random client id, which the update carries, so the
/// bytes themselves are not stated: what is stated is that they are not
/// empty and that the update, applied to a new document, gives back the
/// maps in order, each value read back as written.
#[verifier::external_body]
fn encode_block_maps(maps: Vec<MapPrelim>) -> (r: Vec<u8>)
    ensures
        decodes_to(r@, written_maps(maps@)),
        r@.len() > 0,
{
    let doc = Doc::new();
    let blocks = doc.get_or_insert_array("blocks");
    {
        let mut txn = doc.transact_mut();
        for map in maps {
            yrs::Array::push_back(&blocks, &mut txn, map);
        }
    }
    let update = doc.transact().encode_state_as_update_v1(&StateVector::default());
    update
}

/// The stored content for a list of blocks: a new document whose block
/// array holds the map of each block (see `block_map_prelim`), in order,
/// encoded as one update.
pub fn convert_contentblocks_to_yrs(blocks: &Vec<NewContentBlock>) -> (r: Vec<u8>)
    ensures
        r@.len() > 0,
        decodes_to(r@, written_blocks(content_views(blocks@))),
{
    let mut maps: Vec<MapPrelim> = Vec::new();
    let mut i: usize = 0;
    while i < blocks.len()
        invariant
            i <= blocks.len(),
            maps@.len() == i,
            forall|k: int|
                0 <= k < i ==> map_prelim_contents(#[trigger] maps@[k]) == prelim_map(write_block(blocks@[k]@)),
        decreases blocks.len() - i,
    {
        maps.push(block_map_prelim(&blocks[i]));
        i = i + 1;
    }
    let r = encode_block_maps(maps);
    assert(written_maps(maps@) =~= written_blocks(content_views(blocks@)));
    r
}

/// The views of blocks.
pub open spec fn content_views(blocks: Seq<NewContentBlock>) -> Seq<ContentBlockView> {
    blocks.map_values(|b: NewContentBlock| b@)
}

// ---------------------------------------------------------------------------
// Sections
// ---------------------------------------------------------------------------

/// Whether `r` is the current form of section `s`: the same identifier,
/// classes and visibility, migrated metadata, and its sub-sections, in
/// order, the current forms of those of `s`; its content the stored
/// document of the blocks of `s` (see `convert_contentblocks_to_yrs`).
pub open spec fn section_migrated(r: SectionV6, s: SectionV5) -> bool
    decreases s,
{
    &&& r.id == s.id
    &&& r.css_classes == s.css_classes
    &&& r.visible_in_toc == s.visible_in_toc
    &&& metadata_migrated(r.metadata, s.metadata)
    &&& r.content@.len() > 0
    &&& decodes_to(r.content@, written_blocks(content_views(s.children@)))
    &&& r.sub_sections@.len() == s.sub_sections@.len()
    &&& forall|i: int|
        0 <= i < s.sub_sections@.len() ==> {
            &&& decreases_to!(s => s.sub_sections@[i])
            &&& section_migrated(#[trigger] r.sub_sections@[i], s.sub_sections@[i])
        }
}

impl SectionV6 {
    /// The current form of a section of the earlier version, with its
    /// sub-sections: its blocks written into a document.
    pub fn from_v5(value: SectionV5) -> (r: SectionV6)
        ensures
            section_migrated(r, value),
        decreases value,
    {
        let content = convert_contentblocks_to_yrs(&value.children);
        let SectionV5 { id, css_classes, sub_sections, children, visible_in_toc, metadata } = value;
        let ghost subs = sub_sections@;
        let mut rest = sub_sections;
        let mut migrated: Vec<SectionV6> = Vec::new();
        while rest.len() > 0
            invariant
                migrated@.len() + rest@.len() == subs.len(),
                rest@ == subs.skip(migrated@.len() as int),
                subs == value.sub_sections@,
                forall|i: int|
                    0 <= i < migrated@.len() ==> section_migrated(
                        #[trigger] migrated@[i],
                        subs[i],
                    ),
            decreases rest@.len(),
        {
            let ghost k = migrated@.len() as int;
            let s = rest.remove(0);
            assert(s == subs[k]);
            assert(decreases_to!(value => value.sub_sections@[k]));
            let m = SectionV6::from_v5(s);
            migrated.push(m);
            assert(rest@ =~= subs.skip(k + 1));
        }
        let r = SectionV6 {
            id,
            css_classes,
            sub_sections: migrated,
            content,
            visible_in_toc,
            metadata: metadata_from_v5(metadata),
        };
        assert forall|i: int| 0 <= i < value.sub_sections@.len() implies decreases_to!(value => value.sub_sections@[i]) by {}
        r
    }

    /// The section without its sub-sections.
    pub fn clone_without_subsections(&self) -> (r: SectionV6)
        ensures
            r.id == self.id,
            r.css_classes@ == self.css_classes@,
            r.sub_sections@.len() == 0,
            r.content@ == self.content@,
            r.visible_in_toc == self.visible_in_toc,
    {
        SectionV6 {
            id: self.id,
            css_classes: self.css_classes.clone(),
            sub_sections: Vec::new(),
            content: self.content.clone(),
            visible_in_toc: self.visible_in_toc,
            metadata: self.metadata.clone(),
        }
    }
}

impl SectionOrTocV5 {
    /// The section of an entry; none for the table of contents.
    pub fn into_section(self) -> (r: Option<SectionV5>)
        ensures
            match self {
                SectionOrTocV5::Section(s) => r == Some(s),
                SectionOrTocV5::Toc => r is None,
            },
    {
        match self {
            SectionOrTocV5::Section(section) => Some(section),
            SectionOrTocV5::Toc => None,
        }
    }
}

/// The current form of an entry of a section list of the earlier version:
/// a section is migrated; the table of contents becomes a visible section
/// titled "Table of Contents" with a fresh random identifier, no content
/// and no other metadata.
pub fn section_from_v5_entry(value: SectionOrTocV5) -> (r: SectionV6)
    ensures
        match value {
            SectionOrTocV5::Section(s) => section_migrated(r, s),
            SectionOrTocV5::Toc => {
                &&& r.id is Some
                &&& r.css_classes@.len() == 0
                &&& r.sub_sections@.len() == 0
                &&& r.content@.len() == 0
                &&& r.visible_in_toc
                &&& r.metadata.title@ == "Table of Contents"@
                &&& r.metadata.toc_title_subtitle_override is None
                &&& r.metadata.subtitle is None
                &&& r.metadata.authors@.len() == 0
                &&& r.metadata.editors@.len() == 0
                &&& r.metadata.web_url is None
                &&& r.metadata.identifiers@.len() == 0
                &&& r.metadata.published is None
                &&& r.metadata.last_changed is None
                &&& r.metadata.lang is None
                &&& r.metadata.custom_fields@.len() == 0
            },
        },
{
    match value {
        SectionOrTocV5::Section(section) => SectionV6::from_v5(section),
        SectionOrTocV5::Toc => SectionV6 {
            id: Some(uuid_value(&new_uuid())),
            css_classes: Vec::new(),
            sub_sections: Vec::new(),
            content: Vec::new(),
            visible_in_toc: true,
            metadata: SectionMetadata {
                title: owned("Table of Contents"),
                toc_title_subtitle_override: None,
                subtitle: None,
                authors: Vec::new(),
                editors: Vec::new(),
                web_url: None,
                identifiers: Vec::new(),
                published: None,
                last_changed: None,
                lang: None,
                custom_fields: Vec::new(),
            },
        },
    }
}

} // verus!
