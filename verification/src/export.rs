//! The HTML of content blocks for export, and the options and person
//! checks of the section view.
use vstd::prelude::*;
use crate::content::{BlockData, BlockType, NewContentBlock, owned};
use crate::text::{join_spec, join_with_space, strings_view, text_eq, unescape_html, unescape_html_spec};
use crate::wordpress::{decimal, decimal_text};
use crate::storage::{split_at, split_at_char};
use crate::richtext::{last_attr, pairs_view, render_texts, replacement_of, texts_rendered, AttrView, Replacement};
use crate::text::{escape_html_spec, lemma_unescape_escape, no_entity};
use crate::projects::ProjectSettingsV5;
use crate::languages::HyphenationDictionary;

verus! {

// ---------------------------------------------------------------------------
// Blocks
// ---------------------------------------------------------------------------

/// A block with its export HTML.
#[derive(Clone, Debug, PartialEq)]
pub struct PreparedContentBlock {
    pub id: String,
    pub block_type: BlockType,
    pub html: String,
}

/// The class attribute of a block: ` class='…'` with the classes joined by
/// spaces, or nothing without classes.
pub open spec fn class_attr(classes: Seq<Seq<char>>) -> Seq<char> {
    if classes.len() > 0 {
        " class='"@ + join_spec(classes) + "'"@
    } else {
        Seq::empty()
    }
}

/// The list items, each as `<li id='block id'>item</li>`.
pub open spec fn list_items_html(id: Seq<char>, items: Seq<Seq<char>>) -> Seq<char>
    decreases items.len(),
{
    if items.len() == 0 {
        Seq::empty()
    } else {
        list_items_html(id, items.drop_last()) + "<li id='"@ + id + "'>"@ + items.last() + "</li>"@
    }
}

/// The texts of a block that are rendered for export, in order: the text of
/// a paragraph or heading, the items of a list, the text and caption of a
/// quote; raw HTML and images have none.
pub open spec fn block_texts(b: NewContentBlock) -> Seq<Seq<char>> {
    match b.data {
        BlockData::Paragraph { text } => seq![text@],
        BlockData::Heading { text, .. } => seq![text@],
        BlockData::List { items, .. } => strings_view(items@),
        BlockData::Quote { text, caption, .. } => seq![text@, caption@],
        _ => Seq::empty(),
    }
}

/// The export HTML of a block, with `texts` in place of its texts (see
/// `block_texts`); an image block is written with its data URL, and is
/// empty when the image could not be loaded (`image_src` is `None`).
pub open spec fn block_html_of(b: NewContentBlock, texts: Seq<Seq<char>>, image_src: Option<Seq<char>>) -> Seq<char> {
    let id = b.id@;
    let classes = strings_view(b.css_classes@);
    let css = class_attr(classes);
    match b.data {
        BlockData::Paragraph { .. } => "<p id='"@ + id + "' "@ + css + ">"@ + texts[0] + "</p>"@,
        BlockData::Heading { level, .. } => "<h"@ + decimal(level as nat) + " id='"@ + id + "' "@
            + css + ">"@ + texts[0] + "</h"@ + decimal(level as nat) + ">"@,
        BlockData::Raw { html } => html@,
        BlockData::List { style, .. } => {
            let inner = list_items_html(id, texts);
            if style@ == "ordered"@ {
                "<ol id='"@ + id + "' "@ + css + ">"@ + inner + "</ol>"@
            } else {
                "<ul id='"@ + id + "' "@ + css + ">"@ + inner + "</ul>"@
            }
        },
        BlockData::Quote { alignment, .. } => "<blockquote id='"@ + id + "' class=\"align-"@
            + alignment@ + " "@ + join_spec(classes) + "\"><p>"@ + texts[0] + "</p><footer>"@
            + texts[1] + "</footer></blockquote>"@,
        BlockData::Image { caption, .. } => match image_src {
            Some(src) => "<img id='"@ + id + "' src=\""@ + src + "\" alt=\""@ + match caption {
                Some(c) => c@,
                None => Seq::empty(),
            } + "\" "@ + css + "/>"@,
            None => Seq::empty(),
        },
    }
}

/// The export HTML of a block whose texts are already rendered.
pub open spec fn block_html_spec(b: NewContentBlock, image_src: Option<Seq<char>>) -> Seq<char> {
    block_html_of(b, block_texts(b), image_src)
}

fn class_attr_exec(classes: &Vec<String>) -> (r: String)
    ensures
        r@ == class_attr(strings_view(classes@)),
{
    if classes.len() > 0 {
        let mut r = String::new();
        r.append(" class='");
        let j = join_with_space(classes);
        r.append(j.as_str());
        r.append("'");
        r
    } else {
        String::new()
    }
}

/// The texts of a block that are rendered for export.
pub fn block_texts_exec(block: &NewContentBlock) -> (r: Vec<String>)
    ensures
        strings_view(r@) == block_texts(*block),
{
    let mut r: Vec<String> = Vec::new();
    match &block.data {
        BlockData::Paragraph { text } => r.push(text.clone()),
        BlockData::Heading { text, .. } => r.push(text.clone()),
        BlockData::List { items, .. } => {
            let mut i: usize = 0;
            while i < items.len()
                invariant
                    i <= items.len(),
                    strings_view(r@) == strings_view(items@.take(i as int)),
                decreases items.len() - i,
            {
                let ghost before = r@;
                let c = items[i].clone();
                r.push(c);
                assert(items@.take(i + 1) =~= items@.take(i as int).push(items@[i as int]));
                assert(strings_view(r@) =~= strings_view(before).push(items@[i as int]@));
                assert(strings_view(items@.take(i + 1)) =~= strings_view(items@.take(i as int)).push(
                    items@[i as int]@,
                ));
                i = i + 1;
            }
            assert(items@.take(i as int) =~= items@);
        },
        BlockData::Quote { text, caption, .. } => {
            r.push(text.clone());
            r.push(caption.clone());
        },
        _ => {},
    }
    assert(strings_view(r@) =~= block_texts(*block));
    r
}

/// Writes the export HTML of a block with `texts` in place of its texts,
/// given the data URL of its image for an image block.
pub fn block_html_with(block: &NewContentBlock, texts: &Vec<String>, image_src: Option<String>) -> (r:
    PreparedContentBlock)
    requires
        texts.len() == block_texts(*block).len(),
    ensures
        r.id@ == block.id@,
        r.block_type == block.block_type,
        r.html@ == block_html_of(
            *block,
            strings_view(texts@),
            match image_src {
                Some(s) => Some(s@),
                None => None,
            },
        ),
{
    let id = block.id.as_str();
    let css = class_attr_exec(&block.css_classes);
    let mut out = String::new();
    match &block.data {
        BlockData::Paragraph { .. } => {
            out.append("<p id='");
            out.append(id);
            out.append("' ");
            out.append(css.as_str());
            out.append(">");
            out.append(texts[0].as_str());
            out.append("</p>");
        },
        BlockData::Heading { level, .. } => {
            let l = decimal_text(*level as usize);
            out.append("<h");
            out.append(l.as_str());
            out.append(" id='");
            out.append(id);
            out.append("' ");
            out.append(css.as_str());
            out.append(">");
            out.append(texts[0].as_str());
            out.append("</h");
            out.append(l.as_str());
            out.append(">");
        },
        BlockData::Raw { html } => {
            out.append(html.as_str());
        },
        BlockData::List { style, .. } => {
            let mut inner = String::new();
            let mut i: usize = 0;
            while i < texts.len()
                invariant
                    i <= texts.len(),
                    inner@ == list_items_html(id@, strings_view(texts@.take(i as int))),
                decreases texts.len() - i,
            {
                assert(strings_view(texts@.take(i + 1)).drop_last() =~= strings_view(
                    texts@.take(i as int),
                ));
                assert(strings_view(texts@.take(i + 1)).last() == texts@[i as int]@);
                inner.append("<li id='");
                inner.append(id);
                inner.append("'>");
                inner.append(texts[i].as_str());
                inner.append("</li>");
                i = i + 1;
            }
            assert(texts@.take(i as int) =~= texts@);
            if text_eq(style.as_str(), "ordered") {
                out.append("<ol id='");
                out.append(id);
                out.append("' ");
                out.append(css.as_str());
                out.append(">");
                out.append(inner.as_str());
                out.append("</ol>");
            } else {
                out.append("<ul id='");
                out.append(id);
                out.append("' ");
                out.append(css.as_str());
                out.append(">");
                out.append(inner.as_str());
                out.append("</ul>");
            }
        },
        BlockData::Quote { alignment, .. } => {
            let raw = join_with_space(&block.css_classes);
            out.append("<blockquote id='");
            out.append(id);
            out.append("' class=\"align-");
            out.append(alignment.as_str());
            out.append(" ");
            out.append(raw.as_str());
            out.append("\"><p>");
            out.append(texts[0].as_str());
            out.append("</p><footer>");
            out.append(texts[1].as_str());
            out.append("</footer></blockquote>");
        },
        BlockData::Image { caption, .. } => {
            match &image_src {
                Some(src) => {
                    out.append("<img id='");
                    out.append(id);
                    out.append("' src=\"");
                    out.append(src.as_str());
                    out.append("\" alt=\"");
                    match caption {
                        Some(c) => out.append(c.as_str()),
                        None => {},
                    }
                    out.append("\" ");
                    out.append(css.as_str());
                    out.append("/>");
                },
                None => {},
            }
        },
    }
    PreparedContentBlock { id: owned(id), block_type: block.block_type, html: out }
}

/// Writes the export HTML of a block whose texts are already rendered,
/// given the data URL of its image for an image block.
pub fn block_html(block: &NewContentBlock, image_src: Option<String>) -> (r: PreparedContentBlock)
    ensures
        r.id@ == block.id@,
        r.block_type == block.block_type,
        r.html@ == block_html_spec(
            *block,
            match image_src {
                Some(s) => Some(s@),
                None => None,
            },
        ),
{
    let texts = block_texts_exec(block);
    block_html_with(block, &texts, image_src)
}

/// Renders a content block for export: each of its texts, in order, through
/// `render_text` (citations as endnotes, collected in `endnote_storage`),
/// then the block's HTML around the rendered texts; an image block is
/// written with the data URL of its loaded image, if any.
pub fn render_content_block(
    block: &NewContentBlock,
    endnote_storage: &mut Vec<(String, String)>,
    dict: &HyphenationDictionary,
    citation_bib: &Vec<(String, String)>,
    add_soft_hyphens: bool,
    image_src: Option<String>,
) -> (r: PreparedContentBlock)
    ensures
        r.id@ == block.id@,
        r.block_type == block.block_type,
        exists|outs: Seq<Seq<char>>, states: Seq<Seq<(Seq<char>, Seq<char>)>>|
            #[trigger] texts_rendered(
                block_texts(*block),
                outs,
                states,
                pairs_view(citation_bib@),
                add_soft_hyphens,
                false,
            ) && states[0] == pairs_view(old(endnote_storage)@) && states.last() == pairs_view(
                final(endnote_storage)@,
            ) && r.html@ == block_html_of(
                *block,
                outs,
                match image_src {
                    Some(s) => Some(s@),
                    None => None,
                },
            ),
{
    let texts = block_texts_exec(block);
    let outs = render_texts(&texts, endnote_storage, dict, citation_bib, add_soft_hyphens, false);
    block_html_with(block, &outs, image_src)
}

/// An endnote of a section, numbered from 1 in the order of storage.
pub struct PreparedEndnote {
    pub num: usize,
    pub id: String,
    pub content: String,
}

/// The endnotes of a section from those that rendering stored: numbered
/// from 1 in order, with their content unescaped.
pub fn prepare_endnotes(storage: &Vec<(String, String)>) -> (r: Vec<PreparedEndnote>)
    ensures
        r.len() == storage.len(),
        forall|i: int|
            0 <= i < r.len() ==> {
                &&& #[trigger] r@[i].num == i + 1
                &&& r@[i].id@ == storage@[i].0@
                &&& r@[i].content@ == unescape_html_spec(storage@[i].1@)
            },
{
    let mut r: Vec<PreparedEndnote> = Vec::new();
    let mut i: usize = 0;
    while i < storage.len()
        invariant
            i <= storage.len(),
            r.len() == i,
            forall|k: int|
                0 <= k < i ==> {
                    &&& #[trigger] r@[k].num == k + 1
                    &&& r@[k].id@ == storage@[k].0@
                    &&& r@[k].content@ == unescape_html_spec(storage@[k].1@)
                },
        decreases storage.len() - i,
    {
        let e = &storage[i];
        r.push(PreparedEndnote { num: i + 1, id: e.0.clone(), content: unescape_html(e.1.as_str()) });
        i = i + 1;
    }
    r
}

/// The note of an endnote span comes back as it was written in the prepared
/// endnotes, where it holds none of the entities `&lt;`, `&gt;` and
/// `&quot;`: rendering stores it escaped, and preparing unescapes it.
pub proof fn lemma_endnote_note_restored(
    attrs: Seq<AttrView>,
    bib: Seq<(Seq<char>, Seq<char>)>,
    as_footnote: bool,
    note: Seq<char>,
)
    requires
        last_attr(attrs, "note-type"@) == Some("endnote"@),
        last_attr(attrs, "note-content"@) == Some(note),
        no_entity(note),
    ensures
        replacement_of("span"@, attrs, bib, as_footnote) == Replacement::Endnote(escape_html_spec(note)),
        unescape_html_spec(escape_html_spec(note)) == note,
{
    assert("endnote"@ != "footnote"@) by {
        reveal_strlit("endnote");
        reveal_strlit("footnote");
        assert("endnote"@.len() != "footnote"@.len());
    }
    lemma_unescape_escape(note);
}

// ---------------------------------------------------------------------------
// Project preparation
// ---------------------------------------------------------------------------

/// Why a project cannot be prepared for export.
#[derive(Clone, Copy, Debug, PartialEq, Eq, Structural)]
pub enum RenderingError {
    /// The project has no metadata.
    ProjectMetadataMissing,
}

/// A project is only prepared with its metadata.
pub fn require_metadata(has_metadata: bool) -> (r: Result<(), RenderingError>)
    ensures
        r is Ok <==> has_metadata,
        !has_metadata ==> r == Err::<(), RenderingError>(RenderingError::ProjectMetadataMissing),
{
    if has_metadata {
        Ok(())
    } else {
        Err(RenderingError::ProjectMetadataMissing)
    }
}

/// Whether soft hyphens are added: as the settings say, and not without
/// settings.
pub fn adds_soft_hyphens(settings: &Option<ProjectSettingsV5>) -> (r: bool)
    ensures
        r == match settings {
            Some(s) => s.add_soft_hyphens,
            None => false,
        },
{
    match settings {
        Some(s) => s.add_soft_hyphens,
        None => false,
    }
}

/// The position of the first style from `k` on that has this name, or the
/// first position where none has.
pub open spec fn first_style(styles: Seq<Seq<char>>, name: Seq<char>, k: int) -> int
    decreases styles.len() - k,
{
    if k < 0 || k >= styles.len() {
        0
    } else if styles[k] == name {
        k
    } else {
        first_style(styles, name, k + 1)
    }
}

/// The position of the citation style in the available styles (listed in
/// the order in which the style store yields them): the style the settings
/// name where it is available, otherwise the first one.
pub open spec fn citation_style_spec(settings: Option<ProjectSettingsV5>, styles: Seq<Seq<char>>) -> int {
    match settings {
        Some(s) => match s.csl_style {
            Some(name) => first_style(styles, name@, 0),
            None => 0,
        },
        None => 0,
    }
}

proof fn lemma_first_style_bounds(styles: Seq<Seq<char>>, name: Seq<char>, k: int)
    requires
        styles.len() > 0,
    ensures
        0 <= first_style(styles, name, k) < styles.len(),
    decreases styles.len() - k,
{
    if 0 <= k < styles.len() && styles[k] != name {
        lemma_first_style_bounds(styles, name, k + 1);
    }
}

/// Picks the citation style: the one the settings name where it is
/// available (its first listing), otherwise the first style.
pub fn citation_style(settings: &Option<ProjectSettingsV5>, styles: &Vec<String>) -> (r: usize)
    requires
        styles.len() > 0,
    ensures
        r < styles.len(),
        r as int == citation_style_spec(*settings, strings_view(styles@)),
{
    let ghost sv = strings_view(styles@);
    match settings {
        Some(s) => match &s.csl_style {
            Some(name) => {
                proof {
                    lemma_first_style_bounds(sv, name@, 0);
                }
                let mut k: usize = 0;
                while k < styles.len()
                    invariant
                        k <= styles.len(),
                        sv == strings_view(styles@),
                        first_style(sv, name@, 0) == first_style(sv, name@, k as int),
                        citation_style_spec(*settings, sv) == first_style(sv, name@, 0),
                    decreases styles.len() - k,
                {
                    assert(sv[k as int] == styles@[k as int]@);
                    if text_eq(styles[k].as_str(), name.as_str()) {
                        return k;
                    }
                    k = k + 1;
                }
                0
            },
            None => 0,
        },
        None => 0,
    }
}

/// The locale of the citations: the settings' language code, `en-us`
/// without one.
pub fn citation_locale(settings: &Option<ProjectSettingsV5>) -> (r: String)
    ensures
        r@ == match settings {
            Some(s) => match s.csl_language_code {
                Some(c) => c@,
                None => "en-us"@,
            },
            None => "en-us"@,
        },
{
    match settings {
        Some(s) => match &s.csl_language_code {
            Some(c) => c.clone(),
            None => owned("en-us"),
        },
        None => owned("en-us"),
    }
}

/// The sections that are prepared, by position: those with an id, and of
/// them only those listed where a list is given.
pub open spec fn section_selected(id: Option<u128>, wanted: Option<Seq<u128>>) -> bool {
    match id {
        Some(i) => match wanted {
            Some(list) => list.contains(i),
            None => true,
        },
        None => false,
    }
}

/// The positions of the sections to prepare, in order.
pub fn sections_to_prepare(ids: &Vec<Option<u128>>, wanted: &Option<Vec<u128>>) -> (r: Vec<usize>)
    ensures
        forall|m: int| 0 <= m < r.len() ==> (r@[m] as int) < ids.len(),
        forall|m: int, n: int| 0 <= m < n < r.len() ==> r@[m] < r@[n],
        forall|k: int|
            0 <= k < ids.len() ==> (section_selected(
                #[trigger] ids@[k],
                match wanted {
                    Some(l) => Some(l@),
                    None => None,
                },
            ) <==> r@.contains(k as usize)),
{
    let ghost inc = match wanted {
        Some(l) => Some(l@),
        None => None::<Seq<u128>>,
    };
    let mut r: Vec<usize> = Vec::new();
    let mut i: usize = 0;
    while i < ids.len()
        invariant
            i <= ids.len(),
            inc == match wanted {
                Some(l) => Some(l@),
                None => None::<Seq<u128>>,
            },
            forall|m: int| 0 <= m < r.len() ==> (r@[m] as int) < i,
            forall|m: int, n: int| 0 <= m < n < r.len() ==> r@[m] < r@[n],
            forall|k: int| 0 <= k < i ==> (section_selected(#[trigger] ids@[k], inc) <==> r@.contains(k as usize)),
        decreases ids.len() - i,
    {
        let selected = match ids[i] {
            Some(id) => match wanted {
                Some(list) => contains_id(list, id),
                None => true,
            },
            None => false,
        };
        let ghost before = r@;
        if selected {
            r.push(i);
            assert forall|k: int| 0 <= k < i + 1 implies (section_selected(#[trigger] ids@[k], inc)
                <==> r@.contains(k as usize)) by {
                if k < i {
                    if before.contains(k as usize) {
                        let w = choose|w: int| 0 <= w < before.len() && before[w] == k as usize;
                        assert(r@[w] == k as usize);
                    }
                    if r@.contains(k as usize) {
                        let w = choose|w: int| 0 <= w < r@.len() && r@[w] == k as usize;
                        if w == before.len() {
                            assert(r@[w] == i);
                        } else {
                            assert(before[w] == k as usize);
                        }
                    }
                } else {
                    assert(r@[before.len() as int] == i);
                }
            }
        } else {
            assert forall|k: int| 0 <= k < i + 1 implies (section_selected(#[trigger] ids@[k], inc)
                <==> r@.contains(k as usize)) by {
                if k == i {
                    if r@.contains(k as usize) {
                        let w = choose|w: int| 0 <= w < r@.len() && r@[w] == k as usize;
                        assert((r@[w] as int) < i);
                    }
                }
            }
        }
        i = i + 1;
    }
    r
}

fn contains_id(list: &Vec<u128>, id: u128) -> (b: bool)
    ensures
        b == list@.contains(id),
{
    let mut k: usize = 0;
    while k < list.len()
        invariant
            k <= list.len(),
            forall|j: int| 0 <= j < k ==> list@[j] != id,
        decreases list.len() - k,
    {
        if list[k] == id {
            assert(list@[k as int] == id);
            return true;
        }
        k = k + 1;
    }
    false
}

// ---------------------------------------------------------------------------
// Section view
// ---------------------------------------------------------------------------

/// Which person lists of a section are shown in full.
#[derive(Clone, Copy, Debug, PartialEq, Eq, Structural)]
pub struct ExpandOptions {
    pub authors: bool,
    pub editors: bool,
}

/// The options of the `expand` parameter: the comma-separated parts
/// `authors` and `editors` turn on the full lists.
pub open spec fn expand_spec(expand: Option<Seq<char>>) -> ExpandOptions {
    match expand {
        Some(e) => ExpandOptions {
            authors: split_at_char(e, ',').contains("authors"@),
            editors: split_at_char(e, ',').contains("editors"@),
        },
        None => ExpandOptions { authors: false, editors: false },
    }
}

fn contains_text(parts: &Vec<String>, x: &str) -> (b: bool)
    ensures
        b == strings_view(parts@).contains(x@),
{
    let mut i: usize = 0;
    while i < parts.len()
        invariant
            i <= parts.len(),
            forall|k: int| 0 <= k < i ==> parts@[k]@ != x@,
        decreases parts.len() - i,
    {
        if text_eq(parts[i].as_str(), x) {
            assert(strings_view(parts@)[i as int] == x@);
            return true;
        }
        i = i + 1;
    }
    proof {
        if strings_view(parts@).contains(x@) {
            let k = choose|k: int| 0 <= k < parts@.len() && strings_view(parts@)[k] == x@;
            assert(parts@[k]@ == x@);
        }
    }
    false
}

/// Reads the `expand` parameter of the section view.
pub fn expand_options(expand: Option<&str>) -> (r: ExpandOptions)
    ensures
        r == expand_spec(
            match expand {
                Some(e) => Some(e@),
                None => None,
            },
        ),
{
    match expand {
        Some(e) => {
            let parts = split_at(e, ',');
            ExpandOptions {
                authors: contains_text(&parts, "authors"),
                editors: contains_text(&parts, "editors"),
            }
        },
        None => ExpandOptions { authors: false, editors: false },
    }
}

/// Which parts of a project the project view adds to its name and
/// description.
#[derive(Clone, Copy, Debug, PartialEq, Eq, Structural)]
pub struct ProjectExtendOptions {
    pub template: bool,
    pub metadata: bool,
    pub metadata_authors: bool,
    pub metadata_editors: bool,
    pub settings: bool,
    pub sections: bool,
    pub bibliography: bool,
    pub available_csl_styles: bool,
    pub available_csl_locales: bool,
}

/// The options of the `extend` parameter of the project view: each
/// comma-separated part that names a part adds it (the full author and
/// editor lists only along with the metadata).
pub open spec fn extend_spec(extend: Option<Seq<char>>) -> ProjectExtendOptions {
    match extend {
        Some(e) => {
            let parts = split_at_char(e, ',');
            ProjectExtendOptions {
                template: parts.contains("template"@),
                metadata: parts.contains("metadata"@),
                metadata_authors: parts.contains("metadata"@) && parts.contains("metadata.authors"@),
                metadata_editors: parts.contains("metadata"@) && parts.contains("metadata.editors"@),
                settings: parts.contains("settings"@),
                sections: parts.contains("sections"@),
                bibliography: parts.contains("bibliography"@),
                available_csl_styles: parts.contains("available_csl_styles"@),
                available_csl_locales: parts.contains("available_csl_locales"@),
            }
        },
        None => ProjectExtendOptions {
            template: false,
            metadata: false,
            metadata_authors: false,
            metadata_editors: false,
            settings: false,
            sections: false,
            bibliography: false,
            available_csl_styles: false,
            available_csl_locales: false,
        },
    }
}

/// Reads the `extend` parameter of the project view.
pub fn extend_options(extend: Option<&str>) -> (r: ProjectExtendOptions)
    ensures
        r == extend_spec(
            match extend {
                Some(e) => Some(e@),
                None => None,
            },
        ),
{
    match extend {
        Some(e) => {
            let parts = split_at(e, ',');
            let metadata = contains_text(&parts, "metadata");
            let authors = contains_text(&parts, "metadata.authors");
            let editors = contains_text(&parts, "metadata.editors");
            ProjectExtendOptions {
                template: contains_text(&parts, "template"),
                metadata,
                metadata_authors: metadata && authors,
                metadata_editors: metadata && editors,
                settings: contains_text(&parts, "settings"),
                sections: contains_text(&parts, "sections"),
                bibliography: contains_text(&parts, "bibliography"),
                available_csl_styles: contains_text(&parts, "available_csl_styles"),
                available_csl_locales: contains_text(&parts, "available_csl_locales"),
            }
        },
        None => ProjectExtendOptions {
            template: false,
            metadata: false,
            metadata_authors: false,
            metadata_editors: false,
            settings: false,
            sections: false,
            bibliography: false,
            available_csl_styles: false,
            available_csl_locales: false,
        },
    }
}

/// A person of a section: a reference to a stored person or a plain name.
#[derive(Clone, Debug, PartialEq, Eq)]
pub enum PersonUuidOrString {
    PersonUuid(u128),
    NameString(String),
}

/// The persons that remain when references to persons that no longer
/// exist are dropped; `exists[i]` tells whether the person of entry `i`
/// exists, and names always remain.
pub open spec fn valid_persons_spec(persons: Seq<PersonUuidOrString>, exists: Seq<bool>) -> Seq<
    PersonUuidOrString,
>
    decreases persons.len(),
{
    if persons.len() == 0 {
        Seq::empty()
    } else {
        let rest = valid_persons_spec(persons.drop_last(), exists);
        let i = persons.len() - 1;
        if persons[i] is NameString || (i < exists.len() && exists[i]) {
            rest.push(persons[i])
        } else {
            rest
        }
    }
}

fn copy_person(p: &PersonUuidOrString) -> (r: PersonUuidOrString)
    ensures
        r == *p,
{
    match p {
        PersonUuidOrString::PersonUuid(id) => PersonUuidOrString::PersonUuid(*id),
        PersonUuidOrString::NameString(s) => PersonUuidOrString::NameString(s.clone()),
    }
}

/// Drops the references to persons that no longer exist.
pub fn valid_persons(persons: &Vec<PersonUuidOrString>, exists: &Vec<bool>) -> (r: Vec<
    PersonUuidOrString,
>)
    ensures
        r@ == valid_persons_spec(persons@, exists@),
{
    let mut r: Vec<PersonUuidOrString> = Vec::new();
    let mut i: usize = 0;
    while i < persons.len()
        invariant
            i <= persons.len(),
            r@ == valid_persons_spec(persons@.take(i as int), exists@),
        decreases persons.len() - i,
    {
        assert(persons@.take(i + 1).drop_last() =~= persons@.take(i as int));
        assert(persons@.take(i + 1)[i as int] == persons@[i as int]);
        let keep = match &persons[i] {
            PersonUuidOrString::NameString(_) => true,
            PersonUuidOrString::PersonUuid(_) => i < exists.len() && exists[i],
        };
        if keep {
            r.push(copy_person(&persons[i]));
        }
        i = i + 1;
    }
    assert(persons@.take(i as int) =~= persons@);
    r
}

/// Dropping references keeps every name and every existing reference, in
/// order, and drops nothing when all references exist.
pub proof fn lemma_valid_persons_keeps_existing(persons: Seq<PersonUuidOrString>, exists: Seq<bool>)
    requires
        exists.len() == persons.len(),
        forall|i: int| 0 <= i < persons.len() && persons[i] is PersonUuid ==> exists[i],
    ensures
        valid_persons_spec(persons, exists) == persons,
    decreases persons.len(),
{
    if persons.len() > 0 {
        let p = persons.drop_last();
        lemma_valid_persons_sub(p, exists);
        assert(valid_persons_spec(p, exists) == p) by {
            lemma_valid_persons_prefix(persons, exists, persons.len() - 1);
        }
        assert(p.push(persons.last()) =~= persons);
    }
}

proof fn lemma_valid_persons_sub(persons: Seq<PersonUuidOrString>, exists: Seq<bool>)
    ensures
        valid_persons_spec(persons, exists).len() <= persons.len(),
    decreases persons.len(),
{
    if persons.len() > 0 {
        lemma_valid_persons_sub(persons.drop_last(), exists);
    }
}

proof fn lemma_valid_persons_prefix(persons: Seq<PersonUuidOrString>, exists: Seq<bool>, n: int)
    requires
        0 <= n <= persons.len(),
        exists.len() == persons.len(),
        forall|i: int| 0 <= i < persons.len() && persons[i] is PersonUuid ==> exists[i],
    ensures
        valid_persons_spec(persons.take(n), exists) == persons.take(n),
    decreases n,
{
    if n > 0 {
        lemma_valid_persons_prefix(persons, exists, n - 1);
        assert(persons.take(n).drop_last() =~= persons.take(n - 1));
        assert(persons.take(n)[n - 1] == persons[n - 1]);
        assert(persons.take(n - 1).push(persons[n - 1]) =~= persons.take(n));
    } else {
        assert(persons.take(0) =~= Seq::<PersonUuidOrString>::empty());
    }
}

// ---------------------------------------------------------------------------
// Persons of the sections of a project
// ---------------------------------------------------------------------------

/// The authors and editors of a prepared section and its sub-sections; a
/// stored person is known by its identifier.
#[derive(Debug)]
pub struct SectionPersons {
    pub authors: Vec<PersonUuidOrString>,
    pub editors: Vec<PersonUuidOrString>,
    pub sub_sections: Vec<SectionPersons>,
}

/// A person of a section, with a name as text.
pub enum PersonRef {
    Uuid(u128),
    Name(Seq<char>),
}

pub open spec fn person_ref(p: PersonUuidOrString) -> PersonRef {
    match p {
        PersonUuidOrString::PersonUuid(id) => PersonRef::Uuid(id),
        PersonUuidOrString::NameString(n) => PersonRef::Name(n@),
    }
}

pub open spec fn persons_view(s: Seq<PersonUuidOrString>) -> Seq<PersonRef> {
    s.map_values(|p: PersonUuidOrString| person_ref(p))
}

/// `list` with each of `items`, in order, appended where it is not yet in
/// it.
pub open spec fn add_missing(list: Seq<PersonRef>, items: Seq<PersonRef>) -> Seq<PersonRef>
    decreases items.len(),
{
    if items.len() == 0 {
        list
    } else {
        let l = add_missing(list, items.drop_last());
        if l.contains(items.last()) {
            l
        } else {
            l.push(items.last())
        }
    }
}

/// The authors (`editors` false) or editors (`editors` true) of a section
/// and of its sub-sections, section before sub-sections, in order.
pub open spec fn tree_persons(s: SectionPersons, editors: bool) -> Seq<PersonRef>
    decreases s, s.sub_sections@.len() + 1,
{
    persons_view(
        if editors {
            s.editors@
        } else {
            s.authors@
        },
    ) + forest_persons(s, editors, s.sub_sections@.len() as int)
}

/// The persons of the first `n` sub-sections of `s`, in order.
pub open spec fn forest_persons(s: SectionPersons, editors: bool, n: int) -> Seq<PersonRef>
    decreases s, n,
{
    if n <= 0 || n > s.sub_sections@.len() {
        Seq::empty()
    } else {
        let sub = s.sub_sections@[n - 1];
        if decreases_to!(s => sub) {
            forest_persons(s, editors, n - 1) + tree_persons(sub, editors)
        } else {
            Seq::empty()
        }
    }
}

proof fn lemma_add_missing_append(list: Seq<PersonRef>, a: Seq<PersonRef>, b: Seq<PersonRef>)
    ensures
        add_missing(list, a + b) == add_missing(add_missing(list, a), b),
    decreases b.len(),
{
    if b.len() == 0 {
        assert(a + b =~= a);
    } else {
        lemma_add_missing_append(list, a, b.drop_last());
        assert((a + b).drop_last() =~= a + b.drop_last());
        assert((a + b).last() == b.last());
    }
}

fn person_eq(a: &PersonUuidOrString, b: &PersonUuidOrString) -> (r: bool)
    ensures
        r == (person_ref(*a) == person_ref(*b)),
{
    match (a, b) {
        (PersonUuidOrString::PersonUuid(x), PersonUuidOrString::PersonUuid(y)) => *x == *y,
        (PersonUuidOrString::NameString(x), PersonUuidOrString::NameString(y)) => text_eq(
            x.as_str(),
            y.as_str(),
        ),
        _ => false,
    }
}

fn contains_person(list: &Vec<PersonUuidOrString>, p: &PersonUuidOrString) -> (r: bool)
    ensures
        r == persons_view(list@).contains(person_ref(*p)),
{
    let mut i: usize = 0;
    while i < list.len()
        invariant
            i <= list.len(),
            forall|k: int| 0 <= k < i ==> person_ref(list@[k]) != person_ref(*p),
        decreases list.len() - i,
    {
        if person_eq(&list[i], p) {
            assert(persons_view(list@)[i as int] == person_ref(*p));
            return true;
        }
        i = i + 1;
    }
    assert forall|k: int| 0 <= k < persons_view(list@).len() implies persons_view(list@)[k] != person_ref(*p) by {
        assert(persons_view(list@)[k] == person_ref(list@[k]));
    }
    false
}

/// Appends each of `items`, in order, to `list` where it is not yet there.
fn add_missing_exec(list: &mut Vec<PersonUuidOrString>, items: &Vec<PersonUuidOrString>)
    ensures
        persons_view(final(list)@) == add_missing(persons_view(old(list)@), persons_view(items@)),
{
    let mut i: usize = 0;
    assert(persons_view(items@.take(0)) =~= Seq::<PersonRef>::empty());
    while i < items.len()
        invariant
            i <= items.len(),
            persons_view(list@) == add_missing(persons_view(old(list)@), persons_view(items@.take(i as int))),
        decreases items.len() - i,
    {
        let ghost before = list@;
        proof {
            assert(persons_view(items@.take(i + 1)).drop_last() =~= persons_view(items@.take(i as int)));
            assert(persons_view(items@.take(i + 1)).last() == person_ref(items@[i as int]));
        }
        if !contains_person(list, &items[i]) {
            list.push(copy_person(&items[i]));
            assert(persons_view(list@) =~= persons_view(before).push(person_ref(items@[i as int])));
        }
        i = i + 1;
    }
    assert(items@.take(i as int) =~= items@);
}

/// Appends the authors and editors of a section and of its sub-sections,
/// section before sub-sections, to the project's lists where they are not
/// yet there.
pub fn add_remaining_authors_editors_from_section(
    section: &SectionPersons,
    authors: &mut Vec<PersonUuidOrString>,
    editors: &mut Vec<PersonUuidOrString>,
)
    ensures
        persons_view(final(authors)@) == add_missing(persons_view(old(authors)@), tree_persons(*section, false)),
        persons_view(final(editors)@) == add_missing(persons_view(old(editors)@), tree_persons(*section, true)),
    decreases section,
{
    add_missing_exec(authors, &section.authors);
    add_missing_exec(editors, &section.editors);
    let ghost a0 = add_missing(persons_view(old(authors)@), persons_view(section.authors@));
    let ghost e0 = add_missing(persons_view(old(editors)@), persons_view(section.editors@));
    let mut i: usize = 0;
    while i < section.sub_sections.len()
        invariant
            i <= section.sub_sections.len(),
            a0 == add_missing(persons_view(old(authors)@), persons_view(section.authors@)),
            e0 == add_missing(persons_view(old(editors)@), persons_view(section.editors@)),
            persons_view(authors@) == add_missing(a0, forest_persons(*section, false, i as int)),
            persons_view(editors@) == add_missing(e0, forest_persons(*section, true, i as int)),
        decreases section.sub_sections.len() - i,
    {
        let sub = &section.sub_sections[i];
        assert(decreases_to!(*section => section.sub_sections@[i as int]));
        add_remaining_authors_editors_from_section(sub, authors, editors);
        proof {
            lemma_add_missing_append(a0, forest_persons(*section, false, i as int), tree_persons(*sub, false));
            lemma_add_missing_append(e0, forest_persons(*section, true, i as int), tree_persons(*sub, true));
        }
        i = i + 1;
    }
    proof {
        lemma_add_missing_append(
            persons_view(old(authors)@),
            persons_view(section.authors@),
            forest_persons(*section, false, i as int),
        );
        lemma_add_missing_append(
            persons_view(old(editors)@),
            persons_view(section.editors@),
            forest_persons(*section, true, i as int),
        );
    }
}

/// Gathering the persons of the sections keeps the project's own list in
/// front, in order; afterwards every gathered person is in the list, the
/// list holds no one who was neither in it nor gathered, and it repeats no
/// one where it repeated no one before.
pub proof fn lemma_gathered_persons(list: Seq<PersonRef>, items: Seq<PersonRef>)
    ensures
        add_missing(list, items).len() >= list.len(),
        add_missing(list, items).take(list.len() as int) == list,
        forall|p: PersonRef| items.contains(p) ==> add_missing(list, items).contains(p),
        forall|p: PersonRef| #[trigger]
            add_missing(list, items).contains(p) ==> list.contains(p) || items.contains(p),
        list.no_duplicates() ==> add_missing(list, items).no_duplicates(),
    decreases items.len(),
{
    if items.len() > 0 {
        let init = items.drop_last();
        let x = items.last();
        lemma_gathered_persons(list, init);
        let l = add_missing(list, init);
        assert forall|p: PersonRef| items.contains(p) implies add_missing(list, items).contains(p) by {
            let k = choose|k: int| 0 <= k < items.len() && items[k] == p;
            if k < items.len() - 1 {
                assert(init[k] == p);
                assert(init.contains(p));
                if !l.contains(x) {
                    let j = choose|j: int| 0 <= j < l.len() && l[j] == p;
                    assert(l.push(x)[j] == p);
                }
            } else {
                if !l.contains(x) {
                    assert(l.push(x)[l.len() as int] == x);
                }
            }
        }
        assert forall|p: PersonRef| #[trigger]
            add_missing(list, items).contains(p) implies list.contains(p) || items.contains(p) by {
            if !l.contains(x) && p == x {
                assert(items[items.len() - 1] == x);
            } else {
                if !l.contains(x) {
                    let j = choose|j: int| 0 <= j < l.len() + 1 && l.push(x)[j] == p;
                    assert(l[j] == p);
                }
                assert(l.contains(p));
                if init.contains(p) {
                    let k = choose|k: int| 0 <= k < init.len() && init[k] == p;
                    assert(items[k] == p);
                }
            }
        }
        if !l.contains(x) {
            assert(l.push(x).take(list.len() as int) =~= l.take(list.len() as int));
            if list.no_duplicates() {
                assert forall|i: int, j: int|
                    0 <= i < l.push(x).len() && 0 <= j < l.push(x).len() && i != j implies l.push(x)[i]
                    != l.push(x)[j] by {
                    if i == l.len() {
                        assert(l[j] == l.push(x)[j]);
                    } else if j == l.len() {
                        assert(l[i] == l.push(x)[i]);
                    }
                }
            }
        }
    }
}

} // verus!
