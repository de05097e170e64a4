//! Content blocks of a section, their exchange format with the block
//! editor, and the rewriting of citation keys inside their texts.
use vstd::prelude::*;
use crate::text::{
    has_no_space, join_spec, join_with_space, lemma_split_join, replace_all, replace_spec,
    split_on_space, split_spec, strings_view, text_eq, starts_with, lemma_replace_matched_head,
    lemma_replace_unmatched_head,
};

verus! {

// ---------------------------------------------------------------------------
// Types
// ---------------------------------------------------------------------------

/// Kind of a content block.
#[derive(Clone, Copy, Debug, PartialEq, Eq, Structural)]
pub enum BlockType {
    Paragraph,
    Heading,
    Raw,
    List,
    Quote,
    Image,
}

/// An uploaded image referenced by an image block.
#[derive(Clone, Debug, PartialEq)]
pub struct UploadedImage {
    pub url: String,
    pub filename: String,
}

/// The payload of a content block.
#[derive(Clone, Debug, PartialEq)]
pub enum BlockData {
    Paragraph { text: String },
    Heading { text: String, level: u8 },
    Raw { html: String },
    List { style: String, items: Vec<String> },
    Quote { text: String, caption: String, alignment: String },
    Image {
        file: UploadedImage,
        caption: Option<String>,
        with_border: bool,
        with_background: bool,
        stretched: bool,
    },
}

/// A content block of a section.
#[derive(Clone, Debug, PartialEq)]
pub struct NewContentBlock {
    pub id: String,
    pub block_type: BlockType,
    pub data: BlockData,
    pub css_classes: Vec<String>,
    pub revision_id: Option<uuid::Uuid>,
}

/// A content block in the block editor's exchange format.
#[derive(Clone, Debug, PartialEq)]
pub struct NewContentBlockEditorJSFormat {
    pub id: String,
    pub block_type: String,
    pub data: BlockDataEditorJSFormat,
    pub tunes: BlockTuneEditorJSFormat,
}

/// Tunes attached to a block in the editor's format.
#[derive(Clone, Debug, PartialEq)]
pub struct BlockTuneEditorJSFormat {
    pub block_style_tune: Option<BlockStyleTuneEditorJS>,
}

/// The style tune: space-separated css classes.
#[derive(Clone, Debug, PartialEq)]
pub struct BlockStyleTuneEditorJS {
    pub css_classes: String,
}

/// The block payload in the editor's format: every field optional.
#[allow(non_snake_case)]
#[derive(Clone, Debug, PartialEq)]
pub struct BlockDataEditorJSFormat {
    pub text: Option<String>,
    pub level: Option<u8>,
    pub items: Option<Vec<String>>,
    pub html: Option<String>,
    pub caption: Option<String>,
    pub alignment: Option<String>,
    pub style: Option<String>,
    pub file: Option<UploadedImage>,
    pub withBorder: Option<bool>,
    pub withBackground: Option<bool>,
    pub stretched: Option<bool>,
}

// ---------------------------------------------------------------------------
// Views
// ---------------------------------------------------------------------------

pub struct ImageFileView {
    pub url: Seq<char>,
    pub filename: Seq<char>,
}

pub enum BlockDataView {
    Paragraph { text: Seq<char> },
    Heading { text: Seq<char>, level: u8 },
    Raw { html: Seq<char> },
    List { style: Seq<char>, items: Seq<Seq<char>> },
    Quote { text: Seq<char>, caption: Seq<char>, alignment: Seq<char> },
    Image {
        file: ImageFileView,
        caption: Option<Seq<char>>,
        with_border: bool,
        with_background: bool,
        stretched: bool,
    },
}

pub struct ContentBlockView {
    pub id: Seq<char>,
    pub block_type: BlockType,
    pub data: BlockDataView,
    pub css_classes: Seq<Seq<char>>,
    pub revision_id: Option<uuid::Uuid>,
}

pub struct EditorDataView {
    pub text: Option<Seq<char>>,
    pub level: Option<u8>,
    pub items: Option<Seq<Seq<char>>>,
    pub html: Option<Seq<char>>,
    pub caption: Option<Seq<char>>,
    pub alignment: Option<Seq<char>>,
    pub style: Option<Seq<char>>,
    pub file: Option<ImageFileView>,
    pub with_border: Option<bool>,
    pub with_background: Option<bool>,
    pub stretched: Option<bool>,
}

pub struct EditorBlockView {
    pub id: Seq<char>,
    pub block_type: Seq<char>,
    pub data: EditorDataView,
    /// The css classes of the style tune, when there is one.
    pub style_tune: Option<Seq<char>>,
}

pub open spec fn opt_text_view(o: Option<String>) -> Option<Seq<char>> {
    match o {
        Some(s) => Some(s@),
        None => None,
    }
}

impl View for UploadedImage {
    type V = ImageFileView;

    open spec fn view(&self) -> ImageFileView {
        ImageFileView { url: self.url@, filename: self.filename@ }
    }
}

impl View for BlockData {
    type V = BlockDataView;

    open spec fn view(&self) -> BlockDataView {
        match self {
            BlockData::Paragraph { text } => BlockDataView::Paragraph { text: text@ },
            BlockData::Heading { text, level } => BlockDataView::Heading { text: text@, level: *level },
            BlockData::Raw { html } => BlockDataView::Raw { html: html@ },
            BlockData::List { style, items } => BlockDataView::List {
                style: style@,
                items: strings_view(items@),
            },
            BlockData::Quote { text, caption, alignment } => BlockDataView::Quote {
                text: text@,
                caption: caption@,
                alignment: alignment@,
            },
            BlockData::Image { file, caption, with_border, with_background, stretched } =>
                BlockDataView::Image {
                file: file@,
                caption: opt_text_view(*caption),
                with_border: *with_border,
                with_background: *with_background,
                stretched: *stretched,
            },
        }
    }
}

impl View for NewContentBlock {
    type V = ContentBlockView;

    open spec fn view(&self) -> ContentBlockView {
        ContentBlockView {
            id: self.id@,
            block_type: self.block_type,
            data: self.data@,
            css_classes: strings_view(self.css_classes@),
            revision_id: self.revision_id,
        }
    }
}

impl View for BlockDataEditorJSFormat {
    type V = EditorDataView;

    open spec fn view(&self) -> EditorDataView {
        EditorDataView {
            text: opt_text_view(self.text),
            level: self.level,
            items: match self.items {
                Some(v) => Some(strings_view(v@)),
                None => None,
            },
            html: opt_text_view(self.html),
            caption: opt_text_view(self.caption),
            alignment: opt_text_view(self.alignment),
            style: opt_text_view(self.style),
            file: match self.file {
                Some(f) => Some(f@),
                None => None,
            },
            with_border: self.withBorder,
            with_background: self.withBackground,
            stretched: self.stretched,
        }
    }
}

impl View for NewContentBlockEditorJSFormat {
    type V = EditorBlockView;

    open spec fn view(&self) -> EditorBlockView {
        EditorBlockView {
            id: self.id@,
            block_type: self.block_type@,
            data: self.data@,
            style_tune: match self.tunes.block_style_tune {
                Some(t) => Some(t.css_classes@),
                None => None,
            },
        }
    }
}

// ---------------------------------------------------------------------------
// Conversion specifications
// ---------------------------------------------------------------------------

/// The block kind that goes with a payload.
pub open spec fn kind_of(d: BlockDataView) -> BlockType {
    match d {
        BlockDataView::Paragraph { .. } => BlockType::Paragraph,
        BlockDataView::Heading { .. } => BlockType::Heading,
        BlockDataView::Raw { .. } => BlockType::Raw,
        BlockDataView::List { .. } => BlockType::List,
        BlockDataView::Quote { .. } => BlockType::Quote,
        BlockDataView::Image { .. } => BlockType::Image,
    }
}

/// The editor's type name of a payload.
pub open spec fn editor_type_name(d: BlockDataView) -> Seq<char> {
    match d {
        BlockDataView::Paragraph { .. } => "paragraph"@,
        BlockDataView::Heading { .. } => "header"@,
        BlockDataView::Raw { .. } => "raw"@,
        BlockDataView::List { .. } => "list"@,
        BlockDataView::Quote { .. } => "quote"@,
        BlockDataView::Image { .. } => "image"@,
    }
}

pub open spec fn empty_editor_data() -> EditorDataView {
    EditorDataView {
        text: None,
        level: None,
        items: None,
        html: None,
        caption: None,
        alignment: None,
        style: None,
        file: None,
        with_border: None,
        with_background: None,
        stretched: None,
    }
}

/// The editor payload that carries a block payload.
pub open spec fn editor_data(d: BlockDataView) -> EditorDataView {
    match d {
        BlockDataView::Paragraph { text } => EditorDataView { text: Some(text), ..empty_editor_data() },
        BlockDataView::Heading { text, level } => EditorDataView {
            text: Some(text),
            level: Some(level),
            ..empty_editor_data()
        },
        BlockDataView::Raw { html } => EditorDataView { html: Some(html), ..empty_editor_data() },
        BlockDataView::List { style, items } => EditorDataView {
            items: Some(items),
            style: Some(style),
            ..empty_editor_data()
        },
        BlockDataView::Quote { text, caption, alignment } => EditorDataView {
            text: Some(text),
            caption: Some(caption),
            alignment: Some(alignment),
            ..empty_editor_data()
        },
        BlockDataView::Image { file, caption, with_border, with_background, stretched } =>
            EditorDataView {
            caption: caption,
            file: Some(file),
            with_border: Some(with_border),
            with_background: Some(with_background),
            stretched: Some(stretched),
            ..empty_editor_data()
        },
    }
}

/// A block in the editor's format.
pub open spec fn block_to_editor_spec(b: ContentBlockView) -> EditorBlockView {
    EditorBlockView {
        id: b.id,
        block_type: editor_type_name(b.data),
        data: editor_data(b.data),
        style_tune: if b.css_classes.len() > 0 {
            Some(join_spec(b.css_classes))
        } else {
            None
        },
    }
}

pub open spec fn make_block(
    id: Seq<char>,
    data: BlockDataView,
    classes: Seq<Seq<char>>,
) -> ContentBlockView {
    ContentBlockView {
        id: id,
        block_type: kind_of(data),
        data: data,
        css_classes: classes,
        revision_id: None,
    }
}

/// A block read from the editor's format, or the message naming the first
/// missing field (fields are checked in the order listed per type).
pub open spec fn editor_to_block_spec(e: EditorBlockView) -> Result<ContentBlockView, Seq<char>> {
    let classes = match e.style_tune {
        Some(t) => split_spec(t),
        None => Seq::<Seq<char>>::empty(),
    };
    let d = e.data;
    if e.block_type == "paragraph"@ {
        match d.text {
            Some(text) => Ok(make_block(e.id, BlockDataView::Paragraph { text }, classes)),
            None => Err("Missing field 'text' in paragraph block"@),
        }
    } else if e.block_type == "header"@ {
        match (d.level, d.text) {
            (None, _) => Err("Missing field 'level' in header block"@),
            (Some(_), None) => Err("Missing field 'text' in header block"@),
            (Some(level), Some(text)) => Ok(
                make_block(e.id, BlockDataView::Heading { text, level }, classes),
            ),
        }
    } else if e.block_type == "raw"@ {
        match d.html {
            Some(html) => Ok(make_block(e.id, BlockDataView::Raw { html }, classes)),
            None => Err("Missing field 'html' in raw block"@),
        }
    } else if e.block_type == "list"@ {
        match (d.items, d.style) {
            (None, _) => Err("Missing field 'items' in list block"@),
            (Some(_), None) => Err("Missing field 'style' in list block"@),
            (Some(items), Some(style)) => Ok(
                make_block(e.id, BlockDataView::List { style, items }, classes),
            ),
        }
    } else if e.block_type == "quote"@ {
        match (d.text, d.caption, d.alignment) {
            (None, _, _) => Err("Missing field 'text' in quote block"@),
            (Some(_), None, _) => Err("Missing field 'caption' in quote block"@),
            (Some(_), Some(_), None) => Err("Missing field 'alignment' in quote block"@),
            (Some(text), Some(caption), Some(alignment)) => Ok(
                make_block(e.id, BlockDataView::Quote { text, caption, alignment }, classes),
            ),
        }
    } else if e.block_type == "image"@ {
        match d.file {
            None => Err("Missing field 'file' in image block"@),
            Some(file) => Ok(
                make_block(
                    e.id,
                    BlockDataView::Image {
                        file,
                        caption: d.caption,
                        with_border: unwrap_or_false(d.with_border),
                        with_background: unwrap_or_false(d.with_background),
                        stretched: unwrap_or_false(d.stretched),
                    },
                    classes,
                ),
            ),
        }
    } else {
        Err("Unknown block type"@)
    }
}

pub open spec fn unwrap_or_false(b: Option<bool>) -> bool {
    match b {
        Some(v) => v,
        None => false,
    }
}

pub open spec fn block_result_view(r: Result<NewContentBlock, String>) -> Result<
    ContentBlockView,
    Seq<char>,
> {
    match r {
        Ok(b) => Ok(b@),
        Err(e) => Err(e@),
    }
}

/// The block that a round trip through the editor's format gives back:
/// the kind follows the payload and the revision is dropped.
pub open spec fn normalized_block(b: ContentBlockView) -> ContentBlockView {
    make_block(b.id, b.data, b.css_classes)
}

/// A block survives a round trip through the editor's format (up to its
/// kind, which is taken from its payload, and its revision id) whenever no
/// css class holds a space.
pub proof fn lemma_editor_round_trip(b: ContentBlockView)
    requires
        forall|i: int| 0 <= i < b.css_classes.len() ==> has_no_space(#[trigger] b.css_classes[i]),
    ensures
        editor_to_block_spec(block_to_editor_spec(b)) == Ok::<ContentBlockView, Seq<char>>(
            normalized_block(b),
        ),
{
    reveal_strlit("paragraph");
    reveal_strlit("header");
    reveal_strlit("raw");
    reveal_strlit("list");
    reveal_strlit("quote");
    reveal_strlit("image");
    assert("paragraph"@.len() == 9);
    assert("header"@.len() == 6);
    assert("raw"@.len() == 3);
    assert("list"@.len() == 4);
    assert("quote"@.len() == 5);
    assert("image"@.len() == 5);
    assert("header"@[0] != "paragraph"@[0]);
    assert("list"@[0] != "paragraph"@[0]);
    assert("quote"@[0] != "image"@[0]);
    if b.css_classes.len() > 0 {
        lemma_split_join(b.css_classes);
    }
    let e = block_to_editor_spec(b);
    let classes = match e.style_tune {
        Some(t) => split_spec(t),
        None => Seq::<Seq<char>>::empty(),
    };
    assert(classes =~= b.css_classes);
    match b.data {
        BlockDataView::Paragraph { text } => {
            assert(e.block_type == "paragraph"@);
        },
        BlockDataView::Heading { text, level } => {
            assert(e.block_type == "header"@);
            assert(e.block_type != "paragraph"@);
        },
        BlockDataView::Raw { html } => {
            assert(e.block_type != "paragraph"@);
            assert(e.block_type != "header"@);
        },
        BlockDataView::List { style, items } => {
            assert(e.block_type != "paragraph"@);
            assert(e.block_type != "header"@);
            assert(e.block_type != "raw"@);
        },
        BlockDataView::Quote { text, caption, alignment } => {
            assert(e.block_type != "paragraph"@);
            assert(e.block_type != "header"@);
            assert(e.block_type != "raw"@);
            assert(e.block_type != "list"@);
        },
        BlockDataView::Image { file, caption, with_border, with_background, stretched } => {
            assert(e.block_type != "paragraph"@);
            assert(e.block_type != "header"@);
            assert(e.block_type != "raw"@);
            assert(e.block_type != "list"@);
            assert(e.block_type != "quote"@);
        },
    }
}

// ---------------------------------------------------------------------------
// Executable conversions
// ---------------------------------------------------------------------------

pub(crate) fn owned(s: &str) -> (res: String)
    ensures
        res@ == s@,
{
    s.to_owned()
}

impl NewContentBlock {
    /// Reads a block from the editor's format.
    pub fn from_editorjs(value: NewContentBlockEditorJSFormat) -> (res: Result<
        NewContentBlock,
        String,
    >)
        ensures
            block_result_view(res) == editor_to_block_spec(value@),
    {
        let ghost e = value@;
        let css_classes = match value.tunes.block_style_tune {
            Some(tune) => split_on_space(tune.css_classes.as_str()),
            None => Vec::new(),
        };
        assert(strings_view(css_classes@) =~= match e.style_tune {
            Some(t) => split_spec(t),
            None => Seq::<Seq<char>>::empty(),
        });
        let kind = value.block_type.as_str();
        let data = value.data;
        if text_eq(kind, "paragraph") {
            match data.text {
                Some(text) => Ok(NewContentBlock {
                    id: value.id,
                    block_type: BlockType::Paragraph,
                    data: BlockData::Paragraph { text },
                    css_classes,
                    revision_id: None,
                }),
                None => Err(owned("Missing field 'text' in paragraph block")),
            }
        } else if text_eq(kind, "header") {
            let level = match data.level {
                Some(l) => l,
                None => {
                    return Err(owned("Missing field 'level' in header block"));
                },
            };
            match data.text {
                Some(text) => Ok(NewContentBlock {
                    id: value.id,
                    block_type: BlockType::Heading,
                    data: BlockData::Heading { text, level },
                    css_classes,
                    revision_id: None,
                }),
                None => Err(owned("Missing field 'text' in header block")),
            }
        } else if text_eq(kind, "raw") {
            match data.html {
                Some(html) => Ok(NewContentBlock {
                    id: value.id,
                    block_type: BlockType::Raw,
                    data: BlockData::Raw { html },
                    css_classes,
                    revision_id: None,
                }),
                None => Err(owned("Missing field 'html' in raw block")),
            }
        } else if text_eq(kind, "list") {
            let items = match data.items {
                Some(items) => items,
                None => {
                    return Err(owned("Missing field 'items' in list block"));
                },
            };
            match data.style {
                Some(style) => Ok(NewContentBlock {
                    id: value.id,
                    block_type: BlockType::List,
                    data: BlockData::List { style, items },
                    css_classes,
                    revision_id: None,
                }),
                None => Err(owned("Missing field 'style' in list block")),
            }
        } else if text_eq(kind, "quote") {
            let text = match data.text {
                Some(t) => t,
                None => {
                    return Err(owned("Missing field 'text' in quote block"));
                },
            };
            let caption = match data.caption {
                Some(c) => c,
                None => {
                    return Err(owned("Missing field 'caption' in quote block"));
                },
            };
            match data.alignment {
                Some(alignment) => Ok(NewContentBlock {
                    id: value.id,
                    block_type: BlockType::Quote,
                    data: BlockData::Quote { text, caption, alignment },
                    css_classes,
                    revision_id: None,
                }),
                None => Err(owned("Missing field 'alignment' in quote block")),
            }
        } else if text_eq(kind, "image") {
            match data.file {
                Some(file) => {
                    let with_border = match data.withBorder {
                        Some(b) => b,
                        None => false,
                    };
                    let with_background = match data.withBackground {
                        Some(b) => b,
                        None => false,
                    };
                    let stretched = match data.stretched {
                        Some(b) => b,
                        None => false,
                    };
                    Ok(NewContentBlock {
                        id: value.id,
                        block_type: BlockType::Image,
                        data: BlockData::Image {
                            file,
                            caption: data.caption,
                            with_border,
                            with_background,
                            stretched,
                        },
                        css_classes,
                        revision_id: None,
                    })
                },
                None => Err(owned("Missing field 'file' in image block")),
            }
        } else {
            Err(owned("Unknown block type"))
        }
    }

    /// Writes the block in the editor's format.
    pub fn into_editorjs(self) -> (res: NewContentBlockEditorJSFormat)
        ensures
            res@ == block_to_editor_spec(self@),
    {
        let ghost b = self@;
        let tune = if self.css_classes.len() > 0 {
            Some(BlockStyleTuneEditorJS { css_classes: join_with_space(&self.css_classes) })
        } else {
            None
        };
        let tunes = BlockTuneEditorJSFormat { block_style_tune: tune };
        let empty = BlockDataEditorJSFormat {
            text: None,
            level: None,
            items: None,
            html: None,
            caption: None,
            alignment: None,
            style: None,
            file: None,
            withBorder: None,
            withBackground: None,
            stretched: None,
        };
        let res = match self.data {
            BlockData::Paragraph { text } => NewContentBlockEditorJSFormat {
                id: self.id,
                block_type: owned("paragraph"),
                data: BlockDataEditorJSFormat { text: Some(text), ..empty },
                tunes,
            },
            BlockData::Heading { text, level } => NewContentBlockEditorJSFormat {
                id: self.id,
                block_type: owned("header"),
                data: BlockDataEditorJSFormat { text: Some(text), level: Some(level), ..empty },
                tunes,
            },
            BlockData::Raw { html } => NewContentBlockEditorJSFormat {
                id: self.id,
                block_type: owned("raw"),
                data: BlockDataEditorJSFormat { html: Some(html), ..empty },
                tunes,
            },
            BlockData::List { style, items } => NewContentBlockEditorJSFormat {
                id: self.id,
                block_type: owned("list"),
                data: BlockDataEditorJSFormat { items: Some(items), style: Some(style), ..empty },
                tunes,
            },
            BlockData::Quote { text, caption, alignment } => NewContentBlockEditorJSFormat {
                id: self.id,
                block_type: owned("quote"),
                data: BlockDataEditorJSFormat {
                    text: Some(text),
                    caption: Some(caption),
                    alignment: Some(alignment),
                    ..empty
                },
                tunes,
            },
            BlockData::Image { file, caption, with_border, with_background, stretched } =>
                NewContentBlockEditorJSFormat {
                id: self.id,
                block_type: owned("image"),
                data: BlockDataEditorJSFormat {
                    caption,
                    file: Some(file),
                    withBorder: Some(with_border),
                    withBackground: Some(with_background),
                    stretched: Some(stretched),
                    ..empty
                },
                tunes,
            },
        };
        assert(res@.data == editor_data(b.data));
        res
    }
}

// ---------------------------------------------------------------------------
// Citation keys
// ---------------------------------------------------------------------------

/// The attribute that references citation key `k`: `data-key="k"`.
pub open spec fn data_key_attr(k: Seq<char>) -> Seq<char> {
    "data-key=\""@ + k + "\""@
}

pub open spec fn mapping_view(m: Seq<(String, String)>) -> Seq<(Seq<char>, Seq<char>)> {
    m.map_values(|p: (String, String)| (p.0@, p.1@))
}

/// Every reference to an old key replaced by one to its new key, the pairs
/// taken in order, each pair in a full pass of its own.
pub open spec fn replace_citations_spec(s: Seq<char>, m: Seq<(Seq<char>, Seq<char>)>) -> Seq<char>
    decreases m.len(),
{
    if m.len() == 0 {
        s
    } else {
        replace_spec(
            replace_citations_spec(s, m.drop_last()),
            data_key_attr(m.last().0),
            data_key_attr(m.last().1),
        )
    }
}

pub open spec fn rc(s: Seq<char>, m: Seq<(Seq<char>, Seq<char>)>) -> Seq<char> {
    replace_citations_spec(s, m)
}

/// The payload with citation keys rewritten in every text it carries
/// (not in list styles, quote alignments or image files).
pub open spec fn migrate_data_spec(d: BlockDataView, m: Seq<(Seq<char>, Seq<char>)>) -> BlockDataView {
    match d {
        BlockDataView::Paragraph { text } => BlockDataView::Paragraph { text: rc(text, m) },
        BlockDataView::Heading { text, level } => BlockDataView::Heading { text: rc(text, m), level },
        BlockDataView::Raw { html } => BlockDataView::Raw { html: rc(html, m) },
        BlockDataView::List { style, items } => BlockDataView::List {
            style,
            items: items.map_values(|t: Seq<char>| rc(t, m)),
        },
        BlockDataView::Quote { text, caption, alignment } => BlockDataView::Quote {
            text: rc(text, m),
            caption: rc(caption, m),
            alignment,
        },
        BlockDataView::Image { file, caption, with_border, with_background, stretched } =>
            BlockDataView::Image {
            file,
            caption: match caption {
                Some(c) => Some(rc(c, m)),
                None => None,
            },
            with_border,
            with_background,
            stretched,
        },
    }
}

// ---------------------------------------------------------------------------
// Order of the key rewrites
// ---------------------------------------------------------------------------

/// A citation key that holds neither `"` nor `=`.
pub open spec fn plain_key(k: Seq<char>) -> bool {
    forall|i: int| 0 <= i < k.len() ==> k[i] != '"' && k[i] != '='
}

proof fn lemma_attr_chars(k: Seq<char>)
    ensures
        data_key_attr(k).len() == k.len() + 11,
        data_key_attr(k)[0] == 'd',
        data_key_attr(k)[8] == '=',
        data_key_attr(k)[9] == '"',
        forall|i: int| 0 <= i < 8 ==> data_key_attr(k)[i] != '"' && data_key_attr(k)[i] != '=',
        forall|i: int| 0 <= i < k.len() ==> data_key_attr(k)[10 + i] == k[i],
        data_key_attr(k)[10 + k.len() as int] == '"',
{
    reveal_strlit("data-key=\"");
    reveal_strlit("\"");
}

/// Where one key's attribute starts another's, the keys are the same.
proof fn lemma_attr_at_start(x: Seq<char>, y: Seq<char>, t: Seq<char>)
    requires
        plain_key(x),
        plain_key(y),
        starts_with(data_key_attr(x) + t, data_key_attr(y)),
    ensures
        x == y,
{
    lemma_attr_chars(x);
    lemma_attr_chars(y);
    let tx = data_key_attr(x) + t;
    let ay = data_key_attr(y);
    assert forall|i: int| 0 <= i < ay.len() implies tx[i] == ay[i] by {
        assert(tx.take(ay.len() as int)[i] == tx[i]);
    }
    if y.len() > x.len() {
        assert(tx[10 + x.len() as int] == '"');
        assert(ay[10 + x.len() as int] == y[x.len() as int]);
    } else if y.len() < x.len() {
        assert(ay[10 + y.len() as int] == '"');
        assert(tx[10 + y.len() as int] == x[y.len() as int]);
    } else {
        assert forall|i: int| 0 <= i < x.len() implies x[i] == y[i] by {
            assert(tx[10 + i] == ay[10 + i]);
        }
        assert(x =~= y);
    }
}

/// No key's attribute starts inside another key's attribute.
proof fn lemma_attr_not_inside(x: Seq<char>, y: Seq<char>, t: Seq<char>, k: int)
    requires
        plain_key(x),
        plain_key(y),
        0 < k < data_key_attr(x).len(),
    ensures
        !starts_with((data_key_attr(x) + t).skip(k), data_key_attr(y)),
{
    lemma_attr_chars(x);
    lemma_attr_chars(y);
    let ax = data_key_attr(x);
    let tx = ax + t;
    let ay = data_key_attr(y);
    if starts_with(tx.skip(k), ay) {
        assert forall|i: int| 0 <= i < ay.len() implies tx[k + i] == ay[i] by {
            assert(tx.skip(k).take(ay.len() as int)[i] == tx.skip(k)[i]);
        }
        if k + 8 < ax.len() {
            assert(tx[k + 8] == ay[8]);
            assert(tx[k + 8] == ax[k + 8]);
            if k + 8 == 9 {
                assert(ax[9] == '"');
            } else if k + 8 < 10 + x.len() {
                assert(ax[10 + (k - 2)] == x[k - 2]);
            } else {
                assert(ax[10 + x.len() as int] == '"');
            }
        } else {
            let j = 10 + x.len() - k;
            assert(0 <= j < 8);
            assert(tx[k + j] == ay[j]);
            assert(tx[k + j] == ax[10 + x.len() as int]);
        }
    }
}

/// A prefix in which the pattern starts nowhere passes unchanged.
proof fn lemma_replace_pass_prefix(u: Seq<char>, t: Seq<char>, from: Seq<char>, to: Seq<char>)
    requires
        from.len() > 0,
        forall|k: int| 0 <= k < u.len() ==> !starts_with(#[trigger] (u + t).skip(k), from),
    ensures
        replace_spec(u + t, from, to) == u + replace_spec(t, from, to),
    decreases u.len(),
{
    if u.len() == 0 {
        assert(u + t =~= t);
    } else {
        let s = u + t;
        assert(s.skip(0) =~= s);
        assert(!starts_with(s.skip(0), from));
        lemma_replace_unmatched_head(s, from, to);
        assert(s.skip(1) =~= u.skip(1) + t);
        assert forall|k: int| 0 <= k < u.skip(1).len() implies !starts_with(
            #[trigger] (u.skip(1) + t).skip(k),
            from,
        ) by {
            assert((u.skip(1) + t).skip(k) =~= s.skip(k + 1));
        }
        lemma_replace_pass_prefix(u.skip(1), t, from, to);
        assert(u =~= seq![u[0]] + u.skip(1));
    }
}

/// A key's attribute followed by any text passes unchanged through the
/// rewrite of another key.
proof fn lemma_attr_passes(x: Seq<char>, t: Seq<char>, b: Seq<char>, b2: Seq<char>)
    requires
        plain_key(x),
        plain_key(b),
        x != b,
    ensures
        replace_spec(data_key_attr(x) + t, data_key_attr(b), data_key_attr(b2)) == data_key_attr(x)
            + replace_spec(t, data_key_attr(b), data_key_attr(b2)),
{
    lemma_attr_chars(b);
    assert forall|k: int| 0 <= k < data_key_attr(x).len() implies !starts_with(
        #[trigger] (data_key_attr(x) + t).skip(k),
        data_key_attr(b),
    ) by {
        if k == 0 {
            assert((data_key_attr(x) + t).skip(0) =~= data_key_attr(x) + t);
            if starts_with(data_key_attr(x) + t, data_key_attr(b)) {
                lemma_attr_at_start(x, b, t);
            }
        } else {
            lemma_attr_not_inside(x, b, t, k);
        }
    }
    lemma_replace_pass_prefix(data_key_attr(x), t, data_key_attr(b), data_key_attr(b2));
}

/// A rewrite after a first character makes no new reference to key `b` at
/// the start.
proof fn lemma_no_new_head(w: Seq<char>, v: Seq<char>, a: Seq<char>, a2: Seq<char>, b: Seq<char>)
    requires
        plain_key(a2),
        plain_key(b),
        w.len() >= 1,
        !starts_with(w + v, data_key_attr(b)),
    ensures
        !starts_with(w + replace_spec(v, data_key_attr(a), data_key_attr(a2)), data_key_attr(b)),
    decreases v.len(),
{
    let p = data_key_attr(a);
    let p2 = data_key_attr(a2);
    let q = data_key_attr(b);
    lemma_attr_chars(a);
    lemma_attr_chars(b);
    let r = replace_spec(v, p, p2);
    if v.len() == 0 {
        assert(r == v);
    } else if starts_with(v, p) {
        let rest = replace_spec(v.skip(p.len() as int), p, p2);
        assert(r == p2 + rest);
        let tt = w + r;
        if starts_with(tt, q) {
            if q.len() <= w.len() {
                assert((w + v).take(q.len() as int) =~= tt.take(q.len() as int));
            } else {
                assert(tt =~= q + tt.skip(q.len() as int));
                lemma_attr_not_inside(b, a2, tt.skip(q.len() as int), w.len() as int);
                assert(tt.skip(w.len() as int) =~= r);
                assert(r.take(p2.len() as int) =~= p2);
            }
        }
    } else {
        assert(r == seq![v[0]] + replace_spec(v.skip(1), p, p2));
        let w2 = w.push(v[0]);
        assert(w2 + v.skip(1) =~= w + v);
        lemma_no_new_head(w2, v.skip(1), a, a2, b);
        assert(w + r =~= w2 + replace_spec(v.skip(1), p, p2));
    }
}

/// The rewrites of two different keys, neither of which is rewritten into
/// the other, commute.
proof fn lemma_rewrites_commute(s: Seq<char>, a: Seq<char>, a2: Seq<char>, b: Seq<char>, b2: Seq<char>)
    requires
        plain_key(a),
        plain_key(a2),
        plain_key(b),
        plain_key(b2),
        a != b,
        a2 != b,
        b2 != a,
    ensures
        replace_spec(replace_spec(s, data_key_attr(a), data_key_attr(a2)), data_key_attr(b), data_key_attr(b2))
            == replace_spec(replace_spec(s, data_key_attr(b), data_key_attr(b2)), data_key_attr(a), data_key_attr(a2)),
    decreases s.len(),
{
    let p = data_key_attr(a);
    let p2 = data_key_attr(a2);
    let q = data_key_attr(b);
    let q2 = data_key_attr(b2);
    lemma_attr_chars(a);
    lemma_attr_chars(b);
    if s.len() == 0 {
    } else if starts_with(s, p) {
        let s1 = s.skip(p.len() as int);
        assert(s =~= p + s1);
        lemma_replace_matched_head(p, s1, p2);
        lemma_attr_passes(a2, replace_spec(s1, p, p2), b, b2);
        lemma_attr_passes(a, s1, b, b2);
        lemma_replace_matched_head(p, replace_spec(s1, q, q2), p2);
        lemma_rewrites_commute(s1, a, a2, b, b2);
    } else if starts_with(s, q) {
        let s1 = s.skip(q.len() as int);
        assert(s =~= q + s1);
        lemma_replace_matched_head(q, s1, q2);
        lemma_attr_passes(b2, replace_spec(s1, q, q2), a, a2);
        lemma_attr_passes(b, s1, a, a2);
        lemma_replace_matched_head(q, replace_spec(s1, p, p2), q2);
        lemma_rewrites_commute(s1, a, a2, b, b2);
    } else {
        let s1 = s.skip(1);
        let w = seq![s[0]];
        assert(w + s1 =~= s);
        lemma_replace_unmatched_head(s, p, p2);
        lemma_replace_unmatched_head(s, q, q2);
        let rp = replace_spec(s1, p, p2);
        let rq = replace_spec(s1, q, q2);
        lemma_no_new_head(w, s1, a, a2, b);
        lemma_no_new_head(w, s1, b, b2, a);
        lemma_replace_unmatched_head(w + rp, q, q2);
        lemma_replace_unmatched_head(w + rq, p, p2);
        assert((w + rp).skip(1) =~= rp);
        assert((w + rq).skip(1) =~= rq);
        lemma_rewrites_commute(s1, a, a2, b, b2);
    }
}

/// Two pairs of a mapping that can be rewritten in either order: plain
/// keys, different old keys, and neither rewritten into the other's old
/// key.
pub open spec fn pairs_independent(x: (Seq<char>, Seq<char>), y: (Seq<char>, Seq<char>)) -> bool {
    &&& plain_key(x.0) && plain_key(x.1) && plain_key(y.0) && plain_key(y.1)
    &&& x.0 != y.0 && x.1 != y.0 && y.1 != x.0
}

/// A mapping whose keys hold neither `"` nor `=`, whose old keys are all
/// different, and in which no pair rewrites into the old key of another.
pub open spec fn independent_mapping(m: Seq<(Seq<char>, Seq<char>)>) -> bool {
    forall|i: int, j: int|
        0 <= i < m.len() && 0 <= j < m.len() && i != j ==> pairs_independent(#[trigger] m[i], #[trigger] m[j])
}

proof fn lemma_rewrite_push(s: Seq<char>, m: Seq<(Seq<char>, Seq<char>)>, y: (Seq<char>, Seq<char>))
    ensures
        replace_citations_spec(s, m.push(y)) == replace_spec(
            replace_citations_spec(s, m),
            data_key_attr(y.0),
            data_key_attr(y.1),
        ),
{
    assert(m.push(y).drop_last() =~= m);
}

/// A pair that is independent of every later pair can be rewritten last.
proof fn lemma_rewrite_last(
    s: Seq<char>,
    p: Seq<(Seq<char>, Seq<char>)>,
    x: (Seq<char>, Seq<char>),
    q: Seq<(Seq<char>, Seq<char>)>,
)
    requires
        forall|i: int| 0 <= i < q.len() ==> pairs_independent(x, #[trigger] q[i]),
    ensures
        replace_citations_spec(s, p + seq![x] + q) == replace_citations_spec(s, (p + q).push(x)),
    decreases q.len(),
{
    if q.len() == 0 {
        assert(p + seq![x] + q =~= p.push(x));
        assert((p + q) =~= p);
    } else {
        let q0 = q.drop_last();
        let y = q.last();
        assert forall|i: int| 0 <= i < q0.len() implies pairs_independent(x, #[trigger] q0[i]) by {
            assert(q0[i] == q[i]);
        }
        lemma_rewrite_last(s, p, x, q0);
        assert(p + seq![x] + q =~= (p + seq![x] + q0).push(y));
        lemma_rewrite_push(s, p + seq![x] + q0, y);
        lemma_rewrite_push(s, p + q0, x);
        assert(pairs_independent(x, q[q.len() - 1]));
        lemma_rewrites_commute(replace_citations_spec(s, p + q0), x.0, x.1, y.0, y.1);
        assert((p + q).push(x) =~= (p + q0).push(y).push(x));
        lemma_rewrite_push(s, (p + q0).push(y), x);
        lemma_rewrite_push(s, p + q0, y);
    }
}

/// Rewriting citation keys along a mapping gives the same text whatever
/// the order of its pairs, where the keys hold neither `"` nor `=`, the
/// old keys are all different and no pair rewrites into the old key of
/// another.
pub proof fn lemma_replace_citations_order(
    s: Seq<char>,
    m1: Seq<(Seq<char>, Seq<char>)>,
    m2: Seq<(Seq<char>, Seq<char>)>,
)
    requires
        independent_mapping(m1),
        m1.to_multiset() == m2.to_multiset(),
    ensures
        replace_citations_spec(s, m1) == replace_citations_spec(s, m2),
    decreases m2.len(),
{
    broadcast use vstd::seq_lib::to_multiset_len, vstd::seq_lib::to_multiset_contains,
        vstd::seq_lib::to_multiset_remove, vstd::seq_lib::to_multiset_build;
    if m2.len() == 0 {
        assert(m2.to_multiset().len() == m2.len());
        assert(m1.to_multiset().len() == m1.len());
        assert(m1.len() == 0);
    } else {
        let x = m2.last();
        let m2r = m2.drop_last();
        assert(m2 =~= m2r.push(x));
        assert(m2r.push(x).to_multiset() == m2r.to_multiset().insert(x));
        assert(m2.to_multiset().count(x) > 0);
        assert(m1.contains(x));
        let j = choose|j: int| 0 <= j < m1.len() && m1[j] == x;
        let m1r = m1.remove(j);
        assert(m1r.to_multiset() == m1.to_multiset().remove(x));
        assert(m1r.to_multiset() =~= m2r.to_multiset());
        let pre = m1.subrange(0, j);
        let post = m1.subrange(j + 1, m1.len() as int);
        assert(m1 =~= pre + seq![x] + post);
        assert(m1r =~= pre + post);
        assert forall|i: int| 0 <= i < post.len() implies pairs_independent(x, #[trigger] post[i]) by {
            assert(post[i] == m1[j + 1 + i]);
            assert(pairs_independent(m1[j], m1[j + 1 + i]));
        }
        assert(independent_mapping(m1r)) by {
            assert forall|i: int, k: int|
                0 <= i < m1r.len() && 0 <= k < m1r.len() && i != k implies pairs_independent(
                #[trigger] m1r[i],
                #[trigger] m1r[k],
            ) by {
                let ii = if i < j { i } else { i + 1 };
                let kk = if k < j { k } else { k + 1 };
                assert(m1r[i] == m1[ii]);
                assert(m1r[k] == m1[kk]);
                assert(pairs_independent(m1[ii], m1[kk]));
            }
        }
        lemma_rewrite_last(s, pre, x, post);
        lemma_replace_citations_order(s, m1r, m2r);
        lemma_rewrite_push(s, m1r, x);
        lemma_rewrite_push(s, m2r, x);
    }
}

/// The pair of the mapping whose old key's reference starts `s` (the last
/// such pair; with different old keys there is at most one).
pub open spec fn pair_at(s: Seq<char>, m: Seq<(Seq<char>, Seq<char>)>) -> Option<(Seq<char>, Seq<char>)>
    decreases m.len(),
{
    if m.len() == 0 {
        None
    } else if starts_with(s, data_key_attr(m.last().0)) {
        Some(m.last())
    } else {
        pair_at(s, m.drop_last())
    }
}

/// The text read once from left to right: each reference to an old key of
/// the mapping replaced by one to its new key, every other character kept.
pub open spec fn rewritten_once(s: Seq<char>, m: Seq<(Seq<char>, Seq<char>)>) -> Seq<char>
    decreases s.len(),
{
    if s.len() == 0 {
        s
    } else {
        match pair_at(s, m) {
            Some(p) => if 0 < data_key_attr(p.0).len() <= s.len() {
                data_key_attr(p.1) + rewritten_once(s.skip(data_key_attr(p.0).len() as int), m)
            } else {
                s
            },
            None => seq![s[0]] + rewritten_once(s.skip(1), m),
        }
    }
}

proof fn lemma_pair_at(s: Seq<char>, m: Seq<(Seq<char>, Seq<char>)>)
    ensures
        pair_at(s, m) matches Some(p) ==> exists|i: int|
            0 <= i < m.len() && m[i] == p && starts_with(s, data_key_attr(p.0)),
        pair_at(s, m) is None ==> forall|i: int|
            0 <= i < m.len() ==> !starts_with(s, data_key_attr(#[trigger] m[i].0)),
    decreases m.len(),
{
    if m.len() > 0 {
        let d = m.drop_last();
        lemma_pair_at(s, d);
        if !starts_with(s, data_key_attr(m.last().0)) {
            if pair_at(s, d) is Some {
                let p = pair_at(s, d)->0;
                let i = choose|i: int| 0 <= i < d.len() && d[i] == p && starts_with(s, data_key_attr(p.0));
                assert(m[i] == d[i]);
            } else {
                assert forall|i: int| 0 <= i < m.len() implies !starts_with(s, data_key_attr(#[trigger] m[i].0)) by {
                    if i < d.len() {
                        assert(m[i] == d[i]);
                    }
                }
            }
        } else {
            assert(m[m.len() - 1] == m.last());
        }
    }
}

/// A pair of the mapping whose reference nothing starts with is passed
/// over: where no pair's reference starts in the prefix, the prefix is
/// kept.
proof fn lemma_once_pass_prefix(u: Seq<char>, t: Seq<char>, m: Seq<(Seq<char>, Seq<char>)>)
    requires
        forall|k: int| 0 <= k < u.len() ==> pair_at(#[trigger] (u + t).skip(k), m) is None,
    ensures
        rewritten_once(u + t, m) == u + rewritten_once(t, m),
    decreases u.len(),
{
    if u.len() == 0 {
        assert(u + t =~= t);
    } else {
        let s = u + t;
        assert(s.skip(0) =~= s);
        assert(pair_at(s.skip(0), m) is None);
        assert(s.skip(1) =~= u.skip(1) + t);
        assert forall|k: int| 0 <= k < u.skip(1).len() implies pair_at(#[trigger] (u.skip(1) + t).skip(k), m) is None by {
            assert((u.skip(1) + t).skip(k) =~= s.skip(k + 1));
        }
        lemma_once_pass_prefix(u.skip(1), t, m);
        assert(s[0] == u[0]);
        assert(u =~= seq![u[0]] + u.skip(1));
    }
}

/// Reading once after a first character makes no new reference to key `b`
/// at the start, where no new key of the mapping is `b`.
proof fn lemma_once_no_new_head(w: Seq<char>, v: Seq<char>, m: Seq<(Seq<char>, Seq<char>)>, b: Seq<char>)
    requires
        forall|i: int| 0 <= i < m.len() ==> plain_key(#[trigger] m[i].1),
        plain_key(b),
        w.len() >= 1,
        !starts_with(w + v, data_key_attr(b)),
    ensures
        !starts_with(w + rewritten_once(v, m), data_key_attr(b)),
    decreases v.len(),
{
    let q = data_key_attr(b);
    lemma_attr_chars(b);
    let r = rewritten_once(v, m);
    if v.len() == 0 {
        assert(r == v);
    } else {
        match pair_at(v, m) {
            Some(p) => {
                lemma_pair_at(v, m);
                let i = choose|i: int| 0 <= i < m.len() && m[i] == p && starts_with(v, data_key_attr(p.0));
                assert(plain_key(m[i].1));
                lemma_attr_chars(p.0);
                lemma_attr_chars(p.1);
                let p2 = data_key_attr(p.1);
                let rest = rewritten_once(v.skip(data_key_attr(p.0).len() as int), m);
                assert(r == p2 + rest);
                let tt = w + r;
                if starts_with(tt, q) {
                    if q.len() <= w.len() {
                        assert((w + v).take(q.len() as int) =~= tt.take(q.len() as int));
                    } else {
                        assert(tt =~= q + tt.skip(q.len() as int));
                        lemma_attr_not_inside(b, p.1, tt.skip(q.len() as int), w.len() as int);
                        assert(tt.skip(w.len() as int) =~= r);
                        assert(r.take(p2.len() as int) =~= p2);
                    }
                }
            },
            None => {
                assert(r == seq![v[0]] + rewritten_once(v.skip(1), m));
                let w2 = w.push(v[0]);
                assert(w2 + v.skip(1) =~= w + v);
                lemma_once_no_new_head(w2, v.skip(1), m, b);
                assert(w + r =~= w2 + rewritten_once(v.skip(1), m));
            },
        }
    }
}

/// Rewriting one more pair after reading once along the others is reading
/// once along all of them.
proof fn lemma_once_then_pair(s: Seq<char>, m0: Seq<(Seq<char>, Seq<char>)>, x: (Seq<char>, Seq<char>))
    requires
        independent_mapping(m0.push(x)),
        forall|i: int| 0 <= i < m0.len() ==> plain_key(#[trigger] m0[i].0) && plain_key(m0[i].1),
        plain_key(x.0),
        plain_key(x.1),
    ensures
        replace_spec(rewritten_once(s, m0), data_key_attr(x.0), data_key_attr(x.1)) == rewritten_once(
            s,
            m0.push(x),
        ),
    decreases s.len(),
{
    let m = m0.push(x);
    let px = data_key_attr(x.0);
    let px2 = data_key_attr(x.1);
    lemma_attr_chars(x.0);
    assert(m.drop_last() =~= m0);
    assert(m.last() == x);
    assert forall|i: int| 0 <= i < m0.len() implies pairs_independent(#[trigger] m0[i], x) && pairs_independent(x, m0[i]) by {
        assert(m[i] == m0[i]);
        assert(m[m0.len() as int] == x);
        assert(pairs_independent(m[i], m[m0.len() as int]));
        assert(pairs_independent(m[m0.len() as int], m[i]));
    }
    if s.len() == 0 {
        assert(replace_spec(s, px, px2) == s);
    } else if starts_with(s, px) {
        let s1 = s.skip(px.len() as int);
        assert(s =~= px + s1);
        assert(pair_at(s, m) == Some(x));
        assert forall|k: int| 0 <= k < px.len() implies pair_at(#[trigger] (px + s1).skip(k), m0) is None by {
            lemma_pair_at((px + s1).skip(k), m0);
            if pair_at((px + s1).skip(k), m0) is Some {
                let p = pair_at((px + s1).skip(k), m0)->0;
                let i = choose|i: int| 0 <= i < m0.len() && m0[i] == p && starts_with((px + s1).skip(k), data_key_attr(p.0));
                if k == 0 {
                    assert((px + s1).skip(0) =~= px + s1);
                    lemma_attr_at_start(x.0, p.0, s1);
                } else {
                    lemma_attr_not_inside(x.0, p.0, s1, k);
                }
            }
        }
        lemma_once_pass_prefix(px, s1, m0);
        lemma_replace_matched_head(px, rewritten_once(s1, m0), px2);
        lemma_once_then_pair(s1, m0, x);
    } else {
        assert(pair_at(s, m) == pair_at(s, m0));
        let s0 = seq![s[0]];
        match pair_at(s, m0) {
            Some(p) => {
                lemma_pair_at(s, m0);
                let i = choose|i: int| 0 <= i < m0.len() && m0[i] == p && starts_with(s, data_key_attr(p.0));
                lemma_attr_chars(p.0);
                let s1 = s.skip(data_key_attr(p.0).len() as int);
                lemma_attr_passes(p.1, rewritten_once(s1, m0), x.0, x.1);
                lemma_once_then_pair(s1, m0, x);
            },
            None => {
                let s1 = s.skip(1);
                assert(s0 + s1 =~= s);
                assert forall|i: int| 0 <= i < m0.len() implies plain_key(#[trigger] m0[i].1) by {}
                lemma_once_no_new_head(s0, s1, m0, x.0);
                let w = rewritten_once(s1, m0);
                lemma_replace_unmatched_head(s0 + w, px, px2);
                assert((s0 + w).skip(1) =~= w);
                assert((s0 + w)[0] == s[0]);
                lemma_once_then_pair(s1, m0, x);
            },
        }
    }
}

/// Rewriting citation keys along a mapping, pair after pair, is reading
/// the text once from left to right and replacing each reference to an
/// old key by one to its new key, all other text kept; an empty mapping
/// keeps the text. This holds where the keys hold neither `"` nor `=`,
/// the old keys are all different and no pair rewrites into the old key
/// of another.
pub proof fn lemma_replace_citations_one_pass(s: Seq<char>, m: Seq<(Seq<char>, Seq<char>)>)
    requires
        independent_mapping(m),
        forall|i: int| 0 <= i < m.len() ==> plain_key(#[trigger] m[i].0) && plain_key(m[i].1),
    ensures
        replace_citations_spec(s, m) == rewritten_once(s, m),
        replace_citations_spec(s, Seq::empty()) == s,
    decreases m.len(),
{
    lemma_once_empty(s);
    if m.len() == 0 {
        assert(m =~= Seq::<(Seq<char>, Seq<char>)>::empty());
    } else {
        let m0 = m.drop_last();
        let x = m.last();
        assert(m0.push(x) =~= m);
        assert(independent_mapping(m0)) by {
            assert forall|i: int, j: int|
                0 <= i < m0.len() && 0 <= j < m0.len() && i != j implies pairs_independent(
                #[trigger] m0[i],
                #[trigger] m0[j],
            ) by {
                assert(m0[i] == m[i] && m0[j] == m[j]);
            }
        }
        assert forall|i: int| 0 <= i < m0.len() implies plain_key(#[trigger] m0[i].0) && plain_key(m0[i].1) by {
            assert(m0[i] == m[i]);
        }
        assert(m[m.len() - 1] == x);
        lemma_replace_citations_one_pass(s, m0);
        lemma_rewrite_push(s, m0, x);
        lemma_once_then_pair(s, m0, x);
    }
}

proof fn lemma_once_empty(s: Seq<char>)
    ensures
        rewritten_once(s, Seq::empty()) == s,
    decreases s.len(),
{
    if s.len() > 0 {
        lemma_once_empty(s.skip(1));
        assert(s =~= seq![s[0]] + s.skip(1));
    }
}

fn data_key_text(key: &str) -> (res: String)
    ensures
        res@ == data_key_attr(key@),
{
    let mut s = String::new();
    s.append("data-key=\"");
    s.append(key);
    s.append("\"");
    s
}

/// Rewrites the citation key references in `text` along `mapping`
/// (pairs of old key and new key).
pub fn replace_citations(text: &str, mapping: &Vec<(String, String)>) -> (res: String)
    ensures
        res@ == replace_citations_spec(text@, mapping_view(mapping@)),
{
    let mut result = owned(text);
    let mut i: usize = 0;
    while i < mapping.len()
        invariant
            i <= mapping.len(),
            result@ == replace_citations_spec(text@, mapping_view(mapping@.take(i as int))),
        decreases mapping.len() - i,
    {
        let from = data_key_text(mapping[i].0.as_str());
        let to = data_key_text(mapping[i].1.as_str());
        proof {
            reveal_strlit("data-key=\"");
            assert(from@.len() > 0) by {
                assert("data-key=\""@.len() == 10);
            }
            let mv = mapping_view(mapping@.take(i + 1));
            assert(mv.drop_last() =~= mapping_view(mapping@.take(i as int)));
            assert(mv.last() == (mapping@[i as int].0@, mapping@[i as int].1@));
        }
        result = replace_all(result.as_str(), from.as_str(), to.as_str());
        i = i + 1;
    }
    assert(mapping@.take(i as int) =~= mapping@);
    result
}

fn replace_citations_all(items: Vec<String>, mapping: &Vec<(String, String)>) -> (res: Vec<String>)
    ensures
        strings_view(res@) == strings_view(items@).map_values(
            |t: Seq<char>| rc(t, mapping_view(mapping@)),
        ),
{
    let mut out: Vec<String> = Vec::new();
    let mut i: usize = 0;
    while i < items.len()
        invariant
            i <= items.len(),
            out@.len() == i,
            forall|k: int| 0 <= k < i ==> #[trigger] out@[k]@ == rc(items@[k]@, mapping_view(mapping@)),
        decreases items.len() - i,
    {
        let t = replace_citations(items[i].as_str(), mapping);
        out.push(t);
        i = i + 1;
    }
    assert(strings_view(out@) =~= strings_view(items@).map_values(
        |t: Seq<char>| rc(t, mapping_view(mapping@)),
    ));
    out
}

/// Rewrites the citation key references in every text of a block.
pub fn migrate_citations_in_block(block: &mut NewContentBlock, mapping: &Vec<(String, String)>)
    ensures
        final(block)@ == (ContentBlockView {
            data: migrate_data_spec(old(block)@.data, mapping_view(mapping@)),
            ..old(block)@
        }),
{
    let ghost m = mapping_view(mapping@);
    let mut data = BlockData::Raw { html: String::new() };
    std::mem::swap(&mut data, &mut block.data);
    let new_data = match data {
        BlockData::Paragraph { text } => BlockData::Paragraph {
            text: replace_citations(text.as_str(), mapping),
        },
        BlockData::Heading { text, level } => BlockData::Heading {
            text: replace_citations(text.as_str(), mapping),
            level,
        },
        BlockData::Raw { html } => BlockData::Raw { html: replace_citations(html.as_str(), mapping) },
        BlockData::List { style, items } => BlockData::List {
            style,
            items: replace_citations_all(items, mapping),
        },
        BlockData::Quote { text, caption, alignment } => BlockData::Quote {
            text: replace_citations(text.as_str(), mapping),
            caption: replace_citations(caption.as_str(), mapping),
            alignment,
        },
        BlockData::Image { file, caption, with_border, with_background, stretched } => {
            let caption = match caption {
                Some(c) => Some(replace_citations(c.as_str(), mapping)),
                None => None,
            };
            BlockData::Image { file, caption, with_border, with_background, stretched }
        },
    };
    block.data = new_data;
}

} // verus!
