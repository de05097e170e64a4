//! Content blocks in the collaborative document of a section: each block is
//! a map of the document, with its id, its type, its data and its style
//! tune; blocks are written into the document and read back from it.
use vstd::prelude::*;
use crate::content::{
    make_block, owned, BlockData, BlockDataView, BlockType, ContentBlockView, ImageFileView,
    NewContentBlock, UploadedImage,
};
use crate::content::{block_result_view, normalized_block};
use crate::text::{has_no_space, join_spec, join_with_space, lemma_split_join};
use crate::wordpress::decimal;
use yrs::updates::decoder::Decode;
use yrs::{Any, ArrayPrelim, Doc, In, MapPrelim, MapRef, Out, TextPrelim, Transact, Transaction, Update};
use crate::text::{split_on_space, split_spec, strings_view, text_eq};

verus! {

// ---------------------------------------------------------------------------
// Values read from the document
// ---------------------------------------------------------------------------

/// A value read from the document: the text the document writes for it,
/// and its shape.
pub struct YValue {
    pub text: String,
    pub shape: YShape,
}

/// The shape of a value read from the document.
pub enum YShape {
    /// A map, with its entries.
    Dict(Vec<(String, YValue)>),
    /// An array, with its items.
    Array(Vec<YValue>),
    /// A boolean.
    Bool(bool),
    /// A big integer.
    Int(i64),
    /// A floating-point number, as `as u8` reads it.
    Number(u8),
    /// A string, a text or another plain value whose text is its own.
    Plain,
    /// A value whose text lists entries of a hash map (a plain array or map,
    /// a piece of markup, a sub-document).
    Other,
}

pub struct YValueView {
    pub text: Seq<char>,
    pub shape: YShapeView,
}

pub enum YShapeView {
    Dict(Seq<(Seq<char>, YValueView)>),
    Array(Seq<YValueView>),
    Bool(bool),
    Int(i64),
    Number(u8),
    Plain,
    Other,
}

pub open spec fn yvalue_view(v: YValue) -> YValueView
    decreases v,
{
    YValueView { text: v.text@, shape: yshape_view(v.shape) }
}

pub open spec fn yshape_view(s: YShape) -> YShapeView
    decreases s,
{
    match s {
        YShape::Dict(es) => YShapeView::Dict(yentries_view(es@)),
        YShape::Array(vs) => YShapeView::Array(yvalues_view(vs@)),
        YShape::Bool(b) => YShapeView::Bool(b),
        YShape::Int(i) => YShapeView::Int(i),
        YShape::Number(n) => YShapeView::Number(n),
        YShape::Plain => YShapeView::Plain,
        YShape::Other => YShapeView::Other,
    }
}

pub open spec fn yentries_view(s: Seq<(String, YValue)>) -> Seq<(Seq<char>, YValueView)>
    decreases s,
{
    if s.len() == 0 {
        Seq::empty()
    } else {
        yentries_view(s.drop_last()).push((s.last().0@, yvalue_view(s.last().1)))
    }
}

pub open spec fn yvalues_view(s: Seq<YValue>) -> Seq<YValueView>
    decreases s,
{
    if s.len() == 0 {
        Seq::empty()
    } else {
        yvalues_view(s.drop_last()).push(yvalue_view(s.last()))
    }
}

// ---------------------------------------------------------------------------
// Values free of the order of hash maps
// ---------------------------------------------------------------------------

/// A value of the document as it is held, whatever order a hash map yields
/// its entries in: a map as a map from key to value, an array with its
/// items, a value of another shape with its text and shape; the text of a
/// map, an array or a value marked `Other` is not part of it.
pub enum YCanon {
    Dict(Map<Seq<char>, YCanon>),
    Array(Seq<YCanon>),
    Other,
    Leaf(Seq<char>, YShapeView),
}

pub open spec fn canon(v: YValueView) -> YCanon
    decreases v,
{
    match v.shape {
        YShapeView::Dict(es) => YCanon::Dict(canon_entries(es)),
        YShapeView::Array(vs) => YCanon::Array(canon_values(vs)),
        YShapeView::Other => YCanon::Other,
        _ => YCanon::Leaf(v.text, v.shape),
    }
}

/// The entries as a map.
pub open spec fn canon_entries(es: Seq<(Seq<char>, YValueView)>) -> Map<Seq<char>, YCanon>
    decreases es,
{
    if es.len() == 0 {
        Map::empty()
    } else {
        canon_entries(es.drop_last()).insert(es.last().0, canon(es.last().1))
    }
}

pub open spec fn canon_values(vs: Seq<YValueView>) -> Seq<YCanon>
    decreases vs,
{
    if vs.len() == 0 {
        Seq::empty()
    } else {
        canon_values(vs.drop_last()).push(canon(vs.last()))
    }
}

/// No key twice in the entries.
pub open spec fn distinct_keys(es: Seq<(Seq<char>, YValueView)>) -> bool {
    forall|i: int, j: int| 0 <= i < j < es.len() ==> es[i].0 != es[j].0
}

/// No key twice in the entries, nor in those of any map within.
pub open spec fn well_keyed(es: Seq<(Seq<char>, YValueView)>) -> bool
    decreases es,
{
    &&& distinct_keys(es)
    &&& forall|i: int| 0 <= i < es.len() ==> value_well_keyed(#[trigger] es[i].1)
}

pub open spec fn value_well_keyed(v: YValueView) -> bool
    decreases v,
{
    match v.shape {
        YShapeView::Dict(es) => well_keyed(es),
        YShapeView::Array(vs) => forall|i: int| 0 <= i < vs.len() ==> value_well_keyed(#[trigger] vs[i]),
        _ => true,
    }
}

/// Entries, as read, of a map that holds `m`: each key once, and `m` as a
/// map.
pub open spec fn entries_hold(es: Seq<(Seq<char>, YValueView)>, m: Map<Seq<char>, YCanon>) -> bool {
    well_keyed(es) && canon_entries(es) == m
}

// ---------------------------------------------------------------------------
// Reading a block
// ---------------------------------------------------------------------------

/// The value of a key in a map (the first entry with that key).
pub open spec fn yget(m: Seq<(Seq<char>, YValueView)>, key: Seq<char>) -> Option<YValueView>
    decreases m.len(),
{
    if m.len() == 0 {
        None
    } else if m[0].0 == key {
        Some(m[0].1)
    } else {
        yget(m.drop_first(), key)
    }
}

/// The entries of a value that is a map.
pub open spec fn ymap_of(v: Option<YValueView>) -> Option<Seq<(Seq<char>, YValueView)>> {
    match v {
        Some(x) => match x.shape {
            YShapeView::Dict(m) => Some(m),
            _ => None,
        },
        None => None,
    }
}

/// The css classes of a block map: those of its style tune, split at
/// spaces, where the tune is there and its text is not empty.
pub open spec fn tune_classes(m: Seq<(Seq<char>, YValueView)>) -> Seq<Seq<char>> {
    match ymap_of(yget(m, "tunes"@)) {
        Some(tunes) => match ymap_of(yget(tunes, "block_style_tunes"@)) {
            Some(style) => match yget(style, "css_classes"@) {
                Some(c) => if c.text.len() > 0 {
                    split_spec(c.text)
                } else {
                    Seq::empty()
                },
                None => Seq::empty(),
            },
            None => Seq::empty(),
        },
        None => Seq::empty(),
    }
}

/// The texts of values.
pub open spec fn texts_of(vs: Seq<YValueView>) -> Seq<Seq<char>> {
    vs.map_values(|v: YValueView| v.text)
}

/// A flag of the data: the boolean where there is one, otherwise false.
pub open spec fn flag_of(d: Seq<(Seq<char>, YValueView)>, key: Seq<char>) -> bool {
    match yget(d, key) {
        Some(v) => match v.shape {
            YShapeView::Bool(b) => b,
            _ => false,
        },
        None => false,
    }
}

/// The payload of a block of type `ty` read from its data map, or the
/// message naming what is missing.
pub open spec fn read_data(ty: Seq<char>, d: Seq<(Seq<char>, YValueView)>) -> Result<BlockDataView, Seq<char>> {
    if ty == "paragraph"@ {
        match yget(d, "text"@) {
            Some(t) => Ok(BlockDataView::Paragraph { text: t.text }),
            None => match yget(d, "html"@) {
                Some(h) => Ok(BlockDataView::Raw { html: h.text }),
                None => Err("Missing 'text' or 'html' in paragraph/raw block"@),
            },
        }
    } else if ty == "header"@ {
        match yget(d, "text"@) {
            None => Err("Missing field 'text' in header block"@),
            Some(t) => match yget(d, "level"@) {
                None => Err("Missing field 'level' in header block"@),
                Some(l) => match l.shape {
                    YShapeView::Number(n) => Ok(BlockDataView::Heading { text: t.text, level: n }),
                    YShapeView::Int(i) => Ok(BlockDataView::Heading { text: t.text, level: i as u8 }),
                    _ => Err("Field 'level' is not an integer"@),
                },
            },
        }
    } else if ty == "list"@ {
        match yget(d, "style"@) {
            None => Err("Missing field 'style' in list block"@),
            Some(s) => match yget(d, "items"@) {
                None => Err("Missing field 'items' in list block"@),
                Some(items) => match items.shape {
                    YShapeView::Array(vs) => Ok(BlockDataView::List { style: s.text, items: texts_of(vs) }),
                    _ => Err("Field 'items' is not an ArrayRef"@),
                },
            },
        }
    } else if ty == "quote"@ {
        match yget(d, "text"@) {
            None => Err("Missing field 'text' in quote block"@),
            Some(t) => match yget(d, "caption"@) {
                None => Err("Missing field 'caption' in quote block"@),
                Some(c) => match yget(d, "alignment"@) {
                    None => Err("Missing field 'alignment' in quote block"@),
                    Some(a) => Ok(
                        BlockDataView::Quote { text: t.text, caption: c.text, alignment: a.text },
                    ),
                },
            },
        }
    } else if ty == "image"@ {
        match yget(d, "file"@) {
            None => Err("Missing field 'file' in image block"@),
            Some(f) => match f.shape {
                YShapeView::Dict(fm) => match yget(fm, "url"@) {
                    None => Err("Missing field 'url' in image file"@),
                    Some(url) => match yget(fm, "filename"@) {
                        None => Err("Missing field 'filename' in image file"@),
                        Some(name) => Ok(
                            BlockDataView::Image {
                                file: ImageFileView { url: url.text, filename: name.text },
                                caption: match yget(d, "caption"@) {
                                    Some(c) => Some(c.text),
                                    None => None,
                                },
                                with_border: flag_of(d, "withBorder"@),
                                with_background: flag_of(d, "withBackground"@),
                                stretched: flag_of(d, "stretched"@),
                            },
                        ),
                    },
                },
                _ => Err("Field 'file' is not a MapRef"@),
            },
        }
    } else {
        Err("Unknown block type: "@ + ty)
    }
}

/// A block read from its map in the document, or the message naming what
/// is missing: the id, the type and the data are checked in this order,
/// then the payload of the type; the kind follows the payload, and a block
/// read from the document has no revision.
pub open spec fn read_block(m: Seq<(Seq<char>, YValueView)>) -> Result<ContentBlockView, Seq<char>> {
    match yget(m, "id"@) {
        None => Err("Missing field 'id'"@),
        Some(id) => match yget(m, "type"@) {
            None => Err("Missing field 'type'"@),
            Some(ty) => match yget(m, "data"@) {
                None => Err("Missing field 'data'"@),
                Some(dv) => match dv.shape {
                    YShapeView::Dict(d) => match read_data(ty.text, d) {
                        Ok(data) => Ok(make_block(id.text, data, tune_classes(m))),
                        Err(e) => Err(e),
                    },
                    _ => Err("Field 'data' is not a MapRef"@),
                },
            },
        },
    }
}

proof fn lemma_yentries_index(s: Seq<(String, YValue)>)
    ensures
        yentries_view(s).len() == s.len(),
        forall|i: int|
            0 <= i < s.len() ==> #[trigger] yentries_view(s)[i] == (s[i].0@, yvalue_view(s[i].1)),
    decreases s.len(),
{
    if s.len() > 0 {
        lemma_yentries_index(s.drop_last());
    }
}

proof fn lemma_yvalues_index(s: Seq<YValue>)
    ensures
        yvalues_view(s).len() == s.len(),
        forall|i: int| 0 <= i < s.len() ==> #[trigger] yvalues_view(s)[i] == yvalue_view(s[i]),
    decreases s.len(),
{
    if s.len() > 0 {
        lemma_yvalues_index(s.drop_last());
    }
}

/// The value of a key in a map.
fn yget_exec<'a>(m: &'a Vec<(String, YValue)>, key: &str) -> (r: Option<&'a YValue>)
    ensures
        match r {
            Some(v) => yget(yentries_view(m@), key@) == Some(yvalue_view(*v)),
            None => yget(yentries_view(m@), key@) is None,
        },
{
    let ghost mv = yentries_view(m@);
    proof {
        lemma_yentries_index(m@);
    }
    assert(mv.skip(0) =~= mv);
    let mut i: usize = 0;
    while i < m.len()
        invariant
            i <= m.len(),
            mv == yentries_view(m@),
            mv.len() == m.len(),
            forall|k: int| 0 <= k < m.len() ==> #[trigger] mv[k] == (m@[k].0@, yvalue_view(m@[k].1)),
            yget(mv, key@) == yget(mv.skip(i as int), key@),
        decreases m.len() - i,
    {
        assert(mv.skip(i as int)[0] == mv[i as int]);
        assert(mv.skip(i as int).drop_first() =~= mv.skip(i + 1));
        if text_eq(m[i].0.as_str(), key) {
            return Some(&m[i].1);
        }
        i = i + 1;
    }
    None
}

/// The entries of a value that is a map.
fn ymap_exec<'a>(v: Option<&'a YValue>) -> (r: Option<&'a Vec<(String, YValue)>>)
    ensures
        match r {
            Some(m) => ymap_of(match v {
                Some(x) => Some(yvalue_view(*x)),
                None => None,
            }) == Some(yentries_view(m@)),
            None => ymap_of(match v {
                Some(x) => Some(yvalue_view(*x)),
                None => None,
            }) is None,
        },
{
    match v {
        Some(x) => match &x.shape {
            YShape::Dict(m) => Some(m),
            _ => None,
        },
        None => None,
    }
}

fn tune_classes_exec(m: &Vec<(String, YValue)>) -> (r: Vec<String>)
    ensures
        strings_view(r@) == tune_classes(yentries_view(m@)),
{
    match ymap_exec(yget_exec(m, "tunes")) {
        Some(tunes) => match ymap_exec(yget_exec(tunes, "block_style_tunes")) {
            Some(style) => match yget_exec(style, "css_classes") {
                Some(c) => if !c.text.as_str().is_empty() {
                    split_on_space(c.text.as_str())
                } else {
                    let r: Vec<String> = Vec::new();
                    assert(strings_view(r@) =~= Seq::<Seq<char>>::empty());
                    r
                },
                None => {
                    let r: Vec<String> = Vec::new();
                    assert(strings_view(r@) =~= Seq::<Seq<char>>::empty());
                    r
                },
            },
            None => {
                let r: Vec<String> = Vec::new();
                assert(strings_view(r@) =~= Seq::<Seq<char>>::empty());
                r
            },
        },
        None => {
            let r: Vec<String> = Vec::new();
            assert(strings_view(r@) =~= Seq::<Seq<char>>::empty());
            r
        },
    }
}

fn flag_exec(d: &Vec<(String, YValue)>, key: &str) -> (r: bool)
    ensures
        r == flag_of(yentries_view(d@), key@),
{
    match yget_exec(d, key) {
        Some(v) => match &v.shape {
            YShape::Bool(b) => *b,
            _ => false,
        },
        None => false,
    }
}

fn texts_exec(vs: &Vec<YValue>) -> (r: Vec<String>)
    ensures
        strings_view(r@) == texts_of(yvalues_view(vs@)),
{
    proof {
        lemma_yvalues_index(vs@);
    }
    let mut r: Vec<String> = Vec::new();
    let mut i: usize = 0;
    while i < vs.len()
        invariant
            i <= vs.len(),
            yvalues_view(vs@).len() == vs.len(),
            forall|k: int| 0 <= k < vs.len() ==> #[trigger] yvalues_view(vs@)[k] == yvalue_view(vs@[k]),
            strings_view(r@) == texts_of(yvalues_view(vs@)).take(i as int),
        decreases vs.len() - i,
    {
        let ghost before = r@;
        r.push(vs[i].text.clone());
        assert(strings_view(r@) =~= texts_of(yvalues_view(vs@)).take(i + 1)) by {
            assert(strings_view(r@) =~= strings_view(before).push(vs@[i as int].text@));
        }
        i = i + 1;
    }
    assert(texts_of(yvalues_view(vs@)).take(i as int) =~= texts_of(yvalues_view(vs@)));
    r
}

pub open spec fn data_result_view(r: Result<BlockData, String>) -> Result<BlockDataView, Seq<char>> {
    match r {
        Ok(d) => Ok(d@),
        Err(e) => Err(e@),
    }
}

fn missing(msg: &str) -> (r: Result<BlockData, String>)
    ensures
        data_result_view(r) == Err::<BlockDataView, Seq<char>>(msg@),
{
    Err(owned(msg))
}

fn read_data_exec(ty: &str, d: &Vec<(String, YValue)>) -> (r: Result<BlockData, String>)
    ensures
        data_result_view(r) == read_data(ty@, yentries_view(d@)),
{
    if text_eq(ty, "paragraph") {
        match yget_exec(d, "text") {
            Some(t) => Ok(BlockData::Paragraph { text: t.text.clone() }),
            None => match yget_exec(d, "html") {
                Some(h) => Ok(BlockData::Raw { html: h.text.clone() }),
                None => missing("Missing 'text' or 'html' in paragraph/raw block"),
            },
        }
    } else if text_eq(ty, "header") {
        match yget_exec(d, "text") {
            None => missing("Missing field 'text' in header block"),
            Some(t) => match yget_exec(d, "level") {
                None => missing("Missing field 'level' in header block"),
                Some(l) => match &l.shape {
                    YShape::Number(n) => Ok(BlockData::Heading { text: t.text.clone(), level: *n }),
                    YShape::Int(i) => Ok(BlockData::Heading { text: t.text.clone(), level: *i as u8 }),
                    _ => missing("Field 'level' is not an integer"),
                },
            },
        }
    } else if text_eq(ty, "list") {
        match yget_exec(d, "style") {
            None => missing("Missing field 'style' in list block"),
            Some(st) => match yget_exec(d, "items") {
                None => missing("Missing field 'items' in list block"),
                Some(items) => match &items.shape {
                    YShape::Array(vs) => Ok(BlockData::List { style: st.text.clone(), items: texts_exec(vs) }),
                    _ => missing("Field 'items' is not an ArrayRef"),
                },
            },
        }
    } else if text_eq(ty, "quote") {
        match yget_exec(d, "text") {
            None => missing("Missing field 'text' in quote block"),
            Some(t) => match yget_exec(d, "caption") {
                None => missing("Missing field 'caption' in quote block"),
                Some(c) => match yget_exec(d, "alignment") {
                    None => missing("Missing field 'alignment' in quote block"),
                    Some(a) => Ok(
                        BlockData::Quote {
                            text: t.text.clone(),
                            caption: c.text.clone(),
                            alignment: a.text.clone(),
                        },
                    ),
                },
            },
        }
    } else if text_eq(ty, "image") {
        match yget_exec(d, "file") {
            None => missing("Missing field 'file' in image block"),
            Some(f) => match &f.shape {
                YShape::Dict(fm) => match yget_exec(fm, "url") {
                    None => missing("Missing field 'url' in image file"),
                    Some(url) => match yget_exec(fm, "filename") {
                        None => missing("Missing field 'filename' in image file"),
                        Some(name) => {
                            let caption = match yget_exec(d, "caption") {
                                Some(c) => Some(c.text.clone()),
                                None => None,
                            };
                            Ok(
                                BlockData::Image {
                                    file: UploadedImage { url: url.text.clone(), filename: name.text.clone() },
                                    caption,
                                    with_border: flag_exec(d, "withBorder"),
                                    with_background: flag_exec(d, "withBackground"),
                                    stretched: flag_exec(d, "stretched"),
                                },
                            )
                        },
                    },
                },
                _ => missing("Field 'file' is not a MapRef"),
            },
        }
    } else {
        let mut e = owned("Unknown block type: ");
        e.append(ty);
        Err(e)
    }
}

/// Reads a block from the entries of its map in the document: see
/// `read_block`.
pub fn block_from_entries(m: &Vec<(String, YValue)>) -> (r: Result<NewContentBlock, String>)
    ensures
        block_result_view(r) == read_block(yentries_view(m@)),
{
    match yget_exec(m, "id") {
        None => Err(owned("Missing field 'id'")),
        Some(id) => match yget_exec(m, "type") {
            None => Err(owned("Missing field 'type'")),
            Some(ty) => match yget_exec(m, "data") {
                None => Err(owned("Missing field 'data'")),
                Some(dv) => match &dv.shape {
                    YShape::Dict(d) => match read_data_exec(ty.text.as_str(), d) {
                        Ok(data) => {
                            let css_classes = tune_classes_exec(m);
                            let block_type = match &data {
                                BlockData::Paragraph { .. } => BlockType::Paragraph,
                                BlockData::Heading { .. } => BlockType::Heading,
                                BlockData::Raw { .. } => BlockType::Raw,
                                BlockData::List { .. } => BlockType::List,
                                BlockData::Quote { .. } => BlockType::Quote,
                                BlockData::Image { .. } => BlockType::Image,
                            };
                            Ok(NewContentBlock { id: id.text.clone(), block_type, data, css_classes, revision_id: None })
                        },
                        Err(e) => Err(e),
                    },
                    _ => Err(owned("Field 'data' is not a MapRef")),
                },
            },
        },
    }
}

// ---------------------------------------------------------------------------
// Writing a block
// ---------------------------------------------------------------------------

/// A value to be written into the document.
pub enum PrelimValue {
    /// A plain string.
    Str(String),
    /// A collaborative text.
    Text(String),
    Bool(bool),
    /// A small integer (stored by the document as a number).
    Short(i16),
    /// A map, with its entries.
    Dict(Vec<(String, PrelimValue)>),
    /// An array, with its items.
    Array(Vec<PrelimValue>),
}

pub enum PrelimView {
    Str(Seq<char>),
    Text(Seq<char>),
    Bool(bool),
    Short(i16),
    Dict(Seq<(Seq<char>, PrelimView)>),
    Array(Seq<PrelimView>),
}

pub open spec fn prelim_view(p: PrelimValue) -> PrelimView
    decreases p,
{
    match p {
        PrelimValue::Str(s) => PrelimView::Str(s@),
        PrelimValue::Text(s) => PrelimView::Text(s@),
        PrelimValue::Bool(b) => PrelimView::Bool(b),
        PrelimValue::Short(v) => PrelimView::Short(v),
        PrelimValue::Dict(es) => PrelimView::Dict(prelim_entries_view(es@)),
        PrelimValue::Array(vs) => PrelimView::Array(prelim_values_view(vs@)),
    }
}

pub open spec fn prelim_entries_view(s: Seq<(String, PrelimValue)>) -> Seq<(Seq<char>, PrelimView)>
    decreases s,
{
    if s.len() == 0 {
        Seq::empty()
    } else {
        prelim_entries_view(s.drop_last()).push((s.last().0@, prelim_view(s.last().1)))
    }
}

pub open spec fn prelim_values_view(s: Seq<PrelimValue>) -> Seq<PrelimView>
    decreases s,
{
    if s.len() == 0 {
        Seq::empty()
    } else {
        prelim_values_view(s.drop_last()).push(prelim_view(s.last()))
    }
}

/// Texts as collaborative texts.
pub open spec fn text_values(items: Seq<Seq<char>>) -> Seq<PrelimView> {
    items.map_values(|t: Seq<char>| PrelimView::Text(t))
}

/// The type name and the data entries that a payload is written with.
pub open spec fn write_data(d: BlockDataView) -> (Seq<char>, Seq<(Seq<char>, PrelimView)>) {
    match d {
        BlockDataView::Paragraph { text } => ("paragraph"@, seq![("text"@, PrelimView::Text(text))]),
        BlockDataView::Heading { text, level } => (
            "header"@,
            seq![("text"@, PrelimView::Text(text)), ("level"@, PrelimView::Short(level as i16))],
        ),
        BlockDataView::Raw { html } => ("paragraph"@, seq![("html"@, PrelimView::Text(html))]),
        BlockDataView::List { style, items } => (
            "list"@,
            seq![("style"@, PrelimView::Str(style)), ("items"@, PrelimView::Array(text_values(items)))],
        ),
        BlockDataView::Quote { text, caption, alignment } => (
            "quote"@,
            seq![
                ("text"@, PrelimView::Text(text)),
                ("caption"@, PrelimView::Text(caption)),
                ("alignment"@, PrelimView::Str(alignment)),
            ],
        ),
        BlockDataView::Image { file, caption, with_border, with_background, stretched } => (
            "image"@,
            seq![
                (
                    "file"@,
                    PrelimView::Dict(
                        seq![("url"@, PrelimView::Str(file.url)), ("filename"@, PrelimView::Str(file.filename))],
                    ),
                ),
                ("withBorder"@, PrelimView::Bool(with_border)),
                ("withBackground"@, PrelimView::Bool(with_background)),
                ("stretched"@, PrelimView::Bool(stretched)),
            ] + match caption {
                Some(c) => seq![("caption"@, PrelimView::Text(c))],
                None => Seq::empty(),
            },
        ),
    }
}

/// The entries a block is written with: its id, its type and its data, and
/// its css classes joined by spaces in a style tune where it has any.
pub open spec fn write_block(b: ContentBlockView) -> Seq<(Seq<char>, PrelimView)> {
    let w = write_data(b.data);
    seq![
        ("id"@, PrelimView::Str(b.id)),
        ("type"@, PrelimView::Str(w.0)),
        ("data"@, PrelimView::Dict(w.1)),
    ] + if b.css_classes.len() > 0 {
        seq![
            (
                "tunes"@,
                PrelimView::Dict(
                    seq![
                        (
                            "block_style_tunes"@,
                            PrelimView::Dict(seq![("css_classes"@, PrelimView::Str(join_spec(b.css_classes)))]),
                        ),
                    ],
                ),
            ),
        ]
    } else {
        Seq::empty()
    }
}

fn prelim_pair(key: &str, v: PrelimValue) -> (r: (String, PrelimValue))
    ensures
        r.0@ == key@,
        prelim_view(r.1) == prelim_view(v),
{
    (owned(key), v)
}

proof fn lemma_entries_push(s: Seq<(String, PrelimValue)>, e: (String, PrelimValue))
    ensures
        prelim_entries_view(s.push(e)) == prelim_entries_view(s).push((e.0@, prelim_view(e.1))),
{
    assert(s.push(e).drop_last() =~= s);
}

fn entries1(a: (String, PrelimValue)) -> (r: Vec<(String, PrelimValue)>)
    ensures
        prelim_entries_view(r@) == seq![(a.0@, prelim_view(a.1))],
{
    let ghost ga = (a.0@, prelim_view(a.1));
    let mut r: Vec<(String, PrelimValue)> = Vec::new();
    proof { lemma_entries_push(r@, a); }
    r.push(a);
    assert(prelim_entries_view(r@) =~= seq![ga]);
    r
}

fn push_entry(r: &mut Vec<(String, PrelimValue)>, a: (String, PrelimValue))
    ensures
        prelim_entries_view(final(r)@) == prelim_entries_view(old(r)@).push((a.0@, prelim_view(a.1))),
{
    proof { lemma_entries_push(r@, a); }
    r.push(a);
}

fn text_items(items: &Vec<String>) -> (r: Vec<PrelimValue>)
    ensures
        prelim_values_view(r@) == text_values(strings_view(items@)),
{
    let mut r: Vec<PrelimValue> = Vec::new();
    let mut i: usize = 0;
    while i < items.len()
        invariant
            i <= items.len(),
            prelim_values_view(r@) == text_values(strings_view(items@)).take(i as int),
        decreases items.len() - i,
    {
        let ghost before = r@;
        let v = PrelimValue::Text(items[i].clone());
        let ghost gv = prelim_view(v);
        assert(gv == PrelimView::Text(items@[i as int]@));
        r.push(v);
        assert(r@.drop_last() =~= before);
        assert(prelim_values_view(r@) == prelim_values_view(before).push(gv));
        assert(text_values(strings_view(items@)).take(i + 1) =~= text_values(strings_view(items@)).take(
            i as int,
        ).push(gv));
        i = i + 1;
    }
    assert(text_values(strings_view(items@)).take(i as int) =~= text_values(strings_view(items@)));
    r
}

fn data_prelim(data: &BlockData) -> (r: (String, Vec<(String, PrelimValue)>))
    ensures
        r.0@ == write_data(data@).0,
        prelim_entries_view(r.1@) == write_data(data@).1,
{
    match data {
        BlockData::Paragraph { text } => {
            let d = entries1(prelim_pair("text", PrelimValue::Text(text.clone())));
            (owned("paragraph"), d)
        },
        BlockData::Heading { text, level } => {
            let mut d = entries1(prelim_pair("text", PrelimValue::Text(text.clone())));
            push_entry(&mut d, prelim_pair("level", PrelimValue::Short(*level as i16)));
            assert(prelim_entries_view(d@) =~= write_data(data@).1);
            (owned("header"), d)
        },
        BlockData::Raw { html } => {
            let d = entries1(prelim_pair("html", PrelimValue::Text(html.clone())));
            (owned("paragraph"), d)
        },
        BlockData::List { style, items } => {
            let mut d = entries1(prelim_pair("style", PrelimValue::Str(style.clone())));
            push_entry(&mut d, prelim_pair("items", PrelimValue::Array(text_items(items))));
            assert(prelim_entries_view(d@) =~= write_data(data@).1);
            (owned("list"), d)
        },
        BlockData::Quote { text, caption, alignment } => {
            let mut d = entries1(prelim_pair("text", PrelimValue::Text(text.clone())));
            push_entry(&mut d, prelim_pair("caption", PrelimValue::Text(caption.clone())));
            push_entry(&mut d, prelim_pair("alignment", PrelimValue::Str(alignment.clone())));
            assert(prelim_entries_view(d@) =~= write_data(data@).1);
            (owned("quote"), d)
        },
        BlockData::Image { file, caption, with_border, with_background, stretched } => {
            let mut f = entries1(prelim_pair("url", PrelimValue::Str(file.url.clone())));
            push_entry(&mut f, prelim_pair("filename", PrelimValue::Str(file.filename.clone())));
            assert(prelim_entries_view(f@) =~= seq![
                ("url"@, PrelimView::Str(file.url@)),
                ("filename"@, PrelimView::Str(file.filename@)),
            ]);
            let mut d = entries1(prelim_pair("file", PrelimValue::Dict(f)));
            push_entry(&mut d, prelim_pair("withBorder", PrelimValue::Bool(*with_border)));
            push_entry(&mut d, prelim_pair("withBackground", PrelimValue::Bool(*with_background)));
            push_entry(&mut d, prelim_pair("stretched", PrelimValue::Bool(*stretched)));
            let ghost before = prelim_entries_view(d@);
            match caption {
                Some(c) => push_entry(&mut d, prelim_pair("caption", PrelimValue::Text(c.clone()))),
                None => {},
            }
            assert(prelim_entries_view(d@) =~= write_data(data@).1);
            (owned("image"), d)
        },
    }
}

/// The entries a block is written into the document with: see
/// `write_block`.
pub fn block_prelim(b: &NewContentBlock) -> (r: Vec<(String, PrelimValue)>)
    ensures
        prelim_entries_view(r@) == write_block(b@),
{
    let (ty, data) = data_prelim(&b.data);
    let mut r = entries1(prelim_pair("id", PrelimValue::Str(b.id.clone())));
    push_entry(&mut r, prelim_pair("type", PrelimValue::Str(ty)));
    push_entry(&mut r, prelim_pair("data", PrelimValue::Dict(data)));
    if b.css_classes.len() > 0 {
        let style = entries1(prelim_pair("css_classes", PrelimValue::Str(join_with_space(&b.css_classes))));
        let tunes = entries1(prelim_pair("block_style_tunes", PrelimValue::Dict(style)));
        push_entry(&mut r, prelim_pair("tunes", PrelimValue::Dict(tunes)));
    }
    assert(prelim_entries_view(r@) =~= write_block(b@));
    r
}

// ---------------------------------------------------------------------------
// Writing and reading back
// ---------------------------------------------------------------------------

/// A small integer as the document reads it back as a number: the number
/// cut to `u8` as `as` does for a float, and its text.
pub open spec fn short_number(v: i16) -> u8 {
    if v < 0 {
        0
    } else if v > 255 {
        255
    } else {
        v as u8
    }
}

pub open spec fn short_text(v: i16) -> Seq<char> {
    if v < 0 {
        "-"@ + decimal((-v) as nat)
    } else {
        decimal(v as nat)
    }
}

/// What the document gives back for a value written into it: strings and
/// texts as their text, booleans and numbers with their text, maps and
/// arrays with their entries and items read back in the same way (the text
/// of a map or an array, which reading a block never uses, is left empty
/// here).
pub open spec fn read_back(p: PrelimView) -> YValueView
    decreases p,
{
    match p {
        PrelimView::Str(s) => YValueView { text: s, shape: YShapeView::Plain },
        PrelimView::Text(s) => YValueView { text: s, shape: YShapeView::Plain },
        PrelimView::Bool(b) => YValueView {
            text: if b {
                "true"@
            } else {
                "false"@
            },
            shape: YShapeView::Bool(b),
        },
        PrelimView::Short(v) => YValueView { text: short_text(v), shape: YShapeView::Number(short_number(v)) },
        PrelimView::Dict(es) => YValueView { text: Seq::empty(), shape: YShapeView::Dict(read_back_entries(es)) },
        PrelimView::Array(vs) => YValueView { text: Seq::empty(), shape: YShapeView::Array(read_back_values(vs)) },
    }
}

pub open spec fn read_back_entries(es: Seq<(Seq<char>, PrelimView)>) -> Seq<(Seq<char>, YValueView)>
    decreases es,
{
    if es.len() == 0 {
        Seq::empty()
    } else {
        read_back_entries(es.drop_last()).push((es.last().0, read_back(es.last().1)))
    }
}

pub open spec fn read_back_values(vs: Seq<PrelimView>) -> Seq<YValueView>
    decreases vs,
{
    if vs.len() == 0 {
        Seq::empty()
    } else {
        read_back_values(vs.drop_last()).push(read_back(vs.last()))
    }
}

proof fn lemma_read_back_entries(es: Seq<(Seq<char>, PrelimView)>)
    ensures
        read_back_entries(es).len() == es.len(),
        forall|i: int|
            0 <= i < es.len() ==> #[trigger] read_back_entries(es)[i] == (es[i].0, read_back(es[i].1)),
    decreases es.len(),
{
    if es.len() > 0 {
        lemma_read_back_entries(es.drop_last());
    }
}

proof fn lemma_read_back_values(vs: Seq<PrelimView>)
    ensures
        read_back_values(vs).len() == vs.len(),
        forall|i: int| 0 <= i < vs.len() ==> #[trigger] read_back_values(vs)[i] == read_back(vs[i]),
    decreases vs.len(),
{
    if vs.len() > 0 {
        lemma_read_back_values(vs.drop_last());
    }
}

/// The value of a key that only the entry at `k` has.
proof fn lemma_yget_at(m: Seq<(Seq<char>, YValueView)>, key: Seq<char>, k: int)
    requires
        0 <= k < m.len(),
        m[k].0 == key,
        forall|j: int| 0 <= j < k ==> m[j].0 != key,
    ensures
        yget(m, key) == Some(m[k].1),
    decreases k,
{
    if k > 0 {
        assert forall|j: int| 0 <= j < k - 1 implies m.drop_first()[j].0 != key by {
            assert(m.drop_first()[j] == m[j + 1]);
        }
        lemma_yget_at(m.drop_first(), key, k - 1);
    }
}

/// No entry has the key.
proof fn lemma_yget_none(m: Seq<(Seq<char>, YValueView)>, key: Seq<char>)
    requires
        forall|j: int| 0 <= j < m.len() ==> m[j].0 != key,
    ensures
        yget(m, key) is None,
    decreases m.len(),
{
    if m.len() > 0 {
        assert forall|j: int| 0 <= j < m.len() - 1 implies m.drop_first()[j].0 != key by {
            assert(m.drop_first()[j] == m[j + 1]);
        }
        lemma_yget_none(m.drop_first(), key);
    }
}

/// A value whose text is its own: neither a map, nor an array, nor marked
/// `Other`.
pub open spec fn is_leaf(v: YValueView) -> bool {
    !(v.shape is Dict || v.shape is Array || v.shape is Other)
}

proof fn lemma_leaf_canon(v1: YValueView, v2: YValueView)
    requires
        is_leaf(v1),
        canon(v2) == canon(v1),
    ensures
        v2 == v1,
{
    assert(canon(v1) == YCanon::Leaf(v1.text, v1.shape));
    match v2.shape {
        YShapeView::Dict(_) => {},
        YShapeView::Array(_) => {},
        YShapeView::Other => {},
        _ => {
            assert(canon(v2) == YCanon::Leaf(v2.text, v2.shape));
        },
    }
}

proof fn lemma_yget_push(p: Seq<(Seq<char>, YValueView)>, e: (Seq<char>, YValueView), k: Seq<char>)
    ensures
        yget(p.push(e), k) == if yget(p, k) is Some {
            yget(p, k)
        } else if e.0 == k {
            Some(e.1)
        } else {
            None
        },
    decreases p.len(),
{
    if p.len() > 0 {
        assert(p.push(e).drop_first() =~= p.drop_first().push(e));
        assert(p.push(e)[0] == p[0]);
        lemma_yget_push(p.drop_first(), e, k);
    } else {
        assert(p.push(e).drop_first() =~= Seq::<(Seq<char>, YValueView)>::empty());
        assert(p.push(e)[0] == e);
        assert(yget(Seq::<(Seq<char>, YValueView)>::empty(), k) is None);
    }
}

/// In entries with distinct keys, the value of a key is the one the map of
/// the entries holds.
proof fn lemma_yget_canon(es: Seq<(Seq<char>, YValueView)>, k: Seq<char>)
    requires
        distinct_keys(es),
    ensures
        yget(es, k) is None <==> !canon_entries(es).contains_key(k),
        yget(es, k) matches Some(v) ==> canon_entries(es)[k] == canon(v),
    decreases es.len(),
{
    if es.len() > 0 {
        let p = es.drop_last();
        let e = es.last();
        assert(es =~= p.push(e));
        lemma_yget_canon(p, k);
        lemma_yget_push(p, e, k);
        if e.0 == k && yget(p, k) is Some {
            let m = canon_entries(p);
            lemma_yget_index(p, k);
        }
    }
}

/// The value of a key is that of one of the entries.
proof fn lemma_yget_index(es: Seq<(Seq<char>, YValueView)>, k: Seq<char>)
    ensures
        yget(es, k) matches Some(v) ==> exists|i: int| 0 <= i < es.len() && #[trigger] es[i] == (k, v),
    decreases es.len(),
{
    if es.len() > 0 && es[0].0 != k {
        lemma_yget_index(es.drop_first(), k);
        if yget(es, k) is Some {
            let v = yget(es, k)->0;
            let i = choose|i: int| 0 <= i < es.drop_first().len() && #[trigger] es.drop_first()[i] == (k, v);
            assert(es[i + 1] == (k, v));
        }
    } else if es.len() > 0 {
        assert(es[0] == (k, es[0].1));
    }
}

/// Two sets of entries that hold the same map, the first with distinct
/// keys and the second well keyed, give a key the same value as a map
/// holds it.
proof fn lemma_same_lookup(x1: Seq<(Seq<char>, YValueView)>, x2: Seq<(Seq<char>, YValueView)>, k: Seq<char>)
    requires
        distinct_keys(x1),
        well_keyed(x2),
        canon_entries(x1) == canon_entries(x2),
    ensures
        yget(x1, k) is None ==> yget(x2, k) is None,
        yget(x1, k) matches Some(v1) ==> (yget(x2, k) matches Some(v2) && canon(v2) == canon(v1)
            && value_well_keyed(v2)),
{
    lemma_yget_canon(x1, k);
    lemma_yget_canon(x2, k);
    lemma_yget_index(x2, k);
    if yget(x2, k) is Some {
        let v2 = yget(x2, k)->0;
        let i = choose|i: int| 0 <= i < x2.len() && #[trigger] x2[i] == (k, v2);
        assert(value_well_keyed(x2[i].1));
    }
}

/// Two values that hold the same map: both maps, the entries of the second
/// well keyed.
proof fn lemma_same_dict(v1: YValueView, v2: YValueView)
    requires
        v1.shape is Dict,
        canon(v2) == canon(v1),
        value_well_keyed(v2),
    ensures
        v2.shape is Dict,
        canon_entries(v2.shape->Dict_0) == canon_entries(v1.shape->Dict_0),
        well_keyed(v2.shape->Dict_0),
{
    match v2.shape {
        YShapeView::Dict(_) => {},
        YShapeView::Array(_) => {},
        YShapeView::Other => {},
        _ => {},
    }
}

proof fn lemma_key_literals()
    ensures
        "type"@ != "id"@,
        "data"@ != "id"@,
        "data"@ != "type"@,
        "tunes"@ != "id"@,
        "tunes"@ != "type"@,
        "tunes"@ != "data"@,
        "html"@ != "text"@,
        "level"@ != "text"@,
        "items"@ != "style"@,
        "caption"@ != "text"@,
        "alignment"@ != "text"@,
        "alignment"@ != "caption"@,
        "filename"@ != "url"@,
        "withBorder"@ != "file"@,
        "withBackground"@ != "file"@,
        "withBackground"@ != "withBorder"@,
        "stretched"@ != "file"@,
        "stretched"@ != "withBorder"@,
        "stretched"@ != "withBackground"@,
        "caption"@ != "file"@,
        "caption"@ != "withBorder"@,
        "caption"@ != "withBackground"@,
        "caption"@ != "stretched"@,
        "header"@ != "paragraph"@,
        "list"@ != "paragraph"@,
        "list"@ != "header"@,
        "quote"@ != "paragraph"@,
        "quote"@ != "header"@,
        "quote"@ != "list"@,
        "image"@ != "paragraph"@,
        "image"@ != "header"@,
        "image"@ != "list"@,
        "image"@ != "quote"@,
{
    reveal_strlit("id");
    reveal_strlit("type");
    reveal_strlit("data");
    reveal_strlit("tunes");
    reveal_strlit("text");
    reveal_strlit("html");
    reveal_strlit("level");
    reveal_strlit("style");
    reveal_strlit("items");
    reveal_strlit("caption");
    reveal_strlit("alignment");
    reveal_strlit("file");
    reveal_strlit("url");
    reveal_strlit("filename");
    reveal_strlit("withBorder");
    reveal_strlit("withBackground");
    reveal_strlit("stretched");
    reveal_strlit("paragraph");
    reveal_strlit("header");
    reveal_strlit("list");
    reveal_strlit("quote");
    reveal_strlit("image");
    assert("id"@.len() == 2 && "type"@.len() == 4 && "data"@.len() == 4 && "tunes"@.len() == 5);
    assert("text"@.len() == 4 && "level"@.len() == 5 && "caption"@.len() == 7);
    assert("alignment"@.len() == 9 && "url"@.len() == 3 && "filename"@.len() == 8);
    assert("file"@.len() == 4 && "withBorder"@.len() == 10 && "withBackground"@.len() == 14);
    assert("stretched"@.len() == 9 && "paragraph"@.len() == 9 && "header"@.len() == 6);
    assert("list"@.len() == 4 && "quote"@.len() == 5 && "image"@.len() == 5);
    assert("type"@[0] != "data"@[0]);
    assert("html"@[0] != "text"@[0]);
    assert("items"@[0] != "style"@[0]);
    assert("image"@[0] != "quote"@[0]);
}

/// The map of written entries read back is what the document holds for
/// them.
proof fn lemma_written_canon(es: Seq<(Seq<char>, PrelimView)>)
    ensures
        canon_entries(read_back_entries(es)) == written_contents(prelim_map(es)),
    decreases es.len(),
{
    if es.len() > 0 {
        lemma_written_canon(es.drop_last());
        assert(read_back_entries(es).drop_last() =~= read_back_entries(es.drop_last()));
        assert(canon_entries(read_back_entries(es)) =~= written_contents(prelim_map(es)));
    }
}

proof fn lemma_canon_values_index(vs: Seq<YValueView>)
    ensures
        canon_values(vs).len() == vs.len(),
        forall|i: int| 0 <= i < vs.len() ==> #[trigger] canon_values(vs)[i] == canon(vs[i]),
    decreases vs.len(),
{
    if vs.len() > 0 {
        lemma_canon_values_index(vs.drop_last());
    }
}

/// A key whose value in the first entries is a leaf has the same value in
/// the second, where both hold the same map.
proof fn lemma_leaf_lookup(x1: Seq<(Seq<char>, YValueView)>, x2: Seq<(Seq<char>, YValueView)>, k: Seq<char>)
    requires
        distinct_keys(x1),
        well_keyed(x2),
        canon_entries(x1) == canon_entries(x2),
        forall|i: int| 0 <= i < x1.len() && x1[i].0 == k ==> is_leaf(#[trigger] x1[i].1),
    ensures
        yget(x2, k) == yget(x1, k),
{
    lemma_same_lookup(x1, x2, k);
    lemma_yget_index(x1, k);
    if yget(x1, k) is Some {
        let v1 = yget(x1, k)->0;
        let i = choose|i: int| 0 <= i < x1.len() && #[trigger] x1[i] == (k, v1);
        assert(is_leaf(x1[i].1));
        lemma_leaf_canon(v1, yget(x2, k)->0);
    }
}

/// The entries of a payload, written and read back: distinct keys, every
/// value a leaf but the items of a list and the file of an image.
proof fn lemma_written_data(d: BlockDataView)
    ensures
        distinct_keys(read_back_entries(write_data(d).1)),
        forall|i: int|
            0 <= i < read_back_entries(write_data(d).1).len() && read_back_entries(write_data(d).1)[i].0
                != "items"@ && read_back_entries(write_data(d).1)[i].0 != "file"@ ==> is_leaf(
                #[trigger] read_back_entries(write_data(d).1)[i].1,
            ),
{
    lemma_key_literals();
    let es = write_data(d).1;
    let m = read_back_entries(es);
    lemma_read_back_entries(es);
    match d {
        BlockDataView::Image { file, caption, with_border, with_background, stretched } => {
            assert(es.len() == 4 || es.len() == 5);
            assert(es[0].0 == "file"@ && es[1].0 == "withBorder"@ && es[2].0 == "withBackground"@
                && es[3].0 == "stretched"@);
            if es.len() == 5 {
                assert(es[4].0 == "caption"@);
            }
        },
        _ => {},
    }
}

proof fn lemma_leaf_keys()
    ensures
        "text"@ != "items"@ && "text"@ != "file"@,
        "html"@ != "items"@ && "html"@ != "file"@,
        "level"@ != "items"@ && "level"@ != "file"@,
        "style"@ != "items"@ && "style"@ != "file"@,
        "caption"@ != "items"@ && "caption"@ != "file"@,
        "alignment"@ != "items"@ && "alignment"@ != "file"@,
        "withBorder"@ != "items"@ && "withBorder"@ != "file"@,
        "withBackground"@ != "items"@ && "withBackground"@ != "file"@,
        "stretched"@ != "items"@ && "stretched"@ != "file"@,
{
    reveal_strlit("text");
    reveal_strlit("html");
    reveal_strlit("level");
    reveal_strlit("style");
    reveal_strlit("caption");
    reveal_strlit("alignment");
    reveal_strlit("withBorder");
    reveal_strlit("withBackground");
    reveal_strlit("stretched");
    reveal_strlit("items");
    reveal_strlit("file");
    assert("text"@.len() == 4 && "items"@.len() == 5 && "file"@.len() == 4);
    assert("text"@[0] != "file"@[0] && "html"@[0] != "file"@[0]);
    assert("level"@[0] != "items"@[0] && "style"@[0] != "items"@[0]);
}

/// The payload read from any entries that hold the written payload is the
/// one read from the written entries.
proof fn lemma_read_written_data(d: BlockDataView, d2: Seq<(Seq<char>, YValueView)>)
    requires
        well_keyed(d2),
        canon_entries(d2) == canon_entries(read_back_entries(write_data(d).1)),
    ensures
        read_data(write_data(d).0, d2) == read_data(write_data(d).0, read_back_entries(write_data(d).1)),
{
    lemma_key_literals();
    let w = write_data(d);
    let d1 = read_back_entries(w.1);
    lemma_read_back_entries(w.1);
    lemma_written_data(d);
    lemma_leaf_keys();
    lemma_leaf_lookup(d1, d2, "text"@);
    lemma_leaf_lookup(d1, d2, "html"@);
    lemma_leaf_lookup(d1, d2, "level"@);
    lemma_leaf_lookup(d1, d2, "style"@);
    lemma_leaf_lookup(d1, d2, "caption"@);
    lemma_leaf_lookup(d1, d2, "alignment"@);
    lemma_leaf_lookup(d1, d2, "withBorder"@);
    lemma_leaf_lookup(d1, d2, "withBackground"@);
    lemma_leaf_lookup(d1, d2, "stretched"@);
    match d {
        BlockDataView::List { style, items } => {
            lemma_yget_at(d1, "items"@, 1);
            lemma_same_lookup(d1, d2, "items"@);
            let v1 = d1[1].1;
            let v2 = yget(d2, "items"@)->0;
            let tv = text_values(items);
            lemma_read_back_values(tv);
            let a1 = read_back_values(tv);
            assert(v1.shape == YShapeView::Array(a1));
            match v2.shape {
                YShapeView::Array(a2) => {
                    lemma_canon_values_index(a1);
                    lemma_canon_values_index(a2);
                    assert forall|i: int| 0 <= i < a1.len() implies a2[i] == a1[i] by {
                        assert(canon_values(a2)[i] == canon_values(a1)[i]);
                        lemma_leaf_canon(a1[i], a2[i]);
                    }
                    assert(texts_of(a2) =~= texts_of(a1));
                },
                YShapeView::Dict(_) => {},
                YShapeView::Other => {},
                _ => {
                    assert(canon(v2) == YCanon::Leaf(v2.text, v2.shape));
                },
            }
        },
        BlockDataView::Image { file, caption, with_border, with_background, stretched } => {
            lemma_yget_at(d1, "file"@, 0);
            lemma_same_lookup(d1, d2, "file"@);
            let v1 = d1[0].1;
            let v2 = yget(d2, "file"@)->0;
            lemma_same_dict(v1, v2);
            let fe = seq![("url"@, PrelimView::Str(file.url)), ("filename"@, PrelimView::Str(file.filename))];
            let f1 = read_back_entries(fe);
            lemma_read_back_entries(fe);
            let f2 = v2.shape->Dict_0;
            assert(v1.shape == YShapeView::Dict(f1));
            assert(distinct_keys(f1));
            lemma_leaf_lookup(f1, f2, "url"@);
            lemma_leaf_lookup(f1, f2, "filename"@);
        },
        _ => {},
    }
}

/// The block read from any entries that hold a written block is the one
/// read from the written entries.
proof fn lemma_read_written_block(b: ContentBlockView, es2: Seq<(Seq<char>, YValueView)>)
    requires
        entries_hold(es2, written_contents(prelim_map(write_block(b)))),
    ensures
        read_block(es2) == read_block(read_back_entries(write_block(b))),
{
    lemma_key_literals();
    let w = write_data(b.data);
    let es = write_block(b);
    let m = read_back_entries(es);
    lemma_read_back_entries(es);
    lemma_written_canon(es);
    assert(es[0].0 == "id"@ && es[1].0 == "type"@ && es[2].0 == "data"@);
    if b.css_classes.len() > 0 {
        assert(es.len() == 4 && es[3].0 == "tunes"@);
    } else {
        assert(es.len() == 3);
    }
    assert(distinct_keys(m));
    lemma_leaf_lookup(m, es2, "id"@);
    lemma_leaf_lookup(m, es2, "type"@);
    lemma_yget_at(m, "data"@, 2);
    lemma_same_lookup(m, es2, "data"@);
    let v1 = m[2].1;
    let v2 = yget(es2, "data"@)->0;
    lemma_same_dict(v1, v2);
    let d1 = read_back_entries(w.1);
    assert(v1.shape == YShapeView::Dict(d1));
    lemma_read_written_data(b.data, v2.shape->Dict_0);
    lemma_yget_at(m, "id"@, 0);
    lemma_yget_at(m, "type"@, 1);
    assert(yget(m, "type"@) == Some(read_back(PrelimView::Str(w.0))));
    assert(read_data(w.0, v2.shape->Dict_0) == read_data(w.0, d1));
    if b.css_classes.len() > 0 {
        lemma_yget_at(m, "tunes"@, 3);
        lemma_same_lookup(m, es2, "tunes"@);
        let t1 = m[3].1;
        let t2 = yget(es2, "tunes"@)->0;
        lemma_same_dict(t1, t2);
        let se = seq![("css_classes"@, PrelimView::Str(join_spec(b.css_classes)))];
        let te = seq![("block_style_tunes"@, PrelimView::Dict(se))];
        let tm1 = read_back_entries(te);
        lemma_read_back_entries(te);
        let tm2 = t2.shape->Dict_0;
        assert(t1.shape == YShapeView::Dict(tm1));
        lemma_yget_at(tm1, "block_style_tunes"@, 0);
        lemma_same_lookup(tm1, tm2, "block_style_tunes"@);
        let s1 = tm1[0].1;
        let s2 = yget(tm2, "block_style_tunes"@)->0;
        lemma_same_dict(s1, s2);
        let sm1 = read_back_entries(se);
        lemma_read_back_entries(se);
        assert(s1.shape == YShapeView::Dict(sm1));
        lemma_leaf_lookup(sm1, s2.shape->Dict_0, "css_classes"@);
    } else {
        lemma_same_lookup(m, es2, "tunes"@);
        lemma_yget_none(m, "tunes"@);
    }
    assert(tune_classes(es2) == tune_classes(m));
}

/// A block written into the document and read back is the same block, its
/// kind taken from its payload and without revision, where no css class
/// holds a space and the classes are not a single empty one.
pub proof fn lemma_block_round_trip(b: ContentBlockView)
    requires
        forall|i: int| 0 <= i < b.css_classes.len() ==> has_no_space(#[trigger] b.css_classes[i]),
        !(b.css_classes.len() == 1 && b.css_classes[0].len() == 0),
    ensures
        read_block(read_back_entries(write_block(b))) == Ok::<ContentBlockView, Seq<char>>(
            normalized_block(b),
        ),
{
    lemma_key_literals();
    let w = write_data(b.data);
    let es = write_block(b);
    let m = read_back_entries(es);
    lemma_read_back_entries(es);
    assert(m[0].0 == "id"@ && m[1].0 == "type"@ && m[2].0 == "data"@);
    lemma_yget_at(m, "id"@, 0);
    lemma_yget_at(m, "type"@, 1);
    lemma_yget_at(m, "data"@, 2);
    let d = read_back_entries(w.1);
    lemma_read_back_entries(w.1);
    assert(m[2].1 == read_back(PrelimView::Dict(w.1)));
    match b.data {
        BlockDataView::Paragraph { text } => {
            lemma_yget_at(d, "text"@, 0);
            assert(read_data(w.0, d) == Ok::<BlockDataView, Seq<char>>(b.data));
        },
        BlockDataView::Heading { text, level } => {
            lemma_yget_at(d, "text"@, 0);
            lemma_yget_at(d, "level"@, 1);
            assert(short_number(level as i16) == level);
            assert(read_data(w.0, d) == Ok::<BlockDataView, Seq<char>>(b.data));
        },
        BlockDataView::Raw { html } => {
            lemma_yget_none(d, "text"@);
            lemma_yget_at(d, "html"@, 0);
            assert(read_data(w.0, d) == Ok::<BlockDataView, Seq<char>>(b.data));
        },
        BlockDataView::List { style, items } => {
            lemma_yget_at(d, "style"@, 0);
            lemma_yget_at(d, "items"@, 1);
            let tv = text_values(items);
            lemma_read_back_values(tv);
            assert(texts_of(read_back_values(tv)) =~= items);
            assert(read_data(w.0, d) == Ok::<BlockDataView, Seq<char>>(b.data));
        },
        BlockDataView::Quote { text, caption, alignment } => {
            lemma_yget_at(d, "text"@, 0);
            lemma_yget_at(d, "caption"@, 1);
            lemma_yget_at(d, "alignment"@, 2);
            assert(read_data(w.0, d) == Ok::<BlockDataView, Seq<char>>(b.data));
        },
        BlockDataView::Image { file, caption, with_border, with_background, stretched } => {
            lemma_yget_at(d, "file"@, 0);
            let fe = seq![("url"@, PrelimView::Str(file.url)), ("filename"@, PrelimView::Str(file.filename))];
            let fm = read_back_entries(fe);
            lemma_read_back_entries(fe);
            lemma_yget_at(fm, "url"@, 0);
            lemma_yget_at(fm, "filename"@, 1);
            lemma_yget_at(d, "withBorder"@, 1);
            lemma_yget_at(d, "withBackground"@, 2);
            lemma_yget_at(d, "stretched"@, 3);
            match caption {
                Some(c) => {
                    lemma_yget_at(d, "caption"@, 4);
                },
                None => {
                    lemma_yget_none(d, "caption"@);
                },
            }
            assert(read_data(w.0, d) == Ok::<BlockDataView, Seq<char>>(b.data));
        },
    }
    assert(read_data(w.0, d) == Ok::<BlockDataView, Seq<char>>(b.data));
    if b.css_classes.len() > 0 {
        assert(m[3].0 == "tunes"@);
        lemma_yget_at(m, "tunes"@, 3);
        let join = join_spec(b.css_classes);
        let se = seq![("css_classes"@, PrelimView::Str(join))];
        let te = seq![("block_style_tunes"@, PrelimView::Dict(se))];
        let tm = read_back_entries(te);
        lemma_read_back_entries(te);
        lemma_yget_at(tm, "block_style_tunes"@, 0);
        let sm = read_back_entries(se);
        lemma_read_back_entries(se);
        lemma_yget_at(sm, "css_classes"@, 0);
        assert(join.len() > 0) by {
            if b.css_classes.len() > 1 {
                let p = b.css_classes;
                assert(join_spec(p) == join_spec(p.drop_last()) + seq![' '] + p.last());
            }
        }
        lemma_split_join(b.css_classes);
        assert(tune_classes(m) == b.css_classes);
    } else {
        lemma_yget_none(m, "tunes"@);
        assert(tune_classes(m) =~= b.css_classes);
    }
}

/// A block that comes back as it was from the document: no css class holds
/// a space, and the classes are not a single empty one.
pub open spec fn storable(b: ContentBlockView) -> bool {
    &&& forall|i: int| 0 <= i < b.css_classes.len() ==> has_no_space(#[trigger] b.css_classes[i])
    &&& !(b.css_classes.len() == 1 && b.css_classes[0].len() == 0)
}

/// A map of the document that holds a written block reads as that block
/// (its kind taken from its payload, without revision), whatever order the
/// map yields its entries in.
pub proof fn lemma_written_block_read_back(b: ContentBlockView, es: Seq<(Seq<char>, YValueView)>)
    requires
        storable(b),
        entries_hold(es, written_contents(prelim_map(write_block(b)))),
    ensures
        read_block(es) == Ok::<ContentBlockView, Seq<char>>(normalized_block(b)),
{
    lemma_read_written_block(b, es);
    lemma_block_round_trip(b);
}

/// Blocks stored with `convert_contentblocks_to_yrs` come back from
/// `decode_yjs_content` as they were, in order and none dropped (their kind
/// taken from their payload, without revision), whatever order the maps of
/// the document yield their entries in: `ws` are the maps as the decoder
/// reads them, holding what the stored content holds.
pub proof fn lemma_stored_blocks_round_trip(
    bs: Seq<ContentBlockView>,
    ws: Seq<Option<Seq<(Seq<char>, YValueView)>>>,
)
    requires
        forall|i: int| 0 <= i < bs.len() ==> storable(#[trigger] bs[i]),
        maps_hold(ws, written_blocks(bs)),
    ensures
        blocks_of_maps(ws) == bs.map_values(|b: ContentBlockView| normalized_block(b)),
    decreases bs.len(),
{
    if bs.len() == 0 {
        assert(bs.map_values(|b: ContentBlockView| normalized_block(b)) =~= Seq::<ContentBlockView>::empty());
    } else {
        let p = bs.drop_last();
        let b = bs.last();
        assert(written_blocks(bs).drop_last() =~= written_blocks(p));
        assert(maps_hold(ws.drop_last(), written_blocks(p))) by {
            assert forall|i: int| 0 <= i < ws.drop_last().len() implies match #[trigger] ws.drop_last()[i] {
                Some(es) => written_blocks(p)[i] matches Some(m) && entries_hold(es, m),
                None => written_blocks(p)[i] is None,
            } by {
                assert(ws.drop_last()[i] == ws[i]);
                assert(written_blocks(p)[i] == written_blocks(bs)[i]);
            }
        }
        lemma_stored_blocks_round_trip(p, ws.drop_last());
        let last = ws.len() - 1;
        assert(written_blocks(bs)[last] == Some(written_contents(prelim_map(write_block(b)))));
        let es = ws[last]->0;
        assert(ws[last] is Some);
        assert(ws.last() == ws[last]);
        lemma_written_block_read_back(b, es);
        assert(bs.map_values(|b: ContentBlockView| normalized_block(b)) =~= p.map_values(
            |b: ContentBlockView| normalized_block(b),
        ).push(normalized_block(b)));
    }
}

// ---------------------------------------------------------------------------
// The document
// ---------------------------------------------------------------------------

/// `yrs::MapRef`, a map of a collaborative document.
#[verifier::external_type_specification]
#[verifier::external_body]
pub struct ExMapRef(MapRef);

/// `yrs::Out`, a value read from a document.
#[verifier::external_type_specification]
#[verifier::external_body]
pub struct ExOut(Out);

/// `yrs::In`, a value to be written into a document.
#[verifier::external_type_specification]
#[verifier::external_body]
pub struct ExIn(In);

/// `yrs::MapPrelim`, a map to be written into a document.
#[verifier::external_type_specification]
#[verifier::external_body]
pub struct ExMapPrelim(MapPrelim);

/// `yrs::Transaction`, a read transaction on a document.
#[verifier::external_type_specification]
#[verifier::external_body]
pub struct ExTransaction<'doc>(Transaction<'doc>);

/// Converts a value read from the document: the text that `Out::to_string`
/// writes for it, and its shape; a float number is handed over as `as u8`
/// reads it; a value whose text walks a hash map is marked `Other`. Called
/// by `map_entries` alone.
#[verifier::external_body]
fn from_out(v: Out, txn: &Transaction) -> YValue {
    let text = v.clone().to_string(txn);
    let shape = match v {
        Out::YMap(m) => YShape::Dict(map_entries(&m, txn)),
        Out::YArray(a) => YShape::Array(yrs::Array::iter(&a, txn).map(|x| from_out(x, txn)).collect()),
        Out::Any(Any::Bool(b)) => YShape::Bool(b),
        Out::Any(Any::BigInt(i)) => YShape::Int(i),
        Out::Any(Any::Number(f)) => YShape::Number(f as u8),
        Out::Any(Any::Array(_) | Any::Map(_)) => YShape::Other,
        Out::Any(_) | Out::YText(_) => YShape::Plain,
        _ => YShape::Other,
    };
    YValue { text, shape }
}

/// What a map of the document holds, read in a transaction.
pub uninterp spec fn map_ref_contents(m: MapRef, txn: Transaction) -> Map<Seq<char>, YCanon>;

/// `yrs::Map::iter` on a map of the document: its entries, converted, each
/// key once (the map is a hash map). They come in the order of a hash map,
/// so what is stated is what they hold as a map.
#[verifier::external_body]
fn map_entries(m: &MapRef, txn: &Transaction) -> (r: Vec<(String, YValue)>)
    ensures
        entries_hold(yentries_view(r@), map_ref_contents(*m, *txn)),
{
    yrs::Map::iter(m, txn).map(|(k, v)| (k.to_string(), from_out(v, txn))).collect()
}

/// Reads a block from its map in the document: `read_block` applied to the
/// map's entries, in the order in which the map yields them.
pub fn block_from_map_ref(map_ref: &MapRef, txn: &Transaction) -> (r: Result<NewContentBlock, String>)
    ensures
        exists|es: Seq<(Seq<char>, YValueView)>|
            entries_hold(es, map_ref_contents(*map_ref, *txn)) && #[trigger] block_result_view(r)
                == read_block(es),
{
    let entries = map_entries(map_ref, txn);
    let r = block_from_entries(&entries);
    assert(block_result_view(r) == read_block(yentries_view(entries@)));
    r
}

/// Converts a value to be written, one for one, into a value of the
/// document (strings as strings, texts as collaborative texts, maps and
/// arrays with their entries and items). Called by `map_prelim` alone.
#[verifier::external_body]
fn to_in(p: &PrelimValue) -> In {
    match p {
        PrelimValue::Str(s) => s.clone().into(),
        PrelimValue::Text(s) => TextPrelim::new(s.clone()).into(),
        PrelimValue::Bool(b) => (*b).into(),
        PrelimValue::Short(v) => (*v).into(),
        PrelimValue::Dict(es) => MapPrelim::from_iter(es.iter().map(|(k, v)| (k.clone(), to_in(v)))).into(),
        PrelimValue::Array(vs) => ArrayPrelim::from_iter(vs.iter().map(to_in)).into(),
    }
}

/// What a `yrs::MapPrelim` (a hash map from keys to values to be written)
/// holds: for each key, the value it writes, described by the value it was
/// converted from (`to_in`).
pub uninterp spec fn map_prelim_contents(m: MapPrelim) -> Map<Seq<char>, PrelimView>;

/// The map that entries make when collected in order: a later entry with
/// the same key replaces an earlier one.
pub open spec fn prelim_map(es: Seq<(Seq<char>, PrelimView)>) -> Map<Seq<char>, PrelimView>
    decreases es.len(),
{
    if es.len() == 0 {
        Map::empty()
    } else {
        prelim_map(es.drop_last()).insert(es.last().0, es.last().1)
    }
}

/// `yrs::MapPrelim::from_iter` of the entries, converted: the map that is
/// written into the document. `from_iter` collects the pairs into a
/// `HashMap` in order, so a later entry with a key replaces an earlier one;
/// each value is the one `to_in` converted.
#[verifier::external_body]
fn map_prelim(entries: &Vec<(String, PrelimValue)>) -> (r: MapPrelim)
    ensures
        map_prelim_contents(r) == prelim_map(prelim_entries_view(entries@)),
{
    MapPrelim::from_iter(entries.iter().map(|(k, v)| (k.clone(), to_in(v))))
}

/// What the document holds for a map that was written into it: each value
/// as it is read back (`read_back`).
pub open spec fn written_contents(m: Map<Seq<char>, PrelimView>) -> Map<Seq<char>, YCanon> {
    m.map_values(|p: PrelimView| canon(read_back(p)))
}

/// What the document holds for each map written into its block array, in
/// order.
pub open spec fn written_maps(maps: Seq<MapPrelim>) -> Seq<Option<Map<Seq<char>, YCanon>>> {
    maps.map_values(|m: MapPrelim| Some(written_contents(map_prelim_contents(m))))
}

/// What the document holds for each block written into its block array.
pub open spec fn written_blocks(blocks: Seq<ContentBlockView>) -> Seq<Option<Map<Seq<char>, YCanon>>> {
    blocks.map_values(|b: ContentBlockView| Some(written_contents(prelim_map(write_block(b)))))
}

/// The map a block is written into the document as: the entries of
/// `block_prelim`, keyed by their names.
pub fn block_map_prelim(b: &NewContentBlock) -> (r: MapPrelim)
    ensures
        map_prelim_contents(r) == prelim_map(write_block(b@)),
{
    let entries = block_prelim(b);
    map_prelim(&entries)
}

pub open spec fn maps_view(s: Seq<Option<Vec<(String, YValue)>>>) -> Seq<Option<Seq<(Seq<char>, YValueView)>>> {
    s.map_values(
        |o: Option<Vec<(String, YValue)>>|
            match o {
                Some(v) => Some(yentries_view(v@)),
                None => None,
            },
    )
}

pub open spec fn blocks_view(s: Seq<NewContentBlock>) -> Seq<ContentBlockView> {
    s.map_values(|b: NewContentBlock| b@)
}

/// The blocks read from the values of the document's block array: the
/// values that are maps and read as blocks, in order.
pub open spec fn blocks_of_maps(ms: Seq<Option<Seq<(Seq<char>, YValueView)>>>) -> Seq<ContentBlockView>
    decreases ms.len(),
{
    if ms.len() == 0 {
        Seq::empty()
    } else {
        let rest = blocks_of_maps(ms.drop_last());
        match ms.last() {
            Some(m) => match read_block(m) {
                Ok(b) => rest.push(b),
                Err(_) => rest,
            },
            None => rest,
        }
    }
}

/// Reads the blocks from the values of the document's block array.
pub fn blocks_from_maps(maps: &Vec<Option<Vec<(String, YValue)>>>) -> (r: Vec<NewContentBlock>)
    ensures
        blocks_view(r@) == blocks_of_maps(maps_view(maps@)),
{
    let mut r: Vec<NewContentBlock> = Vec::new();
    let mut i: usize = 0;
    while i < maps.len()
        invariant
            i <= maps.len(),
            blocks_view(r@) == blocks_of_maps(maps_view(maps@.take(i as int))),
        decreases maps.len() - i,
    {
        assert(maps_view(maps@.take(i + 1)).drop_last() =~= maps_view(maps@.take(i as int)));
        assert(maps_view(maps@.take(i + 1)).last() == maps_view(maps@)[i as int]);
        let ghost before = r@;
        match &maps[i] {
            Some(m) => {
                match block_from_entries(m) {
                    Ok(b) => {
                        r.push(b);
                        assert(blocks_view(r@) =~= blocks_view(before).push(r@.last()@));
                    },
                    Err(_) => {},
                }
            },
            None => {},
        }
        i = i + 1;
    }
    assert(maps@.take(i as int) =~= maps@);
    r
}

/// What a stored content holds: the values of the array `blocks` of a new
/// document to which the update in `content` is applied, each a map
/// (`None` for a value that is not one), or the message of the failure.
pub uninterp spec fn decoded_block_maps(content: Seq<u8>) -> Result<Seq<Option<Map<Seq<char>, YCanon>>>, Seq<char>>;

/// Stored content that decodes into a document whose block array holds
/// the maps `ms`, in order.
pub open spec fn decodes_to(content: Seq<u8>, ms: Seq<Option<Map<Seq<char>, YCanon>>>) -> bool {
    decoded_block_maps(content) == Ok::<Seq<Option<Map<Seq<char>, YCanon>>>, Seq<char>>(ms)
}

/// The converted maps, as read, hold the maps `ms`, in order.
pub open spec fn maps_hold(ws: Seq<Option<Seq<(Seq<char>, YValueView)>>>, ms: Seq<Option<Map<Seq<char>, YCanon>>>) -> bool {
    &&& ws.len() == ms.len()
    &&& forall|i: int|
        0 <= i < ws.len() ==> match #[trigger] ws[i] {
            Some(es) => ms[i] matches Some(m) && entries_hold(es, m),
            None => ms[i] is None,
        }
}

/// `yrs::Update::decode_v1` of the content, applied to a new document, then
/// `yrs::Array::iter` on its array `blocks`: each value converted where it
/// is a map. Decoding and applying failures give the messages below; the
/// entries of each map come in the order of a hash map.
#[verifier::external_body]
fn decode_block_maps(content: &[u8]) -> (r: Result<Vec<Option<Vec<(String, YValue)>>>, String>)
    ensures
        match decoded_block_maps(content@) {
            Ok(ms) => r matches Ok(v) && maps_hold(maps_view(v@), ms),
            Err(e) => r matches Err(x) && x@ == e,
        },
{
    let update = Update::decode_v1(content).map_err(|_| "Could not decode yrs update".to_string())?;
    let doc = Doc::new();
    let applied = doc.transact_mut().apply_update(update);
    applied.map_err(|_| "Could not apply update to yrs doc".to_string())?;
    let blocks = doc.get_or_insert_array("blocks");
    let txn = doc.transact();
    let values = yrs::Array::iter(&blocks, &txn);
    Ok(values.map(|v| v.cast::<MapRef>().ok().map(|m| map_entries(&m, &txn))).collect())
}

/// Decodes the stored content of a section into its blocks: empty content
/// has none; otherwise the update is decoded into a document and the
/// values of its block array that read as blocks are returned, in order.
pub fn decode_yjs_content(content: &[u8]) -> (r: Result<Vec<NewContentBlock>, String>)
    ensures
        content@.len() == 0 ==> (r matches Ok(v) && v@.len() == 0),
        content@.len() > 0 ==> match decoded_block_maps(content@) {
            Ok(ms) => r matches Ok(v) && exists|ws: Seq<Option<Seq<(Seq<char>, YValueView)>>>|
                maps_hold(ws, ms) && #[trigger] blocks_view(v@) == blocks_of_maps(ws),
            Err(e) => r matches Err(x) && x@ == e,
        },
{
    if content.len() == 0 {
        let none: Vec<NewContentBlock> = Vec::new();
        return Ok(none);
    }
    match decode_block_maps(content) {
        Ok(maps) => {
            let blocks = blocks_from_maps(&maps);
            assert(blocks_view(blocks@) == blocks_of_maps(maps_view(maps@)));
            Ok(blocks)
        },
        Err(e) => Err(e),
    }
}

} // verus!
