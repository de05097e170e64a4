//! Import of converted documents and blog posts: the job states, the
//! choice of converter input format, the footnotes of an imported HTML
//! fragment, and the content blocks made from its top-level nodes.
use vstd::prelude::*;
use crate::content::{
    BlockData, BlockDataView, BlockType, ContentBlockView, NewContentBlock, kind_of, mapping_view, owned,
};
use crate::sections::{SectionMetadataV5, SectionV5};
use crate::metadata::{midnight_text, midnight_text_spec, CalendarDate};
use crate::html::{
    HtmlDom, HtmlElement, HtmlNode, RenderCtx, attr_value, attrs_view, ctx_view, has_class,
    lowercase, plain_ctx, render_nodes, render_seq, to_lower, attrs_text, attributes_text,
    attribute_is, opt_view,
};
use crate::text::{strings_view, text_eq};
use crate::wordpress::WordpressAPIError;

verus! {

// ---------------------------------------------------------------------------
// Job states
// ---------------------------------------------------------------------------

/// Number of the item being processed and the number of items, when known.
#[derive(Clone, Copy, Debug, PartialEq, Eq, Structural)]
pub struct ProcessingDetails {
    /// Number of the item currently processed.
    pub current: usize,
    /// Number of items to process; unknown for filtered blog imports.
    pub total: Option<usize>,
}

impl ProcessingDetails {
    pub fn new(current: usize, total: Option<usize>) -> (r: Self)
        ensures
            r == (ProcessingDetails { current, total }),
    {
        ProcessingDetails { current, total }
    }
}

/// What can go wrong in an import.
#[derive(Clone, Debug, PartialEq)]
pub enum ImportError {
    /// The file type is not supported or could not be determined.
    UnsupportedFileType,
    /// The file could not be opened or read.
    InvalidFile,
    /// The bibliography file could not be opened or read.
    BibFileInvalid,
    /// The converter could not be run or failed.
    PandocError,
    /// The HTML produced by the conversion could not be read.
    HtmlConversionFailed,
    /// The blog API reported an error.
    WordPressApiError(WordpressAPIError),
    /// The project to import into does not exist.
    ProjectNotFound,
}

/// The state of an import job.
#[derive(Clone, Debug, PartialEq)]
pub enum ImportStatus {
    /// Queued, waiting for a worker.
    Pending,
    /// Posts are being requested from the blog.
    RequestWPPosts,
    /// Items are being converted.
    Processing(ProcessingDetails),
    /// Finished successfully.
    Complete,
    /// Failed.
    Failed(ImportError),
}

/// Files to convert, one per section, each with its content type, and an
/// optional bibliography file.
#[derive(Clone, Debug)]
pub struct FileImportData {
    /// (path, content type) of each file.
    pub files_to_process: Vec<(String, String)>,
    /// Path of a bibliography file to import.
    pub bib_file: Option<String>,
}

/// The input formats of the document converter.
#[derive(Clone, Copy, Debug, PartialEq, Eq, Structural)]
pub enum ConverterInput {
    Latex,
    Odt,
    Docx,
    Doc,
    Epub,
    Rtf,
    Markdown,
}

/// The converter input format for a content type, if it is supported.
pub open spec fn input_format_spec(ct: Seq<char>) -> Option<ConverterInput> {
    if ct == "text/x-tex"@ || ct == "application/x-tex"@ {
        Some(ConverterInput::Latex)
    } else if ct == "application/vnd.oasis.opendocument.text"@ {
        Some(ConverterInput::Odt)
    } else if ct == "application/vnd.openxmlformats-officedocument.wordprocessingml.document"@ {
        Some(ConverterInput::Docx)
    } else if ct == "application/msword"@ {
        Some(ConverterInput::Doc)
    } else if ct == "application/epub+zip"@ {
        Some(ConverterInput::Epub)
    } else if ct == "application/rtf"@ {
        Some(ConverterInput::Rtf)
    } else if ct == "text/markdown"@ || ct == "text/x-markdown"@ {
        Some(ConverterInput::Markdown)
    } else {
        None
    }
}

/// Chooses the converter input format for a file's content type; an
/// unknown type is refused.
pub fn input_format_for(content_type: &str) -> (r: Result<ConverterInput, ImportError>)
    ensures
        match input_format_spec(content_type@) {
            Some(f) => r == Ok::<ConverterInput, ImportError>(f),
            None => r == Err::<ConverterInput, ImportError>(ImportError::UnsupportedFileType),
        },
{
    if text_eq(content_type, "text/x-tex") || text_eq(content_type, "application/x-tex") {
        Ok(ConverterInput::Latex)
    } else if text_eq(content_type, "application/vnd.oasis.opendocument.text") {
        Ok(ConverterInput::Odt)
    } else if text_eq(
        content_type,
        "application/vnd.openxmlformats-officedocument.wordprocessingml.document",
    ) {
        Ok(ConverterInput::Docx)
    } else if text_eq(content_type, "application/msword") {
        Ok(ConverterInput::Doc)
    } else if text_eq(content_type, "application/epub+zip") {
        Ok(ConverterInput::Epub)
    } else if text_eq(content_type, "application/rtf") {
        Ok(ConverterInput::Rtf)
    } else if text_eq(content_type, "text/markdown") || text_eq(content_type, "text/x-markdown") {
        Ok(ConverterInput::Markdown)
    } else {
        Err(ImportError::UnsupportedFileType)
    }
}

// ---------------------------------------------------------------------------
// Blog post selection
// ---------------------------------------------------------------------------

/// Whether a post with these categories passes the category filters: at
/// least one included category, when included ones are given, and no
/// excluded one, when excluded ones are given.
pub open spec fn passes_filters(
    cats: Seq<usize>,
    included: Option<Seq<usize>>,
    excluded: Option<Seq<usize>>,
) -> bool {
    &&& match included {
        Some(inc) => exists|i: int| 0 <= i < cats.len() && inc.contains(#[trigger] cats[i]),
        None => true,
    }
    &&& match excluded {
        Some(exc) => !(exists|i: int| 0 <= i < cats.len() && exc.contains(#[trigger] cats[i])),
        None => true,
    }
}

pub open spec fn opt_seq(o: Option<Vec<usize>>) -> Option<Seq<usize>> {
    match o {
        Some(v) => Some(v@),
        None => None,
    }
}

fn contains_id(v: &Vec<usize>, x: usize) -> (b: bool)
    ensures
        b == v@.contains(x),
{
    let mut i: usize = 0;
    while i < v.len()
        invariant
            i <= v.len(),
            forall|k: int| 0 <= k < i ==> v@[k] != x,
        decreases v.len() - i,
    {
        if v[i] == x {
            return true;
        }
        i = i + 1;
    }
    false
}

fn any_in(cats: &Vec<usize>, set: &Vec<usize>) -> (b: bool)
    ensures
        b == exists|i: int| 0 <= i < cats@.len() && set@.contains(#[trigger] cats@[i]),
{
    let mut i: usize = 0;
    while i < cats.len()
        invariant
            i <= cats.len(),
            forall|k: int| 0 <= k < i ==> !set@.contains(#[trigger] cats@[k]),
        decreases cats.len() - i,
    {
        if contains_id(set, cats[i]) {
            return true;
        }
        i = i + 1;
    }
    false
}

/// Whether a post with the given categories passes the category filters.
pub fn post_passes_filters(
    categories: &Vec<usize>,
    included: &Option<Vec<usize>>,
    excluded: &Option<Vec<usize>>,
) -> (b: bool)
    ensures
        b == passes_filters(categories@, opt_seq(*included), opt_seq(*excluded)),
{
    let inc_ok = match included {
        Some(inc) => any_in(categories, inc),
        None => true,
    };
    let exc_ok = match excluded {
        Some(exc) => !any_in(categories, exc),
        None => true,
    };
    inc_ok && exc_ok
}

/// The positions of the posts, given by their categories, that pass the
/// category filters, in order.
pub fn select_posts(
    post_categories: &Vec<Vec<usize>>,
    included: &Option<Vec<usize>>,
    excluded: &Option<Vec<usize>>,
) -> (r: Vec<usize>)
    ensures
        forall|k: int| 0 <= k < r@.len() ==> r@[k] < post_categories@.len(),
        forall|k: int, l: int| 0 <= k < l < r@.len() ==> r@[k] < r@[l],
        forall|p: int|
            0 <= p < post_categories@.len() ==> (r@.contains(p as usize) <==> passes_filters(
                #[trigger] post_categories@[p]@,
                opt_seq(*included),
                opt_seq(*excluded),
            )),
{
    let mut r: Vec<usize> = Vec::new();
    let mut p: usize = 0;
    while p < post_categories.len()
        invariant
            p <= post_categories.len(),
            forall|k: int| 0 <= k < r@.len() ==> r@[k] < p,
            forall|k: int, l: int| 0 <= k < l < r@.len() ==> r@[k] < r@[l],
            forall|q: int|
                0 <= q < p ==> (r@.contains(q as usize) <==> passes_filters(
                    #[trigger] post_categories@[q]@,
                    opt_seq(*included),
                    opt_seq(*excluded),
                )),
        decreases post_categories.len() - p,
    {
        let ghost before = r@;
        if post_passes_filters(&post_categories[p], included, excluded) {
            r.push(p);
            assert(r@[r@.len() - 1] == p);
        }
        assert forall|q: int| 0 <= q < p + 1 implies (r@.contains(q as usize) <==> passes_filters(
            #[trigger] post_categories@[q]@,
            opt_seq(*included),
            opt_seq(*excluded),
        )) by {
            if q < p {
                if before.contains(q as usize) {
                    let k = choose|k: int| 0 <= k < before.len() && before[k] == q as usize;
                    assert(r@[k] == q as usize);
                }
                if r@.contains(q as usize) {
                    let k = choose|k: int| 0 <= k < r@.len() && r@[k] == q as usize;
                    assert(k < before.len());
                    assert(before[k] == q as usize);
                }
            } else {
                if r@.contains(q as usize) {
                    let k = choose|k: int| 0 <= k < r@.len() && r@[k] == q as usize;
                    assert(k == before.len());
                }
            }
        }
        p = p + 1;
    }
    r
}

// ---------------------------------------------------------------------------
// Searching nodes
// ---------------------------------------------------------------------------

/// The first element among `nodes` with tag name `name`.
pub open spec fn find_named(nodes: Seq<HtmlNode>, name: Seq<char>) -> Option<HtmlElement>
    decreases nodes.len(),
{
    if nodes.len() == 0 {
        None
    } else {
        match nodes[0] {
            HtmlNode::Element(e) => if e.name@ == name {
                Some(e)
            } else {
                find_named(nodes.skip(1), name)
            },
            _ => find_named(nodes.skip(1), name),
        }
    }
}

/// The first element among `nodes` with class `class`.
pub open spec fn find_with_class(nodes: Seq<HtmlNode>, class: Seq<char>) -> Option<HtmlElement>
    decreases nodes.len(),
{
    if nodes.len() == 0 {
        None
    } else {
        match nodes[0] {
            HtmlNode::Element(e) => if strings_view(e.classes@).contains(class) {
                Some(e)
            } else {
                find_with_class(nodes.skip(1), class)
            },
            _ => find_with_class(nodes.skip(1), class),
        }
    }
}

fn find_named_exec<'a>(nodes: &'a Vec<HtmlNode>, name: &str) -> (r: Option<&'a HtmlElement>)
    ensures
        match r {
            Some(e) => find_named(nodes@, name@) == Some(*e),
            None => find_named(nodes@, name@) is None,
        },
{
    let mut i: usize = 0;
    assert(nodes@.skip(0) =~= nodes@);
    while i < nodes.len()
        invariant
            i <= nodes.len(),
            find_named(nodes@.skip(i as int), name@) == find_named(nodes@, name@),
        decreases nodes.len() - i,
    {
        assert(nodes@.skip(i as int)[0] == nodes@[i as int]);
        assert(nodes@.skip(i as int).skip(1) =~= nodes@.skip(i + 1));
        if let HtmlNode::Element(e) = &nodes[i] {
            if text_eq(e.name.as_str(), name) {
                return Some(e);
            }
        }
        i = i + 1;
    }
    None
}

fn find_with_class_exec<'a>(nodes: &'a Vec<HtmlNode>, class: &str) -> (r: Option<&'a HtmlElement>)
    ensures
        match r {
            Some(e) => find_with_class(nodes@, class@) == Some(*e),
            None => find_with_class(nodes@, class@) is None,
        },
{
    let mut i: usize = 0;
    assert(nodes@.skip(0) =~= nodes@);
    while i < nodes.len()
        invariant
            i <= nodes.len(),
            find_with_class(nodes@.skip(i as int), class@) == find_with_class(nodes@, class@),
        decreases nodes.len() - i,
    {
        assert(nodes@.skip(i as int)[0] == nodes@[i as int]);
        assert(nodes@.skip(i as int).skip(1) =~= nodes@.skip(i + 1));
        if let HtmlNode::Element(e) = &nodes[i] {
            if has_class(&e.classes, class) {
                return Some(e);
            }
        }
        i = i + 1;
    }
    None
}

// ---------------------------------------------------------------------------
// Footnotes of converted documents
// ---------------------------------------------------------------------------

/// Rendering without footnotes, link conversion or link citations.
pub open spec fn note_ctx(endnotes: bool) -> RenderCtx {
    plain_ctx(endnotes, Seq::empty())
}

/// One node of a footnote's paragraph: texts kept, back links dropped,
/// other links written with their attributes, other elements written
/// without attributes.
pub open spec fn note_body_node(n: HtmlNode, endnotes: bool) -> Seq<char> {
    match n {
        HtmlNode::Text(t) => t@,
        HtmlNode::Element(e) => if lowercase(e.name@) == "a"@ {
            if attr_value(attrs_view(e.attributes@), "role"@) == Some(Some("doc-backlink"@)) {
                Seq::empty()
            } else {
                "<a "@ + attrs_text(attrs_view(e.attributes@)) + ">"@ + render_seq(
                    e.children@,
                    note_ctx(endnotes),
                ) + "</a>"@
            }
        } else {
            "<"@ + e.name@ + ">"@ + render_seq(e.children@, note_ctx(endnotes)) + "</"@ + e.name@
                + ">"@
        },
        HtmlNode::Comment(_) => Seq::empty(),
    }
}

pub open spec fn note_body(nodes: Seq<HtmlNode>, endnotes: bool) -> Seq<char>
    decreases nodes.len(),
{
    if nodes.len() == 0 {
        Seq::empty()
    } else {
        note_body(nodes.drop_last(), endnotes) + note_body_node(nodes.last(), endnotes)
    }
}

/// The text of a footnote list item: from its first child, a paragraph's
/// nodes or a text.
pub open spec fn footnote_item_text(li: HtmlElement, endnotes: bool) -> Seq<char> {
    if li.children@.len() == 0 {
        Seq::empty()
    } else {
        match li.children@[0] {
            HtmlNode::Element(p) => note_body(p.children@, endnotes),
            HtmlNode::Text(t) => t@,
            HtmlNode::Comment(_) => Seq::empty(),
        }
    }
}

/// (id, text) of each list item with an id.
pub open spec fn footnote_items(nodes: Seq<HtmlNode>, endnotes: bool) -> Seq<(Seq<char>, Seq<char>)>
    decreases nodes.len(),
{
    if nodes.len() == 0 {
        Seq::empty()
    } else {
        footnote_items(nodes.drop_last(), endnotes) + match nodes.last() {
            HtmlNode::Element(li) => match li.id {
                Some(id) => seq![(id@, footnote_item_text(li, endnotes))],
                None => Seq::empty(),
            },
            _ => Seq::empty(),
        }
    }
}

/// The footnotes of a converted document: the items of the first list in
/// the first `aside`, when that aside has the id `footnotes`.
pub open spec fn converter_footnotes(top: Seq<HtmlNode>, endnotes: bool) -> Seq<
    (Seq<char>, Seq<char>),
> {
    match find_named(top, "aside"@) {
        Some(aside) => match aside.id {
            Some(id) => if id@ == "footnotes"@ {
                match find_named(aside.children@, "ol"@) {
                    Some(ol) => footnote_items(ol.children@, endnotes),
                    None => Seq::empty(),
                }
            } else {
                Seq::empty()
            },
            None => Seq::empty(),
        },
        None => Seq::empty(),
    }
}

fn no_links() -> (r: Vec<(String, String)>)
    ensures
        mapping_view(r@) == Seq::<(Seq<char>, Seq<char>)>::empty(),
{
    let r: Vec<(String, String)> = Vec::new();
    assert(mapping_view(r@) =~= Seq::<(Seq<char>, Seq<char>)>::empty());
    r
}

fn render_plain(nodes: &Vec<HtmlNode>, endnotes: bool) -> (r: String)
    ensures
        r@ == render_seq(nodes@, note_ctx(endnotes)),
{
    let none: Option<Vec<(String, String)>> = None;
    let links = no_links();
    render_nodes(nodes, &none, endnotes, false, &links)
}

fn note_body_exec(nodes: &Vec<HtmlNode>, endnotes: bool) -> (r: String)
    ensures
        r@ == note_body(nodes@, endnotes),
{
    let mut out = String::new();
    let mut i: usize = 0;
    while i < nodes.len()
        invariant
            i <= nodes.len(),
            out@ == note_body(nodes@.take(i as int), endnotes),
        decreases nodes.len() - i,
    {
        assert(nodes@.take(i + 1).drop_last() =~= nodes@.take(i as int));
        assert(nodes@.take(i + 1).last() == nodes@[i as int]);
        match &nodes[i] {
            HtmlNode::Text(t) => {
                out.append(t.as_str());
            },
            HtmlNode::Element(e) => {
                let lname = to_lower(e.name.as_str());
                if text_eq(lname.as_str(), "a") {
                    let role = attribute_is(&e.attributes, "role", "doc-backlink");
                    if !role {
                        let attrs = attributes_text(&e.attributes);
                        let inner = render_plain(&e.children, endnotes);
                        out.append("<a ");
                        out.append(attrs.as_str());
                        out.append(">");
                        out.append(inner.as_str());
                        out.append("</a>");
                    } else {
                        assert(out@ + Seq::<char>::empty() =~= out@);
                    }
                } else {
                    let inner = render_plain(&e.children, endnotes);
                    out.append("<");
                    out.append(e.name.as_str());
                    out.append(">");
                    out.append(inner.as_str());
                    out.append("</");
                    out.append(e.name.as_str());
                    out.append(">");
                }
            },
            HtmlNode::Comment(_) => {
                assert(out@ + Seq::<char>::empty() =~= out@);
            },
        }
        i = i + 1;
    }
    assert(nodes@.take(i as int) =~= nodes@);
    out
}

fn footnote_item_text_exec(li: &HtmlElement, endnotes: bool) -> (r: String)
    ensures
        r@ == footnote_item_text(*li, endnotes),
{
    if li.children.len() == 0 {
        return String::new();
    }
    match &li.children[0] {
        HtmlNode::Element(p) => note_body_exec(&p.children, endnotes),
        HtmlNode::Text(t) => owned(t.as_str()),
        HtmlNode::Comment(_) => String::new(),
    }
}

fn footnote_items_exec(nodes: &Vec<HtmlNode>, endnotes: bool) -> (r: Vec<(String, String)>)
    ensures
        mapping_view(r@) == footnote_items(nodes@, endnotes),
{
    let mut r: Vec<(String, String)> = Vec::new();
    let mut i: usize = 0;
    while i < nodes.len()
        invariant
            i <= nodes.len(),
            mapping_view(r@) == footnote_items(nodes@.take(i as int), endnotes),
        decreases nodes.len() - i,
    {
        assert(nodes@.take(i + 1).drop_last() =~= nodes@.take(i as int));
        assert(nodes@.take(i + 1).last() == nodes@[i as int]);
        let ghost before = mapping_view(r@);
        match &nodes[i] {
            HtmlNode::Element(li) => match &li.id {
                Some(id) => {
                    let text = footnote_item_text_exec(li, endnotes);
                    r.push((owned(id.as_str()), text));
                    assert(mapping_view(r@) =~= before + seq![(id@, footnote_item_text(*li, endnotes))]);
                },
                None => {
                    assert(before + Seq::<(Seq<char>, Seq<char>)>::empty() =~= before);
                },
            },
            _ => {
                assert(before + Seq::<(Seq<char>, Seq<char>)>::empty() =~= before);
            },
        }
        i = i + 1;
    }
    assert(nodes@.take(i as int) =~= nodes@);
    r
}

/// The footnotes of a converted document, by id.
pub fn converter_footnotes_exec(top: &Vec<HtmlNode>, endnotes: bool) -> (r: Vec<(String, String)>)
    ensures
        mapping_view(r@) == converter_footnotes(top@, endnotes),
{
    let empty: Vec<(String, String)> = Vec::new();
    assert(mapping_view(empty@) =~= Seq::<(Seq<char>, Seq<char>)>::empty());
    match find_named_exec(top, "aside") {
        Some(aside) => match &aside.id {
            Some(id) => {
                if text_eq(id.as_str(), "footnotes") {
                    match find_named_exec(&aside.children, "ol") {
                        Some(ol) => footnote_items_exec(&ol.children, endnotes),
                        None => empty,
                    }
                } else {
                    empty
                }
            },
            None => empty,
        },
        None => empty,
    }
}

// ---------------------------------------------------------------------------
// Footnotes of blog posts
// ---------------------------------------------------------------------------

/// The footnote of a row of the footnote table: (id of the back link in
/// the first cell, rendering of the second cell).
pub open spec fn footnote_row(row: HtmlNode, endnotes: bool) -> Seq<(Seq<char>, Seq<char>)> {
    match row {
        HtmlNode::Element(tr) => if tr.children@.len() > 0 {
            match tr.children@[0] {
                HtmlNode::Element(th) => if th.children@.len() > 0 {
                    match th.children@[0] {
                        HtmlNode::Element(a) => if strings_view(a.classes@).contains(
                            "footnote_backlink"@,
                        ) {
                            match a.id {
                                Some(id) => if tr.children@.len() > 1 {
                                    match tr.children@[1] {
                                        HtmlNode::Element(td) => if strings_view(
                                            td.classes@,
                                        ).contains("footnote_plugin_text"@) {
                                            seq![
                                                (id@, render_seq(td.children@, note_ctx(endnotes))),
                                            ]
                                        } else {
                                            Seq::empty()
                                        },
                                        _ => Seq::empty(),
                                    }
                                } else {
                                    Seq::empty()
                                },
                                None => Seq::empty(),
                            }
                        } else {
                            Seq::empty()
                        },
                        _ => Seq::empty(),
                    }
                } else {
                    Seq::empty()
                },
                _ => Seq::empty(),
            }
        } else {
            Seq::empty()
        },
        _ => Seq::empty(),
    }
}

pub open spec fn footnote_rows(rows: Seq<HtmlNode>, endnotes: bool) -> Seq<(Seq<char>, Seq<char>)>
    decreases rows.len(),
{
    if rows.len() == 0 {
        Seq::empty()
    } else {
        footnote_rows(rows.drop_last(), endnotes) + footnote_row(rows.last(), endnotes)
    }
}

/// The footnotes of a blog post: the rows of the table body in the second
/// child of the first element of class `footnotes_reference_container`.
pub open spec fn blog_footnotes(top: Seq<HtmlNode>, endnotes: bool) -> Seq<(Seq<char>, Seq<char>)> {
    match find_with_class(top, "footnotes_reference_container"@) {
        Some(div) => if div.children@.len() > 1 {
            match div.children@[1] {
                HtmlNode::Element(e) => if e.children@.len() > 0 {
                    match e.children@[0] {
                        HtmlNode::Element(table) => if table.name@ == "table"@
                            && table.children@.len() > 1 {
                            match table.children@[1] {
                                HtmlNode::Element(tbody) => if tbody.name@ == "tbody"@ {
                                    footnote_rows(tbody.children@, endnotes)
                                } else {
                                    Seq::empty()
                                },
                                _ => Seq::empty(),
                            }
                        } else {
                            Seq::empty()
                        },
                        _ => Seq::empty(),
                    }
                } else {
                    Seq::empty()
                },
                _ => Seq::empty(),
            }
        } else {
            Seq::empty()
        },
        None => Seq::empty(),
    }
}

fn footnote_row_exec(row: &HtmlNode, endnotes: bool) -> (r: Option<(String, String)>)
    ensures
        match r {
            Some(p) => footnote_row(*row, endnotes) == seq![(p.0@, p.1@)],
            None => footnote_row(*row, endnotes) == Seq::<(Seq<char>, Seq<char>)>::empty(),
        },
{
    let tr = match row {
        HtmlNode::Element(tr) => tr,
        _ => return None,
    };
    if tr.children.len() == 0 {
        return None;
    }
    let th = match &tr.children[0] {
        HtmlNode::Element(th) => th,
        _ => return None,
    };
    if th.children.len() == 0 {
        return None;
    }
    let a = match &th.children[0] {
        HtmlNode::Element(a) => a,
        _ => return None,
    };
    if !has_class(&a.classes, "footnote_backlink") {
        return None;
    }
    let id = match &a.id {
        Some(id) => id,
        None => return None,
    };
    if tr.children.len() <= 1 {
        return None;
    }
    let td = match &tr.children[1] {
        HtmlNode::Element(td) => td,
        _ => return None,
    };
    if !has_class(&td.classes, "footnote_plugin_text") {
        return None;
    }
    let text = render_plain(&td.children, endnotes);
    Some((owned(id.as_str()), text))
}

fn footnote_rows_exec(rows: &Vec<HtmlNode>, endnotes: bool) -> (r: Vec<(String, String)>)
    ensures
        mapping_view(r@) == footnote_rows(rows@, endnotes),
{
    let mut r: Vec<(String, String)> = Vec::new();
    let mut i: usize = 0;
    while i < rows.len()
        invariant
            i <= rows.len(),
            mapping_view(r@) == footnote_rows(rows@.take(i as int), endnotes),
        decreases rows.len() - i,
    {
        assert(rows@.take(i + 1).drop_last() =~= rows@.take(i as int));
        assert(rows@.take(i + 1).last() == rows@[i as int]);
        let ghost before = mapping_view(r@);
        match footnote_row_exec(&rows[i], endnotes) {
            Some(p) => {
                let ghost pv = (p.0@, p.1@);
                r.push(p);
                assert(mapping_view(r@) =~= before + seq![pv]);
            },
            None => {
                assert(before + Seq::<(Seq<char>, Seq<char>)>::empty() =~= before);
            },
        }
        i = i + 1;
    }
    assert(rows@.take(i as int) =~= rows@);
    r
}

/// The footnotes of a blog post, by id.
pub fn blog_footnotes_exec(top: &Vec<HtmlNode>, endnotes: bool) -> (r: Vec<(String, String)>)
    ensures
        mapping_view(r@) == blog_footnotes(top@, endnotes),
{
    let empty: Vec<(String, String)> = Vec::new();
    assert(mapping_view(empty@) =~= Seq::<(Seq<char>, Seq<char>)>::empty());
    let div = match find_with_class_exec(top, "footnotes_reference_container") {
        Some(div) => div,
        None => return empty,
    };
    if div.children.len() <= 1 {
        return empty;
    }
    let e = match &div.children[1] {
        HtmlNode::Element(e) => e,
        _ => return empty,
    };
    if e.children.len() == 0 {
        return empty;
    }
    let table = match &e.children[0] {
        HtmlNode::Element(t) => t,
        _ => return empty,
    };
    if !text_eq(table.name.as_str(), "table") || table.children.len() <= 1 {
        return empty;
    }
    let tbody = match &table.children[1] {
        HtmlNode::Element(t) => t,
        _ => return empty,
    };
    if !text_eq(tbody.name.as_str(), "tbody") {
        return empty;
    }
    footnote_rows_exec(&tbody.children, endnotes)
}


// ---------------------------------------------------------------------------
// Content blocks from top-level nodes
// ---------------------------------------------------------------------------

/// The heading level of a lower-case tag name `h1` to `h6`.
pub open spec fn heading_level(lname: Seq<char>) -> Option<u8> {
    if lname == "h1"@ {
        Some(1u8)
    } else if lname == "h2"@ {
        Some(2u8)
    } else if lname == "h3"@ {
        Some(3u8)
    } else if lname == "h4"@ {
        Some(4u8)
    } else if lname == "h5"@ {
        Some(5u8)
    } else if lname == "h6"@ {
        Some(6u8)
    } else {
        None
    }
}

/// A heading level moved up by one when asked, level 1 staying 1.
pub open spec fn shifted(level: u8, shift: bool) -> u8 {
    if shift && level > 1 {
        (level - 1) as u8
    } else {
        level
    }
}

/// The renderings of the `li` children of a list, in order.
pub open spec fn list_items(nodes: Seq<HtmlNode>, ctx: RenderCtx) -> Seq<Seq<char>>
    decreases nodes.len(),
{
    if nodes.len() == 0 {
        Seq::empty()
    } else {
        list_items(nodes.drop_last(), ctx) + match nodes.last() {
            HtmlNode::Element(li) => if lowercase(li.name@) == "li"@ {
                seq![render_seq(li.children@, ctx)]
            } else {
                Seq::empty()
            },
            _ => Seq::empty(),
        }
    }
}

/// The block made from a top-level node: a text becomes a paragraph,
/// headings, paragraphs, lists and quotes their blocks, the footnote
/// container (`aside` for converted documents, the footnote `div` for blog
/// posts) and comments nothing, any other element a paragraph.
pub open spec fn node_block(n: HtmlNode, blog: bool, ctx: RenderCtx, shift: bool) -> Option<
    BlockDataView,
> {
    match n {
        HtmlNode::Text(t) => Some(BlockDataView::Paragraph { text: t@ }),
        HtmlNode::Comment(_) => None,
        HtmlNode::Element(el) => {
            let lname = lowercase(el.name@);
            let text = render_seq(el.children@, ctx);
            match heading_level(lname) {
                Some(level) => Some(BlockDataView::Heading { text, level: shifted(level, shift) }),
                None => if lname == "p"@ {
                    Some(BlockDataView::Paragraph { text })
                } else if lname == "ul"@ || lname == "ol"@ {
                    Some(
                        BlockDataView::List {
                            style: if lname == "ol"@ {
                                "ordered"@
                            } else {
                                "unordered"@
                            },
                            items: list_items(el.children@, ctx),
                        },
                    )
                } else if lname == "blockquote"@ {
                    Some(
                        BlockDataView::Quote {
                            text,
                            caption: Seq::empty(),
                            alignment: Seq::empty(),
                        },
                    )
                } else if !blog && lname == "aside"@ {
                    None
                } else if blog && lname == "div"@ && strings_view(el.classes@).contains(
                    "footnotes_reference_container"@,
                ) {
                    None
                } else {
                    Some(BlockDataView::Paragraph { text })
                },
            }
        },
    }
}

/// A top-level list is imported as a list block whose style tells how it
/// is numbered: an `ol` element (its name in any case) as an `ordered`
/// list, a `ul` element as an `unordered` one; its items are the rendered
/// contents of its `li` children, in order.
pub proof fn lemma_list_blocks(el: HtmlElement, blog: bool, ctx: RenderCtx, shift: bool)
    requires
        lowercase(el.name@) == "ol"@ || lowercase(el.name@) == "ul"@,
    ensures
        node_block(HtmlNode::Element(el), blog, ctx, shift) matches Some(BlockDataView::List { style, items })
            && (lowercase(el.name@) == "ol"@ ==> style == "ordered"@) && (lowercase(el.name@) == "ul"@
            ==> style == "unordered"@) && items == list_items(el.children@, ctx),
        "ordered"@ != "unordered"@,
{
    reveal_strlit("ol");
    reveal_strlit("ul");
    reveal_strlit("p");
    reveal_strlit("h1");
    reveal_strlit("h2");
    reveal_strlit("h3");
    reveal_strlit("h4");
    reveal_strlit("h5");
    reveal_strlit("h6");
    reveal_strlit("ordered");
    reveal_strlit("unordered");
    assert("ol"@[0] != "h1"@[0] && "ol"@.len() != "p"@.len());
    assert("ul"@[0] != "h1"@[0] && "ul"@.len() != "p"@.len());
    assert("ol"@ != "ul"@) by {
        assert("ol"@[0] != "ul"@[0]);
    }
    assert("ordered"@.len() != "unordered"@.len());
}

/// The level of a heading element, from its lower-case name: `h1` to
/// `h6` name levels 1 to 6.
pub open spec fn heading_name_level(lname: Seq<char>, level: int) -> bool {
    1 <= level <= 6 && lname.len() == 2 && lname[0] == 'h' && (lname[1] as int) == ('0' as int) + level
}

/// A top-level heading `h1` to `h6` (its name in any case) is imported as a
/// heading block of its rendered content: at its own level, or one level
/// up when headings are shifted, a first-level heading staying at level 1.
/// A `p` element becomes a paragraph and a `blockquote` a quote without
/// caption or alignment, each of its rendered content.
pub proof fn lemma_heading_and_text_blocks(el: HtmlElement, blog: bool, ctx: RenderCtx, shift: bool, level: int)
    ensures
        heading_name_level(lowercase(el.name@), level) ==> node_block(HtmlNode::Element(el), blog, ctx, shift)
            == Some(BlockDataView::Heading {
            text: render_seq(el.children@, ctx),
            level: (if shift && level > 1 {
                level - 1
            } else {
                level
            }) as u8,
        }),
        lowercase(el.name@) == "p"@ ==> node_block(HtmlNode::Element(el), blog, ctx, shift) == Some(
            BlockDataView::Paragraph { text: render_seq(el.children@, ctx) },
        ),
        lowercase(el.name@) == "blockquote"@ ==> node_block(HtmlNode::Element(el), blog, ctx, shift)
            == Some(BlockDataView::Quote {
            text: render_seq(el.children@, ctx),
            caption: Seq::empty(),
            alignment: Seq::empty(),
        }),
{
    reveal_strlit("p");
    reveal_strlit("blockquote");
    reveal_strlit("h1");
    reveal_strlit("h2");
    reveal_strlit("h3");
    reveal_strlit("h4");
    reveal_strlit("h5");
    reveal_strlit("h6");
    reveal_strlit("ul");
    reveal_strlit("ol");
    let lname = lowercase(el.name@);
    if heading_name_level(lname, level) {
        if level == 1 {
            assert(lname =~= "h1"@);
        } else if level == 2 {
            assert(lname =~= "h2"@);
        } else if level == 3 {
            assert(lname =~= "h3"@);
        } else if level == 4 {
            assert(lname =~= "h4"@);
        } else if level == 5 {
            assert(lname =~= "h5"@);
        } else {
            assert(lname =~= "h6"@);
        }
    }
    assert("p"@.len() != "h1"@.len());
    assert("blockquote"@.len() != "h1"@.len() && "blockquote"@.len() != "p"@.len());
    assert("blockquote"@.len() != "ol"@.len());
}

/// The blocks of the top-level nodes, in order.
pub open spec fn blocks_of(nodes: Seq<HtmlNode>, blog: bool, ctx: RenderCtx, shift: bool) -> Seq<
    BlockDataView,
>
    decreases nodes.len(),
{
    if nodes.len() == 0 {
        Seq::empty()
    } else {
        blocks_of(nodes.drop_last(), blog, ctx, shift) + match node_block(
            nodes.last(),
            blog,
            ctx,
            shift,
        ) {
            Some(b) => seq![b],
            None => Seq::empty(),
        }
    }
}

pub open spec fn blocks_view(v: Seq<BlockData>) -> Seq<BlockDataView> {
    v.map_values(|b: BlockData| b@)
}

/// The rendering context of the top-level blocks of an import.
pub open spec fn import_ctx(
    footnotes: Seq<(Seq<char>, Seq<char>)>,
    endnotes: bool,
    convert_links: bool,
    links: Seq<(Seq<char>, Seq<char>)>,
) -> RenderCtx {
    RenderCtx { footnotes: Some(footnotes), endnotes, convert_links, links }
}

fn heading_level_exec(lname: &str) -> (r: Option<u8>)
    ensures
        r == heading_level(lname@),
{
    if text_eq(lname, "h1") {
        Some(1)
    } else if text_eq(lname, "h2") {
        Some(2)
    } else if text_eq(lname, "h3") {
        Some(3)
    } else if text_eq(lname, "h4") {
        Some(4)
    } else if text_eq(lname, "h5") {
        Some(5)
    } else if text_eq(lname, "h6") {
        Some(6)
    } else {
        None
    }
}

fn list_items_exec(
    nodes: &Vec<HtmlNode>,
    footnotes: &Option<Vec<(String, String)>>,
    endnotes: bool,
    convert_links: bool,
    links: &Vec<(String, String)>,
) -> (r: Vec<String>)
    ensures
        strings_view(r@) == list_items(nodes@, ctx_view(footnotes, endnotes, convert_links, links)),
{
    let ghost ctx = ctx_view(footnotes, endnotes, convert_links, links);
    let mut r: Vec<String> = Vec::new();
    let mut i: usize = 0;
    while i < nodes.len()
        invariant
            i <= nodes.len(),
            ctx == ctx_view(footnotes, endnotes, convert_links, links),
            strings_view(r@) == list_items(nodes@.take(i as int), ctx),
        decreases nodes.len() - i,
    {
        assert(nodes@.take(i + 1).drop_last() =~= nodes@.take(i as int));
        assert(nodes@.take(i + 1).last() == nodes@[i as int]);
        let ghost before = strings_view(r@);
        match &nodes[i] {
            HtmlNode::Element(li) => {
                let lname = to_lower(li.name.as_str());
                if text_eq(lname.as_str(), "li") {
                    let item = render_nodes(&li.children, footnotes, endnotes, convert_links, links);
                    let ghost iv = item@;
                    r.push(item);
                    assert(strings_view(r@) =~= before + seq![iv]);
                } else {
                    assert(before + Seq::<Seq<char>>::empty() =~= before);
                }
            },
            _ => {
                assert(before + Seq::<Seq<char>>::empty() =~= before);
            },
        }
        i = i + 1;
    }
    assert(nodes@.take(i as int) =~= nodes@);
    r
}

fn node_block_exec(
    n: &HtmlNode,
    blog: bool,
    footnotes: &Option<Vec<(String, String)>>,
    endnotes: bool,
    convert_links: bool,
    links: &Vec<(String, String)>,
    shift: bool,
) -> (r: Option<BlockData>)
    ensures
        match r {
            Some(b) => node_block(*n, blog, ctx_view(footnotes, endnotes, convert_links, links), shift)
                == Some(b@),
            None => node_block(*n, blog, ctx_view(footnotes, endnotes, convert_links, links), shift)
                is None,
        },
{
    match n {
        HtmlNode::Text(t) => Some(BlockData::Paragraph { text: owned(t.as_str()) }),
        HtmlNode::Comment(_) => None,
        HtmlNode::Element(el) => {
            let lname = to_lower(el.name.as_str());
            let text = render_nodes(&el.children, footnotes, endnotes, convert_links, links);
            match heading_level_exec(lname.as_str()) {
                Some(level) => {
                    let level = if shift && level > 1 {
                        level - 1
                    } else {
                        level
                    };
                    Some(BlockData::Heading { text, level })
                },
                None => {
                    if text_eq(lname.as_str(), "p") {
                        Some(BlockData::Paragraph { text })
                    } else if text_eq(lname.as_str(), "ul") || text_eq(lname.as_str(), "ol") {
                        let style = if text_eq(lname.as_str(), "ol") {
                            owned("ordered")
                        } else {
                            owned("unordered")
                        };
                        let items = list_items_exec(
                            &el.children,
                            footnotes,
                            endnotes,
                            convert_links,
                            links,
                        );
                        Some(BlockData::List { style, items })
                    } else if text_eq(lname.as_str(), "blockquote") {
                        Some(
                            BlockData::Quote {
                                text,
                                caption: String::new(),
                                alignment: String::new(),
                            },
                        )
                    } else if !blog && text_eq(lname.as_str(), "aside") {
                        None
                    } else if blog && text_eq(lname.as_str(), "div") && has_class(
                        &el.classes,
                        "footnotes_reference_container",
                    ) {
                        None
                    } else {
                        Some(BlockData::Paragraph { text })
                    }
                },
            }
        },
    }
}

/// The content blocks made from the top-level nodes of an imported
/// fragment, footnote references resolved against `footnotes`.
pub fn blocks_from_nodes(
    nodes: &Vec<HtmlNode>,
    blog: bool,
    footnotes: Vec<(String, String)>,
    endnotes: bool,
    convert_links: bool,
    links: &Vec<(String, String)>,
    shift_headings: bool,
) -> (r: Vec<BlockData>)
    ensures
        blocks_view(r@) == blocks_of(
            nodes@,
            blog,
            import_ctx(mapping_view(footnotes@), endnotes, convert_links, mapping_view(links@)),
            shift_headings,
        ),
{
    let ghost fv = mapping_view(footnotes@);
    let fo = Some(footnotes);
    let ghost ctx = ctx_view(&fo, endnotes, convert_links, links);
    assert(ctx == import_ctx(fv, endnotes, convert_links, mapping_view(links@)));
    let mut r: Vec<BlockData> = Vec::new();
    let mut i: usize = 0;
    while i < nodes.len()
        invariant
            i <= nodes.len(),
            ctx == ctx_view(&fo, endnotes, convert_links, links),
            blocks_view(r@) == blocks_of(nodes@.take(i as int), blog, ctx, shift_headings),
        decreases nodes.len() - i,
    {
        assert(nodes@.take(i + 1).drop_last() =~= nodes@.take(i as int));
        assert(nodes@.take(i + 1).last() == nodes@[i as int]);
        let ghost before = blocks_view(r@);
        match node_block_exec(&nodes[i], blog, &fo, endnotes, convert_links, links, shift_headings) {
            Some(b) => {
                let ghost bv = b@;
                r.push(b);
                assert(blocks_view(r@) =~= before + seq![bv]);
            },
            None => {
                assert(before + Seq::<BlockDataView>::empty() =~= before);
            },
        }
        i = i + 1;
    }
    assert(nodes@.take(i as int) =~= nodes@);
    r
}

/// The content blocks of a converted document: refused when the input was
/// a full document, otherwise the blocks of its top-level nodes with the
/// footnotes of its `aside`.
pub fn blocks_from_converter_dom(
    dom: &HtmlDom,
    endnotes: bool,
    shift_headings: bool,
    convert_links: bool,
    links: &Vec<(String, String)>,
) -> (r: Result<Vec<BlockData>, ImportError>)
    ensures
        dom.is_document ==> r == Err::<Vec<BlockData>, ImportError>(
            ImportError::HtmlConversionFailed,
        ),
        !dom.is_document ==> (r matches Ok(b) && blocks_view(b@) == blocks_of(
            dom.children@,
            false,
            import_ctx(
                converter_footnotes(dom.children@, endnotes),
                endnotes,
                convert_links,
                mapping_view(links@),
            ),
            shift_headings,
        )),
{
    if dom.is_document {
        return Err(ImportError::HtmlConversionFailed);
    }
    let footnotes = converter_footnotes_exec(&dom.children, endnotes);
    Ok(blocks_from_nodes(&dom.children, false, footnotes, endnotes, convert_links, links, shift_headings))
}

/// The content blocks of a blog post: refused when the input was a full
/// document, otherwise the blocks of its top-level nodes with the
/// footnotes of its footnote table.
pub fn blocks_from_blog_dom(
    dom: &HtmlDom,
    endnotes: bool,
    shift_headings: bool,
    convert_links: bool,
    links: &Vec<(String, String)>,
) -> (r: Result<Vec<BlockData>, ImportError>)
    ensures
        dom.is_document ==> r == Err::<Vec<BlockData>, ImportError>(
            ImportError::HtmlConversionFailed,
        ),
        !dom.is_document ==> (r matches Ok(b) && blocks_view(b@) == blocks_of(
            dom.children@,
            true,
            import_ctx(
                blog_footnotes(dom.children@, endnotes),
                endnotes,
                convert_links,
                mapping_view(links@),
            ),
            shift_headings,
        )),
{
    if dom.is_document {
        return Err(ImportError::HtmlConversionFailed);
    }
    let footnotes = blog_footnotes_exec(&dom.children, endnotes);
    Ok(blocks_from_nodes(&dom.children, true, footnotes, endnotes, convert_links, links, shift_headings))
}

// ---------------------------------------------------------------------------
// Parsing
// ---------------------------------------------------------------------------

/// `html_parser::Node`, a node of a parsed HTML input.
#[verifier::external_type_specification]
#[verifier::external_body]
pub struct ExParsedNode(html_parser::Node);

/// Converts a node of `html_parser` and its descendants, field for field,
/// into the library's tree; the attributes come in the order in which the
/// parser's attribute map yields them. Called by `parse_html` alone.
#[verifier::external_body]
fn from_parsed_node(node: html_parser::Node) -> HtmlNode {
    match node {
        html_parser::Node::Text(t) => HtmlNode::Text(t),
        html_parser::Node::Comment(c) => HtmlNode::Comment(c),
        html_parser::Node::Element(e) => HtmlNode::Element(HtmlElement {
            name: e.name,
            id: e.id,
            classes: e.classes,
            attributes: e.attributes.into_iter().collect(),
            children: e.children.into_iter().map(from_parsed_node).collect(),
        }),
    }
}

/// A parsed node as the parser holds it: an element's attributes as a map
/// from name to value, in no order.
pub enum NodeShape {
    Text(Seq<char>),
    Comment(Seq<char>),
    Element {
        name: Seq<char>,
        id: Option<Seq<char>>,
        classes: Seq<Seq<char>>,
        attributes: Map<Seq<char>, Option<Seq<char>>>,
        children: Seq<NodeShape>,
    },
}

/// A parsed input as the parser holds it.
pub struct DomShape {
    pub is_document: bool,
    pub children: Seq<NodeShape>,
}

/// What `html_parser::Dom::parse` makes of an input: `None` where it fails.
pub uninterp spec fn parsed_html(input: Seq<char>) -> Option<DomShape>;

/// The attributes as a map; a later pair replaces an earlier one.
pub open spec fn attrs_map(a: Seq<(Seq<char>, Option<Seq<char>>)>) -> Map<Seq<char>, Option<Seq<char>>>
    decreases a.len(),
{
    if a.len() == 0 {
        Map::empty()
    } else {
        attrs_map(a.drop_last()).insert(a.last().0, a.last().1)
    }
}

/// The shapes of a sequence of nodes.
pub open spec fn shapes_of(nodes: Seq<HtmlNode>) -> Seq<NodeShape>
    decreases nodes,
{
    if nodes.len() == 0 {
        Seq::empty()
    } else {
        shapes_of(nodes.drop_last()).push(shape_of(nodes.last()))
    }
}

/// The shape of a node.
pub open spec fn shape_of(n: HtmlNode) -> NodeShape
    decreases n,
{
    match n {
        HtmlNode::Text(t) => NodeShape::Text(t@),
        HtmlNode::Comment(c) => NodeShape::Comment(c@),
        HtmlNode::Element(el) => element_shape(el),
    }
}

/// The shape of an element.
pub open spec fn element_shape(el: HtmlElement) -> NodeShape
    decreases el,
{
    NodeShape::Element {
        name: el.name@,
        id: opt_view(el.id),
        classes: strings_view(el.classes@),
        attributes: attrs_map(attrs_view(el.attributes@)),
        children: shapes_of(el.children@),
    }
}

/// The shape of a parsed input.
pub open spec fn dom_shape(d: HtmlDom) -> DomShape {
    DomShape { is_document: d.is_document, children: shapes_of(d.children@) }
}

/// `html_parser::Dom::parse`: `None` where the parser fails, otherwise its
/// tree, converted node for node. The order of each element's attributes
/// follows the iteration of the parser's hash map, so only the attributes
/// as a map are stated.
#[verifier::external_body]
fn parse_html(input: &str) -> (r: Option<HtmlDom>)
    ensures
        match parsed_html(input@) {
            None => r is None,
            Some(p) => r matches Some(d) && dom_shape(d) == p,
        },
{
    match html_parser::Dom::parse(input) {
        Ok(dom) => Some(HtmlDom {
            is_document: matches!(dom.tree_type, html_parser::DomVariant::Document),
            children: dom.children.into_iter().map(from_parsed_node).collect(),
        }),
        Err(_) => None,
    }
}

/// `blocks` are those of a tree of shape `p`: the blocks of its top-level
/// nodes, footnote references resolved against the footnotes found in it
/// (those of a blog post's footnote table when `blog`, else those of the
/// converter's `aside`).
pub open spec fn imported_from(
    p: DomShape,
    blocks: Seq<BlockData>,
    blog: bool,
    endnotes: bool,
    shift_headings: bool,
    convert_links: bool,
    links: Seq<(String, String)>,
) -> bool {
    exists|d: HtmlDom|
        #[trigger] dom_shape(d) == p && blocks_view(blocks) == blocks_of(
            d.children@,
            blog,
            import_ctx(
                if blog {
                    blog_footnotes(d.children@, endnotes)
                } else {
                    converter_footnotes(d.children@, endnotes)
                },
                endnotes,
                convert_links,
                mapping_view(links),
            ),
            shift_headings,
        )
}

/// Parses the HTML that the document converter produced and makes content
/// blocks of it; input that does not parse, or that is a full document, is
/// refused.
pub fn import_html_from_pandoc(
    input: &str,
    endnotes: bool,
    shift_headings: bool,
    convert_links: bool,
    links: &Vec<(String, String)>,
) -> (r: Result<Vec<BlockData>, ImportError>)
    ensures
        match parsed_html(input@) {
            None => r == Err::<Vec<BlockData>, ImportError>(ImportError::HtmlConversionFailed),
            Some(p) => if p.is_document {
                r == Err::<Vec<BlockData>, ImportError>(ImportError::HtmlConversionFailed)
            } else {
                r matches Ok(b) && imported_from(p, b@, false, endnotes, shift_headings, convert_links, links@)
            },
        },
{
    match parse_html(input) {
        Some(dom) => {
            let r = blocks_from_converter_dom(&dom, endnotes, shift_headings, convert_links, links);
            proof {
                if let Ok(b) = &r {
                    assert(dom_shape(dom) == dom_shape(dom));
                }
            }
            r
        },
        None => Err(ImportError::HtmlConversionFailed),
    }
}

/// Parses the HTML of a blog post and makes content blocks of it; input
/// that does not parse, or that is a full document, is refused.
pub fn import_html_from_wp(
    input: &str,
    endnotes: bool,
    shift_headings: bool,
    convert_links: bool,
    links: &Vec<(String, String)>,
) -> (r: Result<Vec<BlockData>, ImportError>)
    ensures
        match parsed_html(input@) {
            None => r == Err::<Vec<BlockData>, ImportError>(ImportError::HtmlConversionFailed),
            Some(p) => if p.is_document {
                r == Err::<Vec<BlockData>, ImportError>(ImportError::HtmlConversionFailed)
            } else {
                r matches Ok(b) && imported_from(p, b@, true, endnotes, shift_headings, convert_links, links@)
            },
        },
{
    match parse_html(input) {
        Some(dom) => {
            let r = blocks_from_blog_dom(&dom, endnotes, shift_headings, convert_links, links);
            proof {
                if let Ok(b) = &r {
                    assert(dom_shape(dom) == dom_shape(dom));
                }
            }
            r
        },
        None => Err(ImportError::HtmlConversionFailed),
    }
}

// ---------------------------------------------------------------------------
// Language detection input
// ---------------------------------------------------------------------------

/// The text whose language is detected for a section: the texts of its
/// paragraph blocks, concatenated.
pub open spec fn detection_text_spec(blocks: Seq<BlockData>) -> Seq<char>
    decreases blocks.len(),
{
    if blocks.len() == 0 {
        Seq::empty()
    } else {
        detection_text_spec(blocks.drop_last()) + match blocks.last() {
            BlockData::Paragraph { text } => text@,
            _ => Seq::empty(),
        }
    }
}

/// Gathers the text whose language is detected for a section.
pub fn detection_text(blocks: &Vec<BlockData>) -> (r: String)
    ensures
        r@ == detection_text_spec(blocks@),
{
    let mut out = String::new();
    let mut i: usize = 0;
    while i < blocks.len()
        invariant
            i <= blocks.len(),
            out@ == detection_text_spec(blocks@.take(i as int)),
        decreases blocks.len() - i,
    {
        assert(blocks@.take(i + 1).drop_last() =~= blocks@.take(i as int));
        assert(blocks@.take(i + 1).last() == blocks@[i as int]);
        match &blocks[i] {
            BlockData::Paragraph { text } => {
                out.append(text.as_str());
            },
            _ => {
                assert(out@ + Seq::<char>::empty() =~= out@);
            },
        }
        i = i + 1;
    }
    assert(blocks@.take(i as int) =~= blocks@);
    out
}

// ---------------------------------------------------------------------------
// Jobs
// ---------------------------------------------------------------------------

/// Filters of a blog import.
#[derive(Clone, Debug, PartialEq, Eq)]
pub struct WordpressFilterData {
    /// Host, without protocol, to get posts from.
    pub wp_host: String,
    /// Only posts before this date.
    pub before: Option<CalendarDate>,
    /// Only posts after this date.
    pub after: Option<CalendarDate>,
    /// Only posts in at least one of these categories.
    pub include_categories: Option<Vec<usize>>,
    /// No posts in any of these categories.
    pub exclude_categories: Option<Vec<usize>>,
}

/// Where the items of an import job come from.
#[derive(Clone, Debug)]
pub enum ImportJobData {
    /// Links to blog posts.
    WordpressLinks(Vec<String>),
    /// Files to convert.
    FileImport(FileImportData),
    /// Posts of a blog that match filters.
    WordpressFilter(WordpressFilterData),
}

/// The number of items a job will process, when it is known in advance.
pub fn total_to_process(data: &ImportJobData) -> (r: Option<usize>)
    ensures
        r == match data {
            ImportJobData::WordpressLinks(links) => Some(links@.len() as usize),
            ImportJobData::FileImport(f) => Some(f.files_to_process@.len() as usize),
            ImportJobData::WordpressFilter(_) => None,
        },
{
    match data {
        ImportJobData::WordpressLinks(links) => Some(links.len()),
        ImportJobData::FileImport(f) => Some(f.files_to_process.len()),
        ImportJobData::WordpressFilter(_) => None,
    }
}

/// Whether the import worker starts a queued job: there is one and fewer
/// jobs run than allowed.
pub fn should_start_import(queued: usize, max_import_threads: u64, running: u64) -> (r: bool)
    ensures
        r == (queued > 0 && max_import_threads > running),
{
    queued > 0 && max_import_threads > running
}

/// The date-time text of a date filter: midnight at the start of the date.
pub open spec fn date_filter_text(d: Option<CalendarDate>) -> Option<Seq<char>> {
    match d {
        Some(x) => Some(midnight_text_spec(x)),
        None => None,
    }
}

/// A date whose month and day have at most two digits.
pub open spec fn two_digit_date(d: Option<CalendarDate>) -> bool {
    d matches Some(x) ==> x.month < 100 && x.day < 100
}

fn date_filter_exec(d: &Option<CalendarDate>) -> (r: Option<String>)
    requires
        two_digit_date(*d),
    ensures
        opt_view(r) == date_filter_text(*d),
{
    match d {
        Some(x) => Some(midnight_text(x)),
        None => None,
    }
}

/// The posts request for one page of a filtered blog import: a hundred
/// posts per page in the view context, with the date filters as the
/// date-time texts of midnight at the start of their dates.
pub fn filter_posts_request(data: &WordpressFilterData, page: usize) -> (r: crate::wordpress::PostsRequest)
    requires
        two_digit_date(data.after),
        two_digit_date(data.before),
    ensures
        r.context == crate::wordpress::WordpressAPIContext::View,
        r.page == Some(page),
        r.per_page == Some(100usize),
        r.search is None,
        opt_view(r.after) == date_filter_text(data.after),
        r.modified_after is None,
        opt_view(r.before) == date_filter_text(data.before),
        r.modified_before is None,
        r.slug is None,
        r.categories is None,
        r.categories_exclude is None,
{
    crate::wordpress::PostsRequest {
        context: crate::wordpress::WordpressAPIContext::View,
        page: Some(page),
        per_page: Some(100),
        search: None,
        after: date_filter_exec(&data.after),
        modified_after: None,
        before: date_filter_exec(&data.before),
        modified_before: None,
        slug: None,
        categories: None,
        categories_exclude: None,
    }
}



// ---------------------------------------------------------------------------
// The imported section
// ---------------------------------------------------------------------------

/// The kind of block that holds a payload.
pub fn block_type_of(data: &BlockData) -> (r: BlockType)
    ensures
        r == kind_of(data@),
{
    match data {
        BlockData::Paragraph { .. } => BlockType::Paragraph,
        BlockData::Heading { .. } => BlockType::Heading,
        BlockData::Raw { .. } => BlockType::Raw,
        BlockData::List { .. } => BlockType::List,
        BlockData::Quote { .. } => BlockType::Quote,
        BlockData::Image { .. } => BlockType::Image,
    }
}

/// The section that an import adds to a project: titled "Imported Section",
/// shown in the table of contents, in the language detected for its text
/// (`lang`), with no classes, subsections or other metadata, holding the
/// imported blocks in order, each under the id given for it, of the kind
/// that goes with its payload, without classes or revision.
pub fn imported_section(section_id: u128, blocks: Vec<BlockData>, ids: Vec<String>, lang: Option<String>) -> (r: SectionV5)
    requires
        ids.len() == blocks.len(),
    ensures
        r.id == Some(section_id),
        r.css_classes@.len() == 0,
        r.sub_sections@.len() == 0,
        r.visible_in_toc,
        r.metadata.title@ == "Imported Section"@,
        r.metadata.toc_title_subtitle_override is None,
        r.metadata.subtitle is None,
        r.metadata.authors@.len() == 0,
        r.metadata.editors@.len() == 0,
        r.metadata.web_url is None,
        r.metadata.identifiers@.len() == 0,
        r.metadata.published is None,
        r.metadata.last_changed is None,
        r.metadata.lang == lang,
        r.children@.len() == blocks@.len(),
        forall|i: int|
            0 <= i < blocks@.len() ==> #[trigger] r.children@[i]@ == (ContentBlockView {
                id: ids@[i]@,
                block_type: kind_of(blocks@[i]@),
                data: blocks@[i]@,
                css_classes: Seq::empty(),
                revision_id: None,
            }),
{
    let mut children: Vec<NewContentBlock> = Vec::new();
    let mut rest = blocks;
    let ghost all = rest@;
    let mut i: usize = 0;
    while i < ids.len()
        invariant
            i <= ids.len(),
            all == blocks@,
            rest@ == all.skip(i as int),
            ids.len() == blocks.len(),
            children@.len() == i,
            forall|k: int|
                0 <= k < i ==> #[trigger] children@[k]@ == (ContentBlockView {
                    id: ids@[k]@,
                    block_type: kind_of(blocks@[k]@),
                    data: blocks@[k]@,
                    css_classes: Seq::empty(),
                    revision_id: None,
                }),
        decreases ids.len() - i,
    {
        assert(rest@[0] == all[i as int]);
        let data = rest.remove(0);
        assert(rest@ =~= all.skip(i + 1));
        let block_type = block_type_of(&data);
        let css_classes: Vec<String> = Vec::new();
        let b = NewContentBlock {
            id: ids[i].clone(),
            block_type,
            data,
            css_classes,
            revision_id: None,
        };
        assert(strings_view(css_classes@) =~= Seq::<Seq<char>>::empty());
        children.push(b);
        i = i + 1;
    }
    SectionV5 {
        id: Some(section_id),
        css_classes: Vec::new(),
        sub_sections: Vec::new(),
        children,
        visible_in_toc: true,
        metadata: SectionMetadataV5 {
            title: owned("Imported Section"),
            toc_title_subtitle_override: None,
            subtitle: None,
            authors: Vec::new(),
            editors: Vec::new(),
            web_url: None,
            identifiers: Vec::new(),
            published: None,
            last_changed: None,
            lang,
        },
    }
}

// ---------------------------------------------------------------------------
// Status requests
// ---------------------------------------------------------------------------

/// Why a status request about an import job gets no status.
#[derive(Clone, Copy, Debug, PartialEq, Eq, Structural)]
pub enum StatusRequestError {
    /// The job id is no identifier.
    InvalidJobId,
    /// No job has that id.
    NotFound,
}

/// The answer to a status request about an import job: a job id that is
/// no identifier is refused; a finished job answers with its archived
/// status; a job still queued is pending; any other id is not found.
pub fn import_status_answer(id_valid: bool, archived: Option<ImportStatus>, queued: bool) -> (r: Result<
    ImportStatus,
    StatusRequestError,
>)
    ensures
        !id_valid ==> r == Err::<ImportStatus, StatusRequestError>(StatusRequestError::InvalidJobId),
        id_valid ==> match archived {
            Some(s) => r == Ok::<ImportStatus, StatusRequestError>(s),
            None => if queued {
                r == Ok::<ImportStatus, StatusRequestError>(ImportStatus::Pending)
            } else {
                r == Err::<ImportStatus, StatusRequestError>(StatusRequestError::NotFound)
            },
        },
{
    if !id_valid {
        return Err(StatusRequestError::InvalidJobId);
    }
    match archived {
        Some(s) => Ok(s),
        None => if queued {
            Ok(ImportStatus::Pending)
        } else {
            Err(StatusRequestError::NotFound)
        },
    }
}

} // verus!

