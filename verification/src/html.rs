//! A parsed HTML fragment as plain values, and its rendering back to HTML
//! text with footnote references turned into note spans and links turned
//! into citations.
use vstd::prelude::*;
use crate::content::{mapping_view, owned};
use crate::text::{chars_of, push_char, replace_all, replace_spec, strings_view, text_eq};

verus! {

// ---------------------------------------------------------------------------
// Types
// ---------------------------------------------------------------------------

/// An HTML element with its attributes and children.
#[derive(Debug)]
pub struct HtmlElement {
    /// The tag name, as written.
    pub name: String,
    /// The `id` attribute.
    pub id: Option<String>,
    /// The classes of the `class` attribute.
    pub classes: Vec<String>,
    /// The other attributes, each name once, with their values.
    pub attributes: Vec<(String, Option<String>)>,
    /// The child nodes, in order.
    pub children: Vec<HtmlNode>,
}

/// A node of an HTML fragment.
#[derive(Debug)]
pub enum HtmlNode {
    Text(String),
    Element(HtmlElement),
    Comment(String),
}

/// A parsed HTML input.
#[derive(Debug)]
pub struct HtmlDom {
    /// Whether the input was a full document rather than a fragment.
    pub is_document: bool,
    /// The top-level nodes, in order.
    pub children: Vec<HtmlNode>,
}

// ---------------------------------------------------------------------------
// Outside calls
// ---------------------------------------------------------------------------

/// What `str::to_lowercase` returns for a text.
pub uninterp spec fn lowercase(s: Seq<char>) -> Seq<char>;

/// Whether every character is ASCII.
pub open spec fn all_ascii(s: Seq<char>) -> bool {
    forall|i: int| 0 <= i < s.len() ==> (#[trigger] s[i] as u32) < 128
}

/// `s` with `A` to `Z` lowered, every other character kept.
pub open spec fn ascii_lowered(s: Seq<char>, r: Seq<char>) -> bool {
    &&& r.len() == s.len()
    &&& forall|i: int|
        0 <= i < s.len() ==> (#[trigger] r[i] as u32) as int == if 65 <= (s[i] as u32) <= 90 {
            (s[i] as u32) + 32
        } else {
            (s[i] as u32) as int
        }
}

/// `str::to_lowercase`: the text in lower case; the result is named
/// `lowercase`. A text of ASCII characters has its letters `A` to `Z`
/// lowered and nothing else changed, as the Unicode lower-case mapping
/// does for ASCII.
#[verifier::external_body]
pub(crate) fn to_lower(s: &str) -> (r: String)
    ensures
        r@ == lowercase(s@),
        all_ascii(s@) ==> ascii_lowered(s@, r@),
{
    s.to_lowercase()
}

/// The characters of the Unicode property White_Space.
pub open spec fn is_white_space(c: char) -> bool {
    let u = c as u32;
    (0x9 <= u && u <= 0xd) || u == 0x20 || u == 0x85 || u == 0xa0 || u == 0x1680 || (0x2000 <= u
        && u <= 0x200a) || u == 0x2028 || u == 0x2029 || u == 0x202f || u == 0x205f || u == 0x3000
}

pub open spec fn trim_start_spec(s: Seq<char>) -> Seq<char>
    decreases s.len(),
{
    if s.len() > 0 && is_white_space(s[0]) {
        trim_start_spec(s.skip(1))
    } else {
        s
    }
}

pub open spec fn trim_end_spec(s: Seq<char>) -> Seq<char>
    decreases s.len(),
{
    if s.len() > 0 && is_white_space(s.last()) {
        trim_end_spec(s.drop_last())
    } else {
        s
    }
}

/// The text without leading and trailing white space.
pub open spec fn trimmed(s: Seq<char>) -> Seq<char> {
    trim_end_spec(trim_start_spec(s))
}

/// Whether `c` is white space (Unicode White_Space).
pub(crate) fn is_space(c: char) -> (b: bool)
    ensures
        b == is_white_space(c),
{
    let u = c as u32;
    (0x9 <= u && u <= 0xd) || u == 0x20 || u == 0x85 || u == 0xa0 || u == 0x1680 || (0x2000 <= u
        && u <= 0x200a) || u == 0x2028 || u == 0x2029 || u == 0x202f || u == 0x205f || u == 0x3000
}

/// The text with leading and trailing white space removed (what `str::trim`
/// does).
pub(crate) fn trim_text(s: &str) -> (r: String)
    ensures
        r@ == trimmed(s@),
{
    let v = chars_of(s);
    let mut a: usize = 0;
    assert(v@.skip(0) =~= v@);
    while a < v.len() && is_space(v[a])
        invariant
            a <= v.len(),
            v@ == s@,
            trim_start_spec(v@) == trim_start_spec(v@.skip(a as int)),
        decreases v.len() - a,
    {
        assert(v@.skip(a as int).skip(1) =~= v@.skip(a + 1));
        a = a + 1;
    }
    assert(trim_start_spec(v@.skip(a as int)) == v@.skip(a as int));
    let mut b: usize = v.len();
    assert(v@.skip(a as int) =~= v@.subrange(a as int, b as int));
    while b > a && is_space(v[b - 1])
        invariant
            a <= b <= v.len(),
            trim_end_spec(v@.skip(a as int)) == trim_end_spec(v@.subrange(a as int, b as int)),
        decreases b - a,
    {
        assert(v@.subrange(a as int, b as int).drop_last() =~= v@.subrange(a as int, b - 1));
        b = b - 1;
    }
    let mut r = String::new();
    let mut i: usize = a;
    while i < b
        invariant
            a <= i <= b <= v.len(),
            r@ == v@.subrange(a as int, i as int),
        decreases b - i,
    {
        push_char(&mut r, v[i]);
        assert(r@ =~= v@.subrange(a as int, i + 1));
        i = i + 1;
    }
    r
}

// ---------------------------------------------------------------------------
// Lookups
// ---------------------------------------------------------------------------

/// The value of the last pair with key `key` (later pairs replace earlier
/// ones, as insertions into a map do).
pub open spec fn lookup_last(pairs: Seq<(Seq<char>, Seq<char>)>, key: Seq<char>) -> Option<
    Seq<char>,
>
    decreases pairs.len(),
{
    if pairs.len() == 0 {
        None
    } else if pairs.last().0 == key {
        Some(pairs.last().1)
    } else {
        lookup_last(pairs.drop_last(), key)
    }
}

pub open spec fn attrs_view(a: Seq<(String, Option<String>)>) -> Seq<(Seq<char>, Option<Seq<char>>)> {
    a.map_values(|p: (String, Option<String>)| (p.0@, opt_view(p.1)))
}

pub open spec fn opt_view(o: Option<String>) -> Option<Seq<char>> {
    match o {
        Some(s) => Some(s@),
        None => None,
    }
}

/// The value of attribute `name`: `None` when absent, `Some(None)` when
/// present without a value.
pub open spec fn attr_value(attrs: Seq<(Seq<char>, Option<Seq<char>>)>, name: Seq<char>) -> Option<
    Option<Seq<char>>,
>
    decreases attrs.len(),
{
    if attrs.len() == 0 {
        None
    } else if attrs.last().0 == name {
        Some(attrs.last().1)
    } else {
        attr_value(attrs.drop_last(), name)
    }
}

/// Looks up `key` in a list of pairs in which later pairs replace earlier
/// ones.
pub fn lookup_pair(pairs: &Vec<(String, String)>, key: &str) -> (r: Option<String>)
    ensures
        opt_view(r) == lookup_last(mapping_view(pairs@), key@),
{
    let mut found: Option<String> = None;
    let mut i: usize = 0;
    while i < pairs.len()
        invariant
            i <= pairs.len(),
            opt_view(found) == lookup_last(mapping_view(pairs@.take(i as int)), key@),
        decreases pairs.len() - i,
    {
        proof {
            let m = mapping_view(pairs@.take(i + 1));
            assert(m.drop_last() =~= mapping_view(pairs@.take(i as int)));
            assert(m.last() == (pairs@[i as int].0@, pairs@[i as int].1@));
        }
        if text_eq(pairs[i].0.as_str(), key) {
            found = Some(owned(pairs[i].1.as_str()));
        }
        i = i + 1;
    }
    assert(pairs@.take(i as int) =~= pairs@);
    found
}

/// The value of attribute `name` of an element.
fn attribute(attrs: &Vec<(String, Option<String>)>, name: &str) -> (r: Option<Option<String>>)
    ensures
        match r {
            None => attr_value(attrs_view(attrs@), name@) is None,
            Some(v) => attr_value(attrs_view(attrs@), name@) == Some(opt_view(v)),
        },
{
    let mut found: Option<Option<String>> = None;
    let mut i: usize = 0;
    while i < attrs.len()
        invariant
            i <= attrs.len(),
            match found {
                None => attr_value(attrs_view(attrs@.take(i as int)), name@) is None,
                Some(v) => attr_value(attrs_view(attrs@.take(i as int)), name@) == Some(
                    opt_view(v),
                ),
            },
        decreases attrs.len() - i,
    {
        proof {
            let m = attrs_view(attrs@.take(i + 1));
            assert(m.drop_last() =~= attrs_view(attrs@.take(i as int)));
            assert(m.last() == (attrs@[i as int].0@, opt_view(attrs@[i as int].1)));
        }
        if text_eq(attrs[i].0.as_str(), name) {
            let v = match &attrs[i].1 {
                Some(s) => Some(owned(s.as_str())),
                None => None,
            };
            found = Some(v);
        }
        i = i + 1;
    }
    assert(attrs@.take(i as int) =~= attrs@);
    found
}

/// Whether attribute `name` is present with value `value`.
pub(crate) fn attribute_is(attrs: &Vec<(String, Option<String>)>, name: &str, value: &str) -> (b: bool)
    ensures
        b == (attr_value(attrs_view(attrs@), name@) == Some(Some(value@))),
{
    match attribute(attrs, name) {
        Some(Some(v)) => text_eq(v.as_str(), value),
        _ => false,
    }
}

/// Whether `classes` holds `class`.
pub fn has_class(classes: &Vec<String>, class: &str) -> (b: bool)
    ensures
        b == strings_view(classes@).contains(class@),
{
    let mut i: usize = 0;
    while i < classes.len()
        invariant
            i <= classes.len(),
            forall|k: int| 0 <= k < i ==> classes@[k]@ != class@,
        decreases classes.len() - i,
    {
        if text_eq(classes[i].as_str(), class) {
            assert(strings_view(classes@)[i as int] == class@);
            return true;
        }
        i = i + 1;
    }
    proof {
        if strings_view(classes@).contains(class@) {
            let k = choose|k: int| 0 <= k < classes@.len() && strings_view(classes@)[k] == class@;
            assert(classes@[k]@ == class@);
        }
    }
    false
}

// ---------------------------------------------------------------------------
// Rendering
// ---------------------------------------------------------------------------

/// What the rendering of a fragment depends on besides the fragment.
pub struct RenderCtx {
    /// The footnote texts by id, when footnote references are resolved.
    pub footnotes: Option<Seq<(Seq<char>, Seq<char>)>>,
    /// Whether notes become endnotes rather than footnotes.
    pub endnotes: bool,
    /// Whether links with a known citation become citations.
    pub convert_links: bool,
    /// Link targets with the citation key each one stands for.
    pub links: Seq<(Seq<char>, Seq<char>)>,
}

/// The context in which link texts and note texts are rendered: no
/// footnotes, no link conversion.
pub open spec fn plain_ctx(endnotes: bool, links: Seq<(Seq<char>, Seq<char>)>) -> RenderCtx {
    RenderCtx { footnotes: None, endnotes, convert_links: false, links }
}

/// ` name="value"` or ` name` for each attribute, in order.
pub open spec fn attrs_text(attrs: Seq<(Seq<char>, Option<Seq<char>>)>) -> Seq<char>
    decreases attrs.len(),
{
    if attrs.len() == 0 {
        Seq::empty()
    } else {
        attrs_text(attrs.drop_last()) + attr_text(attrs.last())
    }
}

pub open spec fn attr_text(a: (Seq<char>, Option<Seq<char>>)) -> Seq<char> {
    match a.1 {
        Some(v) => " "@ + a.0 + "=\""@ + v + "\""@,
        None => " "@ + a.0,
    }
}

/// The span that stands for a note in the editor.
pub open spec fn note_span(endnotes: bool, content: Seq<char>) -> Seq<char> {
    "<span class=\"note\" note-type=\""@ + (if endnotes {
        "endnote"@
    } else {
        "footnote"@
    }) + "\" note-content=\""@ + replace_spec(content, "\""@, "'"@) + "\">"@ + (if endnotes {
        "E"@
    } else {
        "F"@
    }) + "</span>"@
}

/// The citation element for a key.
pub open spec fn citation_tag(key: Seq<char>) -> Seq<char> {
    "<citation data-key=\""@ + key + "\">C</citation>"@
}

/// The footnote a converter's note reference points to: a link with role
/// `doc-noteref` whose first child is a `sup` whose first child is the
/// note number, looked up as `fn` followed by the trimmed number.
pub open spec fn pandoc_note_ref(
    el: HtmlElement,
    footnotes: Option<Seq<(Seq<char>, Seq<char>)>>,
) -> Option<Seq<char>> {
    if attr_value(attrs_view(el.attributes@), "role"@) == Some(Some("doc-noteref"@))
        && el.children@.len() > 0 {
        match el.children@[0] {
            HtmlNode::Element(sup) => if sup.name@ == "sup"@ && sup.children@.len() > 0 {
                match sup.children@[0] {
                    HtmlNode::Text(num) => match footnotes {
                        Some(f) => lookup_last(f, "fn"@ + trimmed(num@)),
                        None => None,
                    },
                    _ => None,
                }
            } else {
                None
            },
            _ => None,
        }
    } else {
        None
    }
}

/// The footnote a blog footnote reference points to: a link whose first
/// child carries the class `footnote_plugin_tooltip_text` and an id, looked
/// up with `tooltip` replaced by `reference` in that id.
pub open spec fn blog_note_ref(
    el: HtmlElement,
    footnotes: Option<Seq<(Seq<char>, Seq<char>)>>,
) -> Option<Seq<char>> {
    if el.children@.len() > 0 {
        match el.children@[0] {
            HtmlNode::Element(sup) => if strings_view(sup.classes@).contains(
                "footnote_plugin_tooltip_text"@,
            ) {
                match (sup.id, footnotes) {
                    (Some(id), Some(f)) => lookup_last(
                        f,
                        replace_spec(id@, "tooltip"@, "reference"@),
                    ),
                    _ => None,
                }
            } else {
                None
            },
            _ => None,
        }
    } else {
        None
    }
}

/// The rendering of a sequence of nodes.
pub open spec fn render_seq(nodes: Seq<HtmlNode>, ctx: RenderCtx) -> Seq<char>
    decreases nodes,
{
    if nodes.len() == 0 {
        Seq::empty()
    } else {
        render_seq(nodes.drop_last(), ctx) + render_node(nodes.last(), ctx)
    }
}

/// The rendering of a node: texts as they are, comments dropped, elements
/// by `render_element`.
pub open spec fn render_node(n: HtmlNode, ctx: RenderCtx) -> Seq<char>
    decreases n,
{
    match n {
        HtmlNode::Text(t) => t@,
        HtmlNode::Element(el) => render_element(el, ctx),
        HtmlNode::Comment(_) => Seq::empty(),
    }
}

/// The rendering of an element. A link that is a note reference with a
/// known footnote becomes a note span; otherwise, with link conversion on
/// and footnotes given, a link whose target has a citation becomes its
/// text (left out when it is the target itself) followed by the citation.
/// Any other element is written back with its attributes and rendered
/// children.
pub open spec fn render_element(el: HtmlElement, ctx: RenderCtx) -> Seq<char>
    decreases el,
{
    let written = "<"@ + el.name@ + attrs_text(attrs_view(el.attributes@)) + ">"@ + render_seq(
        el.children@,
        ctx,
    ) + "</"@ + el.name@ + ">"@;
    if el.name@ == "a"@ {
        match pandoc_note_ref(el, ctx.footnotes) {
            Some(f) => note_span(ctx.endnotes, f),
            None => match blog_note_ref(el, ctx.footnotes) {
                Some(f) => note_span(ctx.endnotes, f),
                None => if ctx.convert_links && ctx.footnotes is Some {
                    match attr_value(attrs_view(el.attributes@), "href"@) {
                        Some(Some(href)) => match lookup_last(ctx.links, href) {
                            Some(key) => {
                                let text = render_seq(
                                    el.children@,
                                    plain_ctx(ctx.endnotes, ctx.links),
                                );
                                if text == href {
                                    citation_tag(key)
                                } else {
                                    text + citation_tag(key)
                                }
                            },
                            None => written,
                        },
                        _ => written,
                    }
                } else {
                    written
                },
            },
        }
    } else {
        written
    }
}

pub open spec fn ctx_view(
    footnotes: &Option<Vec<(String, String)>>,
    endnotes: bool,
    convert_links: bool,
    links: &Vec<(String, String)>,
) -> RenderCtx {
    RenderCtx {
        footnotes: match footnotes {
            Some(f) => Some(mapping_view(f@)),
            None => None,
        },
        endnotes,
        convert_links,
        links: mapping_view(links@),
    }
}

pub(crate) fn attributes_text(attrs: &Vec<(String, Option<String>)>) -> (r: String)
    ensures
        r@ == attrs_text(attrs_view(attrs@)),
{
    let mut out = String::new();
    let mut i: usize = 0;
    while i < attrs.len()
        invariant
            i <= attrs.len(),
            out@ == attrs_text(attrs_view(attrs@.take(i as int))),
        decreases attrs.len() - i,
    {
        proof {
            let m = attrs_view(attrs@.take(i + 1));
            assert(m.drop_last() =~= attrs_view(attrs@.take(i as int)));
            assert(m.last() == (attrs@[i as int].0@, opt_view(attrs@[i as int].1)));
        }
        out.append(" ");
        out.append(attrs[i].0.as_str());
        match &attrs[i].1 {
            Some(v) => {
                out.append("=\"");
                out.append(v.as_str());
                out.append("\"");
            },
            None => {},
        }
        i = i + 1;
    }
    assert(attrs@.take(i as int) =~= attrs@);
    out
}

fn note_span_text(endnotes: bool, content: &str) -> (r: String)
    ensures
        r@ == note_span(endnotes, content@),
{
    proof {
        reveal_strlit("\"");
    }
    let mut out = String::new();
    out.append("<span class=\"note\" note-type=\"");
    if endnotes {
        out.append("endnote");
    } else {
        out.append("footnote");
    }
    out.append("\" note-content=\"");
    let quoted = replace_all(content, "\"", "'");
    out.append(quoted.as_str());
    out.append("\">");
    if endnotes {
        out.append("E");
    } else {
        out.append("F");
    }
    out.append("</span>");
    out
}

fn citation_text(key: &str) -> (r: String)
    ensures
        r@ == citation_tag(key@),
{
    let mut out = String::new();
    out.append("<citation data-key=\"");
    out.append(key);
    out.append("\">C</citation>");
    out
}

fn pandoc_note_ref_exec(el: &HtmlElement, footnotes: &Option<Vec<(String, String)>>) -> (r: Option<
    String,
>)
    ensures
        opt_view(r) == pandoc_note_ref(
            *el,
            match footnotes {
                Some(f) => Some(mapping_view(f@)),
                None => None,
            },
        ),
{
    if !attribute_is(&el.attributes, "role", "doc-noteref") || el.children.len() == 0 {
        return None;
    }
    match &el.children[0] {
        HtmlNode::Element(sup) => {
            if !text_eq(sup.name.as_str(), "sup") || sup.children.len() == 0 {
                return None;
            }
            match &sup.children[0] {
                HtmlNode::Text(num) => match footnotes {
                    Some(f) => {
                        let t = trim_text(num.as_str());
                        let mut key = String::new();
                        key.append("fn");
                        key.append(t.as_str());
                        lookup_pair(f, key.as_str())
                    },
                    None => None,
                },
                _ => None,
            }
        },
        _ => None,
    }
}

fn blog_note_ref_exec(el: &HtmlElement, footnotes: &Option<Vec<(String, String)>>) -> (r: Option<
    String,
>)
    ensures
        opt_view(r) == blog_note_ref(
            *el,
            match footnotes {
                Some(f) => Some(mapping_view(f@)),
                None => None,
            },
        ),
{
    if el.children.len() == 0 {
        return None;
    }
    match &el.children[0] {
        HtmlNode::Element(sup) => {
            if !has_class(&sup.classes, "footnote_plugin_tooltip_text") {
                return None;
            }
            match (&sup.id, footnotes) {
                (Some(id), Some(f)) => {
                    proof {
                        reveal_strlit("tooltip");
                    }
                    let key = replace_all(id.as_str(), "tooltip", "reference");
                    lookup_pair(f, key.as_str())
                },
                _ => None,
            }
        },
        _ => None,
    }
}

/// Renders a sequence of nodes as HTML text.
pub fn render_nodes(
    nodes: &Vec<HtmlNode>,
    footnotes: &Option<Vec<(String, String)>>,
    endnotes: bool,
    convert_links: bool,
    links: &Vec<(String, String)>,
) -> (r: String)
    ensures
        r@ == render_seq(nodes@, ctx_view(footnotes, endnotes, convert_links, links)),
    decreases nodes@,
{
    let ghost ctx = ctx_view(footnotes, endnotes, convert_links, links);
    let mut out = String::new();
    let mut i: usize = 0;
    while i < nodes.len()
        invariant
            i <= nodes.len(),
            ctx == ctx_view(footnotes, endnotes, convert_links, links),
            out@ == render_seq(nodes@.take(i as int), ctx),
        decreases nodes.len() - i,
    {
        assert(nodes@.take(i + 1).drop_last() =~= nodes@.take(i as int));
        assert(nodes@.take(i + 1).last() == nodes@[i as int]);
        assert(render_seq(nodes@.take(i + 1), ctx) == render_seq(nodes@.take(i as int), ctx)
            + render_node(nodes@[i as int], ctx));
        match &nodes[i] {
            HtmlNode::Text(t) => {
                out.append(t.as_str());
            },
            HtmlNode::Element(el) => {
                assert(decreases_to!(nodes@ => nodes@[i as int]));
                let s = render_element_exec(el, footnotes, endnotes, convert_links, links);
                out.append(s.as_str());
            },
            HtmlNode::Comment(_) => {
                assert(out@ + Seq::<char>::empty() =~= out@);
            },
        }
        i = i + 1;
    }
    assert(nodes@.take(i as int) =~= nodes@);
    out
}

/// Renders one element as HTML text.
pub fn render_element_exec(
    el: &HtmlElement,
    footnotes: &Option<Vec<(String, String)>>,
    endnotes: bool,
    convert_links: bool,
    links: &Vec<(String, String)>,
) -> (r: String)
    ensures
        r@ == render_element(*el, ctx_view(footnotes, endnotes, convert_links, links)),
    decreases *el,
{
    if text_eq(el.name.as_str(), "a") {
        if let Some(f) = pandoc_note_ref_exec(el, footnotes) {
            return note_span_text(endnotes, f.as_str());
        }
        if let Some(f) = blog_note_ref_exec(el, footnotes) {
            return note_span_text(endnotes, f.as_str());
        }
        if convert_links && footnotes.is_some() {
            if let Some(Some(href)) = attribute(&el.attributes, "href") {
                if let Some(key) = lookup_pair(links, href.as_str()) {
                    let none: Option<Vec<(String, String)>> = None;
                    let text = render_nodes(&el.children, &none, endnotes, false, links);
                    let tag = citation_text(key.as_str());
                    if text_eq(text.as_str(), href.as_str()) {
                        return tag;
                    } else {
                        let mut out = text;
                        out.append(tag.as_str());
                        return out;
                    }
                }
            }
        }
    }
    let mut out = String::new();
    out.append("<");
    out.append(el.name.as_str());
    let a = attributes_text(&el.attributes);
    out.append(a.as_str());
    out.append(">");
    let inner = render_nodes(&el.children, footnotes, endnotes, convert_links, links);
    out.append(inner.as_str());
    out.append("</");
    out.append(el.name.as_str());
    out.append(">");
    out
}

} // verus!
