//! Rendering of the rich text of a content block for export: citations and
//! notes become footnote or endnote markup, custom styles become spans, and
//! endnotes are collected, numbered, for the end of the section.
use vstd::prelude::*;
use html5ever::tendril::{StrTendril, TendrilSink};
use html5ever::{parse_document, parse_fragment, serialize};
use html5ever::{Attribute, LocalName, Namespace, Prefix, QualName};
use markup5ever_rcdom::{Node, NodeData, RcDom, SerializableHandle};
use std::cell::RefCell;
use std::rc::Rc;
use crate::content::owned;
use crate::hyphen::{hyphenate_text, soft_hyphenated};
use crate::languages::HyphenationDictionary;
use crate::text::{escape_html, escape_html_spec, replace_all, replace_spec, text_eq};
use crate::wordpress::{decimal, decimal_text};

use crate::ids::{new_uuid, uuid_text};

verus! {

// ---------------------------------------------------------------------------
// Document tree
// ---------------------------------------------------------------------------

/// An attribute: its namespace, optional prefix, local name and value.
pub struct DomAttr {
    pub ns: String,
    pub prefix: Option<String>,
    pub local: String,
    pub value: String,
}

/// A node of a parsed HTML document.
pub enum DomNode {
    Element {
        ns: String,
        prefix: Option<String>,
        local: String,
        attrs: Vec<DomAttr>,
        children: Vec<DomNode>,
    },
    Text(String),
    Comment(String),
    Doctype { name: String, public_id: String, system_id: String },
    Instruction { target: String, contents: String },
}

/// An attribute, as plain values.
pub struct AttrView {
    pub ns: Seq<char>,
    pub prefix: Option<Seq<char>>,
    pub local: Seq<char>,
    pub value: Seq<char>,
}

/// A node, as plain values.
pub enum NodeView {
    Element {
        ns: Seq<char>,
        prefix: Option<Seq<char>>,
        local: Seq<char>,
        attrs: Seq<AttrView>,
        children: Seq<NodeView>,
    },
    Text(Seq<char>),
    Comment(Seq<char>),
    Doctype { name: Seq<char>, public_id: Seq<char>, system_id: Seq<char> },
    Instruction { target: Seq<char>, contents: Seq<char> },
}

pub open spec fn opt_view(o: Option<String>) -> Option<Seq<char>> {
    match o {
        Some(s) => Some(s@),
        None => None,
    }
}

pub open spec fn attr_view(a: DomAttr) -> AttrView {
    AttrView { ns: a.ns@, prefix: opt_view(a.prefix), local: a.local@, value: a.value@ }
}

pub open spec fn attrs_view(s: Seq<DomAttr>) -> Seq<AttrView> {
    s.map_values(|a: DomAttr| attr_view(a))
}

pub open spec fn node_view(n: DomNode) -> NodeView
    decreases n,
{
    match n {
        DomNode::Element { ns, prefix, local, attrs, children } => NodeView::Element {
            ns: ns@,
            prefix: opt_view(prefix),
            local: local@,
            attrs: attrs_view(attrs@),
            children: nodes_view(children@),
        },
        DomNode::Text(t) => NodeView::Text(t@),
        DomNode::Comment(c) => NodeView::Comment(c@),
        DomNode::Doctype { name, public_id, system_id } => NodeView::Doctype {
            name: name@,
            public_id: public_id@,
            system_id: system_id@,
        },
        DomNode::Instruction { target, contents } => NodeView::Instruction {
            target: target@,
            contents: contents@,
        },
    }
}

pub open spec fn nodes_view(s: Seq<DomNode>) -> Seq<NodeView>
    decreases s,
{
    if s.len() == 0 {
        Seq::empty()
    } else {
        nodes_view(s.drop_last()).push(node_view(s.last()))
    }
}

// ---------------------------------------------------------------------------
// Parsing and writing HTML
// ---------------------------------------------------------------------------

/// `markup5ever_rcdom::Node`, a node of the DOM that the HTML parser builds.
#[verifier::external_type_specification]
#[verifier::external_body]
pub struct ExRcNode(Node);

/// `html5ever::Attribute`, an attribute of that DOM.
#[verifier::external_type_specification]
#[verifier::external_body]
pub struct ExHtmlAttribute(Attribute);

/// `html5ever::QualName`, a qualified name of that DOM.
#[verifier::external_type_specification]
#[verifier::external_body]
pub struct ExQualName(QualName);

/// What `html5ever::parse_document` makes of a text: the children of the
/// document node.
pub uninterp spec fn parsed_document(text: Seq<char>) -> Seq<NodeView>;

/// What `html5ever::parse_fragment` makes of a text in the context of a
/// `div` element: the children of the fragment's root element.
pub uninterp spec fn parsed_fragment(text: Seq<char>) -> Seq<NodeView>;

/// What `html5ever::serialize` writes for a document with these children.
pub uninterp spec fn serialized(nodes: Seq<NodeView>) -> Seq<char>;

/// Converts an attribute of the parser's DOM, field for field. Called by
/// `from_rc_element` alone.
#[verifier::external_body]
fn from_rc_attr(a: &Attribute) -> DomAttr {
    DomAttr {
        ns: a.name.ns.to_string(),
        prefix: a.name.prefix.as_ref().map(|p| p.to_string()),
        local: a.name.local.to_string(),
        value: a.value.to_string(),
    }
}

/// Converts an element of the parser's DOM and its descendants, field for
/// field. Called by `from_rc_node` alone.
#[verifier::external_body]
fn from_rc_element(name: &QualName, attrs: &Vec<Attribute>, node: &Rc<Node>) -> DomNode {
    DomNode::Element {
        ns: name.ns.to_string(),
        prefix: name.prefix.as_ref().map(|p| p.to_string()),
        local: name.local.to_string(),
        attrs: attrs.iter().map(from_rc_attr).collect(),
        children: node.children.borrow().iter().filter_map(from_rc_node).collect(),
    }
}

/// Converts a node of the parser's DOM, field for field; the document node
/// itself has no counterpart. Called by the parsing wrappers alone.
#[verifier::external_body]
fn from_rc_node(node: &Rc<Node>) -> Option<DomNode> {
    let t = |s: &StrTendril| s.to_string();
    match &node.data {
        NodeData::Element { name, attrs, .. } => Some(from_rc_element(name, &attrs.borrow(), node)),
        NodeData::Text { contents } => Some(DomNode::Text(t(&contents.borrow()))),
        NodeData::Comment { contents } => Some(DomNode::Comment(t(contents))),
        NodeData::Doctype { name, public_id, system_id } => Some(DomNode::Doctype {
            name: t(name), public_id: t(public_id), system_id: t(system_id) }),
        NodeData::ProcessingInstruction { target, contents } => Some(DomNode::Instruction {
            target: t(target), contents: t(contents) }),
        NodeData::Document => None,
    }
}

/// Converts an attribute into one of the parser's DOM, field for field.
/// Called by `to_rc_element` alone.
#[verifier::external_body]
fn to_rc_attr(a: &DomAttr) -> Attribute {
    let prefix = a.prefix.as_deref().map(Prefix::from);
    let name = QualName::new(prefix, Namespace::from(a.ns.as_str()), LocalName::from(a.local.as_str()));
    Attribute { name, value: a.value.as_str().into() }
}

/// Converts an element into one of the parser's DOM, without its children.
/// Called by `to_rc_node` alone.
#[verifier::external_body]
fn to_rc_element(ns: &str, prefix: &Option<String>, local: &str, attrs: &Vec<DomAttr>) -> Rc<Node> {
    let prefix = prefix.as_deref().map(Prefix::from);
    Node::new(NodeData::Element {
        name: QualName::new(prefix, Namespace::from(ns), LocalName::from(local)),
        attrs: RefCell::new(attrs.iter().map(to_rc_attr).collect()),
        template_contents: RefCell::new(None),
        mathml_annotation_xml_integration_point: false,
    })
}

/// Converts a node and its descendants into nodes of the parser's DOM,
/// field for field. Called by `serialize_nodes` alone.
#[verifier::external_body]
fn to_rc_node(n: &DomNode) -> Rc<Node> {
    let t = |s: &String| -> StrTendril { s.as_str().into() };
    Node::new(match n {
        DomNode::Element { ns, prefix, local, attrs, children } => {
            let e = to_rc_element(ns, prefix, local, attrs);
            e.children.borrow_mut().extend(children.iter().map(to_rc_node));
            return e;
        },
        DomNode::Text(s) => NodeData::Text { contents: RefCell::new(t(s)) },
        DomNode::Comment(c) => NodeData::Comment { contents: t(c) },
        DomNode::Doctype { name, public_id, system_id } => NodeData::Doctype {
            name: t(name), public_id: t(public_id), system_id: t(system_id) },
        DomNode::Instruction { target, contents } => NodeData::ProcessingInstruction {
            target: t(target), contents: t(contents) },
    })
}

/// `html5ever::parse_document` into the DOM of `markup5ever_rcdom`: the
/// children of the document node; the result is named `parsed_document`.
#[verifier::external_body]
fn parse_document_nodes(text: &str) -> (r: Vec<DomNode>)
    ensures
        nodes_view(r@) == parsed_document(text@),
{
    let dom = parse_document(RcDom::default(), Default::default()).one(text);
    let children = dom.document.children.borrow();
    children.iter().filter_map(from_rc_node).collect()
}

/// `html5ever::parse_fragment` in the context of a `div` element: the
/// children of the fragment's root element, none where it has no root; the
/// result is named `parsed_fragment`.
#[verifier::external_body]
fn parse_fragment_nodes(text: &str) -> (r: Vec<DomNode>)
    ensures
        nodes_view(r@) == parsed_fragment(text@),
{
    let html = Namespace::from("http://www.w3.org/1999/xhtml");
    let div = QualName::new(None, html, LocalName::from("div"));
    let dom = parse_fragment(RcDom::default(), Default::default(), div, Vec::new(), false).one(text);
    let root = dom.document.children.borrow().first().cloned();
    match root {
        Some(h) => h.children.borrow().iter().filter_map(from_rc_node).collect(),
        None => Vec::new(),
    }
}

/// `html5ever::serialize` of a document with these children, as text (the
/// serializer writes UTF-8); the result is named `serialized`.
#[verifier::external_body]
fn serialize_nodes(nodes: &Vec<DomNode>) -> (r: String)
    ensures
        r@ == serialized(nodes_view(nodes@)),
{
    let doc = Node::new(NodeData::Document);
    doc.children.borrow_mut().extend(nodes.iter().map(to_rc_node));
    let handle: SerializableHandle = doc.into();
    let mut buffer: Vec<u8> = Vec::new();
    let _ = serialize(&mut buffer, &handle, Default::default());
    String::from_utf8(buffer).unwrap_or_default()
}

// ---------------------------------------------------------------------------
// Notes, citations and custom styles
// ---------------------------------------------------------------------------

/// What the rendering carries from node to node: the identifiers still to
/// be handed out (the last one next) and the endnotes collected so far.
pub struct NoteState {
    pub ids: Seq<Seq<char>>,
    pub storage: Seq<(Seq<char>, Seq<char>)>,
}

/// The next identifier, or the empty text when none is left.
pub open spec fn next_id(st: NoteState) -> Seq<char> {
    if st.ids.len() > 0 {
        st.ids.last()
    } else {
        Seq::empty()
    }
}

/// The identifiers once the next one is handed out.
pub open spec fn rest_ids(st: NoteState) -> Seq<Seq<char>> {
    if st.ids.len() > 0 {
        st.ids.drop_last()
    } else {
        st.ids
    }
}

/// The value of the last attribute with this local name.
pub open spec fn last_attr(attrs: Seq<AttrView>, name: Seq<char>) -> Option<Seq<char>>
    decreases attrs.len(),
{
    if attrs.len() == 0 {
        None
    } else if attrs.last().local == name {
        Some(attrs.last().value)
    } else {
        last_attr(attrs.drop_last(), name)
    }
}

/// The value of the attribute, or `default` where it has none.
pub open spec fn attr_or(attrs: Seq<AttrView>, name: Seq<char>, default: Seq<char>) -> Seq<char> {
    match last_attr(attrs, name) {
        Some(v) => v,
        None => default,
    }
}

/// The rendered citation of a key: the first entry with that key.
pub open spec fn lookup_bib(bib: Seq<(Seq<char>, Seq<char>)>, key: Seq<char>) -> Option<Seq<char>>
    decreases bib.len(),
{
    if bib.len() == 0 {
        None
    } else if bib[0].0 == key {
        Some(bib[0].1)
    } else {
        lookup_bib(bib.drop_first(), key)
    }
}

/// The note text of a citation element: its prefix, the rendered citation
/// of its key (or a marker where the key is unknown) and its suffix, with
/// the HTML characters escaped.
pub open spec fn citation_note(attrs: Seq<AttrView>, bib: Seq<(Seq<char>, Seq<char>)>) -> Seq<char> {
    let cited = match lookup_bib(bib, attr_or(attrs, "data-key"@, Seq::empty())) {
        Some(c) => escape_html_spec(c),
        None => "!!INVALID CITATION!!"@,
    };
    escape_html_spec(attr_or(attrs, "data-prefix"@, Seq::empty())) + cited + escape_html_spec(
        attr_or(attrs, "data-suffix"@, Seq::empty()),
    )
}

/// What an element is replaced by.
pub enum Replacement {
    /// A footnote with this HTML content.
    Footnote(Seq<char>),
    /// An endnote with this HTML content.
    Endnote(Seq<char>),
    /// A span with these classes and this inline style.
    Custom(Seq<char>, Seq<char>),
    /// Nothing: the element stays.
    Keep,
}

/// The replacement of an element: a note span by its note (a footnote's
/// content as it is, an endnote's escaped), a citation by a footnote or an
/// endnote with its note text, a custom style by a span.
pub open spec fn replacement_of(
    local: Seq<char>,
    attrs: Seq<AttrView>,
    bib: Seq<(Seq<char>, Seq<char>)>,
    as_footnote: bool,
) -> Replacement {
    if local == "span"@ {
        match last_attr(attrs, "note-type"@) {
            Some(t) => if t == "footnote"@ {
                Replacement::Footnote(attr_or(attrs, "note-content"@, "Missing note content"@))
            } else if t == "endnote"@ {
                Replacement::Endnote(
                    match last_attr(attrs, "note-content"@) {
                        Some(c) => escape_html_spec(c),
                        None => "Missing note content"@,
                    },
                )
            } else {
                Replacement::Keep
            },
            None => Replacement::Keep,
        }
    } else if local == "citation"@ {
        if as_footnote {
            Replacement::Footnote(citation_note(attrs, bib))
        } else {
            Replacement::Endnote(citation_note(attrs, bib))
        }
    } else if local == "customstyle"@ {
        Replacement::Custom(
            attr_or(attrs, "classes"@, Seq::empty()),
            attr_or(attrs, "inline-style"@, Seq::empty()),
        )
    } else {
        Replacement::Keep
    }
}

pub open spec fn html_ns() -> Seq<char> {
    "http://www.w3.org/1999/xhtml"@
}

/// An attribute without namespace.
pub open spec fn plain_attr(name: Seq<char>, value: Seq<char>) -> AttrView {
    AttrView { ns: Seq::empty(), prefix: None, local: name, value }
}

/// An HTML element.
pub open spec fn html_el(local: Seq<char>, attrs: Seq<AttrView>, children: Seq<NodeView>) -> NodeView {
    NodeView::Element { ns: html_ns(), prefix: None, local, attrs, children }
}

/// A footnote: the note span (a link back to the call, then the content
/// parsed as HTML), followed by the call.
pub open spec fn footnote_nodes(id: Seq<char>, content: Seq<char>) -> Seq<NodeView> {
    seq![
        html_el(
            "span"@,
            seq![plain_attr("class"@, "footnote"@), plain_attr("id"@, "footnote-"@ + id)],
            seq![
                html_el(
                    "a"@,
                    seq![
                        plain_attr("class"@, "footnote-marker"@),
                        plain_attr("href"@, "#footnote-call-"@ + id),
                    ],
                    Seq::empty(),
                ),
            ] + parsed_fragment(content),
        ),
        html_el(
            "a"@,
            seq![
                plain_attr("class"@, "footnote-call"@),
                plain_attr("href"@, "#footnote-"@ + id),
                plain_attr("id"@, "footnote-call-"@ + id),
            ],
            Seq::empty(),
        ),
    ]
}

/// An endnote call: a superscript link to the note, showing its number.
pub open spec fn endnote_nodes(id: Seq<char>, number: nat) -> Seq<NodeView> {
    seq![
        html_el(
            "sup"@,
            seq![plain_attr("class"@, "endnote"@)],
            seq![
                html_el("a"@, seq![plain_attr("href"@, "#note-"@ + id)], seq![NodeView::Text(decimal(number))]),
            ],
        ),
    ]
}

/// A custom style: a span with the classes and the inline style around the
/// element's rendered children.
pub open spec fn custom_nodes(classes: Seq<char>, style: Seq<char>, kids: Seq<NodeView>) -> Seq<NodeView> {
    seq![
        html_el("span"@, seq![plain_attr("class"@, classes), plain_attr("style"@, style)], kids),
    ]
}

/// The state once an element's own replacement has been found: a note takes
/// the next identifier, an endnote is stored with it.
pub open spec fn state_after(r: Replacement, st: NoteState) -> NoteState {
    match r {
        Replacement::Footnote(_) => NoteState { ids: rest_ids(st), storage: st.storage },
        Replacement::Endnote(c) => NoteState {
            ids: rest_ids(st),
            storage: st.storage.push((next_id(st), c)),
        },
        _ => st,
    }
}

/// A node rendered: an element's replacement is found before its children
/// are visited, and the children are visited (taking identifiers and
/// storing endnotes) even where the replacement drops them.
pub open spec fn rendered_node(
    n: NodeView,
    st: NoteState,
    bib: Seq<(Seq<char>, Seq<char>)>,
    as_footnote: bool,
) -> (Seq<NodeView>, NoteState)
    decreases n,
{
    match n {
        NodeView::Element { ns, prefix, local, attrs, children } => {
            let r = replacement_of(local, attrs, bib, as_footnote);
            let st1 = state_after(r, st);
            let kids = rendered_nodes(children, st1, bib, as_footnote);
            let out = match r {
                Replacement::Footnote(c) => footnote_nodes(next_id(st), c),
                Replacement::Endnote(_) => endnote_nodes(next_id(st), st1.storage.len()),
                Replacement::Custom(classes, style) => custom_nodes(classes, style, kids.0),
                Replacement::Keep => seq![
                    NodeView::Element { ns, prefix, local, attrs, children: kids.0 },
                ],
            };
            (out, kids.1)
        },
        _ => (seq![n], st),
    }
}

/// Nodes rendered in order, the state passed from each to the next.
pub open spec fn rendered_nodes(
    ns: Seq<NodeView>,
    st: NoteState,
    bib: Seq<(Seq<char>, Seq<char>)>,
    as_footnote: bool,
) -> (Seq<NodeView>, NoteState)
    decreases ns,
{
    if ns.len() == 0 {
        (Seq::empty(), st)
    } else {
        let a = rendered_nodes(ns.drop_last(), st, bib, as_footnote);
        let b = rendered_node(ns.last(), a.1, bib, as_footnote);
        (a.0 + b.0, b.1)
    }
}

/// The number of identifiers that rendering takes: one for each note span
/// and each citation.
pub open spec fn notes_in_node(n: NodeView) -> nat
    decreases n,
{
    match n {
        NodeView::Element { local, attrs, children, .. } => {
            let own: nat = match replacement_of(local, attrs, Seq::empty(), false) {
                Replacement::Footnote(_) => 1,
                Replacement::Endnote(_) => 1,
                _ => 0,
            };
            own + notes_in_nodes(children)
        },
        _ => 0,
    }
}

pub open spec fn notes_in_nodes(ns: Seq<NodeView>) -> nat
    decreases ns,
{
    if ns.len() == 0 {
        0
    } else {
        notes_in_nodes(ns.drop_last()) + notes_in_node(ns.last())
    }
}

// ---------------------------------------------------------------------------
// Rendering
// ---------------------------------------------------------------------------

pub open spec fn pairs_view(s: Seq<(String, String)>) -> Seq<(Seq<char>, Seq<char>)> {
    s.map_values(|p: (String, String)| (p.0@, p.1@))
}

pub open spec fn texts_view(s: Seq<String>) -> Seq<Seq<char>> {
    s.map_values(|t: String| t@)
}

proof fn lemma_nodes_push(s: Seq<DomNode>, n: DomNode)
    ensures
        nodes_view(s.push(n)) == nodes_view(s).push(node_view(n)),
{
    assert(s.push(n).drop_last() =~= s);
}

proof fn lemma_nodes_append(a: Seq<DomNode>, b: Seq<DomNode>)
    ensures
        nodes_view(a + b) == nodes_view(a) + nodes_view(b),
    decreases b.len(),
{
    if b.len() == 0 {
        assert(a + b =~= a);
        assert(nodes_view(a) + nodes_view(b) =~= nodes_view(a));
    } else {
        lemma_nodes_append(a, b.drop_last());
        assert((a + b).drop_last() =~= a + b.drop_last());
        assert(nodes_view(a) + nodes_view(b) =~= (nodes_view(a) + nodes_view(b.drop_last())).push(
            node_view(b.last()),
        ));
    }
}

proof fn lemma_nodes_len(s: Seq<DomNode>)
    ensures
        nodes_view(s).len() == s.len(),
        forall|i: int| 0 <= i < s.len() ==> #[trigger] nodes_view(s)[i] == node_view(s[i]),
    decreases s.len(),
{
    if s.len() > 0 {
        lemma_nodes_len(s.drop_last());
    }
}

proof fn lemma_empty_literal()
    ensures
        ""@ == Seq::<char>::empty(),
{
    reveal_strlit("");
    assert(""@ =~= Seq::<char>::empty());
}

/// The value of the last attribute with this local name.
fn last_attr_exec<'a>(attrs: &'a Vec<DomAttr>, name: &str) -> (r: Option<&'a String>)
    ensures
        match r {
            Some(v) => last_attr(attrs_view(attrs@), name@) == Some(v@),
            None => last_attr(attrs_view(attrs@), name@) is None,
        },
{
    let ghost av = attrs_view(attrs@);
    assert(av.take(attrs.len() as int) =~= av);
    let mut i: usize = attrs.len();
    while i > 0
        invariant
            i <= attrs.len(),
            av == attrs_view(attrs@),
            last_attr(av, name@) == last_attr(av.take(i as int), name@),
        decreases i,
    {
        assert(av.take(i as int).last() == av[i - 1]);
        assert(av.take(i as int).drop_last() =~= av.take(i - 1));
        if text_eq(attrs[i - 1].local.as_str(), name) {
            return Some(&attrs[i - 1].value);
        }
        i = i - 1;
    }
    None
}

/// The value of the attribute, or `default` where it has none.
fn attr_or_exec(attrs: &Vec<DomAttr>, name: &str, default: &str) -> (r: String)
    ensures
        r@ == attr_or(attrs_view(attrs@), name@, default@),
{
    match last_attr_exec(attrs, name) {
        Some(v) => v.clone(),
        None => owned(default),
    }
}

/// The rendered citation of a key.
fn lookup_bib_exec<'a>(bib: &'a Vec<(String, String)>, key: &str) -> (r: Option<&'a String>)
    ensures
        match r {
            Some(v) => lookup_bib(pairs_view(bib@), key@) == Some(v@),
            None => lookup_bib(pairs_view(bib@), key@) is None,
        },
{
    let ghost pv = pairs_view(bib@);
    assert(pv.skip(0) =~= pv);
    let mut i: usize = 0;
    while i < bib.len()
        invariant
            i <= bib.len(),
            pv == pairs_view(bib@),
            lookup_bib(pv, key@) == lookup_bib(pv.skip(i as int), key@),
        decreases bib.len() - i,
    {
        assert(pv.skip(i as int)[0] == pv[i as int]);
        assert(pv.skip(i as int).drop_first() =~= pv.skip(i + 1));
        if text_eq(bib[i].0.as_str(), key) {
            return Some(&bib[i].1);
        }
        i = i + 1;
    }
    None
}

fn citation_note_exec(attrs: &Vec<DomAttr>, bib: &Vec<(String, String)>) -> (r: String)
    ensures
        r@ == citation_note(attrs_view(attrs@), pairs_view(bib@)),
{
    proof {
        lemma_empty_literal();
    }
    let key = attr_or_exec(attrs, "data-key", "");
    let cited = match lookup_bib_exec(bib, key.as_str()) {
        Some(c) => escape_html(c.as_str()),
        None => owned("!!INVALID CITATION!!"),
    };
    let prefix = attr_or_exec(attrs, "data-prefix", "");
    let suffix = attr_or_exec(attrs, "data-suffix", "");
    let mut r = escape_html(prefix.as_str());
    r.append(cited.as_str());
    let s = escape_html(suffix.as_str());
    r.append(s.as_str());
    r
}

/// What an element is replaced by, as values.
enum ReplacementExec {
    Footnote(String),
    Endnote(String),
    Custom(String, String),
    Keep,
}

spec fn replacement_view(r: ReplacementExec) -> Replacement {
    match r {
        ReplacementExec::Footnote(c) => Replacement::Footnote(c@),
        ReplacementExec::Endnote(c) => Replacement::Endnote(c@),
        ReplacementExec::Custom(a, b) => Replacement::Custom(a@, b@),
        ReplacementExec::Keep => Replacement::Keep,
    }
}

fn replacement_exec(local: &str, attrs: &Vec<DomAttr>, bib: &Vec<(String, String)>, as_footnote: bool) -> (r:
    ReplacementExec)
    ensures
        replacement_view(r) == replacement_of(local@, attrs_view(attrs@), pairs_view(bib@), as_footnote),
{
    proof {
        lemma_empty_literal();
    }
    if text_eq(local, "span") {
        match last_attr_exec(attrs, "note-type") {
            Some(t) => if text_eq(t.as_str(), "footnote") {
                ReplacementExec::Footnote(attr_or_exec(attrs, "note-content", "Missing note content"))
            } else if text_eq(t.as_str(), "endnote") {
                let c = match last_attr_exec(attrs, "note-content") {
                    Some(c) => escape_html(c.as_str()),
                    None => owned("Missing note content"),
                };
                ReplacementExec::Endnote(c)
            } else {
                ReplacementExec::Keep
            },
            None => ReplacementExec::Keep,
        }
    } else if text_eq(local, "citation") {
        if as_footnote {
            ReplacementExec::Footnote(citation_note_exec(attrs, bib))
        } else {
            ReplacementExec::Endnote(citation_note_exec(attrs, bib))
        }
    } else if text_eq(local, "customstyle") {
        ReplacementExec::Custom(
            attr_or_exec(attrs, "classes", ""),
            attr_or_exec(attrs, "inline-style", ""),
        )
    } else {
        ReplacementExec::Keep
    }
}

/// Hands out the next identifier: the last one left, or the empty text.
fn take_id(ids: &mut Vec<String>) -> (r: String)
    ensures
        r@ == next_id(NoteState { ids: texts_view(old(ids)@), storage: Seq::empty() }),
        texts_view(final(ids)@) == rest_ids(NoteState { ids: texts_view(old(ids)@), storage: Seq::empty() }),
{
    let ghost before = ids@;
    match ids.pop() {
        Some(s) => {
            assert(texts_view(ids@) =~= texts_view(before).drop_last());
            s
        },
        None => {
            proof {
                lemma_empty_literal();
            }
            owned("")
        },
    }
}

fn plain_attr_exec(name: &str, value: String) -> (r: DomAttr)
    ensures
        attr_view(r) == plain_attr(name@, value@),
{
    proof {
        lemma_empty_literal();
    }
    DomAttr { ns: owned(""), prefix: None, local: owned(name), value }
}

fn html_el_exec(local: &str, attrs: Vec<DomAttr>, children: Vec<DomNode>) -> (r: DomNode)
    ensures
        node_view(r) == html_el(local@, attrs_view(attrs@), nodes_view(children@)),
{
    DomNode::Element {
        ns: owned("http://www.w3.org/1999/xhtml"),
        prefix: None,
        local: owned(local),
        attrs,
        children,
    }
}

/// `prefix` followed by `id`.
fn prefixed(prefix: &str, id: &String) -> (r: String)
    ensures
        r@ == prefix@ + id@,
{
    let mut r = owned(prefix);
    r.append(id.as_str());
    r
}

fn attrs_of1(a: DomAttr) -> (r: Vec<DomAttr>)
    ensures
        attrs_view(r@) == seq![attr_view(a)],
{
    let ghost ga = attr_view(a);
    let r = vec![a];
    assert(attrs_view(r@) =~= seq![ga]);
    r
}

fn attrs_of2(a: DomAttr, b: DomAttr) -> (r: Vec<DomAttr>)
    ensures
        attrs_view(r@) == seq![attr_view(a), attr_view(b)],
{
    let ghost ga = attr_view(a);
    let ghost gb = attr_view(b);
    let r = vec![a, b];
    assert(attrs_view(r@) =~= seq![ga, gb]);
    r
}

fn attrs_of3(a: DomAttr, b: DomAttr, c: DomAttr) -> (r: Vec<DomAttr>)
    ensures
        attrs_view(r@) == seq![attr_view(a), attr_view(b), attr_view(c)],
{
    let ghost ga = attr_view(a);
    let ghost gb = attr_view(b);
    let ghost gc = attr_view(c);
    let r = vec![a, b, c];
    assert(attrs_view(r@) =~= seq![ga, gb, gc]);
    r
}

fn footnote_exec(id: &String, content: &String) -> (r: Vec<DomNode>)
    ensures
        nodes_view(r@) == footnote_nodes(id@, content@),
{
    let marker = html_el_exec(
        "a",
        attrs_of2(
            plain_attr_exec("class", owned("footnote-marker")),
            plain_attr_exec("href", prefixed("#footnote-call-", id)),
        ),
        Vec::new(),
    );
    let ghost gm = node_view(marker);
    let mut kids: Vec<DomNode> = Vec::new();
    proof { lemma_nodes_push(kids@, marker); }
    kids.push(marker);
    assert(nodes_view(kids@) =~= seq![gm]);
    let mut frag = parse_fragment_nodes(content.as_str());
    proof { lemma_nodes_append(kids@, frag@); }
    kids.append(&mut frag);
    let span = html_el_exec(
        "span",
        attrs_of2(plain_attr_exec("class", owned("footnote")), plain_attr_exec("id", prefixed("footnote-", id))),
        kids,
    );
    let call = html_el_exec(
        "a",
        attrs_of3(
            plain_attr_exec("class", owned("footnote-call")),
            plain_attr_exec("href", prefixed("#footnote-", id)),
            plain_attr_exec("id", prefixed("footnote-call-", id)),
        ),
        Vec::new(),
    );
    let ghost gs = node_view(span);
    let ghost gc = node_view(call);
    let mut r: Vec<DomNode> = Vec::new();
    proof { lemma_nodes_push(r@, span); }
    r.push(span);
    proof { lemma_nodes_push(r@, call); }
    r.push(call);
    assert(nodes_view(r@) =~= seq![gs, gc]);
    r
}

fn endnote_exec(id: &String, number: usize) -> (r: Vec<DomNode>)
    ensures
        nodes_view(r@) == endnote_nodes(id@, number as nat),
{
    let text = DomNode::Text(decimal_text(number));
    let ghost gt = node_view(text);
    let mut inner: Vec<DomNode> = Vec::new();
    proof { lemma_nodes_push(inner@, text); }
    inner.push(text);
    assert(nodes_view(inner@) =~= seq![gt]);
    let link = html_el_exec("a", attrs_of1(plain_attr_exec("href", prefixed("#note-", id))), inner);
    let ghost gl = node_view(link);
    let mut kids: Vec<DomNode> = Vec::new();
    proof { lemma_nodes_push(kids@, link); }
    kids.push(link);
    assert(nodes_view(kids@) =~= seq![gl]);
    let sup = html_el_exec("sup", attrs_of1(plain_attr_exec("class", owned("endnote"))), kids);
    let ghost gs = node_view(sup);
    let mut r: Vec<DomNode> = Vec::new();
    proof { lemma_nodes_push(r@, sup); }
    r.push(sup);
    assert(nodes_view(r@) =~= seq![gs]);
    r
}

fn custom_exec(classes: String, style: String, kids: Vec<DomNode>) -> (r: Vec<DomNode>)
    ensures
        nodes_view(r@) == custom_nodes(classes@, style@, nodes_view(kids@)),
{
    let span = html_el_exec(
        "span",
        attrs_of2(plain_attr_exec("class", classes), plain_attr_exec("style", style)),
        kids,
    );
    let ghost gs = node_view(span);
    let mut r: Vec<DomNode> = Vec::new();
    proof { lemma_nodes_push(r@, span); }
    r.push(span);
    assert(nodes_view(r@) =~= seq![gs]);
    r
}

/// The state of the rendering, read from the identifiers left and the
/// endnotes stored.
pub open spec fn state_of(ids: Seq<String>, storage: Seq<(String, String)>) -> NoteState {
    NoteState { ids: texts_view(ids), storage: pairs_view(storage) }
}

fn push_endnote(storage: &mut Vec<(String, String)>, id: String, content: String)
    ensures
        pairs_view(final(storage)@) == pairs_view(old(storage)@).push((id@, content@)),
{
    let ghost before = storage@;
    storage.push((id, content));
    assert(pairs_view(storage@) =~= pairs_view(before).push((id@, content@)));
}

fn copy_opt(o: &Option<String>) -> (r: Option<String>)
    ensures
        opt_view(r) == opt_view(*o),
{
    match o {
        Some(s) => Some(s.clone()),
        None => None,
    }
}

fn copy_attrs(attrs: &Vec<DomAttr>) -> (r: Vec<DomAttr>)
    ensures
        attrs_view(r@) == attrs_view(attrs@),
{
    let mut r: Vec<DomAttr> = Vec::new();
    let mut i: usize = 0;
    while i < attrs.len()
        invariant
            i <= attrs.len(),
            attrs_view(r@) == attrs_view(attrs@.take(i as int)),
        decreases attrs.len() - i,
    {
        let a = &attrs[i];
        let c = DomAttr {
            ns: a.ns.clone(),
            prefix: copy_opt(&a.prefix),
            local: a.local.clone(),
            value: a.value.clone(),
        };
        let ghost before = r@;
        let ghost gc = attr_view(c);
        assert(gc == attr_view(attrs@[i as int]));
        r.push(c);
        assert(attrs@.take(i + 1) =~= attrs@.take(i as int).push(attrs@[i as int]));
        assert(attrs_view(r@) =~= attrs_view(before).push(gc));
        assert(attrs_view(attrs@.take(i + 1)) =~= attrs_view(attrs@.take(i as int)).push(gc));
        i = i + 1;
    }
    assert(attrs@.take(i as int) =~= attrs@);
    r
}

fn copy_leaf(n: &DomNode) -> (r: DomNode)
    requires
        !(*n is Element),
    ensures
        node_view(r) == node_view(*n),
{
    match n {
        DomNode::Text(t) => DomNode::Text(t.clone()),
        DomNode::Comment(c) => DomNode::Comment(c.clone()),
        DomNode::Doctype { name, public_id, system_id } => DomNode::Doctype {
            name: name.clone(),
            public_id: public_id.clone(),
            system_id: system_id.clone(),
        },
        DomNode::Instruction { target, contents } => DomNode::Instruction {
            target: target.clone(),
            contents: contents.clone(),
        },
        DomNode::Element { .. } => DomNode::Text(String::new()),
    }
}

/// Renders one node: see `rendered_node`.
fn render_node_exec(
    n: &DomNode,
    ids: &mut Vec<String>,
    storage: &mut Vec<(String, String)>,
    bib: &Vec<(String, String)>,
    as_footnote: bool,
) -> (r: Vec<DomNode>)
    ensures
        ({
            let res = rendered_node(node_view(*n), state_of(old(ids)@, old(storage)@), pairs_view(bib@), as_footnote);
            &&& nodes_view(r@) == res.0
            &&& state_of(final(ids)@, final(storage)@) == res.1
        }),
    decreases n,
{
    match n {
        DomNode::Element { ns, prefix, local, attrs, children } => {
            let ghost st = state_of(ids@, storage@);
            let rep = replacement_exec(local.as_str(), attrs, bib, as_footnote);
            let ghost grep = replacement_view(rep);
            match rep {
                ReplacementExec::Footnote(c) => {
                    let id = take_id(ids);
                    assert(state_of(ids@, storage@) == state_after(grep, st));
                    let _kids = render_nodes_exec(children, ids, storage, bib, as_footnote);
                    footnote_exec(&id, &c)
                },
                ReplacementExec::Endnote(c) => {
                    let id = take_id(ids);
                    let ghost gid = id@;
                    push_endnote(storage, id.clone(), c);
                    let number = storage.len();
                    assert(state_of(ids@, storage@) == state_after(grep, st));
                    let _kids = render_nodes_exec(children, ids, storage, bib, as_footnote);
                    endnote_exec(&id, number)
                },
                ReplacementExec::Custom(classes, style) => {
                    let kids = render_nodes_exec(children, ids, storage, bib, as_footnote);
                    custom_exec(classes, style, kids)
                },
                ReplacementExec::Keep => {
                    let kids = render_nodes_exec(children, ids, storage, bib, as_footnote);
                    let copy = DomNode::Element {
                        ns: ns.clone(),
                        prefix: copy_opt(prefix),
                        local: local.clone(),
                        attrs: copy_attrs(attrs),
                        children: kids,
                    };
                    let ghost gc = node_view(copy);
                    let mut r: Vec<DomNode> = Vec::new();
                    proof { lemma_nodes_push(r@, copy); }
                    r.push(copy);
                    assert(nodes_view(r@) =~= seq![gc]);
                    r
                },
            }
        },
        _ => {
            let c = copy_leaf(n);
            let mut r: Vec<DomNode> = Vec::new();
            proof { lemma_nodes_push(r@, c); }
            r.push(c);
            assert(nodes_view(r@) =~= seq![node_view(*n)]);
            r
        },
    }
}

/// Renders nodes in order: see `rendered_nodes`.
fn render_nodes_exec(
    nodes: &Vec<DomNode>,
    ids: &mut Vec<String>,
    storage: &mut Vec<(String, String)>,
    bib: &Vec<(String, String)>,
    as_footnote: bool,
) -> (r: Vec<DomNode>)
    ensures
        ({
            let res = rendered_nodes(nodes_view(nodes@), state_of(old(ids)@, old(storage)@), pairs_view(bib@), as_footnote);
            &&& nodes_view(r@) == res.0
            &&& state_of(final(ids)@, final(storage)@) == res.1
        }),
    decreases nodes@,
{
    let ghost st0 = state_of(ids@, storage@);
    let mut r: Vec<DomNode> = Vec::new();
    let mut i: usize = 0;
    while i < nodes.len()
        invariant
            i <= nodes.len(),
            ({
                let res = rendered_nodes(nodes_view(nodes@.take(i as int)), st0, pairs_view(bib@), as_footnote);
                &&& nodes_view(r@) == res.0
                &&& state_of(ids@, storage@) == res.1
            }),
        decreases nodes.len() - i,
    {
        assert(nodes@.take(i + 1).drop_last() =~= nodes@.take(i as int));
        assert(nodes_view(nodes@.take(i + 1)).drop_last() =~= nodes_view(nodes@.take(i as int)));
        assert(nodes_view(nodes@.take(i + 1)).last() == node_view(nodes@[i as int]));
        assert(decreases_to!(nodes@ => nodes@[i as int]));
        let mut out = render_node_exec(&nodes[i], ids, storage, bib, as_footnote);
        proof { lemma_nodes_append(r@, out@); }
        r.append(&mut out);
        i = i + 1;
    }
    assert(nodes@.take(i as int) =~= nodes@);
    r
}

/// `n`, or the largest `usize` where `n` is larger.
pub open spec fn capped(n: nat) -> nat {
    if n <= usize::MAX {
        n
    } else {
        usize::MAX as nat
    }
}

fn is_note_exec(local: &str, attrs: &Vec<DomAttr>) -> (r: usize)
    ensures
        r as nat == (match replacement_of(local@, attrs_view(attrs@), Seq::empty(), false) {
            Replacement::Footnote(_) => 1nat,
            Replacement::Endnote(_) => 1nat,
            _ => 0nat,
        }),
{
    let none: Vec<(String, String)> = Vec::new();
    assert(pairs_view(none@) =~= Seq::<(Seq<char>, Seq<char>)>::empty());
    match replacement_exec(local, attrs, &none, false) {
        ReplacementExec::Footnote(_) => 1,
        ReplacementExec::Endnote(_) => 1,
        _ => 0,
    }
}

/// Counts the identifiers that rendering takes (capped at the largest
/// `usize`).
fn count_notes_node(n: &DomNode) -> (r: usize)
    ensures
        r as nat == capped(notes_in_node(node_view(*n))),
    decreases n,
{
    match n {
        DomNode::Element { local, attrs, children, .. } => {
            let own = is_note_exec(local.as_str(), attrs);
            let inner = count_notes_nodes(children);
            own.saturating_add(inner)
        },
        _ => 0,
    }
}

fn count_notes_nodes(nodes: &Vec<DomNode>) -> (r: usize)
    ensures
        r as nat == capped(notes_in_nodes(nodes_view(nodes@))),
    decreases nodes@,
{
    let mut r: usize = 0;
    let mut i: usize = 0;
    while i < nodes.len()
        invariant
            i <= nodes.len(),
            r as nat == capped(notes_in_nodes(nodes_view(nodes@.take(i as int)))),
        decreases nodes.len() - i,
    {
        assert(nodes@.take(i + 1).drop_last() =~= nodes@.take(i as int));
        assert(nodes_view(nodes@.take(i + 1)).drop_last() =~= nodes_view(nodes@.take(i as int)));
        assert(nodes_view(nodes@.take(i + 1)).last() == node_view(nodes@[i as int]));
        assert(decreases_to!(nodes@ => nodes@[i as int]));
        let c = count_notes_node(&nodes[i]);
        r = r.saturating_add(c);
        i = i + 1;
    }
    assert(nodes@.take(i as int) =~= nodes@);
    r
}

/// The serialized document without the wrapper that the parser adds
/// around a fragment of a body.
pub open spec fn strip_body(s: Seq<char>) -> Seq<char> {
    replace_spec(replace_spec(s, "<html><head></head><body>"@, ""@), "</body></html>"@, ""@)
}

/// What rendering a text gives with these identifiers: the endnotes stored
/// after those there were, and the text written back (hyphenated where
/// asked).
pub open spec fn render_outcome(
    text: Seq<char>,
    ids: Seq<Seq<char>>,
    before: Seq<(Seq<char>, Seq<char>)>,
    after: Seq<(Seq<char>, Seq<char>)>,
    bib: Seq<(Seq<char>, Seq<char>)>,
    add_soft_hyphens: bool,
    citations_as_footnote: bool,
    r: Seq<char>,
) -> bool {
    let res = rendered_nodes(
        parsed_document(text),
        NoteState { ids, storage: before },
        bib,
        citations_as_footnote,
    );
    let html = strip_body(serialized(res.0));
    &&& after == res.1.storage
    &&& if add_soft_hyphens {
        soft_hyphenated(html, r)
    } else {
        r == html
    }
}

/// `r` is what rendering `text` gives, the endnotes stored going from
/// `before` to `after`, for some fresh identifiers, one for each note.
pub open spec fn text_rendered(
    text: Seq<char>,
    before: Seq<(Seq<char>, Seq<char>)>,
    after: Seq<(Seq<char>, Seq<char>)>,
    bib: Seq<(Seq<char>, Seq<char>)>,
    add_soft_hyphens: bool,
    citations_as_footnote: bool,
    r: Seq<char>,
) -> bool {
    exists|ids: Seq<Seq<char>>|
        ids.len() == capped(notes_in_nodes(parsed_document(text))) && #[trigger] render_outcome(
            text,
            ids,
            before,
            after,
            bib,
            add_soft_hyphens,
            citations_as_footnote,
            r,
        )
}

/// Renders the rich text of a block for export: the text is parsed as an
/// HTML document; footnote spans become a note span and a call, endnote
/// spans an endnote call numbered in the order of `endnote_storage`, where
/// the note is stored; citations become footnotes or endnotes with their
/// rendered citation between the element's prefix and suffix; custom styles
/// become spans with their classes and inline style. The document is
/// written back without its wrapper and hyphenated where asked. Each note
/// takes a fresh random identifier.
pub fn render_text(
    text: &str,
    endnote_storage: &mut Vec<(String, String)>,
    dict: &HyphenationDictionary,
    citation_bib: &Vec<(String, String)>,
    add_soft_hyphens: bool,
    citations_as_footnote: bool,
) -> (r: String)
    ensures
        text_rendered(
            text@,
            pairs_view(old(endnote_storage)@),
            pairs_view(final(endnote_storage)@),
            pairs_view(citation_bib@),
            add_soft_hyphens,
            citations_as_footnote,
            r@,
        ),
{
    let nodes = parse_document_nodes(text);
    let count = count_notes_nodes(&nodes);
    let mut ids: Vec<String> = Vec::new();
    let mut k: usize = 0;
    while k < count
        invariant
            k <= count,
            ids.len() == k,
        decreases count - k,
    {
        ids.push(uuid_text(&new_uuid()));
        k = k + 1;
    }
    let ghost gids = texts_view(ids@);
    let ghost before = pairs_view(endnote_storage@);
    let out = render_nodes_exec(&nodes, &mut ids, endnote_storage, citation_bib, citations_as_footnote);
    let html = serialize_nodes(&out);
    proof {
        reveal_strlit("<html><head></head><body>");
        reveal_strlit("</body></html>");
    }
    let a = replace_all(html.as_str(), "<html><head></head><body>", "");
    let b = replace_all(a.as_str(), "</body></html>", "");
    let r = if add_soft_hyphens {
        hyphenate_text(b, dict)
    } else {
        b
    };
    assert(render_outcome(
        text@,
        gids,
        before,
        pairs_view(endnote_storage@),
        pairs_view(citation_bib@),
        add_soft_hyphens,
        citations_as_footnote,
        r@,
    ));
    r
}

/// Each text rendered in turn: `outs[i]` is what rendering `texts[i]` gives,
/// the endnotes going from `states[i]` to `states[i + 1]`.
pub open spec fn texts_rendered(
    texts: Seq<Seq<char>>,
    outs: Seq<Seq<char>>,
    states: Seq<Seq<(Seq<char>, Seq<char>)>>,
    bib: Seq<(Seq<char>, Seq<char>)>,
    add_soft_hyphens: bool,
    citations_as_footnote: bool,
) -> bool {
    &&& outs.len() == texts.len()
    &&& states.len() == texts.len() + 1
    &&& forall|i: int|
        0 <= i < texts.len() ==> #[trigger] text_rendered(
            texts[i],
            states[i],
            states[i + 1],
            bib,
            add_soft_hyphens,
            citations_as_footnote,
            outs[i],
        )
}

/// Renders texts in turn, the endnotes of each stored after those of the
/// ones before.
pub fn render_texts(
    texts: &Vec<String>,
    endnote_storage: &mut Vec<(String, String)>,
    dict: &HyphenationDictionary,
    citation_bib: &Vec<(String, String)>,
    add_soft_hyphens: bool,
    citations_as_footnote: bool,
) -> (r: Vec<String>)
    ensures
        exists|states: Seq<Seq<(Seq<char>, Seq<char>)>>|
            #[trigger] texts_rendered(
                texts_view(texts@),
                texts_view(r@),
                states,
                pairs_view(citation_bib@),
                add_soft_hyphens,
                citations_as_footnote,
            ) && states[0] == pairs_view(old(endnote_storage)@) && states.last() == pairs_view(
                final(endnote_storage)@,
            ),
{
    let ghost tv = texts_view(texts@);
    let ghost bv = pairs_view(citation_bib@);
    let ghost mut states: Seq<Seq<(Seq<char>, Seq<char>)>> = seq![pairs_view(endnote_storage@)];
    let mut r: Vec<String> = Vec::new();
    let mut i: usize = 0;
    while i < texts.len()
        invariant
            i <= texts.len(),
            tv == texts_view(texts@),
            bv == pairs_view(citation_bib@),
            states.len() == i + 1,
            states[0] == pairs_view(old(endnote_storage)@),
            states.last() == pairs_view(endnote_storage@),
            texts_rendered(tv.take(i as int), texts_view(r@), states, bv, add_soft_hyphens, citations_as_footnote),
        decreases texts.len() - i,
    {
        let ghost prev_states = states;
        let ghost prev_r = texts_view(r@);
        let out = render_text(texts[i].as_str(), endnote_storage, dict, citation_bib, add_soft_hyphens, citations_as_footnote);
        proof {
            states = states.push(pairs_view(endnote_storage@));
        }
        r.push(out);
        assert(texts_view(r@) =~= prev_r.push(texts_view(r@)[i as int]));
        assert forall|k: int| 0 <= k < i + 1 implies #[trigger] text_rendered(
            tv.take(i + 1)[k],
            states[k],
            states[k + 1],
            bv,
            add_soft_hyphens,
            citations_as_footnote,
            texts_view(r@)[k],
        ) by {
            if k < i {
                assert(tv.take(i + 1)[k] == tv.take(i as int)[k]);
                assert(texts_view(r@)[k] == prev_r[k]);
                assert(states[k] == prev_states[k] && states[k + 1] == prev_states[k + 1]);
            } else {
                assert(tv.take(i + 1)[k] == texts@[i as int]@);
            }
        }
        i = i + 1;
    }
    assert(tv.take(i as int) =~= tv);
    r
}

} // verus!
