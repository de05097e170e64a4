//! The bibliography as a tree: folders and entries under their parents, each
//! level with its folders first and then the entries, both alphabetically by
//! name without regard to case.
use vstd::prelude::*;
use crate::biblio::{MyFormatString, MyPerson};
use crate::html::{lowercase, to_lower};
use crate::content::owned;
use crate::text::{chars_of, strings_view};

verus! {

// ---------------------------------------------------------------------------
// Records
// ---------------------------------------------------------------------------

/// What the tree shows of a bibliography entry.
pub struct BibEntrySummary {
    /// The entry's key.
    pub key: u128,
    /// The key as text, in its hyphenated form.
    pub key_text: String,
    /// The name of the entry's type.
    pub entry_type: String,
    pub title: Option<MyFormatString>,
    pub authors: Vec<MyPerson>,
    pub editors: Vec<MyPerson>,
    /// The folders that hold the entry; the first one places it in the tree.
    pub parents: Vec<u128>,
}

/// A folder of the bibliography.
pub struct BibFolder {
    pub name: String,
    pub parent: Option<u128>,
}

/// An entry or a folder of the bibliography.
pub enum BibEntryOrFolder {
    BibEntry(BibEntrySummary),
    BibFolder(BibFolder),
}

/// A record of the bibliography: its id and what it holds.
pub struct BibRecord {
    pub id: u128,
    pub record: BibEntryOrFolder,
}

/// A node of the tree without its children.
pub struct ShortBibEntryOrFolder {
    pub id: u128,
    pub is_folder: bool,
    pub bib_entry_type: Option<String>,
    pub name: String,
}

/// A node of the tree.
pub struct BibTreeEntry {
    pub short: ShortBibEntryOrFolder,
    pub children: Vec<BibTreeEntry>,
}

/// What the tree reads of a record.
pub struct RecordView {
    pub id: u128,
    pub is_folder: bool,
    pub entry_type: Option<Seq<char>>,
    pub name: Seq<char>,
    pub parent: Option<u128>,
}

/// A node of the tree, as plain values.
pub struct BibTreeView {
    pub id: u128,
    pub is_folder: bool,
    pub bib_entry_type: Option<Seq<char>>,
    pub name: Seq<char>,
    pub children: Seq<BibTreeView>,
}

/// A record as the tree reads it: an entry is named by its title, or by its
/// key where it has none, and placed under its first folder.
pub open spec fn record_view(r: BibRecord) -> RecordView {
    match r.record {
        BibEntryOrFolder::BibEntry(e) => RecordView {
            id: r.id,
            is_folder: false,
            entry_type: Some(e.entry_type@),
            name: match e.title {
                Some(t) => t.value@,
                None => e.key_text@,
            },
            parent: if e.parents@.len() > 0 {
                Some(e.parents@[0])
            } else {
                None
            },
        },
        BibEntryOrFolder::BibFolder(f) => RecordView {
            id: r.id,
            is_folder: true,
            entry_type: None,
            name: f.name@,
            parent: f.parent,
        },
    }
}

pub open spec fn records_view(s: Seq<BibRecord>) -> Seq<RecordView> {
    s.map_values(|r: BibRecord| record_view(r))
}

pub open spec fn opt_text(o: Option<String>) -> Option<Seq<char>> {
    match o {
        Some(s) => Some(s@),
        None => None,
    }
}

pub open spec fn tree_view(e: BibTreeEntry) -> BibTreeView
    decreases e,
{
    BibTreeView {
        id: e.short.id,
        is_folder: e.short.is_folder,
        bib_entry_type: opt_text(e.short.bib_entry_type),
        name: e.short.name@,
        children: trees_view(e.children@),
    }
}

pub open spec fn trees_view(s: Seq<BibTreeEntry>) -> Seq<BibTreeView>
    decreases s,
{
    if s.len() == 0 {
        Seq::empty()
    } else {
        trees_view(s.drop_last()).push(tree_view(s.last()))
    }
}

// ---------------------------------------------------------------------------
// Parent references
// ---------------------------------------------------------------------------

pub open spec fn other_than(removed: u128) -> spec_fn(u128) -> bool {
    |p: u128| p != removed
}

/// The parents of an entry once a removed record is swept from them:
/// `None` where the entry does not name it (nothing to update), otherwise
/// the other parents in order.
pub fn swept_parents(parents: &Vec<u128>, removed: u128) -> (r: Option<Vec<u128>>)
    ensures
        r is Some <==> parents@.contains(removed),
        r matches Some(v) ==> v@ == parents@.filter(other_than(removed)),
{
    let mut kept: Vec<u128> = Vec::new();
    let mut found = false;
    let mut i: usize = 0;
    while i < parents.len()
        invariant
            i <= parents.len(),
            kept@ == parents@.take(i as int).filter(other_than(removed)),
            found <==> parents@.take(i as int).contains(removed),
        decreases parents.len() - i,
    {
        let p = parents[i];
        assert(parents@.take(i + 1) =~= parents@.take(i as int).push(p));
        proof {
            parents@.take(i as int).lemma_filter_push(p, other_than(removed));
        }
        if p == removed {
            found = true;
            assert(parents@.take(i + 1)[i as int] == removed);
        } else {
            kept.push(p);
            proof {
                let prev = parents@.take(i as int);
                if prev.contains(removed) {
                    let w = choose|w: int| 0 <= w < prev.len() && prev[w] == removed;
                    assert(parents@.take(i + 1)[w] == removed);
                }
                let next = parents@.take(i + 1);
                if next.contains(removed) {
                    let w = choose|w: int| 0 <= w < next.len() && next[w] == removed;
                    assert(parents@.take(i as int)[w] == removed);
                }
            }
        }
        i = i + 1;
    }
    assert(parents@.take(i as int) =~= parents@);
    if found {
        Some(kept)
    } else {
        None
    }
}

/// The folder that holds an entry: the first of its parents that is a
/// folder of the project; `is_folder[i]` tells whether parent `i` is one.
pub fn folder_parent(parents: &Vec<u128>, is_folder: &Vec<bool>) -> (r: Option<u128>)
    ensures
        match r {
            Some(p) => exists|i: int|
                0 <= i < parents.len() && i < is_folder.len() && is_folder@[i] && parents@[i] == p
                    && forall|j: int| 0 <= j < i ==> !(j < is_folder.len() && #[trigger] is_folder@[j]),
            None => forall|i: int| 0 <= i < parents.len() && i < is_folder.len() ==> !#[trigger] is_folder@[i],
        },
{
    let mut i: usize = 0;
    while i < parents.len()
        invariant
            i <= parents.len(),
            forall|j: int| 0 <= j < i ==> !(j < is_folder.len() && #[trigger] is_folder@[j]),
        decreases parents.len() - i,
    {
        if i < is_folder.len() && is_folder[i] {
            return Some(parents[i]);
        }
        i = i + 1;
    }
    None
}

// ---------------------------------------------------------------------------
// Order
// ---------------------------------------------------------------------------

/// `a` comes before `b` in the lexicographic order of their characters.
pub open spec fn text_lt(a: Seq<char>, b: Seq<char>) -> bool
    decreases a.len(),
{
    if b.len() == 0 {
        false
    } else if a.len() == 0 {
        true
    } else if a[0] != b[0] {
        (a[0] as u32) < (b[0] as u32)
    } else {
        text_lt(a.drop_first(), b.drop_first())
    }
}

/// Folders sort before entries.
pub open spec fn group_of(v: RecordView) -> int {
    if v.is_folder {
        0
    } else {
        1
    }
}

/// `a` sorts strictly after `b`: it is an entry and `b` a folder, or they are
/// of one kind and `a`'s name in lower case comes after `b`'s.
pub open spec fn sorts_after(a: RecordView, b: RecordView) -> bool {
    group_of(a) > group_of(b) || (group_of(a) == group_of(b) && text_lt(
        lowercase(b.name),
        lowercase(a.name),
    ))
}

/// The positions, among the first `n` records, of those under `parent`, in
/// record order.
pub open spec fn child_indices(parent: Option<u128>, recs: Seq<RecordView>, n: int) -> Seq<int>
    decreases n,
{
    if n <= 0 || n > recs.len() {
        Seq::empty()
    } else {
        child_indices(parent, recs, n - 1) + if recs[n - 1].parent == parent {
            seq![n - 1]
        } else {
            Seq::empty()
        }
    }
}

/// `order` with `i` placed before the first position whose record sorts after
/// record `i`.
pub open spec fn insert_sorted(order: Seq<int>, i: int, recs: Seq<RecordView>) -> Seq<int>
    decreases order.len(),
{
    if order.len() == 0 {
        seq![i]
    } else if sorts_after(recs[order[0]], recs[i]) {
        seq![i] + order
    } else {
        seq![order[0]] + insert_sorted(order.drop_first(), i, recs)
    }
}

/// `order` sorted by the records' keys; positions whose records have equal
/// keys keep their order.
pub open spec fn sort_indices(order: Seq<int>, recs: Seq<RecordView>) -> Seq<int>
    decreases order.len(),
{
    if order.len() == 0 {
        Seq::empty()
    } else {
        insert_sorted(sort_indices(order.drop_last(), recs), order.last(), recs)
    }
}

// ---------------------------------------------------------------------------
// Tree
// ---------------------------------------------------------------------------

/// The node of record `i`, with the records under it.
pub open spec fn bib_node(i: int, recs: Seq<RecordView>) -> BibTreeView
    decreases recs.len(), 0int, 0int,
{
    if 0 <= i < recs.len() {
        let v = recs[i];
        BibTreeView {
            id: v.id,
            is_folder: v.is_folder,
            bib_entry_type: v.entry_type,
            name: v.name,
            children: bib_level(Some(v.id), recs.remove(i)),
        }
    } else {
        BibTreeView {
            id: 0,
            is_folder: false,
            bib_entry_type: None,
            name: Seq::empty(),
            children: Seq::empty(),
        }
    }
}

/// The nodes of the records at the positions of `order`.
pub open spec fn bib_nodes(order: Seq<int>, recs: Seq<RecordView>) -> Seq<BibTreeView>
    decreases recs.len(), 1int, order.len(),
{
    if order.len() == 0 {
        Seq::empty()
    } else {
        bib_nodes(order.drop_last(), recs).push(bib_node(order.last(), recs))
    }
}

/// The nodes under `parent` (`None` for the top level), sorted. A record is
/// not looked for under itself, so a cycle of parent links ends the descent.
pub open spec fn bib_level(parent: Option<u128>, recs: Seq<RecordView>) -> Seq<BibTreeView>
    decreases recs.len(), 2int, 0int,
{
    bib_nodes(sort_indices(child_indices(parent, recs, recs.len() as int), recs), recs)
}

// ---------------------------------------------------------------------------
// Laws of the order
// ---------------------------------------------------------------------------

proof fn lemma_text_lt_asymmetric(a: Seq<char>, b: Seq<char>)
    ensures
        text_lt(a, b) ==> !text_lt(b, a),
    decreases a.len(),
{
    if a.len() > 0 && b.len() > 0 && a[0] == b[0] {
        lemma_text_lt_asymmetric(a.drop_first(), b.drop_first());
    }
}

proof fn lemma_text_lt_transitive(a: Seq<char>, b: Seq<char>, c: Seq<char>)
    requires
        text_lt(a, b),
        text_lt(b, c),
    ensures
        text_lt(a, c),
    decreases a.len(),
{
    if a.len() > 0 && a[0] == b[0] && b[0] == c[0] {
        lemma_text_lt_transitive(a.drop_first(), b.drop_first(), c.drop_first());
    }
}

proof fn lemma_sorts_after_transitive(a: RecordView, b: RecordView, c: RecordView)
    requires
        sorts_after(a, b),
        sorts_after(b, c),
    ensures
        sorts_after(a, c),
{
    if group_of(a) == group_of(b) && group_of(b) == group_of(c) {
        lemma_text_lt_transitive(lowercase(c.name), lowercase(b.name), lowercase(a.name));
    }
}

proof fn lemma_sorts_after_asymmetric(a: RecordView, b: RecordView)
    ensures
        sorts_after(a, b) ==> !sorts_after(b, a),
{
    lemma_text_lt_asymmetric(lowercase(b.name), lowercase(a.name));
}

/// No position of `order` is followed by one whose record it sorts after.
pub open spec fn index_sorted(order: Seq<int>, recs: Seq<RecordView>) -> bool {
    forall|a: int, b: int|
        0 <= a < b < order.len() ==> !sorts_after(#[trigger] recs[order[a]], #[trigger] recs[order[b]])
}

proof fn lemma_insert_sorted_keeps_order(order: Seq<int>, i: int, recs: Seq<RecordView>)
    requires
        index_sorted(order, recs),
    ensures
        index_sorted(insert_sorted(order, i, recs), recs),
        insert_sorted(order, i, recs).to_multiset() =~= order.to_multiset().insert(i),
    decreases order.len(),
{
    broadcast use vstd::seq_lib::group_to_multiset_ensures;

    let r = insert_sorted(order, i, recs);
    if order.len() == 0 {
        assert(seq![i] =~= Seq::<int>::empty().push(i));
    } else if sorts_after(recs[order[0]], recs[i]) {
        assert forall|a: int, b: int| 0 <= a < b < r.len() implies !sorts_after(
            #[trigger] recs[r[a]],
            #[trigger] recs[r[b]],
        ) by {
            if a == 0 {
                assert(r[b] == order[b - 1]);
                if b - 1 > 0 {
                    assert(!sorts_after(recs[order[0]], recs[order[b - 1]]));
                }
                if sorts_after(recs[i], recs[order[b - 1]]) {
                    if b - 1 == 0 {
                        lemma_sorts_after_asymmetric(recs[order[0]], recs[i]);
                    } else {
                        lemma_sorts_after_transitive(recs[order[0]], recs[i], recs[order[b - 1]]);
                    }
                }
            } else {
                assert(r[a] == order[a - 1] && r[b] == order[b - 1]);
            }
        }
        vstd::seq_lib::lemma_multiset_commutative(seq![i], order);
        assert(seq![i] =~= Seq::<int>::empty().push(i));
    } else {
        let rest = order.drop_first();
        assert(index_sorted(rest, recs)) by {
            assert forall|a: int, b: int| 0 <= a < b < rest.len() implies !sorts_after(
                #[trigger] recs[rest[a]],
                #[trigger] recs[rest[b]],
            ) by {
                assert(rest[a] == order[a + 1] && rest[b] == order[b + 1]);
            }
        }
        lemma_insert_sorted_keeps_order(rest, i, recs);
        let tail = insert_sorted(rest, i, recs);
        assert(r == seq![order[0]] + tail);
        assert forall|a: int, b: int| 0 <= a < b < r.len() implies !sorts_after(
            #[trigger] recs[r[a]],
            #[trigger] recs[r[b]],
        ) by {
            if a == 0 {
                assert(r[b] == tail[b - 1]);
                assert(tail.to_multiset().count(tail[b - 1]) > 0);
                assert(tail.to_multiset().count(tail[b - 1]) == rest.to_multiset().insert(i).count(
                    tail[b - 1],
                ));
                if tail[b - 1] != i {
                    assert(rest.to_multiset().count(tail[b - 1]) > 0);
                    assert(rest.contains(tail[b - 1]));
                    let m = choose|m: int| 0 <= m < rest.len() && rest[m] == tail[b - 1];
                    assert(order[m + 1] == rest[m]);
                    assert(!sorts_after(recs[order[0]], recs[order[m + 1]]));
                }
            } else {
                assert(r[a] == tail[a - 1] && r[b] == tail[b - 1]);
            }
        }
        vstd::seq_lib::lemma_multiset_commutative(seq![order[0]], tail);
        vstd::seq_lib::lemma_multiset_commutative(seq![order[0]], rest);
        assert(seq![order[0]] + rest =~= order);
        assert(seq![order[0]] =~= Seq::<int>::empty().push(order[0]));
    }
}

proof fn lemma_sort_indices(order: Seq<int>, recs: Seq<RecordView>)
    ensures
        index_sorted(sort_indices(order, recs), recs),
        sort_indices(order, recs).to_multiset() =~= order.to_multiset(),
    decreases order.len(),
{
    broadcast use vstd::seq_lib::group_to_multiset_ensures;

    if order.len() == 0 {
    } else {
        lemma_sort_indices(order.drop_last(), recs);
        lemma_insert_sorted_keeps_order(sort_indices(order.drop_last(), recs), order.last(), recs);
        assert(order.drop_last().push(order.last()) =~= order);
    }
}

/// `a` sorts strictly after `b`, read on the nodes of the tree.
pub open spec fn node_after(a: BibTreeView, b: BibTreeView) -> bool {
    let ga: int = if a.is_folder { 0 } else { 1 };
    let gb: int = if b.is_folder { 0 } else { 1 };
    ga > gb || (ga == gb && text_lt(lowercase(b.name), lowercase(a.name)))
}

proof fn lemma_child_indices_bounds(parent: Option<u128>, recs: Seq<RecordView>, n: int)
    requires
        0 <= n <= recs.len(),
    ensures
        forall|m: int|
            0 <= m < child_indices(parent, recs, n).len() ==> 0 <= #[trigger] child_indices(
                parent,
                recs,
                n,
            )[m] < n,
        forall|m: int|
            0 <= m < child_indices(parent, recs, n).len() ==> recs[#[trigger] child_indices(
                parent,
                recs,
                n,
            )[m]].parent == parent,
    decreases n,
{
    if n > 0 {
        lemma_child_indices_bounds(parent, recs, n - 1);
    }
}

proof fn lemma_bib_nodes_index(order: Seq<int>, recs: Seq<RecordView>)
    ensures
        bib_nodes(order, recs).len() == order.len(),
        forall|a: int|
            0 <= a < order.len() ==> #[trigger] bib_nodes(order, recs)[a] == bib_node(
                order[a],
                recs,
            ),
    decreases order.len(),
{
    if order.len() > 0 {
        lemma_bib_nodes_index(order.drop_last(), recs);
    }
}

/// Each level of the bibliography tree holds the records under its parent,
/// each once, and is sorted: no node is followed by one that sorts before it,
/// so folders come first and then entries, each group in the order of its
/// names in lower case.
pub proof fn lemma_level_sorted(parent: Option<u128>, recs: Seq<RecordView>)
    ensures
        ({
            let c = child_indices(parent, recs, recs.len() as int);
            let o = sort_indices(c, recs);
            let level = bib_level(parent, recs);
            &&& level.len() == c.len()
            &&& o.to_multiset() =~= c.to_multiset()
            &&& forall|a: int|
                0 <= a < level.len() ==> 0 <= o[a] < recs.len() && #[trigger] level[a] == bib_node(
                    o[a],
                    recs,
                ) && recs[o[a]].parent == parent
            &&& forall|a: int, b: int|
                0 <= a < b < level.len() ==> !node_after(#[trigger] level[a], #[trigger] level[b])
        }),
{
    broadcast use vstd::seq_lib::group_to_multiset_ensures;

    let c = child_indices(parent, recs, recs.len() as int);
    let o = sort_indices(c, recs);
    let level = bib_level(parent, recs);
    lemma_sort_indices(c, recs);
    lemma_bib_nodes_index(o, recs);
    lemma_child_indices_bounds(parent, recs, recs.len() as int);
    assert forall|a: int| 0 <= a < o.len() implies 0 <= o[a] < recs.len() && recs[o[a]].parent
        == parent by {
        assert(o.to_multiset().count(o[a]) > 0);
        assert(c.to_multiset().count(o[a]) > 0);
        assert(c.contains(o[a]));
        let m = choose|m: int| 0 <= m < c.len() && c[m] == o[a];
        assert(0 <= c[m] < recs.len());
        assert(recs[c[m]].parent == parent);
    }
    assert(level.len() == c.len()) by {
        assert(o.len() == o.to_multiset().len());
        assert(c.len() == c.to_multiset().len());
    }
    assert forall|a: int| 0 <= a < level.len() implies 0 <= o[a] < recs.len() && #[trigger] level[a]
        == bib_node(o[a], recs) && recs[o[a]].parent == parent by {
        assert(0 <= o[a] < recs.len() && recs[o[a]].parent == parent);
    }
    assert forall|a: int, b: int| 0 <= a < b < level.len() implies !node_after(
        #[trigger] level[a],
        #[trigger] level[b],
    ) by {
        assert(!sorts_after(recs[o[a]], recs[o[b]]));
        assert(level[a] == bib_node(o[a], recs));
        assert(level[b] == bib_node(o[b], recs));
    }
}


// ---------------------------------------------------------------------------
// Building the tree
// ---------------------------------------------------------------------------

/// The key by which a record sorts.
struct SortKey {
    group: u8,
    name: Vec<char>,
}

fn record_name(r: &BibRecord) -> (s: &str)
    ensures
        s@ == record_view(*r).name,
{
    match &r.record {
        BibEntryOrFolder::BibEntry(e) => match &e.title {
            Some(t) => t.value.as_str(),
            None => e.key_text.as_str(),
        },
        BibEntryOrFolder::BibFolder(f) => f.name.as_str(),
    }
}

fn record_parent(r: &BibRecord) -> (p: Option<u128>)
    ensures
        p == record_view(*r).parent,
{
    match &r.record {
        BibEntryOrFolder::BibEntry(e) => if e.parents.len() > 0 {
            Some(e.parents[0])
        } else {
            None
        },
        BibEntryOrFolder::BibFolder(f) => f.parent,
    }
}

/// The group of a record (folders first) and its name in lower case.
fn entry_sort_key(r: &BibRecord) -> (k: SortKey)
    ensures
        k.group as int == group_of(record_view(*r)),
        k.name@ == lowercase(record_view(*r).name),
{
    let lower = to_lower(record_name(r));
    let group: u8 = match &r.record {
        BibEntryOrFolder::BibEntry(_) => 1,
        BibEntryOrFolder::BibFolder(_) => 0,
    };
    SortKey { group, name: chars_of(lower.as_str()) }
}

proof fn lemma_text_lt_skip(a: Seq<char>, b: Seq<char>, i: int)
    requires
        0 <= i <= a.len(),
        i <= b.len(),
        forall|k: int| 0 <= k < i ==> a[k] == b[k],
    ensures
        text_lt(a, b) == text_lt(a.skip(i), b.skip(i)),
    decreases i,
{
    if i == 0 {
        assert(a.skip(0) =~= a);
        assert(b.skip(0) =~= b);
    } else {
        assert(a[0] == b[0]);
        lemma_text_lt_skip(a.drop_first(), b.drop_first(), i - 1);
        assert(a.drop_first().skip(i - 1) =~= a.skip(i));
        assert(b.drop_first().skip(i - 1) =~= b.skip(i));
    }
}

fn text_before(a: &Vec<char>, b: &Vec<char>) -> (r: bool)
    ensures
        r == text_lt(a@, b@),
{
    let mut i: usize = 0;
    while i < a.len() && i < b.len()
        invariant
            i <= a.len(),
            i <= b.len(),
            forall|k: int| 0 <= k < i ==> a@[k] == b@[k],
        ensures
            i <= a.len(),
            i <= b.len(),
            forall|k: int| 0 <= k < i ==> a@[k] == b@[k],
            i == a.len() || i == b.len() || a@[i as int] != b@[i as int],
        decreases a.len() - i,
    {
        if a[i] != b[i] {
            break;
        }
        i = i + 1;
    }
    proof {
        lemma_text_lt_skip(a@, b@, i as int);
    }
    if i == b.len() {
        false
    } else if i == a.len() {
        true
    } else {
        (a[i] as u32) < (b[i] as u32)
    }
}

fn key_after(x: &SortKey, y: &SortKey) -> (r: bool)
    ensures
        r == (x.group > y.group || (x.group == y.group && text_lt(y.name@, x.name@))),
{
    if x.group != y.group {
        x.group > y.group
    } else {
        text_before(&y.name, &x.name)
    }
}

spec fn key_is(k: SortKey, r: BibRecord) -> bool {
    &&& k.group as int == group_of(record_view(r))
    &&& k.name@ == lowercase(record_view(r).name)
}

fn record_keys(records: &Vec<BibRecord>) -> (keys: Vec<SortKey>)
    ensures
        keys.len() == records.len(),
        forall|k: int| 0 <= k < keys.len() ==> key_is(#[trigger] keys@[k], records@[k]),
{
    let mut keys: Vec<SortKey> = Vec::new();
    for i in 0..records.len()
        invariant
            keys.len() == i,
            forall|k: int| 0 <= k < i ==> key_is(#[trigger] keys@[k], records@[k]),
    {
        keys.push(entry_sort_key(&records[i]));
    }
    keys
}

/// `v` holds the positions of `s`.
pub open spec fn same_positions(v: Seq<usize>, s: Seq<int>) -> bool {
    v.len() == s.len() && forall|m: int| 0 <= m < s.len() ==> v[m] as int == s[m]
}

proof fn lemma_same_positions(v: Seq<usize>, s: Seq<int>)
    requires
        same_positions(v, s),
    ensures
        positions(v) == s,
{
    assert(positions(v) =~= s);
}

proof fn lemma_insert_at(s: Seq<int>, i: int, recs: Seq<RecordView>, j: int)
    requires
        0 <= j <= s.len(),
        forall|m: int| 0 <= m < j ==> !sorts_after(#[trigger] recs[s[m]], recs[i]),
        j < s.len() ==> sorts_after(recs[s[j]], recs[i]),
    ensures
        insert_sorted(s, i, recs) == s.take(j) + seq![i] + s.skip(j),
    decreases j,
{
    if j == 0 {
        assert(s.take(0) + seq![i] + s.skip(0) =~= seq![i] + s);
        if s.len() == 0 {
            assert(seq![i] + s =~= seq![i]);
        }
    } else {
        let rest = s.drop_first();
        assert(!sorts_after(recs[s[0]], recs[i]));
        assert forall|m: int| 0 <= m < j - 1 implies !sorts_after(#[trigger] recs[rest[m]], recs[i]) by {
            assert(rest[m] == s[m + 1]);
        }
        lemma_insert_at(rest, i, recs, j - 1);
        assert(s.take(j) + seq![i] + s.skip(j) =~= seq![s[0]] + (rest.take(j - 1) + seq![i]
            + rest.skip(j - 1)));
    }
}

/// Inserts position `i` into `order` before the first position whose record
/// sorts after record `i`.
fn insert_by_key(order: &mut Vec<usize>, i: usize, keys: &Vec<SortKey>, records: &Vec<BibRecord>)
    requires
        i < records.len(),
        keys.len() == records.len(),
        forall|k: int| 0 <= k < keys.len() ==> key_is(#[trigger] keys@[k], records@[k]),
        forall|m: int| 0 <= m < old(order).len() ==> old(order)@[m] < i,
    ensures
        same_positions(
            final(order)@,
            insert_sorted(positions(old(order)@), i as int, records_view(records@)),
        ),
        forall|m: int| 0 <= m < final(order).len() ==> final(order)@[m] <= i,
{
    let ghost recs = records_view(records@);
    let ghost s = positions(order@);
    assert(same_positions(order@, s));
    assert(recs[i as int] == record_view(records@[i as int]));
    let mut j: usize = 0;
    while j < order.len()
        invariant
            j <= order.len(),
            i < records.len(),
            keys.len() == records.len(),
            recs == records_view(records@),
            forall|k: int| 0 <= k < keys.len() ==> key_is(#[trigger] keys@[k], records@[k]),
            same_positions(order@, s),
            forall|m: int| 0 <= m < order.len() ==> order@[m] < i,
            forall|m: int| 0 <= m < j ==> !sorts_after(#[trigger] recs[s[m]], recs[i as int]),
        ensures
            j <= order.len(),
            forall|m: int| 0 <= m < j ==> !sorts_after(#[trigger] recs[s[m]], recs[i as int]),
            j < order.len() ==> sorts_after(recs[s[j as int]], recs[i as int]),
        decreases order.len() - j,
    {
        let at = order[j];
        assert(recs[at as int] == record_view(records@[at as int]));
        assert(key_is(keys@[at as int], records@[at as int]));
        assert(key_is(keys@[i as int], records@[i as int]));
        if key_after(&keys[at], &keys[i]) {
            break;
        }
        j = j + 1;
    }
    proof {
        lemma_insert_at(s, i as int, recs, j as int);
    }
    order.insert(j, i);
    assert(s.take(j as int) + seq![i as int] + s.skip(j as int) =~= s.insert(j as int, i as int));
}

/// The positions held in `v`, as integers.
pub open spec fn positions(v: Seq<usize>) -> Seq<int> {
    v.map_values(|x: usize| x as int)
}

/// The positions of the records under `parent`, sorted: folders first, then
/// entries, each group by name in lower case; records with equal keys keep
/// their order.
fn sort_ids_by_folder_then_name(parent: Option<u128>, records: &Vec<BibRecord>) -> (order: Vec<usize>)
    ensures
        same_positions(
            order@,
            sort_indices(
                child_indices(parent, records_view(records@), records.len() as int),
                records_view(records@),
            ),
        ),
        forall|m: int| 0 <= m < order.len() ==> order@[m] < records.len(),
{
    let ghost recs = records_view(records@);
    let keys = record_keys(records);
    let mut order: Vec<usize> = Vec::new();
    let mut i: usize = 0;
    while i < records.len()
        invariant
            i <= records.len(),
            recs == records_view(records@),
            keys.len() == records.len(),
            forall|k: int| 0 <= k < keys.len() ==> key_is(#[trigger] keys@[k], records@[k]),
            same_positions(order@, sort_indices(child_indices(parent, recs, i as int), recs)),
            forall|m: int| 0 <= m < order.len() ==> order@[m] < i,
        decreases records.len() - i,
    {
        let ghost c = child_indices(parent, recs, i as int);
        let ghost s = sort_indices(c, recs);
        proof {
            lemma_same_positions(order@, s);
        }
        if record_parent(&records[i]) == parent {
            insert_by_key(&mut order, i, &keys, records);
            proof {
                assert(child_indices(parent, recs, i + 1) =~= c.push(i as int));
                assert(c.push(i as int).drop_last() =~= c);
            }
        } else {
            assert(child_indices(parent, recs, i + 1) =~= c);
        }
        i = i + 1;
    }
    order
}

fn copy_record(r: &BibRecord) -> (c: BibRecord)
    ensures
        record_view(c) == record_view(*r),
{
    let record = match &r.record {
        BibEntryOrFolder::BibEntry(e) => {
            let title = match &e.title {
                Some(t) => Some(MyFormatString { value: t.value.clone(), short: None }),
                None => None,
            };
            let parents = e.parents.clone();
            assert(parents@ =~= e.parents@);
            BibEntryOrFolder::BibEntry(
                BibEntrySummary {
                    key: e.key,
                    key_text: e.key_text.clone(),
                    entry_type: e.entry_type.clone(),
                    title,
                    authors: e.authors.clone(),
                    editors: e.editors.clone(),
                    parents,
                },
            )
        },
        BibEntryOrFolder::BibFolder(f) => BibEntryOrFolder::BibFolder(
            BibFolder { name: f.name.clone(), parent: f.parent },
        ),
    };
    BibRecord { id: r.id, record }
}

fn without_record(records: &Vec<BibRecord>, k: usize) -> (r: Vec<BibRecord>)
    requires
        k < records.len(),
    ensures
        records_view(r@) == records_view(records@).remove(k as int),
{
    let ghost all = records_view(records@);
    let mut r: Vec<BibRecord> = Vec::new();
    let mut i: usize = 0;
    while i < records.len()
        invariant
            k < records.len(),
            i <= records.len(),
            all == records_view(records@),
            records_view(r@) == (if i <= k {
                all.take(i as int)
            } else {
                all.remove(k as int).take(i - 1)
            }),
        decreases records.len() - i,
    {
        if i != k {
            let c = copy_record(&records[i]);
            let ghost before = r@;
            r.push(c);
            assert(records_view(r@) =~= records_view(before).push(all[i as int]));
            proof {
                if i < k {
                    assert(all.take(i + 1) =~= all.take(i as int).push(all[i as int]));
                } else {
                    assert(all.remove(k as int).take(i as int) =~= all.remove(k as int).take(i - 1).push(
                        all[i as int],
                    ));
                }
            }
        } else {
            assert(all.take(k as int) =~= all.remove(k as int).take(k as int));
        }
        i = i + 1;
    }
    assert(all.remove(k as int).take(records.len() - 1) =~= all.remove(k as int));
    r
}

proof fn lemma_trees_push(s: Seq<BibTreeEntry>, e: BibTreeEntry)
    ensures
        trees_view(s.push(e)) == trees_view(s).push(tree_view(e)),
{
    assert(s.push(e).drop_last() =~= s);
}

/// The node of record `i`, with the records under it.
fn build_tree_node(i: usize, records: &Vec<BibRecord>) -> (e: BibTreeEntry)
    requires
        i < records.len(),
    ensures
        tree_view(e) == bib_node(i as int, records_view(records@)),
    decreases records@.len(), 0int,
{
    let r = &records[i];
    let sub = without_record(records, i);
    let children = build_level(Some(r.id), &sub);
    let bib_entry_type = match &r.record {
        BibEntryOrFolder::BibEntry(e) => Some(e.entry_type.clone()),
        BibEntryOrFolder::BibFolder(_) => None,
    };
    let is_folder = match &r.record {
        BibEntryOrFolder::BibEntry(_) => false,
        BibEntryOrFolder::BibFolder(_) => true,
    };
    let name = record_name(r).to_owned();
    BibTreeEntry { short: ShortBibEntryOrFolder { id: r.id, is_folder, bib_entry_type, name }, children }
}

/// The nodes under `parent`, sorted.
fn build_level(parent: Option<u128>, records: &Vec<BibRecord>) -> (r: Vec<BibTreeEntry>)
    ensures
        trees_view(r@) == bib_level(parent, records_view(records@)),
    decreases records@.len(), 2int,
{
    let ghost recs = records_view(records@);
    let order = sort_ids_by_folder_then_name(parent, records);
    let ghost s = sort_indices(child_indices(parent, recs, records.len() as int), recs);
    let mut r: Vec<BibTreeEntry> = Vec::new();
    let mut k: usize = 0;
    while k < order.len()
        invariant
            k <= order.len(),
            recs == records_view(records@),
            same_positions(order@, s),
            forall|m: int| 0 <= m < order.len() ==> order@[m] < records.len(),
            trees_view(r@) == bib_nodes(s.take(k as int), recs),
        decreases order.len() - k,
    {
        let node = build_tree_node(order[k], records);
        proof {
            lemma_trees_push(r@, node);
            assert(s.take(k + 1).drop_last() =~= s.take(k as int));
        }
        r.push(node);
        k = k + 1;
    }
    assert(s.take(order.len() as int) =~= s);
    r
}

/// The bibliography as a tree: the records without a parent at the top, each
/// with the records under it; at each level folders first, then entries, each
/// group by name in lower case, records with equal keys in record order.
///
/// Where the parent links of the records form no cycle, a record is never met
/// again under itself, so this is the tree that a plain descent builds.
pub fn bibliography_tree(records: &Vec<BibRecord>) -> (tree: Vec<BibTreeEntry>)
    ensures
        trees_view(tree@) == bib_level(None, records_view(records@)),
{
    build_level(None, records)
}

// ---------------------------------------------------------------------------
// Search
// ---------------------------------------------------------------------------

/// `needle` occurs in `h`.
pub open spec fn has_sub(h: Seq<char>, needle: Seq<char>) -> bool {
    exists|i: int| 0 <= i && i + needle.len() <= h.len() && #[trigger] h.subrange(i, i + needle.len()) == needle
}

pub open spec fn opt_texts(o: Option<String>) -> Seq<Seq<char>> {
    match o {
        Some(t) => seq![t@],
        None => Seq::empty(),
    }
}

/// The names of a person that the search looks at.
pub open spec fn person_texts(p: MyPerson) -> Seq<Seq<char>> {
    seq![p.name@] + opt_texts(p.given_name) + opt_texts(p.prefix) + opt_texts(p.suffix) + opt_texts(p.alias)
}

pub open spec fn persons_texts(ps: Seq<MyPerson>) -> Seq<Seq<char>>
    decreases ps.len(),
{
    if ps.len() == 0 {
        Seq::empty()
    } else {
        persons_texts(ps.drop_last()) + person_texts(ps.last())
    }
}

/// The texts of an entry that the search looks at: its key, its title and
/// the names of its authors and editors.
pub open spec fn haystacks(e: BibEntrySummary) -> Seq<Seq<char>> {
    seq![e.key_text@] + match e.title {
        Some(t) => seq![t.value@],
        None => Seq::empty(),
    } + persons_texts(e.authors@) + persons_texts(e.editors@)
}

/// The record is an entry one of whose texts, in lower case, holds the
/// needle.
pub open spec fn record_matches(r: BibRecord, needle: Seq<char>) -> bool {
    match r.record {
        BibEntryOrFolder::BibEntry(e) => exists|k: int|
            0 <= k < haystacks(e).len() && #[trigger] has_sub(lowercase(haystacks(e)[k]), needle),
        BibEntryOrFolder::BibFolder(_) => false,
    }
}

/// The positions, among the first `n` records, of those that match.
pub open spec fn matched_indices(records: Seq<BibRecord>, needle: Seq<char>, n: int) -> Seq<int>
    decreases n,
{
    if n <= 0 || n > records.len() {
        Seq::empty()
    } else {
        matched_indices(records, needle, n - 1) + if record_matches(records[n - 1], needle) {
            seq![n - 1]
        } else {
            Seq::empty()
        }
    }
}

proof fn lemma_matched_indices(records: Seq<BibRecord>, needle: Seq<char>, n: int)
    requires
        0 <= n <= records.len(),
    ensures
        forall|m: int|
            0 <= m < matched_indices(records, needle, n).len() ==> 0 <= #[trigger] matched_indices(
                records,
                needle,
                n,
            )[m] < n && record_matches(records[matched_indices(records, needle, n)[m]], needle),
    decreases n,
{
    if n > 0 {
        lemma_matched_indices(records, needle, n - 1);
        let c = matched_indices(records, needle, n - 1);
        let d = matched_indices(records, needle, n);
        assert forall|m: int| 0 <= m < d.len() implies 0 <= #[trigger] d[m] < n && record_matches(
            records[d[m]],
            needle,
        ) by {
            if m < c.len() {
                assert(d[m] == c[m]);
            } else {
                assert(d[m] == n - 1);
            }
        }
    }
}

/// Each position of the sorted order is one of the positions sorted.
proof fn lemma_sorted_members(c: Seq<int>, recs: Seq<RecordView>)
    ensures
        forall|a: int| 0 <= a < sort_indices(c, recs).len() ==> c.contains(#[trigger] sort_indices(c, recs)[a]),
{
    broadcast use vstd::seq_lib::group_to_multiset_ensures;

    lemma_sort_indices(c, recs);
    let o = sort_indices(c, recs);
    assert forall|a: int| 0 <= a < o.len() implies c.contains(#[trigger] o[a]) by {
        assert(o.to_multiset().count(o[a]) > 0);
        assert(c.to_multiset().count(o[a]) > 0);
    }
}

/// The largest number of search results.
pub const MAX_RESULTS: usize = 5;

/// A search result: the entry's id, its type and its title (its key where
/// it has none).
pub struct BibSearchResult {
    pub id: u128,
    pub entry_type: String,
    pub title: String,
}

/// The results of a search: the matching entries sorted by title in lower
/// case (entries with equal titles in record order), at most
/// `MAX_RESULTS` of them.
pub open spec fn search_order(records: Seq<BibRecord>, needle: Seq<char>) -> Seq<int> {
    let sorted = sort_indices(matched_indices(records, needle, records.len() as int), records_view(records));
    if sorted.len() > MAX_RESULTS {
        sorted.take(MAX_RESULTS as int)
    } else {
        sorted
    }
}

/// The results of a search are at most `MAX_RESULTS` matching entries, no
/// result followed by one whose title sorts before its own.
pub proof fn lemma_search_results(records: Seq<BibRecord>, needle: Seq<char>)
    ensures
        search_order(records, needle).len() <= MAX_RESULTS,
        index_sorted(search_order(records, needle), records_view(records)),
        forall|m: int|
            0 <= m < search_order(records, needle).len() ==> 0 <= #[trigger] search_order(records, needle)[m]
                < records.len() && record_matches(records[search_order(records, needle)[m]], needle),
{
    let c = matched_indices(records, needle, records.len() as int);
    let recs = records_view(records);
    let sorted = sort_indices(c, recs);
    lemma_sort_indices(c, recs);
    lemma_matched_indices(records, needle, records.len() as int);
    lemma_sorted_members(c, recs);
    let o = search_order(records, needle);
    assert forall|m: int| 0 <= m < o.len() implies o[m] == sorted[m] by {
        if sorted.len() > MAX_RESULTS {
            assert(sorted.take(MAX_RESULTS as int)[m] == sorted[m]);
        }
    }
    assert forall|a: int, b: int| 0 <= a < b < o.len() implies !sorts_after(
        #[trigger] recs[o[a]],
        #[trigger] recs[o[b]],
    ) by {
        assert(o[a] == sorted[a] && o[b] == sorted[b]);
        assert(!sorts_after(recs[sorted[a]], recs[sorted[b]]));
    }
    assert forall|m: int| 0 <= m < o.len() implies 0 <= #[trigger] o[m] < records.len() && record_matches(
        records[o[m]],
        needle,
    ) by {
        assert(o[m] == sorted[m]);
        assert(c.contains(sorted[m]));
        let w = choose|w: int| 0 <= w < c.len() && c[w] == sorted[m];
        assert(0 <= c[w] < records.len() && record_matches(records[c[w]], needle));
    }
}

fn has_sub_exec(h: &Vec<char>, needle: &Vec<char>) -> (r: bool)
    ensures
        r == has_sub(h@, needle@),
{
    if needle.len() > h.len() {
        return false;
    }
    let mut i: usize = 0;
    while i <= h.len() - needle.len()
        invariant
            needle.len() <= h.len(),
            i <= h.len() - needle.len() + 1,
            forall|k: int| 0 <= k < i ==> #[trigger] h@.subrange(k, k + needle.len()) != needle@,
        decreases h.len() - i,
    {
        let mut j: usize = 0;
        while j < needle.len() && h[i + j] == needle[j]
            invariant
                i + needle.len() <= h.len(),
                j <= needle.len(),
                forall|k: int| 0 <= k < j ==> h@[i + k] == needle@[k],
            decreases needle.len() - j,
        {
            j = j + 1;
        }
        if j == needle.len() {
            assert(h@.subrange(i as int, i + needle.len()) =~= needle@);
            return true;
        }
        assert(h@.subrange(i as int, i + needle.len())[j as int] != needle@[j as int]);
        i = i + 1;
    }
    proof {
        if has_sub(h@, needle@) {
            let k = choose|k: int|
                0 <= k && k + needle.len() <= h.len() && #[trigger] h@.subrange(k, k + needle.len()) == needle@;
            assert(k < i);
        }
    }
    false
}

fn push_texts_of_opt(out: &mut Vec<String>, o: &Option<String>)
    ensures
        strings_view(final(out)@) == strings_view(old(out)@) + opt_texts(*o),
{
    let ghost before = out@;
    match o {
        Some(t) => {
            out.push(t.clone());
            assert(strings_view(out@) =~= strings_view(before) + opt_texts(*o));
        },
        None => {
            assert(strings_view(out@) =~= strings_view(before) + opt_texts(*o));
        },
    }
}

fn push_person_texts(out: &mut Vec<String>, p: &MyPerson)
    ensures
        strings_view(final(out)@) == strings_view(old(out)@) + person_texts(*p),
{
    let ghost before = strings_view(out@);
    out.push(p.name.clone());
    assert(strings_view(out@) =~= before + seq![p.name@]);
    push_texts_of_opt(out, &p.given_name);
    push_texts_of_opt(out, &p.prefix);
    push_texts_of_opt(out, &p.suffix);
    push_texts_of_opt(out, &p.alias);
    assert(strings_view(out@) =~= before + person_texts(*p));
}

fn push_persons_texts(out: &mut Vec<String>, ps: &Vec<MyPerson>)
    ensures
        strings_view(final(out)@) == strings_view(old(out)@) + persons_texts(ps@),
{
    let ghost before = strings_view(out@);
    let mut i: usize = 0;
    while i < ps.len()
        invariant
            i <= ps.len(),
            strings_view(out@) == before + persons_texts(ps@.take(i as int)),
        decreases ps.len() - i,
    {
        assert(ps@.take(i + 1).drop_last() =~= ps@.take(i as int));
        assert(ps@.take(i + 1).last() == ps@[i as int]);
        push_person_texts(out, &ps[i]);
        assert(strings_view(out@) =~= before + persons_texts(ps@.take(i + 1)));
        i = i + 1;
    }
    assert(ps@.take(i as int) =~= ps@);
}

fn haystacks_exec(e: &BibEntrySummary) -> (r: Vec<String>)
    ensures
        strings_view(r@) == haystacks(*e),
{
    let mut r: Vec<String> = Vec::new();
    r.push(e.key_text.clone());
    assert(strings_view(r@) =~= seq![e.key_text@]);
    match &e.title {
        Some(t) => {
            r.push(t.value.clone());
        },
        None => {},
    }
    assert(strings_view(r@) =~= seq![e.key_text@] + match e.title {
        Some(t) => seq![t.value@],
        None => Seq::<Seq<char>>::empty(),
    });
    push_persons_texts(&mut r, &e.authors);
    push_persons_texts(&mut r, &e.editors);
    assert(strings_view(r@) =~= haystacks(*e));
    r
}

fn record_matches_exec(r: &BibRecord, needle: &Vec<char>) -> (b: bool)
    ensures
        b == record_matches(*r, needle@),
{
    match &r.record {
        BibEntryOrFolder::BibEntry(e) => {
            let hs = haystacks_exec(e);
            let ghost hv = strings_view(hs@);
            let mut found = false;
            let mut k: usize = 0;
            while k < hs.len()
                invariant
                    k <= hs.len(),
                    hv == strings_view(hs@),
                    hv == haystacks(*e),
                    found ==> exists|m: int| 0 <= m < hv.len() && #[trigger] has_sub(lowercase(hv[m]), needle@),
                    !found ==> forall|m: int| 0 <= m < k ==> !#[trigger] has_sub(lowercase(hv[m]), needle@),
                decreases hs.len() - k,
            {
                let lower = to_lower(hs[k].as_str());
                let chars = chars_of(lower.as_str());
                assert(hv[k as int] == hs@[k as int]@);
                if has_sub_exec(&chars, needle) {
                    assert(has_sub(lowercase(hv[k as int]), needle@));
                    found = true;
                }
                k = if found { hs.len() } else { k + 1 };
            }
            found
        },
        BibEntryOrFolder::BibFolder(_) => false,
    }
}

/// Searches the entries of a bibliography (folders are left out) for a
/// text, without regard to case, in their keys, titles and the names of
/// their authors and editors: at most `MAX_RESULTS` results, sorted by title
/// in lower case.
pub fn search_bibliography_entries(records: &Vec<BibRecord>, q: &str) -> (r: Vec<BibSearchResult>)
    ensures
        r.len() == search_order(records@, lowercase(q@)).len(),
        forall|m: int|
            0 <= m < r.len() ==> {
                let k = search_order(records@, lowercase(q@))[m];
                &&& 0 <= k < records.len()
                &&& #[trigger] r@[m].id == records@[k].id
                &&& Some(r@[m].entry_type@) == record_view(records@[k]).entry_type
                &&& r@[m].title@ == record_view(records@[k]).name
            },
{
    let lower = to_lower(q);
    let needle = chars_of(lower.as_str());
    let ghost nv = needle@;
    let ghost recs = records_view(records@);
    let keys = record_keys(records);
    let mut order: Vec<usize> = Vec::new();
    let mut i: usize = 0;
    while i < records.len()
        invariant
            i <= records.len(),
            nv == needle@,
            nv == lowercase(q@),
            recs == records_view(records@),
            keys.len() == records.len(),
            forall|k: int| 0 <= k < keys.len() ==> key_is(#[trigger] keys@[k], records@[k]),
            same_positions(order@, sort_indices(matched_indices(records@, nv, i as int), recs)),
            forall|m: int| 0 <= m < order.len() ==> order@[m] < i,
        decreases records.len() - i,
    {
        let ghost c = matched_indices(records@, nv, i as int);
        let ghost s = sort_indices(c, recs);
        proof {
            lemma_same_positions(order@, s);
        }
        if record_matches_exec(&records[i], &needle) {
            insert_by_key(&mut order, i, &keys, records);
            proof {
                assert(matched_indices(records@, nv, i + 1) =~= c.push(i as int));
                assert(c.push(i as int).drop_last() =~= c);
            }
        } else {
            assert(matched_indices(records@, nv, i + 1) =~= c);
        }
        i = i + 1;
    }
    let ghost sorted = sort_indices(matched_indices(records@, nv, records.len() as int), recs);
    proof {
        lemma_matched_indices(records@, nv, records.len() as int);
        lemma_sorted_members(matched_indices(records@, nv, records.len() as int), recs);
        assert forall|x: int| 0 <= x < sorted.len() implies record_matches(
            records@[#[trigger] sorted[x]],
            nv,
        ) && 0 <= sorted[x] < records.len() by {
            let c = matched_indices(records@, nv, records.len() as int);
            assert(c.contains(sorted[x]));
            let w = choose|w: int| 0 <= w < c.len() && c[w] == sorted[x];
            assert(0 <= c[w] < records.len() && record_matches(records@[c[w]], nv));
        }
    }
    let count = if order.len() > MAX_RESULTS {
        MAX_RESULTS
    } else {
        order.len()
    };
    let mut r: Vec<BibSearchResult> = Vec::new();
    let mut m: usize = 0;
    while m < count
        invariant
            m <= count,
            count <= order.len(),
            count == (if order.len() > MAX_RESULTS { MAX_RESULTS } else { order.len() }),
            same_positions(order@, sorted),
            forall|x: int| 0 <= x < order.len() ==> order@[x] < records.len(),
            sorted == sort_indices(matched_indices(records@, nv, records.len() as int), recs),
            forall|x: int| 0 <= x < sorted.len() ==> record_matches(records@[#[trigger] sorted[x]], nv),
            nv == lowercase(q@),
            recs == records_view(records@),
            r.len() == m,
            forall|x: int|
                0 <= x < m ==> {
                    let k = sorted[x];
                    &&& 0 <= k < records.len()
                    &&& #[trigger] r@[x].id == records@[k].id
                    &&& Some(r@[x].entry_type@) == record_view(records@[k]).entry_type
                    &&& r@[x].title@ == record_view(records@[k]).name
                },
        decreases count - m,
    {
        let k = order[m];
        assert(k as int == sorted[m as int]);
        assert(record_matches(records@[k as int], nv));
        let rec = &records[k];
        let (entry_type, title) = match &rec.record {
            BibEntryOrFolder::BibEntry(e) => (e.entry_type.clone(), owned(record_name(rec))),
            BibEntryOrFolder::BibFolder(f) => (String::new(), f.name.clone()),
        };
        let ghost before = r@;
        r.push(BibSearchResult { id: rec.id, entry_type, title });
        assert(forall|x: int| 0 <= x < m ==> r@[x] == before[x]);
        m = m + 1;
    }
    proof {
        assert(nv == lowercase(q@));
        assert forall|x: int| 0 <= x < r.len() implies search_order(records@, lowercase(q@))[x] == sorted[x] by {
            if sorted.len() > MAX_RESULTS {
                assert(sorted.take(MAX_RESULTS as int)[x] == sorted[x]);
            }
        }
        assert(search_order(records@, lowercase(q@)).len() == r.len());
        assert forall|x: int| 0 <= x < r.len() implies {
            let k = search_order(records@, lowercase(q@))[x];
            &&& 0 <= k < records.len()
            &&& #[trigger] r@[x].id == records@[k].id
            &&& Some(r@[x].entry_type@) == record_view(records@[k]).entry_type
            &&& r@[x].title@ == record_view(records@[k]).name
        } by {
            assert(search_order(records@, lowercase(q@))[x] == sorted[x]);
            let k = sorted[x];
            assert(r@[x].id == records@[k].id);
            assert(0 <= k < records.len());
            assert(Some(r@[x].entry_type@) == record_view(records@[k]).entry_type);
            assert(r@[x].title@ == record_view(records@[k]).name);
        }
    }
    r
}

} // verus!
