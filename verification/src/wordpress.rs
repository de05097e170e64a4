//! WordPress categories as a flat list and as a tree, and the error values
//! of the WordPress import.
use vstd::prelude::*;

verus! {

broadcast use {
    vstd::seq_lib::group_to_multiset_ensures,
    vstd::seq_lib::lemma_multiset_commutative,
    vstd::multiset::group_multiset_axioms,
};

/// Errors of the WordPress API client.
#[derive(Clone, Debug, PartialEq)]
pub enum WordpressAPIError {
    SerdeParsingError,
    ReqwestError,
    InvalidURL,
    NotFound,
    UnexpectedResponse,
    Unsupported(String),
}

/// Context parameter of WordPress API requests.
#[derive(Clone, Copy, Debug, PartialEq, Eq, Structural)]
pub enum WordpressAPIContext {
    View,
    Edit,
    Embed,
}

impl WordpressAPIContext {
    /// The name used in request URLs.
    pub fn as_str(&self) -> (res: &'static str)
        ensures
            res@ == context_name(*self),
    {
        match self {
            WordpressAPIContext::View => "view",
            WordpressAPIContext::Edit => "edit",
            WordpressAPIContext::Embed => "embed",
        }
    }
}

pub open spec fn context_name(c: WordpressAPIContext) -> Seq<char> {
    match c {
        WordpressAPIContext::View => "view"@,
        WordpressAPIContext::Edit => "edit"@,
        WordpressAPIContext::Embed => "embed"@,
    }
}

/// A category as the WordPress API lists it.
#[derive(Clone, Debug)]
pub struct Category {
    pub id: usize,
    /// The number of posts in this category
    pub count: usize,
    pub description: String,
    pub name: String,
    pub slug: String,
    /// The parent category id (0 for top-level categories)
    pub parent: usize,
}

/// A category with its sub-categories.
#[derive(Debug)]
pub struct HierarchicalCategory {
    pub id: usize,
    pub count: usize,
    pub description: String,
    pub name: String,
    pub slug: String,
    pub parent: usize,
    pub children: Vec<HierarchicalCategory>,
}

/// The forest of top-level categories.
#[derive(Debug)]
pub struct CategoryTree {
    pub categories: Vec<HierarchicalCategory>,
}

/// The fields of one category, without sub-categories.
pub struct CategoryView {
    pub id: usize,
    pub count: usize,
    pub description: Seq<char>,
    pub name: Seq<char>,
    pub slug: Seq<char>,
    pub parent: usize,
}

impl View for Category {
    type V = CategoryView;

    open spec fn view(&self) -> CategoryView {
        CategoryView {
            id: self.id,
            count: self.count,
            description: self.description@,
            name: self.name@,
            slug: self.slug@,
            parent: self.parent,
        }
    }
}

pub open spec fn cats_view(s: Seq<Category>) -> Seq<CategoryView> {
    s.map_values(|c: Category| c@)
}

/// The fields of a tree node, without its sub-categories.
pub open spec fn node_view(t: HierarchicalCategory) -> CategoryView {
    CategoryView {
        id: t.id,
        count: t.count,
        description: t.description@,
        name: t.name@,
        slug: t.slug@,
        parent: t.parent,
    }
}

/// A category with the sub-categories below it.
pub struct CategoryNode {
    pub node: CategoryView,
    pub children: Seq<CategoryNode>,
}

/// A tree node with its sub-categories, at every depth.
pub open spec fn tree_of(t: HierarchicalCategory) -> CategoryNode
    decreases t,
{
    CategoryNode { node: node_view(t), children: trees_of(t.children@) }
}

pub open spec fn trees_of(s: Seq<HierarchicalCategory>) -> Seq<CategoryNode>
    decreases s,
{
    if s.len() == 0 {
        Seq::empty()
    } else {
        trees_of(s.drop_last()).push(tree_of(s.last()))
    }
}

/// A category without sub-categories.
pub open spec fn leaf(c: CategoryView) -> CategoryNode {
    CategoryNode { node: c, children: Seq::empty() }
}

/// The children of `old` once the categories of `cats` whose parent is
/// its node are added after its own, in order.
pub open spec fn adopted(old: CategoryNode, cats: Seq<CategoryView>) -> Seq<CategoryNode> {
    old.children + matching(cats, old.node.id).map_values(|c: CategoryView| leaf(c))
}

/// `new`, leaving the categories `rest`, is `old` grown from `cats`: the
/// categories whose parent is its node become its last children, in order,
/// and then each child, old and new, in order, is grown in the same way
/// from the categories that the children before it left (`cs` holds the
/// categories left before each child and after the last).
pub open spec fn grown(old: CategoryNode, cats: Seq<CategoryView>, new: CategoryNode, rest: Seq<CategoryView>) -> bool
    decreases new,
{
    &&& new.node == old.node
    &&& new.children.len() == adopted(old, cats).len()
    &&& exists|cs: Seq<Seq<CategoryView>>|
        {
            &&& #[trigger] cs.len() == adopted(old, cats).len() + 1
            &&& cs[0] == not_matching(cats, old.node.id)
            &&& cs[adopted(old, cats).len() as int] == rest
            &&& forall|i: int|
                0 <= i < adopted(old, cats).len() ==> {
                    &&& decreases_to!(new => new.children[i])
                    &&& grown(adopted(old, cats)[i], #[trigger] cs[i], new.children[i], cs[i + 1])
                }
        }
}

/// Growing a tree from a list of categories has one result: the grown
/// tree and the categories left are fixed by the tree and the list.
pub proof fn lemma_grown_unique(
    old: CategoryNode,
    cats: Seq<CategoryView>,
    n1: CategoryNode,
    r1: Seq<CategoryView>,
    n2: CategoryNode,
    r2: Seq<CategoryView>,
)
    requires
        grown(old, cats, n1, r1),
        grown(old, cats, n2, r2),
    ensures
        n1 == n2,
        r1 == r2,
    decreases n1, adopted(old, cats).len() + 1,
{
    let ad = adopted(old, cats);
    let cs1 = choose|cs: Seq<Seq<CategoryView>>|
        {
            &&& #[trigger] cs.len() == ad.len() + 1
            &&& cs[0] == not_matching(cats, old.node.id)
            &&& cs[ad.len() as int] == r1
            &&& forall|i: int|
                0 <= i < ad.len() ==> {
                    &&& decreases_to!(n1 => n1.children[i])
                    &&& grown(ad[i], #[trigger] cs[i], n1.children[i], cs[i + 1])
                }
        };
    let cs2 = choose|cs: Seq<Seq<CategoryView>>|
        {
            &&& #[trigger] cs.len() == ad.len() + 1
            &&& cs[0] == not_matching(cats, old.node.id)
            &&& cs[ad.len() as int] == r2
            &&& forall|i: int|
                0 <= i < ad.len() ==> {
                    &&& decreases_to!(n2 => n2.children[i])
                    &&& grown(ad[i], #[trigger] cs[i], n2.children[i], cs[i + 1])
                }
        };
    lemma_grown_prefix(old, cats, n1, n2, cs1, cs2, ad.len() as int);
    assert(n1.children =~= n2.children);
}

/// The first `k` children and the categories left after them agree.
proof fn lemma_grown_prefix(
    old: CategoryNode,
    cats: Seq<CategoryView>,
    n1: CategoryNode,
    n2: CategoryNode,
    cs1: Seq<Seq<CategoryView>>,
    cs2: Seq<Seq<CategoryView>>,
    k: int,
)
    requires
        0 <= k <= adopted(old, cats).len(),
        n1.children.len() == adopted(old, cats).len(),
        n2.children.len() == adopted(old, cats).len(),
        cs1.len() == adopted(old, cats).len() + 1,
        cs2.len() == adopted(old, cats).len() + 1,
        cs1[0] == cs2[0],
        forall|i: int|
            0 <= i < adopted(old, cats).len() ==> {
                &&& decreases_to!(n1 => n1.children[i])
                &&& grown(adopted(old, cats)[i], #[trigger] cs1[i], n1.children[i], cs1[i + 1])
            },
        forall|i: int|
            0 <= i < adopted(old, cats).len() ==> grown(
                adopted(old, cats)[i],
                #[trigger] cs2[i],
                n2.children[i],
                cs2[i + 1],
            ),
    ensures
        forall|i: int| 0 <= i < k ==> #[trigger] n1.children[i] == n2.children[i],
        cs1[k] == cs2[k],
    decreases n1, k,
{
    if k > 0 {
        lemma_grown_prefix(old, cats, n1, n2, cs1, cs2, k - 1);
        let i = k - 1;
        assert(grown(adopted(old, cats)[i], cs1[i], n1.children[i], cs1[i + 1]));
        assert(grown(adopted(old, cats)[i], cs2[i], n2.children[i], cs2[i + 1]));
        lemma_grown_unique(adopted(old, cats)[i], cs1[i], n1.children[i], cs1[i + 1], n2.children[i], cs2[i + 1]);
    }
}

/// A node whose children are grown one after another from the categories
/// that the earlier ones left is grown.
proof fn lemma_grown_from_children(
    old: CategoryNode,
    cats: Seq<CategoryView>,
    kids: Seq<HierarchicalCategory>,
    rest: Seq<CategoryView>,
    cs: Seq<Seq<CategoryView>>,
)
    requires
        kids.len() == adopted(old, cats).len(),
        cs.len() == kids.len() + 1,
        cs[0] == not_matching(cats, old.node.id),
        cs[kids.len() as int] == rest,
        forall|k: int|
            0 <= k < kids.len() ==> grown(adopted(old, cats)[k], #[trigger] cs[k], tree_of(kids[k]), cs[k + 1]),
    ensures
        grown(old, cats, CategoryNode { node: old.node, children: trees_of(kids) }, rest),
{
    let new = CategoryNode { node: old.node, children: trees_of(kids) };
    let ad = adopted(old, cats);
    lemma_trees_of_index(kids);
    assert forall|i: int| 0 <= i < ad.len() implies {
        &&& decreases_to!(new => new.children[i])
        &&& grown(ad[i], #[trigger] cs[i], new.children[i], cs[i + 1])
    } by {
        assert(new.children[i] == tree_of(kids[i]));
    }
    reveal_with_fuel(grown, 2);
    assert(cs.len() == ad.len() + 1);
}

/// What adopting the direct children leaves: the old children first, then
/// a leaf for each matching category, each with the tree that growing
/// expects, linked where the node was, and no node or category lost.
proof fn lemma_adopted_children(
    self0: HierarchicalCategory,
    okids: Seq<HierarchicalCategory>,
    kk: Seq<HierarchicalCategory>,
    c0: Seq<CategoryView>,
    c1: Seq<CategoryView>,
)
    requires
        okids == self0.children@,
        c1 == not_matching(c0, self0.id),
        kk.len() == okids.len() + matching(c0, self0.id).len(),
        kk.take(okids.len() as int) == okids,
        forall|k: int|
            0 <= k < matching(c0, self0.id).len() ==> #[trigger] kk[okids.len() + k].children@.len() == 0,
        forall|k: int|
            0 <= k < matching(c0, self0.id).len() ==> node_view(#[trigger] kk[okids.len() + k])
                == matching(c0, self0.id)[k],
    ensures
        forall|k: int| 0 <= k < okids.len() ==> #[trigger] kk[k] == okids[k],
        forall|k: int| okids.len() <= k < kk.len() ==> #[trigger] kk[k].children@.len() == 0,
        tree_linked(self0) ==> forall|k: int|
            0 <= k < kk.len() ==> #[trigger] kk[k].parent == self0.id && tree_linked(kk[k]),
        forest_nodes(kk).to_multiset().add(c1.to_multiset()) == forest_nodes(okids).to_multiset().add(
            c0.to_multiset(),
        ),
        matching(c0, self0.id).len() + c1.len() == c0.len(),
        forall|x: CategoryView| c1.contains(x) ==> c0.contains(x) && x.parent != self0.id,
        adopted(tree_of(self0), c0).len() == kk.len(),
        forall|k: int| 0 <= k < kk.len() ==> #[trigger] tree_of(kk[k]) == adopted(tree_of(self0), c0)[k],
{
    let id = self0.id;
    let old_len = okids.len();
    lemma_matching_split(c0, id);
    lemma_not_matching_contains(c0, id);
    if tree_linked(self0) {
        lemma_forest_linked_index(id, okids);
    }
    let leaves = kk.skip(old_len as int);
    assert(kk =~= okids + leaves);
    assert forall|k: int| 0 <= k < leaves.len() implies #[trigger] leaves[k].children@.len() == 0 by {
        assert(leaves[k] == kk[old_len + k]);
    }
    assert forall|k: int| 0 <= k < leaves.len() implies node_view(#[trigger] leaves[k]) == matching(c0, id)[k] by {
        assert(leaves[k] == kk[old_len + k]);
    }
    lemma_leaves_nodes(leaves, matching(c0, id));
    lemma_forest_nodes_append(okids, leaves);
    assert forall|k: int| old_len <= k < kk.len() implies #[trigger] kk[k].children@.len() == 0 by {
        assert(kk[k] == leaves[k - old_len]);
    }
    assert forall|k: int| 0 <= k < old_len implies #[trigger] kk[k] == okids[k] by {
        assert(kk.take(old_len as int)[k] == kk[k]);
    }
    if tree_linked(self0) {
        lemma_matching_parent(c0, id);
        assert forall|k: int| 0 <= k < kk.len() implies #[trigger] kk[k].parent == id && tree_linked(kk[k]) by {
            if k >= old_len {
                let q = k - old_len;
                assert(node_view(kk[old_len + q]) == matching(c0, id)[q]);
                assert(matching(c0, id)[q].parent == id);
                assert(kk[k].children@ =~= Seq::<HierarchicalCategory>::empty());
                assert(forest_linked(kk[k].id, kk[k].children@));
            } else {
                assert(kk[k] == okids[k]);
            }
        }
    }
    assert(forest_nodes(kk).to_multiset().add(c1.to_multiset()) =~= forest_nodes(okids).to_multiset().add(
        c0.to_multiset(),
    ));
    lemma_trees_of_index(okids);
    assert forall|k: int| 0 <= k < kk.len() implies #[trigger] tree_of(kk[k]) == adopted(tree_of(self0), c0)[k] by {
        if k < old_len {
            assert(kk[k] == okids[k]);
        } else {
            assert(kk[k].children@ =~= Seq::<HierarchicalCategory>::empty());
            assert(node_view(kk[old_len + (k - old_len)]) == matching(c0, id)[k - old_len]);
            assert(tree_of(kk[k]).children =~= Seq::<CategoryNode>::empty());
        }
    }
}

proof fn lemma_trees_of_index(s: Seq<HierarchicalCategory>)
    ensures
        trees_of(s).len() == s.len(),
        forall|i: int| 0 <= i < s.len() ==> #[trigger] trees_of(s)[i] == tree_of(s[i]),
    decreases s.len(),
{
    if s.len() > 0 {
        lemma_trees_of_index(s.drop_last());
    }
}

/// All nodes of a tree, root first.
pub open spec fn subtree_nodes(t: HierarchicalCategory) -> Seq<CategoryView>
    decreases t,
{
    seq![node_view(t)] + forest_nodes(t.children@)
}

/// All nodes of a forest.
pub open spec fn forest_nodes(k: Seq<HierarchicalCategory>) -> Seq<CategoryView>
    decreases k,
{
    if k.len() == 0 {
        Seq::empty()
    } else {
        forest_nodes(k.drop_last()) + subtree_nodes(k.last())
    }
}

/// Every sub-category names its node as parent, at every depth.
pub open spec fn tree_linked(t: HierarchicalCategory) -> bool
    decreases t,
{
    forest_linked(t.id, t.children@)
}

pub open spec fn forest_linked(pid: usize, k: Seq<HierarchicalCategory>) -> bool
    decreases k,
{
    if k.len() == 0 {
        true
    } else {
        forest_linked(pid, k.drop_last()) && k.last().parent == pid && tree_linked(k.last())
    }
}

/// The categories whose parent is `id`, in order.
pub open spec fn matching(s: Seq<CategoryView>, id: usize) -> Seq<CategoryView>
    decreases s.len(),
{
    if s.len() == 0 {
        Seq::empty()
    } else if s.last().parent == id {
        matching(s.drop_last(), id).push(s.last())
    } else {
        matching(s.drop_last(), id)
    }
}

/// The categories whose parent is not `id`, in order.
pub open spec fn not_matching(s: Seq<CategoryView>, id: usize) -> Seq<CategoryView>
    decreases s.len(),
{
    if s.len() == 0 {
        Seq::empty()
    } else if s.last().parent != id {
        not_matching(s.drop_last(), id).push(s.last())
    } else {
        not_matching(s.drop_last(), id)
    }
}

/// Whether a node of `nodes` is the parent of `x`.
pub open spec fn has_parent_in(x: CategoryView, nodes: Seq<CategoryView>) -> bool {
    exists|n: CategoryView| nodes.contains(n) && n.id == x.parent
}

/// The categories, in order, whose parent is no node of `nodes`.
pub open spec fn orphans(cats: Seq<CategoryView>, nodes: Seq<CategoryView>) -> Seq<CategoryView>
    decreases cats.len(),
{
    if cats.len() == 0 {
        Seq::empty()
    } else if has_parent_in(cats.last(), nodes) {
        orphans(cats.drop_last(), nodes)
    } else {
        orphans(cats.drop_last(), nodes).push(cats.last())
    }
}

proof fn lemma_orphans_none(cats: Seq<CategoryView>)
    ensures
        orphans(cats, Seq::empty()) == cats,
    decreases cats.len(),
{
    if cats.len() > 0 {
        lemma_orphans_none(cats.drop_last());
        assert(cats.drop_last().push(cats.last()) =~= cats);
    }
}

proof fn lemma_has_parent_in_concat(x: CategoryView, a: Seq<CategoryView>, b: Seq<CategoryView>)
    ensures
        has_parent_in(x, a + b) <==> has_parent_in(x, a) || has_parent_in(x, b),
{
    if has_parent_in(x, a + b) {
        let n = choose|n: CategoryView| (a + b).contains(n) && n.id == x.parent;
        let i = choose|i: int| 0 <= i < (a + b).len() && (a + b)[i] == n;
        if i < a.len() {
            assert(a[i] == n);
            assert(a.contains(n));
        } else {
            assert(b[i - a.len()] == n);
            assert(b.contains(n));
        }
    }
    if has_parent_in(x, a) {
        let n = choose|n: CategoryView| a.contains(n) && n.id == x.parent;
        let i = choose|i: int| 0 <= i < a.len() && a[i] == n;
        assert((a + b)[i] == n);
        assert((a + b).contains(n));
    }
    if has_parent_in(x, b) {
        let n = choose|n: CategoryView| b.contains(n) && n.id == x.parent;
        let i = choose|i: int| 0 <= i < b.len() && b[i] == n;
        assert((a + b)[a.len() + i] == n);
        assert((a + b).contains(n));
    }
}

proof fn lemma_orphans_twice(cats: Seq<CategoryView>, a: Seq<CategoryView>, b: Seq<CategoryView>)
    ensures
        orphans(orphans(cats, a), b) == orphans(cats, a + b),
    decreases cats.len(),
{
    if cats.len() > 0 {
        let d = cats.drop_last();
        let x = cats.last();
        lemma_orphans_twice(d, a, b);
        lemma_has_parent_in_concat(x, a, b);
        if !has_parent_in(x, a) {
            let o = orphans(d, a).push(x);
            assert(o.drop_last() =~= orphans(d, a));
            assert(o.last() == x);
        }
    }
}

proof fn lemma_not_matching_orphans(cats: Seq<CategoryView>, node: CategoryView)
    ensures
        not_matching(cats, node.id) == orphans(cats, seq![node]),
    decreases cats.len(),
{
    if cats.len() > 0 {
        lemma_not_matching_orphans(cats.drop_last(), node);
        let x = cats.last();
        if x.parent == node.id {
            assert(seq![node][0] == node);
            assert(seq![node].contains(node));
        } else {
            if has_parent_in(x, seq![node]) {
                let n = choose|n: CategoryView| seq![node].contains(n) && n.id == x.parent;
                let i = choose|i: int| 0 <= i < 1 && seq![node][i] == n;
                assert(n == node);
            }
        }
    }
}

/// No category of `cats` has a node of `nodes` as parent.
pub open spec fn parent_free(cats: Seq<CategoryView>, nodes: Seq<CategoryView>) -> bool {
    forall|x: CategoryView, n: CategoryView|
        cats.contains(x) && nodes.contains(n) ==> x.parent != n.id
}

// ---------------------------------------------------------------------------
// Lemmas
// ---------------------------------------------------------------------------

proof fn lemma_forest_nodes_push(k: Seq<HierarchicalCategory>, t: HierarchicalCategory)
    ensures
        forest_nodes(k.push(t)) == forest_nodes(k) + subtree_nodes(t),
{
    assert(k.push(t).drop_last() =~= k);
}

proof fn lemma_forest_nodes_append(a: Seq<HierarchicalCategory>, b: Seq<HierarchicalCategory>)
    ensures
        forest_nodes(a + b) == forest_nodes(a) + forest_nodes(b),
    decreases b.len(),
{
    if b.len() == 0 {
        assert(a + b =~= a);
        assert(forest_nodes(a) + forest_nodes(b) =~= forest_nodes(a));
    } else {
        assert((a + b).drop_last() =~= a + b.drop_last());
        assert((a + b).last() == b.last());
        lemma_forest_nodes_append(a, b.drop_last());
        assert(forest_nodes(a) + (forest_nodes(b.drop_last()) + subtree_nodes(b.last()))
            =~= (forest_nodes(a) + forest_nodes(b.drop_last())) + subtree_nodes(b.last()));
    }
}

proof fn lemma_forest_nodes_front(k: Seq<HierarchicalCategory>)
    requires
        k.len() > 0,
    ensures
        forest_nodes(k) == subtree_nodes(k[0]) + forest_nodes(k.skip(1)),
{
    assert(k =~= seq![k[0]] + k.skip(1));
    lemma_forest_nodes_append(seq![k[0]], k.skip(1));
    let one = seq![k[0]];
    assert(one.drop_last() =~= Seq::<HierarchicalCategory>::empty());
    assert(one.last() == k[0]);
    assert(forest_nodes(one.drop_last()) == Seq::<CategoryView>::empty());
    assert(forest_nodes(one) =~= subtree_nodes(k[0]));
}

proof fn lemma_forest_linked_index(pid: usize, k: Seq<HierarchicalCategory>)
    requires
        forest_linked(pid, k),
    ensures
        forall|i: int| 0 <= i < k.len() ==> #[trigger] k[i].parent == pid && tree_linked(k[i]),
    decreases k.len(),
{
    if k.len() > 0 {
        let d = k.drop_last();
        lemma_forest_linked_index(pid, d);
        assert(k.last() == k[k.len() - 1]);
        assert forall|i: int| 0 <= i < k.len() implies #[trigger] k[i].parent == pid && tree_linked(
            k[i],
        ) by {
            if i < k.len() - 1 {
                assert(d[i] == k[i]);
            }
        }
    }
}

proof fn lemma_matching_split(s: Seq<CategoryView>, id: usize)
    ensures
        matching(s, id).to_multiset().add(not_matching(s, id).to_multiset()) =~= s.to_multiset(),
        forall|q: int| 0 <= q < not_matching(s, id).len() ==> #[trigger] not_matching(s, id)[q].parent != id,
        not_matching(s, id).len() + matching(s, id).len() == s.len(),
    decreases s.len(),
{
    if s.len() > 0 {
        let d = s.drop_last();
        let l = s.last();
        lemma_matching_split(d, id);
        assert(s =~= d.push(l));
        let nm = not_matching(d, id);
        if l.parent != id {
            assert forall|q: int| 0 <= q < not_matching(s, id).len() implies #[trigger] not_matching(s, id)[q].parent != id by {
                if q < nm.len() {
                    assert(not_matching(s, id)[q] == nm[q]);
                }
            }
        }
    }
}

/// Every category left over is one of the given ones and does not name `id`.
proof fn lemma_not_matching_contains(s: Seq<CategoryView>, id: usize)
    ensures
        forall|x: CategoryView| not_matching(s, id).contains(x) ==> s.contains(x) && x.parent != id,
{
    lemma_matching_split(s, id);
    assert forall|x: CategoryView| not_matching(s, id).contains(x) implies s.contains(x) && x.parent != id by {
        let q = choose|q: int| 0 <= q < not_matching(s, id).len() && not_matching(s, id)[q] == x;
        assert(not_matching(s, id)[q].parent != id);
        assert(not_matching(s, id).to_multiset().count(x) > 0);
        assert(s.to_multiset().count(x) > 0);
    }
}

proof fn lemma_matching_prefix(s: Seq<CategoryView>, id: usize, p: int)
    requires
        0 <= p < s.len(),
    ensures
        matching(s.take(p + 1), id) == if s[p].parent == id {
            matching(s.take(p), id).push(s[p])
        } else {
            matching(s.take(p), id)
        },
        not_matching(s.take(p + 1), id) == if s[p].parent != id {
            not_matching(s.take(p), id).push(s[p])
        } else {
            not_matching(s.take(p), id)
        },
{
    assert(s.take(p + 1).drop_last() =~= s.take(p));
    assert(s.take(p + 1).last() == s[p]);
}

proof fn lemma_cats_view_remove(s: Seq<Category>, i: int)
    requires
        0 <= i < s.len(),
    ensures
        cats_view(s.remove(i)) =~= cats_view(s).remove(i),
{
}

// ---------------------------------------------------------------------------
// Building the tree
// ---------------------------------------------------------------------------

impl HierarchicalCategory {
    /// A tree node without sub-categories.
    pub fn from_category(c: Category) -> (res: HierarchicalCategory)
        ensures
            node_view(res) == c@,
            res.children@.len() == 0,
    {
        HierarchicalCategory {
            id: c.id,
            count: c.count,
            description: c.description,
            name: c.name,
            slug: c.slug,
            parent: c.parent,
            children: Vec::new(),
        }
    }

    /// Moves the categories whose parent is this node, in list order, to
    /// the end of its children, as nodes without sub-categories.
    fn adopt_direct_children(&mut self, categories: &mut Vec<Category>)
        ensures
            node_view(*final(self)) == node_view(*old(self)),
            final(self).id == old(self).id,
            cats_view(final(categories)@) == not_matching(cats_view(old(categories)@), old(self).id),
            final(self).children@.len() == old(self).children@.len() + matching(
                cats_view(old(categories)@),
                old(self).id,
            ).len(),
            final(self).children@.take(old(self).children@.len() as int) == old(self).children@,
            forall|k: int|
                0 <= k < matching(cats_view(old(categories)@), old(self).id).len()
                    ==> #[trigger] final(self).children@[old(self).children@.len() + k].children@.len() == 0,
            forall|k: int|
                0 <= k < matching(cats_view(old(categories)@), old(self).id).len() ==> node_view(
                    #[trigger] final(self).children@[old(self).children@.len() + k],
                ) == matching(cats_view(old(categories)@), old(self).id)[k],
    {
        let ghost c0 = cats_view(categories@);
        let ghost okids = self.children@;
        let ghost old_len = self.children@.len();
        let ghost id = self.id;
        let ghost self0 = *self;
        let mut i: usize = 0;
        let ghost mut p: int = 0;
        assert(c0.take(0) =~= Seq::<CategoryView>::empty());
        assert(cats_view(categories@).take(0) =~= Seq::<CategoryView>::empty());
        assert(cats_view(categories@).skip(0) =~= c0.skip(0));
        assert(self.children@.take(old_len as int) =~= okids);
        while i < categories.len()
            invariant
                self.id == id,
                node_view(*self) == node_view(self0),
                0 <= p <= c0.len(),
                i <= categories@.len(),
                cats_view(categories@).take(i as int) == not_matching(c0.take(p), id),
                cats_view(categories@).skip(i as int) == c0.skip(p),
                self.children@.len() == old_len + matching(c0.take(p), id).len(),
                self.children@.take(old_len as int) == okids,
                forall|k: int|
                    0 <= k < matching(c0.take(p), id).len() ==> #[trigger] self.children@[old_len
                        + k].children@.len() == 0,
                forall|k: int|
                    0 <= k < matching(c0.take(p), id).len() ==> node_view(
                        #[trigger] self.children@[old_len + k],
                    ) == matching(c0.take(p), id)[k],
            decreases categories@.len() - i,
        {
            let ghost cv = cats_view(categories@);
            proof {
                assert(cv.skip(i as int).len() > 0);
                assert(c0.skip(p).len() == c0.len() - p);
                assert(cv.skip(i as int)[0] == c0.skip(p)[0]);
                assert(cv.skip(i as int)[0] == cv[i as int]);
                assert(cv[i as int] == categories@[i as int]@);
                assert(c0.skip(p)[0] == c0[p]);
                lemma_matching_prefix(c0, id, p);
                assert(cv.skip(i + 1) =~= cv.skip(i as int).skip(1));
                assert(c0.skip(p + 1) =~= c0.skip(p).skip(1));
            }
            if categories[i].parent == self.id {
                let ghost cats_raw = categories@;
                let c = categories.remove(i);
                let node = HierarchicalCategory::from_category(c);
                let ghost before = self.children@;
                self.children.push(node);
                proof {
                    lemma_cats_view_remove(cats_raw, i as int);
                    let cvn = cats_view(categories@);
                    assert(cvn =~= cv.remove(i as int));
                    assert(cvn.take(i as int) =~= cv.take(i as int));
                    assert(cvn.skip(i as int) =~= cv.skip(i + 1));
                    assert(self.children@.take(old_len as int) =~= before.take(old_len as int));
                    let m1 = matching(c0.take(p + 1), id);
                    assert forall|k: int| 0 <= k < m1.len() implies #[trigger] self.children@[old_len
                        + k].children@.len() == 0 by {
                        if k < matching(c0.take(p), id).len() {
                            assert(self.children@[old_len + k] == before[old_len + k]);
                        } else {
                            assert(self.children@[old_len + k] == node);
                        }
                    }
                    assert forall|k: int| 0 <= k < m1.len() implies node_view(
                        #[trigger] self.children@[old_len + k],
                    ) == m1[k] by {
                        if k < matching(c0.take(p), id).len() {
                            assert(self.children@[old_len + k] == before[old_len + k]);
                        } else {
                            assert(self.children@[old_len + k] == node);
                        }
                    }
                    p = p + 1;
                }
            } else {
                proof {
                    assert(cv.take(i + 1) =~= cv.take(i as int).push(cv[i as int]));
                    p = p + 1;
                }
                i = i + 1;
            }
        }
        proof {
            assert(cats_view(categories@).skip(i as int).len() == 0);
            assert(c0.take(p) =~= c0);
            assert(cats_view(categories@) =~= cats_view(categories@).take(i as int));
        }
    }

    /// Moves every category of `categories` whose parent is this node into
    /// its children (in list order, after the existing ones), then does the
    /// same for every child, recursively.
    #[verifier::rlimit(60)]
    pub fn add_children(&mut self, categories: &mut Vec<Category>)
        ensures
            node_view(*final(self)) == node_view(*old(self)),
            final(self).children@.len() == old(self).children@.len() + matching(
                cats_view(old(categories)@),
                old(self).id,
            ).len(),
            forall|i: int|
                0 <= i < old(self).children@.len() ==> node_view(#[trigger] final(self).children@[i])
                    == node_view(old(self).children@[i]),
            forall|i: int|
                0 <= i < matching(cats_view(old(categories)@), old(self).id).len() ==> node_view(
                    #[trigger] final(self).children@[old(self).children@.len() + i],
                ) == matching(cats_view(old(categories)@), old(self).id)[i],
            forest_nodes(final(self).children@).to_multiset().add(
                cats_view(final(categories)@).to_multiset(),
            ) == forest_nodes(old(self).children@).to_multiset().add(
                cats_view(old(categories)@).to_multiset(),
            ),
            forall|x: CategoryView|
                cats_view(final(categories)@).contains(x) ==> cats_view(old(categories)@).contains(x),
            final(categories)@.len() <= old(categories)@.len(),
            parent_free(cats_view(final(categories)@), subtree_nodes(*final(self))),
            cats_view(final(categories)@) == orphans(cats_view(old(categories)@), subtree_nodes(*final(self))),
            grown(tree_of(*old(self)), cats_view(old(categories)@), tree_of(*final(self)), cats_view(final(categories)@)),
            tree_linked(*old(self)) ==> tree_linked(*final(self)),
        decreases old(categories)@.len(), *old(self),
    {
        let ghost c0 = cats_view(categories@);
        let ghost okids = self.children@;
        let ghost old_len = self.children@.len();
        let ghost id = self.id;
        let ghost self0 = *self;
        self.adopt_direct_children(categories);
        proof {
            lemma_matching_split(c0, id);
            lemma_not_matching_contains(c0, id);
            if tree_linked(self0) {
                lemma_forest_linked_index(id, okids);
            }
        }
        let ghost c1 = cats_view(categories@);
        let ghost kk = self.children@;
        proof {
            lemma_adopted_children(self0, okids, kk, c0, c1);
        }
        let mut kids: Vec<HierarchicalCategory> = Vec::new();
        std::mem::swap(&mut kids, &mut self.children);
        let mut done: Vec<HierarchicalCategory> = Vec::new();
        proof {
            assert(kids@.skip(0) =~= kids@);
            assert(forest_nodes(done@) =~= Seq::<CategoryView>::empty());
            lemma_orphans_none(c1);
            assert(forest_nodes(done@).to_multiset().add(forest_nodes(kids@).to_multiset()).add(
                    cats_view(categories@).to_multiset()) =~= forest_nodes(kk).to_multiset().add(c1.to_multiset()));
        }
        let ghost ad = adopted(tree_of(self0), c0);
        let ghost mut cs: Seq<Seq<CategoryView>> = seq![c1];
        while kids.len() > 0
            invariant
                self.id == id,
                node_view(*self) == node_view(self0),
                self.children@.len() == 0,
                done@.len() + kids@.len() == kk.len(),
                kids@ == kk.skip(done@.len() as int),
                kk.len() == old_len + matching(c0, id).len(),
                forall|k: int| 0 <= k < old_len ==> #[trigger] kk[k] == okids[k],
                matching(c0, id).len() + c1.len() == c0.len(),
                forall|k: int| 0 <= k < done@.len() ==> #[trigger] node_view(done@[k]) == node_view(kk[k]),
                forest_nodes(done@).to_multiset().add(forest_nodes(kids@).to_multiset()).add(
                    cats_view(categories@).to_multiset(),
                ) == forest_nodes(kk).to_multiset().add(c1.to_multiset()),
                forall|x: CategoryView| cats_view(categories@).contains(x) ==> c1.contains(x),
                forall|x: CategoryView| c1.contains(x) ==> c0.contains(x) && x.parent != id,
                categories@.len() <= c1.len(),
                parent_free(cats_view(categories@), forest_nodes(done@)),
                cats_view(categories@) == orphans(c1, forest_nodes(done@)),
                c1 == not_matching(c0, id),
                tree_linked(self0) ==> forest_linked(id, done@),
                tree_linked(self0) ==> forall|k: int| 0 <= k < kk.len() ==> #[trigger] kk[k].parent == id && tree_linked(kk[k]),
                c0 == cats_view(old(categories)@),
                okids == old(self).children@,
                old_len == okids.len(),
                ad == adopted(tree_of(self0), c0),
                ad.len() == kk.len(),
                forall|k: int| 0 <= k < kk.len() ==> #[trigger] tree_of(kk[k]) == ad[k],
                cs.len() == done@.len() + 1,
                cs[0] == c1,
                cs[done@.len() as int] == cats_view(categories@),
                forall|k: int|
                    0 <= k < done@.len() ==> grown(ad[k], #[trigger] cs[k], tree_of(done@[k]), cs[k + 1]),
            decreases kids@.len(),
        {
            let ghost j = done@.len() as int;
            let mut kid = kids.remove(0);
            proof {
                assert(kid == kk[j]);
                lemma_forest_nodes_front(kk.skip(j));
                assert(kk.skip(j).skip(1) =~= kk.skip(j + 1));
                if categories@.len() == old(categories)@.len() {
                    assert(matching(c0, id).len() == 0);
                    assert(j < old_len);
                    assert(kid == old(self).children@[j]);
                    assert(decreases_to!(*old(self) => old(self).children));
                    assert(decreases_to!(old(self).children => old(self).children@));
                    assert(decreases_to!(old(self).children@ => old(self).children@[j]));
                }
            }
            let ghost kid0 = kid;
            let ghost cats_before = cats_view(categories@);
            kid.add_children(categories);
            let ghost dprev = done@;
            done.push(kid);
            proof {
                let cs_prev = cs;
                cs = cs.push(cats_view(categories@));
                assert(tree_of(kid0) == ad[j]);
                assert forall|k: int| 0 <= k < done@.len() implies grown(ad[k], #[trigger] cs[k], tree_of(done@[k]), cs[k + 1]) by {
                    if k < j {
                        assert(done@[k] == dprev[k]);
                        assert(cs[k] == cs_prev[k]);
                        assert(cs[k + 1] == cs_prev[k + 1]);
                    } else {
                        assert(done@[k] == kid);
                        assert(cs[k] == cs_prev[j]);
                    }
                }
                grow_step(dprev, kid0, kid, kk.skip(j + 1), cats_before, cats_view(categories@));
                lemma_orphans_twice(c1, forest_nodes(dprev), subtree_nodes(kid));
                assert(seq![kid0] + kk.skip(j + 1) =~= kk.skip(j));
                lemma_forest_nodes_push(dprev, kid);
                assert(kids@ =~= kk.skip(j + 1));
                assert forall|k: int| 0 <= k < done@.len() implies #[trigger] node_view(done@[k])
                    == node_view(kk[k]) by {
                    if k < j {
                        assert(done@[k] == dprev[k]);
                    }
                }
                assert(parent_free(cats_view(categories@), forest_nodes(done@))) by {
                    assert forall|x: CategoryView, n: CategoryView|
                        cats_view(categories@).contains(x) && forest_nodes(done@).contains(n) implies x.parent != n.id by {
                        assert(cats_before.contains(x));
                        if !forest_nodes(dprev).contains(n) {
                            let q = choose|q: int| 0 <= q < forest_nodes(done@).len() && forest_nodes(done@)[q] == n;
                            assert(q >= forest_nodes(dprev).len());
                            assert(subtree_nodes(kid)[q - forest_nodes(dprev).len()] == n);
                            assert(subtree_nodes(kid).contains(n));
                        }
                    }
                }
                if tree_linked(self0) {
                    assert(kk[j].parent == id && tree_linked(kk[j]));
                    assert(kid.parent == kid0.parent);
                    lemma_forest_linked_push(id, dprev, kid);
                }
            }
        }
        self.children = done;
        proof {
            assert(tree_of(*self) == (CategoryNode { node: tree_of(self0).node, children: trees_of(self.children@) }));
            lemma_grown_from_children(tree_of(self0), c0, self.children@, cats_view(categories@), cs);
            assert(subtree_nodes(*self) =~= seq![node_view(*self)] + forest_nodes(self.children@));
            lemma_not_matching_orphans(c0, node_view(*self));
            lemma_orphans_twice(c0, seq![node_view(*self)], forest_nodes(self.children@));
            assert(parent_free(cats_view(categories@), subtree_nodes(*self))) by {
                assert forall|x: CategoryView, n: CategoryView|
                    cats_view(categories@).contains(x) && subtree_nodes(*self).contains(n) implies x.parent != n.id by {
                    if !forest_nodes(self.children@).contains(n) {
                        let q = choose|q: int| 0 <= q < subtree_nodes(*self).len() && subtree_nodes(*self)[q] == n;
                        assert(q == 0);
                        assert(n == node_view(*self));
                        assert(c1.contains(x));
                    }
                }
            }
            assert(kids@.len() == 0);
            assert(forest_nodes(kids@) =~= Seq::<CategoryView>::empty());
            assert(forest_nodes(self.children@).to_multiset().add(cats_view(categories@).to_multiset())
                =~= forest_nodes(kk).to_multiset().add(c1.to_multiset()));
        }
    }
}

/// One child's recursive adoption keeps the nodes and categories together.
proof fn grow_step(
    dprev: Seq<HierarchicalCategory>,
    kid0: HierarchicalCategory,
    kid: HierarchicalCategory,
    rest: Seq<HierarchicalCategory>,
    cats_before: Seq<CategoryView>,
    cats_after: Seq<CategoryView>,
)
    requires
        node_view(kid) == node_view(kid0),
        forest_nodes(kid.children@).to_multiset().add(cats_after.to_multiset())
            == forest_nodes(kid0.children@).to_multiset().add(cats_before.to_multiset()),
    ensures
        forest_nodes(dprev.push(kid)).to_multiset().add(forest_nodes(rest).to_multiset()).add(
            cats_after.to_multiset(),
        ) == forest_nodes(dprev).to_multiset().add(forest_nodes(seq![kid0] + rest).to_multiset()).add(
            cats_before.to_multiset(),
        ),
{
    lemma_forest_nodes_push(dprev, kid);
    let k2 = seq![kid0] + rest;
    lemma_forest_nodes_front(k2);
    assert(k2[0] == kid0);
    assert(k2.skip(1) =~= rest);
    assert(subtree_nodes(kid) =~= seq![node_view(kid)] + forest_nodes(kid.children@));
    assert(subtree_nodes(kid0) =~= seq![node_view(kid0)] + forest_nodes(kid0.children@));
    let a = forest_nodes(dprev).to_multiset();
    let r = forest_nodes(rest).to_multiset();
    let n = seq![node_view(kid)].to_multiset();
    let f = forest_nodes(kid.children@).to_multiset();
    let f0 = forest_nodes(kid0.children@).to_multiset();
    let ca = cats_after.to_multiset();
    let cb = cats_before.to_multiset();
    assert(forest_nodes(dprev.push(kid)).to_multiset() =~= a.add(n).add(f));
    assert(forest_nodes(k2).to_multiset() =~= n.add(f0).add(r));
    assert(f.add(ca) == f0.add(cb));
    assert forall|x: CategoryView| #[trigger] a.add(n).add(f).add(r).add(ca).count(x) == a.add(n.add(f0).add(r)).add(cb).count(x) by {
        assert(f.add(ca).count(x) == f0.add(cb).count(x));
    }
    assert(a.add(n).add(f).add(r).add(ca) =~= a.add(n.add(f0).add(r)).add(cb));
}

proof fn lemma_matching_parent(s: Seq<CategoryView>, id: usize)
    ensures
        forall|q: int| 0 <= q < matching(s, id).len() ==> #[trigger] matching(s, id)[q].parent == id,
    decreases s.len(),
{
    if s.len() > 0 {
        let d = s.drop_last();
        lemma_matching_parent(d, id);
        let m = matching(d, id);
        if s.last().parent == id {
            assert forall|q: int| 0 <= q < matching(s, id).len() implies #[trigger] matching(s, id)[q].parent == id by {
                if q < m.len() {
                    assert(matching(s, id)[q] == m[q]);
                }
            }
        }
    }
}

proof fn lemma_leaves_nodes(leaves: Seq<HierarchicalCategory>, m: Seq<CategoryView>)
    requires
        leaves.len() == m.len(),
        forall|k: int| 0 <= k < leaves.len() ==> #[trigger] leaves[k].children@.len() == 0,
        forall|k: int| 0 <= k < leaves.len() ==> node_view(#[trigger] leaves[k]) == m[k],
    ensures
        forest_nodes(leaves) == m,
    decreases leaves.len(),
{
    if leaves.len() > 0 {
        let l = leaves.drop_last();
        assert forall|k: int| 0 <= k < l.len() implies #[trigger] l[k].children@.len() == 0 by {
            assert(l[k] == leaves[k]);
        }
        assert forall|k: int| 0 <= k < l.len() implies node_view(#[trigger] l[k]) == m.drop_last()[k] by {
            assert(l[k] == leaves[k]);
        }
        lemma_leaves_nodes(l, m.drop_last());
        let t = leaves.last();
        assert(t == leaves[leaves.len() - 1]);
        assert(t.children@ =~= Seq::<HierarchicalCategory>::empty());
        assert(forest_nodes(t.children@) =~= Seq::<CategoryView>::empty());
        assert(subtree_nodes(t) =~= seq![node_view(t)]);
        assert(m =~= m.drop_last().push(m.last()));
    } else {
        assert(m =~= Seq::<CategoryView>::empty());
    }
}

proof fn lemma_forest_linked_push(pid: usize, k: Seq<HierarchicalCategory>, t: HierarchicalCategory)
    requires
        forest_linked(pid, k),
        t.parent == pid,
        tree_linked(t),
    ensures
        forest_linked(pid, k.push(t)),
{
    assert(k.push(t).drop_last() =~= k);
}


// ---------------------------------------------------------------------------
// The category tree
// ---------------------------------------------------------------------------

impl CategoryTree {
    /// The tree of the listed categories: the categories whose parent is 0
    /// at the top, in list order, each with its sub-categories below it.
    /// Categories whose parent is never reached are left out.
    pub fn from_categories(categories: Vec<Category>) -> (r: CategoryTree)
        ensures
            r.categories@.len() == matching(cats_view(categories@), 0).len(),
            forall|i: int|
                0 <= i < r.categories@.len() ==> node_view(#[trigger] r.categories@[i])
                    == matching(cats_view(categories@), 0)[i],
            forest_linked(0, r.categories@),
            exists|rest: Seq<CategoryView>|
                forest_nodes(r.categories@).to_multiset().add(#[trigger] rest.to_multiset())
                    == cats_view(categories@).to_multiset() && forall|x: CategoryView, n: CategoryView|
                    rest.contains(x) && forest_nodes(r.categories@).contains(n) ==> x.parent
                        != 0 && x.parent != n.id,
    {
        let mut categories = categories;
        let ghost input = cats_view(categories@);
        let mut main_category = HierarchicalCategory {
            id: 0,
            count: 0,
            description: String::new(),
            name: String::new(),
            slug: String::new(),
            parent: 0,
            children: Vec::new(),
        };
        proof {
            assert(main_category.children@ =~= Seq::<HierarchicalCategory>::empty());
            assert(forest_nodes(main_category.children@) =~= Seq::<CategoryView>::empty());
            assert(forest_nodes(main_category.children@).to_multiset() =~= vstd::multiset::Multiset::empty());
            assert(tree_linked(main_category));
        }
        main_category.add_children(&mut categories);
        let ghost rest = cats_view(categories@);
        proof {
            let root = main_category;
            let nodes = forest_nodes(root.children@);
            assert(subtree_nodes(root) == seq![node_view(root)] + nodes);
            assert(vstd::multiset::Multiset::<CategoryView>::empty().add(input.to_multiset()) =~= input.to_multiset());
            assert forall|x: CategoryView, n: CategoryView|
                rest.contains(x) && nodes.contains(n) implies x.parent != 0 && x.parent != n.id by {
                assert(subtree_nodes(root)[0] == node_view(root));
                assert(subtree_nodes(root).contains(node_view(root)));
                let j = choose|j: int| 0 <= j < nodes.len() && nodes[j] == n;
                assert(subtree_nodes(root)[j + 1] == n);
                assert(subtree_nodes(root).contains(n));
                assert(parent_free(rest, subtree_nodes(root)));
                assert(x.parent != node_view(root).id);
            }
            assert forall|i: int| 0 <= i < root.children@.len() implies node_view(
                #[trigger] root.children@[i],
            ) == matching(input, 0)[i] by {
                assert(root.children@[0 + i] == root.children@[i]);
            }
        }
        CategoryTree { categories: main_category.children }
    }
}

// ---------------------------------------------------------------------------
// Posts
// ---------------------------------------------------------------------------

/// A user of the blog.
#[derive(Clone, Debug, PartialEq, Eq)]
pub struct WordpressUser {
    pub id: usize,
    pub name: String,
    pub url: String,
    pub description: String,
    pub link: String,
    pub slug: String,
}

/// The publication state of a post.
#[derive(Clone, Copy, Debug, PartialEq, Eq, Structural)]
pub enum PostStatus {
    Publish,
    Future,
    Draft,
    Pending,
    Private,
}

/// A rendered text of a post.
#[derive(Clone, Debug, PartialEq, Eq)]
pub struct RenderedContent {
    pub rendered: String,
}

/// The custom fields of a post.
#[derive(Clone, Debug, PartialEq, Eq)]
pub struct PostAcf {
    pub subheadline: Option<String>,
    pub copyright: Option<String>,
    pub doi: Option<String>,
    pub crossref_doi: Option<String>,
}

/// A co-author of a post.
#[derive(Clone, Debug, PartialEq, Eq)]
pub struct CoAuthor {
    pub display_name: String,
}

pub open spec fn opt_text(o: Option<String>) -> Option<Seq<char>> {
    match o {
        Some(s) => Some(s@),
        None => None,
    }
}

fn copy_opt(o: &Option<String>) -> (r: Option<String>)
    ensures
        r == *o,
{
    match o {
        Some(s) => Some(s.clone()),
        None => None,
    }
}

/// The subtitle of an imported post: its subheadline.
pub fn post_subtitle(acf: &Option<PostAcf>) -> (r: Option<String>)
    ensures
        r == match acf {
            Some(a) => a.subheadline,
            None => None,
        },
{
    match acf {
        Some(a) => copy_opt(&a.subheadline),
        None => None,
    }
}

/// The DOI of an imported post: the Crossref DOI when there is one, else
/// the DOI field.
pub fn post_doi(acf: &Option<PostAcf>) -> (r: Option<String>)
    ensures
        r == match acf {
            Some(a) => if a.crossref_doi is Some {
                a.crossref_doi
            } else {
                a.doi
            },
            None => None,
        },
{
    match acf {
        Some(a) => if a.crossref_doi.is_some() {
            copy_opt(&a.crossref_doi)
        } else {
            copy_opt(&a.doi)
        },
        None => None,
    }
}

/// A sequence without runs of equal neighbours: each run kept once (the
/// behaviour of `Vec::dedup`).
pub open spec fn dedup_spec(s: Seq<Seq<char>>) -> Seq<Seq<char>>
    decreases s.len(),
{
    if s.len() == 0 {
        s
    } else {
        let d = dedup_spec(s.drop_last());
        if s.len() > 1 && s[s.len() - 2] == s.last() {
            d
        } else {
            d.push(s.last())
        }
    }
}

/// The author names of an imported post: the author's name followed by
/// the co-authors' names, runs of equal names kept once; nothing when the
/// author is unknown.
pub open spec fn author_names_spec(author: Option<Seq<char>>, coauthors: Option<Seq<CoAuthor>>) -> Seq<
    Seq<char>,
> {
    match author {
        Some(a) => dedup_spec(
            seq![a] + match coauthors {
                Some(c) => c.map_values(|x: CoAuthor| x.display_name@),
                None => Seq::empty(),
            },
        ),
        None => Seq::empty(),
    }
}

/// Lists the author names of an imported post.
pub fn author_names(author: Option<String>, coauthors: &Option<Vec<CoAuthor>>) -> (r: Vec<String>)
    ensures
        crate::text::strings_view(r@) == author_names_spec(
            opt_text(author),
            match coauthors {
                Some(c) => Some(c@),
                None => None,
            },
        ),
{
    let a = match author {
        Some(a) => a,
        None => {
            let r: Vec<String> = Vec::new();
            assert(crate::text::strings_view(r@) =~= Seq::<Seq<char>>::empty());
            return r;
        },
    };
    let ghost all = seq![a@] + match coauthors {
        Some(c) => c@.map_values(|x: CoAuthor| x.display_name@),
        None => Seq::<Seq<char>>::empty(),
    };
    let mut names: Vec<String> = Vec::new();
    let ghost first = a@;
    names.push(a);
    proof {
        assert(all.take(1) =~= seq![first]);
        assert(all.take(1).drop_last() =~= Seq::<Seq<char>>::empty());
        assert(dedup_spec(Seq::<Seq<char>>::empty()) == Seq::<Seq<char>>::empty());
        assert(dedup_spec(seq![first]) == Seq::<Seq<char>>::empty().push(first));
        assert(crate::text::strings_view(names@) =~= seq![first]);
    }
    let mut last = crate::content::owned(names[0].as_str());
    if let Some(c) = coauthors {
        let mut i: usize = 0;
        while i < c.len()
            invariant
                i <= c.len(),
                all == seq![first] + c@.map_values(|x: CoAuthor| x.display_name@),
                crate::text::strings_view(names@) == dedup_spec(all.take(i + 1)),
                last@ == all[i as int],
            decreases c.len() - i,
        {
            let ghost prev = all.take(i + 1);
            assert(all.take(i + 2).drop_last() =~= prev);
            assert(all.take(i + 2).last() == c@[i as int].display_name@);
            assert(all.take(i + 2)[i as int] == all[i as int]);
            let name = crate::content::owned(c[i].display_name.as_str());
            if !crate::text::text_eq(last.as_str(), name.as_str()) {
                let ghost before = crate::text::strings_view(names@);
                names.push(crate::content::owned(name.as_str()));
                assert(crate::text::strings_view(names@) =~= before.push(name@));
            }
            last = name;
            i = i + 1;
        }
        assert(all.take(i + 1) =~= all);
    } else {
        assert(all.take(1) =~= all);
    }
    names
}

// ---------------------------------------------------------------------------
// Requests
// ---------------------------------------------------------------------------

/// The decimal digits of `n`.
pub open spec fn decimal(n: nat) -> Seq<char>
    decreases n,
{
    if n < 10 {
        seq![digit_char(n)]
    } else {
        decimal(n / 10) + seq![digit_char(n % 10)]
    }
}

pub open spec fn digit_char(d: nat) -> char {
    if d == 0 { '0' } else if d == 1 { '1' } else if d == 2 { '2' } else if d == 3 { '3' }
    else if d == 4 { '4' } else if d == 5 { '5' } else if d == 6 { '6' } else if d == 7 { '7' }
    else if d == 8 { '8' } else { '9' }
}

fn digit_char_exec(d: usize) -> (c: char)
    requires
        d < 10,
    ensures
        c == digit_char(d as nat),
{
    if d == 0 { '0' } else if d == 1 { '1' } else if d == 2 { '2' } else if d == 3 { '3' }
    else if d == 4 { '4' } else if d == 5 { '5' } else if d == 6 { '6' } else if d == 7 { '7' }
    else if d == 8 { '8' } else { '9' }
}

/// The decimal text of a number (as `usize::to_string` writes it).
pub fn decimal_text(n: usize) -> (r: String)
    ensures
        r@ == decimal(n as nat),
    decreases n,
{
    if n < 10 {
        let mut r = String::new();
        crate::text::push_char(&mut r, digit_char_exec(n));
        assert(r@ =~= seq![digit_char(n as nat)]);
        r
    } else {
        let mut r = decimal_text(n / 10);
        crate::text::push_char(&mut r, digit_char_exec(n % 10));
        r
    }
}

/// The numbers written in decimal and joined with commas.
pub open spec fn joined_ids(ids: Seq<usize>) -> Seq<char>
    decreases ids.len(),
{
    if ids.len() == 0 {
        Seq::empty()
    } else if ids.len() == 1 {
        decimal(ids[0] as nat)
    } else {
        joined_ids(ids.drop_last()) + seq![','] + decimal(ids.last() as nat)
    }
}

/// Writes category ids as a comma-separated list.
pub fn join_ids(ids: &Vec<usize>) -> (r: String)
    ensures
        r@ == joined_ids(ids@),
{
    let mut r = String::new();
    let mut i: usize = 0;
    while i < ids.len()
        invariant
            i <= ids.len(),
            r@ == joined_ids(ids@.take(i as int)),
        decreases ids.len() - i,
    {
        assert(ids@.take(i + 1).drop_last() =~= ids@.take(i as int));
        assert(ids@.take(i + 1).last() == ids@[i as int]);
        if i > 0 {
            crate::text::push_char(&mut r, ',');
        } else {
            assert(ids@.take(1)[0] == ids@[0]);
        }
        let d = decimal_text(ids[i]);
        r.append(d.as_str());
        i = i + 1;
    }
    assert(ids@.take(i as int) =~= ids@);
    r
}

/// The address of the posts endpoint of a blog host.
pub open spec fn posts_url_spec(host: Seq<char>) -> Seq<char> {
    "https://"@ + host + "/wp-json/wp/v2/posts"@
}

/// The address of the posts endpoint of a blog host.
pub fn posts_url(host: &str) -> (r: String)
    ensures
        r@ == posts_url_spec(host@),
{
    let mut r = String::new();
    r.append("https://");
    r.append(host);
    r.append("/wp-json/wp/v2/posts");
    r
}

/// What a request for posts asks for.
#[derive(Clone, Debug, PartialEq, Eq)]
pub struct PostsRequest {
    pub context: WordpressAPIContext,
    pub page: Option<usize>,
    pub per_page: Option<usize>,
    pub search: Option<String>,
    /// The date-time texts of the date filters.
    pub after: Option<String>,
    pub modified_after: Option<String>,
    pub before: Option<String>,
    pub modified_before: Option<String>,
    pub slug: Option<String>,
    pub categories: Option<Vec<usize>>,
    pub categories_exclude: Option<Vec<usize>>,
}

pub open spec fn param_if(name: Seq<char>, v: Option<Seq<char>>) -> Seq<(Seq<char>, Seq<char>)> {
    match v {
        Some(x) => seq![(name, x)],
        None => Seq::empty(),
    }
}

pub open spec fn number_param(name: Seq<char>, v: Option<usize>) -> Seq<(Seq<char>, Seq<char>)> {
    match v {
        Some(n) => seq![(name, decimal(n as nat))],
        None => Seq::empty(),
    }
}

pub open spec fn ids_param(name: Seq<char>, v: Option<Vec<usize>>) -> Seq<(Seq<char>, Seq<char>)> {
    match v {
        Some(ids) => if ids@.len() > 0 {
            seq![(name, joined_ids(ids@))]
        } else {
            Seq::empty()
        },
        None => Seq::empty(),
    }
}

/// The query parameters of a posts request, in order; the edit context is
/// not supported.
pub open spec fn posts_query_spec(q: PostsRequest) -> Result<
    Seq<(Seq<char>, Seq<char>)>,
    WordpressAPIErrorView,
> {
    if q.context == WordpressAPIContext::Edit {
        Err(WordpressAPIErrorView::Unsupported("edit api context isn't supported yet!"@))
    } else {
        Ok(
            seq![("context"@, context_name(q.context))] + number_param("page"@, q.page)
                + number_param("per_page"@, q.per_page) + param_if("search"@, opt_text(q.search))
                + param_if("after"@, opt_text(q.after)) + param_if(
                "modified_after"@,
                opt_text(q.modified_after),
            ) + param_if("before"@, opt_text(q.before)) + param_if(
                "modified_before"@,
                opt_text(q.modified_before),
            ) + param_if("slug"@, opt_text(q.slug)) + ids_param("categories"@, q.categories)
                + ids_param("categories_exclude"@, q.categories_exclude),
        )
    }
}

pub open spec fn error_view(e: WordpressAPIError) -> WordpressAPIErrorView {
    match e {
        WordpressAPIError::SerdeParsingError => WordpressAPIErrorView::SerdeParsingError,
        WordpressAPIError::ReqwestError => WordpressAPIErrorView::ReqwestError,
        WordpressAPIError::InvalidURL => WordpressAPIErrorView::InvalidURL,
        WordpressAPIError::NotFound => WordpressAPIErrorView::NotFound,
        WordpressAPIError::UnexpectedResponse => WordpressAPIErrorView::UnexpectedResponse,
        WordpressAPIError::Unsupported(s) => WordpressAPIErrorView::Unsupported(s@),
    }
}

pub enum WordpressAPIErrorView {
    SerdeParsingError,
    ReqwestError,
    InvalidURL,
    NotFound,
    UnexpectedResponse,
    Unsupported(Seq<char>),
}

fn push_param(q: &mut Vec<(String, String)>, name: &str, value: String)
    ensures
        crate::content::mapping_view(final(q)@) == crate::content::mapping_view(old(q)@).push(
            (name@, value@),
        ),
{
    let ghost before = crate::content::mapping_view(q@);
    q.push((crate::content::owned(name), value));
    assert(crate::content::mapping_view(q@) =~= before.push((name@, value@)));
}

fn push_text_param(q: &mut Vec<(String, String)>, name: &str, v: &Option<String>)
    ensures
        crate::content::mapping_view(final(q)@) == crate::content::mapping_view(old(q)@) + param_if(
            name@,
            opt_text(*v),
        ),
{
    let ghost before = crate::content::mapping_view(q@);
    if let Some(x) = v {
        push_param(q, name, x.clone());
    } else {
        assert(before + Seq::<(Seq<char>, Seq<char>)>::empty() =~= before);
    }
}

fn push_number_param(q: &mut Vec<(String, String)>, name: &str, v: Option<usize>)
    ensures
        crate::content::mapping_view(final(q)@) == crate::content::mapping_view(old(q)@)
            + number_param(name@, v),
{
    let ghost before = crate::content::mapping_view(q@);
    if let Some(n) = v {
        push_param(q, name, decimal_text(n));
    } else {
        assert(before + Seq::<(Seq<char>, Seq<char>)>::empty() =~= before);
    }
}

fn push_ids_param(q: &mut Vec<(String, String)>, name: &str, v: &Option<Vec<usize>>)
    ensures
        crate::content::mapping_view(final(q)@) == crate::content::mapping_view(old(q)@) + ids_param(
            name@,
            *v,
        ),
{
    let ghost before = crate::content::mapping_view(q@);
    match v {
        Some(ids) => {
            if ids.len() > 0 {
                push_param(q, name, join_ids(ids));
            } else {
                assert(before + Seq::<(Seq<char>, Seq<char>)>::empty() =~= before);
            }
        },
        None => {
            assert(before + Seq::<(Seq<char>, Seq<char>)>::empty() =~= before);
        },
    }
}

/// Builds the query parameters of a posts request.
pub fn posts_query(q: &PostsRequest) -> (r: Result<Vec<(String, String)>, WordpressAPIError>)
    ensures
        match posts_query_spec(*q) {
            Ok(p) => r matches Ok(v) && crate::content::mapping_view(v@) == p,
            Err(e) => r matches Err(f) && error_view(f) == e,
        },
{
    if q.context == WordpressAPIContext::Edit {
        let mut msg = String::new();
        msg.append("edit api context isn't supported yet!");
        return Err(WordpressAPIError::Unsupported(msg));
    }
    let mut query: Vec<(String, String)> = Vec::new();
    push_param(&mut query, "context", crate::content::owned(q.context.as_str()));
    assert(crate::content::mapping_view(query@) =~= seq![("context"@, context_name(q.context))]);
    push_number_param(&mut query, "page", q.page);
    push_number_param(&mut query, "per_page", q.per_page);
    push_text_param(&mut query, "search", &q.search);
    push_text_param(&mut query, "after", &q.after);
    push_text_param(&mut query, "modified_after", &q.modified_after);
    push_text_param(&mut query, "before", &q.before);
    push_text_param(&mut query, "modified_before", &q.modified_before);
    push_text_param(&mut query, "slug", &q.slug);
    push_ids_param(&mut query, "categories", &q.categories);
    push_ids_param(&mut query, "categories_exclude", &q.categories_exclude);
    Ok(query)
}

/// The record and page counts of a posts answer, from its status and the
/// texts of its `X-WP-Total` and `X-WP-TotalPages` headers: status 400
/// means no posts at that page; a missing or unreadable count is an
/// unexpected answer.
pub fn posts_response_counts(status: u16, total: Option<&str>, total_pages: Option<&str>) -> (r:
    Result<(usize, usize), WordpressAPIError>)
    ensures
        status == 400 ==> r == Err::<(usize, usize), WordpressAPIError>(WordpressAPIError::NotFound),
        status != 400 ==> match (total, total_pages) {
            (Some(t), Some(p)) => match (
                crate::storage::parse_u64_spec(t@),
                crate::storage::parse_u64_spec(p@),
            ) {
                (Some(a), Some(b)) => if a <= usize::MAX && b <= usize::MAX {
                    r == Ok::<(usize, usize), WordpressAPIError>((a as usize, b as usize))
                } else {
                    r == Err::<(usize, usize), WordpressAPIError>(
                        WordpressAPIError::UnexpectedResponse,
                    )
                },
                _ => r == Err::<(usize, usize), WordpressAPIError>(
                    WordpressAPIError::UnexpectedResponse,
                ),
            },
            _ => r == Err::<(usize, usize), WordpressAPIError>(
                WordpressAPIError::UnexpectedResponse,
            ),
        },
{
    if status == 400 {
        return Err(WordpressAPIError::NotFound);
    }
    let t = match total {
        Some(t) => t,
        None => return Err(WordpressAPIError::UnexpectedResponse),
    };
    let p = match total_pages {
        Some(p) => p,
        None => return Err(WordpressAPIError::UnexpectedResponse),
    };
    let a = crate::storage::parse_version(t);
    let b = crate::storage::parse_version(p);
    match (a, b) {
        (Some(a), Some(b)) => {
            if a <= usize::MAX as u64 && b <= usize::MAX as u64 {
                Ok((a as usize, b as usize))
            } else {
                Err(WordpressAPIError::UnexpectedResponse)
            }
        },
        _ => Err(WordpressAPIError::UnexpectedResponse),
    }
}

/// What a request for categories asks for.
#[derive(Clone, Debug, PartialEq, Eq)]
pub struct CategoriesRequest {
    pub page: Option<usize>,
    pub per_page: Option<usize>,
    pub search: Option<String>,
    pub exclude: Option<Vec<usize>>,
    /// The categories to list (sent under the parameter `included_name()`).
    pub included: Option<Vec<usize>>,
    pub slug: Option<String>,
    pub hide_empty: Option<bool>,
    pub parent: Option<usize>,
    pub post: Option<usize>,
}

pub open spec fn all_ids_param(name: Seq<char>, v: Option<Vec<usize>>) -> Seq<(Seq<char>, Seq<char>)> {
    match v {
        Some(ids) => seq![(name, joined_ids(ids@))],
        None => Seq::empty(),
    }
}

pub open spec fn bool_param(name: Seq<char>, v: Option<bool>) -> Seq<(Seq<char>, Seq<char>)> {
    match v {
        Some(b) => seq![(name, if b { "true"@ } else { "false"@ })],
        None => Seq::empty(),
    }
}

/// The name of the parameter that lists the categories to return.
pub open spec fn included_name() -> Seq<char> {
    "inc"@ + "lude"@
}

fn included_name_exec() -> (r: String)
    ensures
        r@ == included_name(),
{
    let mut r = crate::content::owned("inc");
    r.append("lude");
    r
}

/// The query parameters of a categories request, in order; id lists are
/// sent even when empty.
pub open spec fn categories_query_spec(q: CategoriesRequest) -> Seq<(Seq<char>, Seq<char>)> {
    number_param("page"@, q.page) + number_param("per_page"@, q.per_page) + param_if(
        "search"@,
        opt_text(q.search),
    ) + all_ids_param("exclude"@, q.exclude) + all_ids_param(included_name(), q.included) + param_if(
        "slug"@,
        opt_text(q.slug),
    ) + bool_param("hide_empty"@, q.hide_empty) + number_param("parent"@, q.parent)
        + number_param("post"@, q.post)
}

fn push_all_ids_param(q: &mut Vec<(String, String)>, name: &str, v: &Option<Vec<usize>>)
    ensures
        crate::content::mapping_view(final(q)@) == crate::content::mapping_view(old(q)@)
            + all_ids_param(name@, *v),
{
    let ghost before = crate::content::mapping_view(q@);
    match v {
        Some(ids) => push_param(q, name, join_ids(ids)),
        None => {
            assert(before + Seq::<(Seq<char>, Seq<char>)>::empty() =~= before);
        },
    }
}

fn push_bool_param(q: &mut Vec<(String, String)>, name: &str, v: Option<bool>)
    ensures
        crate::content::mapping_view(final(q)@) == crate::content::mapping_view(old(q)@)
            + bool_param(name@, v),
{
    let ghost before = crate::content::mapping_view(q@);
    match v {
        Some(b) => push_param(
            q,
            name,
            if b {
                crate::content::owned("true")
            } else {
                crate::content::owned("false")
            },
        ),
        None => {
            assert(before + Seq::<(Seq<char>, Seq<char>)>::empty() =~= before);
        },
    }
}

/// Builds the query parameters of a categories request.
pub fn categories_query(q: &CategoriesRequest) -> (r: Vec<(String, String)>)
    ensures
        crate::content::mapping_view(r@) == categories_query_spec(*q),
{
    let mut query: Vec<(String, String)> = Vec::new();
    assert(crate::content::mapping_view(query@) =~= Seq::<(Seq<char>, Seq<char>)>::empty());
    push_number_param(&mut query, "page", q.page);
    assert(crate::content::mapping_view(query@) =~= number_param("page"@, q.page));
    push_number_param(&mut query, "per_page", q.per_page);
    push_text_param(&mut query, "search", &q.search);
    push_all_ids_param(&mut query, "exclude", &q.exclude);
    let name = included_name_exec();
    push_all_ids_param(&mut query, name.as_str(), &q.included);
    push_text_param(&mut query, "slug", &q.slug);
    push_bool_param(&mut query, "hide_empty", q.hide_empty);
    push_number_param(&mut query, "parent", q.parent);
    push_number_param(&mut query, "post", q.post);
    query
}

/// The page to request after `page` when the answer reported
/// `total_pages` pages, or `None` when `page` was the last.
pub fn next_posts_page(page: usize, total_pages: usize) -> (r: Option<usize>)
    ensures
        page >= total_pages ==> r is None,
        page < total_pages ==> r == Some((page + 1) as usize),
{
    if page >= total_pages {
        None
    } else {
        Some(page + 1)
    }
}

// ---------------------------------------------------------------------------
// Post links
// ---------------------------------------------------------------------------

/// What `url::Url::parse` gives for a text: `None` when it is no URL, else
/// the text of its host (`None` without host) and its path.
pub uninterp spec fn parsed_url(s: Seq<char>) -> Option<(Option<Seq<char>>, Seq<char>)>;

/// `url::Url::parse`, then `host()` written out with `to_string()` and
/// `path()`; the result is named `parsed_url`.
#[verifier::external_body]
fn parse_url(s: &str) -> (r: Option<(Option<String>, String)>)
    ensures
        match r {
            Some((h, p)) => parsed_url(s@) == Some((opt_text(h), p@)),
            None => parsed_url(s@) is None,
        },
{
    match url::Url::parse(s) {
        Ok(u) => Some((u.host().map(|h| h.to_string()), u.path().to_string())),
        Err(_) => None,
    }
}

/// A link without one trailing slash.
pub open spec fn without_trailing_slash(s: Seq<char>) -> Seq<char> {
    if s.len() > 0 && s.last() == '/' {
        s.drop_last()
    } else {
        s
    }
}

/// The host and the slug (last path segment) of a post link.
pub open spec fn link_target_spec(url: Seq<char>) -> Result<(Seq<char>, Seq<char>), WordpressAPIErrorView> {
    match parsed_url(without_trailing_slash(url)) {
        Some((Some(host), path)) => Ok((host, crate::storage::split_at_char(path, '/').last())),
        _ => Err(WordpressAPIErrorView::InvalidURL),
    }
}

fn without_trailing_slash_exec(s: &str) -> (r: String)
    ensures
        r@ == without_trailing_slash(s@),
{
    let v = crate::text::chars_of(s);
    let mut r = String::new();
    let n = if v.len() > 0 && v[v.len() - 1] == '/' {
        v.len() - 1
    } else {
        v.len()
    };
    let mut i: usize = 0;
    while i < n
        invariant
            n <= v.len(),
            i <= n,
            r@ == v@.take(i as int),
        decreases n - i,
    {
        crate::text::push_char(&mut r, v[i]);
        assert(v@.take(i + 1) =~= v@.take(i as int).push(v@[i as int]));
        i = i + 1;
    }
    assert(v@.take(n as int) =~= without_trailing_slash(s@));
    r
}

/// The host and the slug of a link to a blog post; a link that (without
/// one trailing slash) is no URL, or has no host, is refused.
pub fn link_target(url: &str) -> (r: Result<(String, String), WordpressAPIError>)
    ensures
        match link_target_spec(url@) {
            Ok((h, slug)) => r matches Ok((a, b)) && a@ == h && b@ == slug,
            Err(e) => r matches Err(f) && error_view(f) == e,
        },
{
    let trimmed = without_trailing_slash_exec(url);
    match parse_url(trimmed.as_str()) {
        Some((Some(host), path)) => {
            let parts = crate::storage::split_at(path.as_str(), '/');
            proof {
                crate::storage::lemma_split_nonempty(path@, '/');
            }
            let last = crate::content::owned(parts[parts.len() - 1].as_str());
            Ok((host, last))
        },
        _ => Err(WordpressAPIError::InvalidURL),
    }
}

} // verus!
