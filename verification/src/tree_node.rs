//! The tree that gets rendered: a closed set of node variants behind one
//! capability interface (content, children, insets, decorability,
//! placeholder-ness), plus the flat arena form the layout passes work on.
//! Node identity is a slot index into the arena, assigned when the tree is
//! flattened; two nodes with equal text are still distinct slots.

use vstd::prelude::*;
use crate::config::Inset;

verus! {

/// The mathematical shape of a node: what the renderer may depend on.
#[verifier::ext_equal]
pub struct NodeModel {
    pub content: Seq<char>,
    pub inset: Inset,
    pub decorable: bool,
    pub is_placeholder: bool,
    pub children: Seq<NodeModel>,
}

/// A plain node: an owned text block, an inset and an ordered list of
/// exclusively-owned children.
pub struct SimpleTreeNode {
    pub(crate) content: String,
    pub(crate) inset: Inset,
    pub(crate) children: Vec<TreeNode>,
}

/// A stand-in node reserving visual space without a real subtree.
pub struct PlaceholderTreeNode {
    pub(crate) children: Vec<TreeNode>,
}

/// A node whose displayed content was produced by a decoration strategy
/// wrapped around a base node; see [`crate::decorators`].
pub struct TreeNodeDecorator {
    pub(crate) base_node: Box<TreeNode>,
    pub(crate) decorable: bool,
    pub(crate) content: String,
}

/// A node of the input tree.
pub enum TreeNode {
    Simple(SimpleTreeNode),
    Placeholder(PlaceholderTreeNode),
    Decorated(TreeNodeDecorator),
}

impl TreeNode {
    /// The node's mathematical shape; for a decorated node, the base node's
    /// shape with the decorated text and decorability in its place.
    pub closed spec fn model(&self) -> NodeModel
        decreases self, 1int,
    {
        match self {
            TreeNode::Simple(s) => NodeModel {
                content: s.content@,
                inset: s.inset,
                decorable: true,
                is_placeholder: false,
                children: models_seq(s.children@),
            },
            TreeNode::Placeholder(p) => NodeModel {
                content: "PLACEHOLDER"@,
                inset: Inset { top: 0, right: 0, bottom: 0, left: 0 },
                decorable: false,
                is_placeholder: true,
                children: models_seq(p.children@),
            },
            TreeNode::Decorated(d) => NodeModel {
                content: d.content@,
                inset: d.base_node.model().inset,
                decorable: d.decorable,
                is_placeholder: d.base_node.model().is_placeholder,
                children: d.base_node.model().children,
            },
        }
    }
}

/// The models of a list of nodes.
pub closed spec fn models_seq(s: Seq<TreeNode>) -> Seq<NodeModel>
    decreases s, 0int,
{
    if s.len() == 0 {
        Seq::empty()
    } else {
        models_seq(s.drop_last()).push(s.last().model())
    }
}

/// How each variant's shape reads off its fields.
pub(crate) proof fn lemma_model_parts(n: TreeNode)
    ensures
        match n {
            TreeNode::Simple(s) => n@ == (NodeModel {
                content: s.content@,
                inset: s.inset,
                decorable: true,
                is_placeholder: false,
                children: models_seq(s.children@),
            }),
            TreeNode::Placeholder(p) => n@ == (NodeModel {
                content: "PLACEHOLDER"@,
                inset: Inset { top: 0, right: 0, bottom: 0, left: 0 },
                decorable: false,
                is_placeholder: true,
                children: models_seq(p.children@),
            }),
            TreeNode::Decorated(d) => n@ == (NodeModel {
                content: d.content@,
                inset: d.base_node@.inset,
                decorable: d.decorable,
                is_placeholder: d.base_node@.is_placeholder,
                children: d.base_node@.children,
            }),
        },
{
}

/// `models_seq` is the pointwise model of the list.
pub proof fn lemma_models_seq(s: Seq<TreeNode>)
    ensures
        models_seq(s).len() == s.len(),
        forall|i: int| 0 <= i < s.len() ==> #[trigger] models_seq(s)[i] == s[i]@,
    decreases s.len(),
{
    if s.len() > 0 {
        lemma_models_seq(s.drop_last());
        assert forall|i: int| 0 <= i < s.len() implies #[trigger] models_seq(s)[i] == s[i]@ by {
            if i < s.len() - 1 {
                assert(models_seq(s.drop_last())[i] == s.drop_last()[i]@);
                assert(s.drop_last()[i] == s[i]);
            } else {
                assert(models_seq(s)[i] == s.last().model());
            }
        }
    }
}

/// The models of a list of nodes.
pub open spec fn node_views(s: Seq<TreeNode>) -> Seq<NodeModel> {
    s.map_values(|n: TreeNode| n@)
}

/// The two list models agree.
pub proof fn lemma_node_views(s: Seq<TreeNode>)
    ensures
        node_views(s) == models_seq(s),
{
    lemma_models_seq(s);
    assert(node_views(s) =~= models_seq(s));
}

impl View for TreeNode {
    type V = NodeModel;

    open spec fn view(&self) -> NodeModel {
        self.model()
    }
}

impl TreeNode {
    /// The node's displayed text block.
    pub fn content(&self) -> (r: String)
        ensures
            r@ == self@.content,
    {
        match self {
            TreeNode::Simple(s) => s.content.clone(),
            TreeNode::Placeholder(_) => {
                let r = placeholder_content();
                r
            },
            TreeNode::Decorated(d) => d.content.clone(),
        }
    }

    /// The node's ordered child list.
    pub fn children(&self) -> (r: &Vec<TreeNode>)
        ensures
            node_views(r@) == self@.children,
        decreases *self,
    {
        match self {
            TreeNode::Simple(s) => {
                proof {
                    lemma_node_views(s.children@);
                }
                &s.children
            },
            TreeNode::Placeholder(p) => {
                proof {
                    lemma_node_views(p.children@);
                }
                &p.children
            },
            TreeNode::Decorated(d) => d.base_node.children(),
        }
    }

    /// The padding recorded around the node's content.
    pub fn insets(&self) -> (r: Inset)
        ensures
            r == self@.inset,
        decreases *self,
    {
        match self {
            TreeNode::Simple(s) => s.inset,
            TreeNode::Placeholder(_) => Inset { top: 0, right: 0, bottom: 0, left: 0 },
            TreeNode::Decorated(d) => d.base_node.insets(),
        }
    }

    /// Whether a decoration strategy may replace this node's content.
    pub fn is_decorable(&self) -> (r: bool)
        ensures
            r == self@.decorable,
    {
        match self {
            TreeNode::Simple(_) => true,
            TreeNode::Placeholder(_) => false,
            TreeNode::Decorated(d) => d.decorable,
        }
    }

    /// Whether this node only reserves space.
    pub fn is_placeholder(&self) -> (r: bool)
        ensures
            r == self@.is_placeholder,
        decreases *self,
    {
        match self {
            TreeNode::Simple(_) => false,
            TreeNode::Placeholder(_) => true,
            TreeNode::Decorated(d) => d.base_node.is_placeholder(),
        }
    }
}

/// The fixed text block of a placeholder node.
fn placeholder_content() -> (r: String)
    ensures
        r@ == "PLACEHOLDER"@,
{
    let r = String::from_str("PLACEHOLDER");
    r
}

impl SimpleTreeNode {
    /// A childless node with the given text and inset.
    pub fn with_inset(content: &str, inset: Inset) -> (r: TreeNode)
        ensures
            r@ == (NodeModel {
                content: content@,
                inset,
                decorable: true,
                is_placeholder: false,
                children: Seq::empty(),
            }),
    {
        let r = TreeNode::Simple(
            SimpleTreeNode { content: content.to_owned(), inset, children: Vec::new() },
        );
        proof {
            assert(r matches TreeNode::Simple(s) && s.children@ == Seq::<TreeNode>::empty());
            assert(r@.content == content@);
            assert(models_seq(Seq::<TreeNode>::empty()) == Seq::<NodeModel>::empty());
            assert(r@.children == models_seq(Seq::<TreeNode>::empty()));
            assert(r@.children == Seq::<NodeModel>::empty());
        }
        r
    }

    /// A childless node with the given text and no padding.
    pub fn new(content: &str) -> (r: TreeNode)
        ensures
            r@ == (NodeModel {
                content: content@,
                inset: Inset { top: 0, right: 0, bottom: 0, left: 0 },
                decorable: true,
                is_placeholder: false,
                children: Seq::empty(),
            }),
    {
        SimpleTreeNode::with_inset(content, Inset { top: 0, right: 0, bottom: 0, left: 0 })
    }
}

impl PlaceholderTreeNode {
    /// A fresh placeholder.
    pub fn new() -> (r: TreeNode)
        ensures
            r@ == (NodeModel {
                content: "PLACEHOLDER"@,
                inset: Inset { top: 0, right: 0, bottom: 0, left: 0 },
                decorable: false,
                is_placeholder: true,
                children: Seq::empty(),
            }),
    {
        let r = TreeNode::Placeholder(PlaceholderTreeNode { children: Vec::new() });
        proof {
            assert(r@.children == models_seq(Seq::<TreeNode>::empty()));
            assert(r@.children == Seq::<NodeModel>::empty());
        }
        r
    }
}

impl TreeNode {
    /// Appends one child; a decorated node hands it on to its base node.
    pub fn add_child(&mut self, child: TreeNode)
        ensures
            final(self)@ == (NodeModel {
                children: old(self)@.children.push(child@),
                ..old(self)@
            }),
            final(self)@.children == old(self)@.children.push(child@),
        decreases *old(self),
    {
        let ghost cm = child@;
        match self {
            TreeNode::Simple(s) => {
                let ghost before = s.children@;
                s.children.push(child);
                proof {
                    assert(s.children@.drop_last() =~= before);
                    assert(s.children@.last()@ == cm);
                    assert(models_seq(s.children@) == models_seq(before).push(cm));
                }
            },
            TreeNode::Placeholder(p) => {
                let ghost before = p.children@;
                p.children.push(child);
                proof {
                    assert(p.children@.drop_last() =~= before);
                    assert(p.children@.last()@ == cm);
                    assert(models_seq(p.children@) == models_seq(before).push(cm));
                }
            },
            TreeNode::Decorated(d) => {
                d.base_node.add_child(child);
            },
        }
    }

    /// Appends every node of the list as a child, in order.
    pub fn add_children(&mut self, children: Vec<TreeNode>)
        ensures
            final(self)@ == (NodeModel {
                children: old(self)@.children + node_views(children@),
                ..old(self)@
            }),
    {
        let mut rest = children;
        let ghost orig = rest@;
        proof {
            assert(old(self)@.children + node_views(orig).take(0) =~= old(self)@.children);
            assert(rest@ =~= orig.subrange(0, orig.len() as int));
        }
        while rest.len() > 0
            invariant
                rest@.len() <= orig.len(),
                rest@ == orig.subrange(orig.len() - rest@.len(), orig.len() as int),

                self@ == (NodeModel {
                    children: old(self)@.children + node_views(orig).take(
                        orig.len() - rest@.len(),
                    ),
                    ..old(self)@
                }),
            decreases rest@.len(),
        {
            let ghost k = orig.len() - rest@.len();
            let child = rest.remove(0);
            proof {
                assert(child@ == orig[k]@);
                assert(rest@ =~= orig.subrange(k + 1, orig.len() as int));
                assert((old(self)@.children + node_views(orig).take(k)).push(child@)
                    =~= old(self)@.children + node_views(orig).take(k + 1));
            }
            self.add_child(child);
        }
        proof {
            assert(node_views(orig).take(orig.len() as int) =~= node_views(orig));
        }
    }
}

/// One slot of the flattened tree: the node's effective text, the slot
/// indices of its children, and whether it is a placeholder.  Children sit at
/// lower indices than their parent: the arena is built bottom-up.
pub struct FlatNode {
    pub content: String,
    pub children: Vec<usize>,
    pub is_placeholder: bool,
}

/// Well-formedness of an arena: every child index points below its parent.
pub open spec fn arena_wf(arena: Seq<FlatNode>) -> bool {
    forall|i: int, j: int|
        0 <= i < arena.len() && 0 <= j < arena[i].children@.len()
            ==> 0 <= #[trigger] arena[i].children@[j] < i
}

/// The same property over the arena's mathematical shape.
pub open spec fn arena_rec_wf(arena: Seq<FlatRec>) -> bool {
    forall|i: int, j: int|
        0 <= i < arena.len() && 0 <= j < arena[i].children.len()
            ==> 0 <= #[trigger] arena[i].children[j] < i
}

/// How one arena slot's shape reads off the slot itself.
pub proof fn lemma_flat_views_index(s: Seq<FlatNode>, i: int)
    requires
        0 <= i < s.len(),
    ensures
        flat_views(s)[i].content == s[i].content@,
        flat_views(s)[i].is_placeholder == s[i].is_placeholder,
        flat_views(s)[i].children.len() == s[i].children@.len(),
        forall|j: int|
            0 <= j < s[i].children@.len() ==> #[trigger] flat_views(s)[i].children[j] == s[i].children@[j] as int,
{
    assert(flat_views(s)[i] == (FlatRec {
        content: s[i].content@,
        children: s[i].children@.map_values(|c: usize| c as int),
        is_placeholder: s[i].is_placeholder,
    }));
}

/// A well-formed arena has a well-formed shape.
pub proof fn lemma_arena_wf_views(s: Seq<FlatNode>)
    requires
        arena_wf(s),
    ensures
        arena_rec_wf(flat_views(s)),
{
    assert forall|i: int, j: int|
        0 <= i < flat_views(s).len() && 0 <= j < flat_views(s)[i].children.len()
            implies 0 <= #[trigger] flat_views(s)[i].children[j] < i by {
        lemma_flat_views_index(s, i);
        assert(0 <= s[i].children@[j] < i);
    }
}

/// The mathematical shape of one arena slot.
#[verifier::ext_equal]
pub struct FlatRec {
    pub content: Seq<char>,
    pub children: Seq<int>,
    pub is_placeholder: bool,
}

/// The shapes of the arena's slots.
pub open spec fn flat_views(s: Seq<FlatNode>) -> Seq<FlatRec> {
    s.map_values(
        |f: FlatNode| FlatRec {
            content: f.content@,
            children: f.children@.map_values(|c: usize| c as int),
            is_placeholder: f.is_placeholder,
        },
    )
}

/// Number of arena slots a node's subtree occupies.
pub open spec fn spec_size(n: NodeModel) -> int
    decreases n, 1int,
{
    1 + spec_size_seq(n.children)
}

/// Number of arena slots a node list occupies.
pub open spec fn spec_size_seq(s: Seq<NodeModel>) -> int
    decreases s, 0int,
{
    if s.len() == 0 {
        0
    } else {
        spec_size(s[0]) + spec_size_seq(s.drop_first())
    }
}

/// The arena block of one node placed at slot `base`: first the blocks of its
/// children, left to right, then the node's own slot.
pub open spec fn spec_flat(n: NodeModel, base: int) -> Seq<FlatRec>
    decreases n, 1int,
{
    spec_flat_seq(n.children, base) + seq![
        FlatRec {
            content: n.content,
            children: spec_child_ids(n.children, base),
            is_placeholder: n.is_placeholder,
        },
    ]
}

/// The arena blocks of a node list starting at slot `base`.
pub open spec fn spec_flat_seq(s: Seq<NodeModel>, base: int) -> Seq<FlatRec>
    decreases s, 0int,
{
    if s.len() == 0 {
        Seq::empty()
    } else {
        spec_flat(s[0], base) + spec_flat_seq(s.drop_first(), base + spec_size(s[0]))
    }
}

/// The slot index of each node of the list: the last slot of its own block.
pub open spec fn spec_child_ids(s: Seq<NodeModel>, base: int) -> Seq<int> {
    Seq::new(s.len(), |j: int| base + spec_size_seq(s.take(j + 1)) - 1)
}

/// Every subtree occupies at least one slot.
pub proof fn lemma_size_pos(n: NodeModel)
    ensures
        spec_size(n) >= 1,
    decreases n, 1int,
{
    lemma_size_seq_nonneg(n.children);
}

/// A node list occupies at least one slot per node.
pub proof fn lemma_size_seq_nonneg(s: Seq<NodeModel>)
    ensures
        spec_size_seq(s) >= s.len(),
    decreases s, 0int,
{
    if s.len() > 0 {
        lemma_size_pos(s[0]);
        lemma_size_seq_nonneg(s.drop_first());
    }
}

/// Taking one more node adds exactly its size.
pub proof fn lemma_size_seq_take(s: Seq<NodeModel>, k: int)
    requires
        0 <= k < s.len(),
    ensures
        spec_size_seq(s.take(k + 1)) == spec_size_seq(s.take(k)) + spec_size(s[k]),
    decreases k,
{
    if k == 0 {
        assert(s.take(1).drop_first() =~= Seq::<NodeModel>::empty());
        assert(s.take(0) =~= Seq::<NodeModel>::empty());
        assert(s.take(1)[0] == s[0]);
    } else {
        lemma_size_seq_take(s.drop_first(), k - 1);
        assert(s.take(k + 1).drop_first() =~= s.drop_first().take(k));
        assert(s.take(k).drop_first() =~= s.drop_first().take(k - 1));
        assert(s.take(k + 1)[0] == s[0]);
        assert(s.take(k)[0] == s[0]);
    }
}

/// A node's block is as long as its size; a list's block as long as its
/// total size.
pub proof fn lemma_flat_len(n: NodeModel, base: int)
    ensures
        spec_flat(n, base).len() == spec_size(n),
    decreases n, 1int,
{
    lemma_flat_seq_len(n.children, base);
}

pub proof fn lemma_flat_seq_len(s: Seq<NodeModel>, base: int)
    ensures
        spec_flat_seq(s, base).len() == spec_size_seq(s),
    decreases s, 0int,
{
    if s.len() > 0 {
        lemma_flat_len(s[0], base);
        lemma_flat_seq_len(s.drop_first(), base + spec_size(s[0]));
    }
}

/// Appending the block of the next node extends a prefix block.
pub proof fn lemma_flat_seq_snoc(s: Seq<NodeModel>, base: int, k: int)
    requires
        0 <= k < s.len(),
    ensures
        spec_flat_seq(s.take(k + 1), base) == spec_flat_seq(s.take(k), base) + spec_flat(
            s[k],
            base + spec_size_seq(s.take(k)),
        ),
    decreases k,
{
    if k == 0 {
        assert(s.take(1)[0] == s[0]);
        assert(s.take(1).drop_first() =~= Seq::<NodeModel>::empty());
        assert(s.take(0) =~= Seq::<NodeModel>::empty());
        assert(spec_flat_seq(Seq::<NodeModel>::empty(), base + spec_size(s[0]))
            == Seq::<FlatRec>::empty());
        assert(spec_flat_seq(s.take(1), base) =~= spec_flat(s[0], base) + Seq::<FlatRec>::empty());
        assert(spec_flat(s[0], base) + Seq::<FlatRec>::empty() =~= spec_flat(s[0], base));
        assert(spec_flat_seq(s.take(0), base) + spec_flat(s[0], base) =~= spec_flat(s[0], base));
    } else {
        lemma_flat_seq_snoc(s.drop_first(), base + spec_size(s[0]), k - 1);
        assert(s.take(k + 1)[0] == s[0]);
        assert(s.take(k)[0] == s[0]);
        assert(s.take(k + 1).drop_first() =~= s.drop_first().take(k));
        assert(s.take(k).drop_first() =~= s.drop_first().take(k - 1));
        lemma_size_seq_take(s, k);
        assert(s.drop_first().take(k - 1) =~= s.take(k).drop_first());
        assert(s.drop_first()[k - 1] == s[k]);
        assert(spec_size_seq(s.take(k)) == spec_size(s[0]) + spec_size_seq(s.drop_first().take(
            k - 1,
        )));
        assert(spec_flat_seq(s.take(k + 1), base) == spec_flat(s[0], base) + (spec_flat_seq(
            s.drop_first().take(k - 1),
            base + spec_size(s[0]),
        ) + spec_flat(s[k], base + spec_size_seq(s.take(k)))));
        assert(spec_flat(s[0], base) + (spec_flat_seq(
            s.drop_first().take(k - 1),
            base + spec_size(s[0]),
        ) + spec_flat(s[k], base + spec_size_seq(s.take(k)))) =~= (spec_flat(s[0], base)
            + spec_flat_seq(s.drop_first().take(k - 1), base + spec_size(s[0]))) + spec_flat(
            s[k],
            base + spec_size_seq(s.take(k)),
        ));
    }
}


/// The total size of a list splits at any point.
pub proof fn lemma_size_seq_split(s: Seq<NodeModel>, k: int)
    requires
        0 <= k <= s.len(),
    ensures
        spec_size_seq(s) == spec_size_seq(s.take(k)) + spec_size_seq(s.skip(k)),
    decreases k,
{
    if k == 0 {
        assert(s.take(0) =~= Seq::<NodeModel>::empty());
        assert(s.skip(0) =~= s);
    } else {
        lemma_size_seq_split(s, k - 1);
        lemma_size_seq_take(s, k - 1);
        assert(s.skip(k - 1).len() > 0);
        assert(s.skip(k - 1)[0] == s[k - 1]);
        assert(s.skip(k - 1).drop_first() =~= s.skip(k));
    }
}

/// Within a node's block at `base`, every slot's child indices point at
/// earlier slots of the same block.
pub proof fn lemma_flat_wf(n: NodeModel, base: int)
    ensures
        forall|k: int, j: int|
            0 <= k < spec_flat(n, base).len() && 0 <= j < spec_flat(n, base)[k].children.len()
                ==> base <= #[trigger] spec_flat(n, base)[k].children[j] < base + k,
    decreases n, 1int,
{
    let blocks = spec_flat_seq(n.children, base);
    let own = FlatRec {
        content: n.content,
        children: spec_child_ids(n.children, base),
        is_placeholder: n.is_placeholder,
    };
    lemma_flat_seq_wf(n.children, base);
    lemma_flat_seq_len(n.children, base);
    assert forall|k: int, j: int|
        0 <= k < spec_flat(n, base).len() && 0 <= j < spec_flat(n, base)[k].children.len()
            implies base <= #[trigger] spec_flat(n, base)[k].children[j] < base + k by {
        if k < blocks.len() {
            assert(spec_flat(n, base)[k] == blocks[k]);
        } else {
            assert(spec_flat(n, base)[k] == own);
            lemma_size_seq_nonneg(n.children.take(j + 1));
            assert(n.children.take(j + 1).len() == j + 1);
            lemma_size_seq_split(n.children, j + 1);
            lemma_size_seq_nonneg(n.children.skip(j + 1));
            assert(own.children[j] == base + spec_size_seq(n.children.take(j + 1)) - 1);
        }
    }
}

/// Same statement for a list of blocks.
pub proof fn lemma_flat_seq_wf(s: Seq<NodeModel>, base: int)
    ensures
        forall|k: int, j: int|
            0 <= k < spec_flat_seq(s, base).len() && 0 <= j < spec_flat_seq(s, base)[k].children.len()
                ==> base <= #[trigger] spec_flat_seq(s, base)[k].children[j] < base + k,
    decreases s, 0int,
{
    if s.len() > 0 {
        let first = spec_flat(s[0], base);
        let rest = spec_flat_seq(s.drop_first(), base + spec_size(s[0]));
        lemma_flat_wf(s[0], base);
        lemma_flat_seq_wf(s.drop_first(), base + spec_size(s[0]));
        lemma_flat_len(s[0], base);
        lemma_size_pos(s[0]);
        assert forall|k: int, j: int|
            0 <= k < spec_flat_seq(s, base).len() && 0 <= j < spec_flat_seq(s, base)[k].children.len()
                implies base <= #[trigger] spec_flat_seq(s, base)[k].children[j] < base + k by {
            if k < first.len() {
                assert(spec_flat_seq(s, base)[k] == first[k]);
            } else {
                assert(spec_flat_seq(s, base)[k] == rest[k - first.len()]);
            }
        }
    }
}

/// Flattens a node list into the arena, left to right; returns the slot
/// index of each node of the list.
fn flatten_children(children: &Vec<TreeNode>, arena: &mut Vec<FlatNode>) -> (ids: Vec<usize>)
    ensures
        flat_views(final(arena)@) == flat_views(old(arena)@) + spec_flat_seq(
            models_seq(children@),
            old(arena)@.len() as int,
        ),
        final(arena)@.len() == old(arena)@.len() + spec_size_seq(models_seq(children@)),
        ids@.map_values(|u: usize| u as int) == spec_child_ids(
            models_seq(children@),
            old(arena)@.len() as int,
        ),
    decreases children@, 0int,
{
    let ghost cm = models_seq(children@);
    let ghost base = old(arena)@.len() as int;
    let mut ids: Vec<usize> = Vec::new();
    let mut i: usize = 0;
    proof {
        lemma_models_seq(children@);
        assert(cm.take(0) =~= Seq::<NodeModel>::empty());
        assert(flat_views(arena@) + spec_flat_seq(cm.take(0), base) =~= flat_views(arena@));
        assert(ids@.map_values(|u: usize| u as int) =~= spec_child_ids(cm, base).take(0));
    }
    while i < children.len()
        invariant
            i <= children@.len(),
            cm == models_seq(children@),
            cm.len() == children@.len(),
            base == old(arena)@.len() as int,
            flat_views(arena@) == flat_views(old(arena)@) + spec_flat_seq(cm.take(i as int), base),
            arena@.len() == old(arena)@.len() + spec_size_seq(cm.take(i as int)),
            ids@.len() == i,
            ids@.map_values(|u: usize| u as int) == spec_child_ids(cm, base).take(i as int),
        decreases children@.len() - i,
    {
        proof {
            assert(children@[i as int] == children[i as int]);
            lemma_size_seq_nonneg(cm.take(i as int));
        }
        let id = flatten_into(&children[i], arena);
        proof {
            lemma_models_seq(children@);
            assert(cm[i as int] == children@[i as int]@);
            lemma_flat_seq_snoc(cm, base, i as int);
            lemma_size_seq_take(cm, i as int);
            assert((flat_views(old(arena)@) + spec_flat_seq(cm.take(i as int), base)) + spec_flat(
                cm[i as int],
                base + spec_size_seq(cm.take(i as int)),
            ) =~= flat_views(old(arena)@) + spec_flat_seq(cm.take(i + 1), base));
            assert(id == base + spec_size_seq(cm.take(i + 1)) - 1);
            assert(spec_child_ids(cm, base)[i as int] == id as int);
            assert(ids@.push(id).map_values(|u: usize| u as int) =~= ids@.map_values(
                |u: usize| u as int,
            ).push(id as int));
            assert(ids@.map_values(|u: usize| u as int).push(id as int) =~= spec_child_ids(
                cm,
                base,
            ).take(i + 1));
        }
        ids.push(id);
        i += 1;
    }
    proof {
        assert(cm.take(cm.len() as int) =~= cm);
        assert(spec_child_ids(cm, base).take(cm.len() as int) =~= spec_child_ids(cm, base));
    }
    ids
}

/// Flattens one node's subtree into the arena; returns the node's own slot
/// index, the last of its block.
fn flatten_into(node: &TreeNode, arena: &mut Vec<FlatNode>) -> (id: usize)
    ensures
        flat_views(final(arena)@) == flat_views(old(arena)@) + spec_flat(
            node@,
            old(arena)@.len() as int,
        ),
        final(arena)@.len() == old(arena)@.len() + spec_size(node@),
        id == final(arena)@.len() - 1,
    decreases *node, 1int,
{
    let ghost base = old(arena)@.len() as int;
    match node {
        TreeNode::Simple(s) => {
            let ids = flatten_children(&s.children, arena);
            let rec = FlatNode { content: s.content.clone(), children: ids, is_placeholder: false };
            proof {
                let ghost before = arena@;
                assert(flat_views(before.push(rec)) =~= flat_views(before) + seq![
                    FlatRec {
                        content: rec.content@,
                        children: rec.children@.map_values(|c: usize| c as int),
                        is_placeholder: rec.is_placeholder,
                    },
                ]);
                assert((flat_views(old(arena)@) + spec_flat_seq(models_seq(s.children@), base))
                    + seq![
                    FlatRec {
                        content: rec.content@,
                        children: rec.children@.map_values(|c: usize| c as int),
                        is_placeholder: rec.is_placeholder,
                    },
                ] =~= flat_views(old(arena)@) + spec_flat(node@, base));
            }
            arena.push(rec);
            arena.len() - 1
        },
        TreeNode::Placeholder(p) => {
            let ids = flatten_children(&p.children, arena);
            let rec = FlatNode { content: placeholder_content(), children: ids, is_placeholder: true };
            proof {
                let ghost before = arena@;
                assert(flat_views(before.push(rec)) =~= flat_views(before) + seq![
                    FlatRec {
                        content: rec.content@,
                        children: rec.children@.map_values(|c: usize| c as int),
                        is_placeholder: rec.is_placeholder,
                    },
                ]);
                assert((flat_views(old(arena)@) + spec_flat_seq(models_seq(p.children@), base))
                    + seq![
                    FlatRec {
                        content: rec.content@,
                        children: rec.children@.map_values(|c: usize| c as int),
                        is_placeholder: rec.is_placeholder,
                    },
                ] =~= flat_views(old(arena)@) + spec_flat(node@, base));
            }
            arena.push(rec);
            arena.len() - 1
        },
        TreeNode::Decorated(d) => {
            let id = flatten_into(&d.base_node, arena);
            let fixed = FlatNode {
                content: d.content.clone(),
                children: arena[id].children.clone(),
                is_placeholder: arena[id].is_placeholder,
            };
            proof {
                let b = d.base_node@;
                assert(node@.children == b.children);
                assert(spec_size(node@) == spec_size(b));
                lemma_flat_len(b, base);
                lemma_flat_seq_len(b.children, base);
                assert(id == base + spec_size(b) - 1);
                assert(flat_views(arena@)[id as int] == spec_flat(b, base).last());
                assert(fixed.children@ == arena@[id as int].children@);
                assert(flat_views(arena@.update(id as int, fixed)) =~= (flat_views(old(arena)@)
                    + spec_flat(b, base)).update(
                    id as int,
                    FlatRec {
                        content: fixed.content@,
                        children: fixed.children@.map_values(|c: usize| c as int),
                        is_placeholder: fixed.is_placeholder,
                    },
                ));
                assert((flat_views(old(arena)@) + spec_flat(b, base)).update(
                    id as int,
                    FlatRec {
                        content: fixed.content@,
                        children: fixed.children@.map_values(|c: usize| c as int),
                        is_placeholder: fixed.is_placeholder,
                    },
                ) =~= flat_views(old(arena)@) + spec_flat(node@, base));
            }
            arena[id] = fixed;
            id
        },
    }
}

/// Flattens a tree into its arena form: children before parents, the root in
/// the last slot.  Slot indices are the node identities every later pass
/// keys its maps by.
pub fn flatten(root: &TreeNode) -> (arena: Vec<FlatNode>)
    ensures
        flat_views(arena@) == spec_flat(root@, 0),
        arena@.len() == spec_size(root@),
        arena@.len() >= 1,
        arena_wf(arena@),
{
    let mut arena: Vec<FlatNode> = Vec::new();
    proof {
        assert(flat_views(arena@) =~= Seq::<FlatRec>::empty());
    }
    let _root_id = flatten_into(root, &mut arena);
    proof {
        assert(Seq::<FlatRec>::empty() + spec_flat(root@, 0) =~= spec_flat(root@, 0));
        lemma_size_pos(root@);
        lemma_flat_wf(root@, 0);
        lemma_flat_len(root@, 0);
        assert forall|i: int, j: int|
            0 <= i < arena@.len() && 0 <= j < arena@[i].children@.len() implies 0 <= #[trigger] arena@[i].children@[j] < i by {
            assert(flat_views(arena@)[i].children[j] == arena@[i].children@[j] as int);
            assert(0 <= flat_views(arena@)[i].children[j] < i);
        }
    }
    arena
}

} // verus!
