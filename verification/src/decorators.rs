//! Decoration: a strategy value wrapped around a base node replaces what the
//! node displays, without touching its structure.  At construction time a
//! decorator may also be inherited by each direct child, changing how the
//! children will render.

use vstd::prelude::*;
use crate::tree_node::{
    NodeModel, PlaceholderTreeNode, SimpleTreeNode, TreeNode, TreeNodeDecorator,
    lemma_model_parts, lemma_models_seq,
};

verus! {

/// A pluggable transformation of what a node displays.  `decorated_content`
/// yields the replacement text block; `wrap_child` is applied to each direct
/// child when the decorator is built with inheritance.
pub trait TreeNodeDecorationStrategy: Sized {
    fn decorated_content(&self) -> String;

    fn wrap_child(&self, child_node: TreeNode, index: usize) -> TreeNode;
}

/// Step-by-step constructor for a decorated node.
pub struct TreeNodeDecoratorBuilder<S: TreeNodeDecorationStrategy> {
    base_node: TreeNode,
    inherit: bool,
    decorable: bool,
    strategy: S,
}

impl TreeNodeDecorator {
    /// The shape of the wrapped base node.
    pub closed spec fn spec_base(&self) -> NodeModel {
        self.base_node@
    }

    /// Decorates `base_node` with the strategy, inheriting it to the direct
    /// children.
    pub fn new<S: TreeNodeDecorationStrategy>(base_node: TreeNode, strategy: S) -> (r: TreeNode)
        ensures
            r@.inset == base_node@.inset,
            r@.is_placeholder == base_node@.is_placeholder,
            r@.decorable == base_node@.decorable,
            !base_node@.decorable ==> r@.content == base_node@.content,
            r@.children.len() == base_node@.children.len(),
    {
        let b = TreeNodeDecorator::builder(base_node, strategy);
        b.build()
    }

    pub fn builder<S: TreeNodeDecorationStrategy>(base_node: TreeNode, strategy: S) -> (r:
        TreeNodeDecoratorBuilder<S>)
        ensures
            r.spec_base() == base_node@,
            r.spec_inherit(),
            r.spec_decorable() == base_node@.decorable,
    {
        let decorable = base_node.is_decorable();
        TreeNodeDecoratorBuilder { base_node, inherit: true, decorable, strategy }
    }

    /// The wrapped base node.
    pub fn decorated_tree_node(&self) -> (r: &TreeNode)
        ensures
            r@ == self.spec_base(),
    {
        &self.base_node
    }
}

/// Replaces every direct child by what the strategy wraps it into; nothing
/// else of the node changes, and the child count is kept.
fn wrap_children<S: TreeNodeDecorationStrategy>(node: TreeNode, strategy: &S) -> (r: TreeNode)
    ensures
        r@.content == node@.content,
        r@.inset == node@.inset,
        r@.decorable == node@.decorable,
        r@.is_placeholder == node@.is_placeholder,
        r@.children.len() == node@.children.len(),
    decreases node,
{
    let ghost nm = node@;
    proof {
        lemma_model_parts(node);
    }
    match node {
        TreeNode::Simple(s) => {
            let SimpleTreeNode { content, inset, children } = s;
            proof {
                lemma_models_seq(children@);
            }
            let wrapped = wrap_list(children, strategy);
            let r = TreeNode::Simple(SimpleTreeNode { content, inset, children: wrapped });
            proof {
                lemma_model_parts(r);
                lemma_models_seq(wrapped@);
            }
            r
        },
        TreeNode::Placeholder(p) => {
            let PlaceholderTreeNode { children } = p;
            proof {
                lemma_models_seq(children@);
            }
            let wrapped = wrap_list(children, strategy);
            let r = TreeNode::Placeholder(PlaceholderTreeNode { children: wrapped });
            proof {
                lemma_model_parts(r);
                lemma_models_seq(wrapped@);
            }
            r
        },
        TreeNode::Decorated(d) => {
            let TreeNodeDecorator { base_node, decorable, content } = d;
            let new_base = wrap_children(*base_node, strategy);
            let r = TreeNode::Decorated(
                TreeNodeDecorator { base_node: Box::new(new_base), decorable, content },
            );
            proof {
                lemma_model_parts(r);
            }
            r
        },
    }
}

/// Applies the strategy to each node of the list, in order, with its index.
fn wrap_list<S: TreeNodeDecorationStrategy>(children: Vec<TreeNode>, strategy: &S) -> (r: Vec<
    TreeNode,
>)
    ensures
        r@.len() == children@.len(),
{
    let mut rest = children;
    let mut wrapped: Vec<TreeNode> = Vec::new();
    let total = rest.len();
    let mut index: usize = 0;
    while rest.len() > 0
        invariant
            wrapped@.len() == index,
            index + rest@.len() == total,
            total <= usize::MAX,
        decreases rest@.len(),
    {
        let child = rest.remove(0);
        let new_child = strategy.wrap_child(child, index);
        wrapped.push(new_child);
        index += 1;
    }
    wrapped
}

impl<S: TreeNodeDecorationStrategy> TreeNodeDecoratorBuilder<S> {
    /// The base node this builder decorates.
    pub closed spec fn spec_base(&self) -> NodeModel {
        self.base_node@
    }

    /// Whether the strategy will be applied to each direct child as well.
    pub closed spec fn spec_inherit(&self) -> bool {
        self.inherit
    }

    /// Whether the decorated node will report itself decorable.
    pub closed spec fn spec_decorable(&self) -> bool {
        self.decorable
    }

    pub fn inherit(&mut self, inherit: bool)
        ensures
            final(self).spec_base() == old(self).spec_base(),
            final(self).spec_inherit() == inherit,
            final(self).spec_decorable() == old(self).spec_decorable(),
    {
        self.inherit = inherit;
    }

    pub fn decorable(&mut self, decorable: bool)
        ensures
            final(self).spec_base() == old(self).spec_base(),
            final(self).spec_inherit() == old(self).spec_inherit(),
            final(self).spec_decorable() == decorable,
    {
        self.decorable = decorable;
    }

    /// Builds the decorated node: the strategy's content replaces the base's
    /// when the base is decorable, the base's content is passed through
    /// otherwise; with inheritance every direct child is wrapped, keeping
    /// the child count.
    pub fn build(self) -> (r: TreeNode)
        ensures
            r@.inset == self.spec_base().inset,
            r@.is_placeholder == self.spec_base().is_placeholder,
            r@.decorable == self.spec_decorable(),
            !self.spec_base().decorable ==> r@.content == self.spec_base().content,
            r@.children.len() == self.spec_base().children.len(),
    {
        let ghost bm = self.spec_base();
        let TreeNodeDecoratorBuilder { base_node, inherit, decorable, strategy } = self;
        proof {
            assert(base_node@ == bm);
        }
        let content = if base_node.is_decorable() {
            strategy.decorated_content()
        } else {
            base_node.content()
        };
        let new_base = if inherit {
            wrap_children(base_node, &strategy)
        } else {
            base_node
        };
        let r = TreeNode::Decorated(
            TreeNodeDecorator { base_node: Box::new(new_base), decorable, content },
        );
        proof {
            lemma_model_parts(r);
        }
        r
    }
}

} // verus!
