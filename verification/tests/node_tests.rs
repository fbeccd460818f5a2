use tree_printer::config::Inset;
use tree_printer::decorators::TreeNodeDecorationStrategy;
use tree_printer::tree_node::TreeNodeDecorator;
use tree_printer::tree_node::{PlaceholderTreeNode, SimpleTreeNode, TreeNode, flatten};

struct Bracketed;

impl TreeNodeDecorationStrategy for Bracketed {
    fn decorated_content(&self) -> String {
        "[x]".to_string()
    }

    fn wrap_child(&self, child_node: TreeNode, _index: usize) -> TreeNode {
        child_node
    }
}

#[test]
fn simple_node_reports_its_capabilities() {
    let node = SimpleTreeNode::with_inset(
        "hello",
        Inset { top: 1, right: 0, bottom: 0, left: 2 },
    );
    assert_eq!(node.content(), "hello");
    assert_eq!(node.children().len(), 0);
    assert!(node.is_decorable());
    assert!(!node.is_placeholder());
    assert_eq!(node.insets(), Inset { top: 1, right: 0, bottom: 0, left: 2 });
}

#[test]
fn placeholder_reports_fixed_content() {
    let node = PlaceholderTreeNode::new();
    assert_eq!(node.content(), "PLACEHOLDER");
    assert!(!node.is_decorable());
    assert!(node.is_placeholder());
}

#[test]
fn add_children_appends_in_order() {
    let mut root = SimpleTreeNode::new("r");
    root.add_children(vec![
        SimpleTreeNode::new("a"),
        SimpleTreeNode::new("b"),
    ]);
    root.add_child(SimpleTreeNode::new("c"));
    let names: Vec<String> = root.children().iter().map(|c| c.content()).collect();
    assert_eq!(names, vec!["a".to_string(), "b".to_string(), "c".to_string()]);
}

#[test]
fn decorator_replaces_decorable_content() {
    let base = SimpleTreeNode::new("plain");
    let decorated = TreeNodeDecorator::new(base, Bracketed);
    assert_eq!(decorated.content(), "[x]");
    assert!(decorated.is_decorable());
}

#[test]
fn decorator_passes_non_decorable_content_through() {
    let base = PlaceholderTreeNode::new();
    let decorated = TreeNodeDecorator::new(base, Bracketed);
    assert_eq!(decorated.content(), "PLACEHOLDER");
    assert!(decorated.is_placeholder());
    assert!(!decorated.is_decorable());
}

#[test]
fn decorator_builder_controls_decorability_and_inheritance() {
    let mut base = SimpleTreeNode::new("base");
    base.add_child(SimpleTreeNode::new("kid"));
    let mut b = TreeNodeDecorator::builder(base, Bracketed);
    b.inherit(false);
    b.decorable(false);
    let node = b.build();
    assert!(!node.is_decorable());
    assert_eq!(node.content(), "[x]");
    assert_eq!(node.children().len(), 1);
    assert_eq!(node.children()[0].content(), "kid");
}

#[test]
fn flatten_assigns_children_lower_slots_than_parents() {
    let mut root = SimpleTreeNode::new("r");
    let mut mid = SimpleTreeNode::new("m");
    mid.add_child(SimpleTreeNode::new("x"));
    root.add_child(mid);
    root.add_child(SimpleTreeNode::new("y"));
    let arena = flatten(&root);
    assert_eq!(arena.len(), 4);
    let root_slot = arena.len() - 1;
    assert_eq!(arena[root_slot].content, "r");
    for (i, node) in arena.iter().enumerate() {
        for &c in node.children.iter() {
            assert!(c < i);
        }
    }
    assert_eq!(arena[root_slot].children.len(), 2);
}
