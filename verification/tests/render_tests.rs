use tree_printer::aligner::{Aligner, DefaultAligner};
use tree_printer::config::HorizontalAlign;
use tree_printer::liner::DefaultLiner;
use tree_printer::printer::{Position, TraditionalTreePrinter, TreePrinter};
use tree_printer::text::LineBuffer;
use tree_printer::tree_node::{PlaceholderTreeNode, SimpleTreeNode, flatten};
use tree_printer::util::content_dimension;

fn two_child_tree() -> tree_printer::tree_node::TreeNode {
    let mut root = SimpleTreeNode::new("R");
    root.add_child(SimpleTreeNode::new("A"));
    root.add_child(SimpleTreeNode::new("BB"));
    root
}

fn ascii_bracket_only_liner() -> DefaultLiner {
    let mut b = DefaultLiner::builder();
    b.ascii();
    b.top_height(0);
    b.bottom_height(0);
    b.display_bracket(true);
    b.build()
}

#[test]
fn center_aligned_two_child_scenario() {
    // root "R" over children "A" and "BB": span 1 + gap 1 + 2 = 4
    let printer = TraditionalTreePrinter::new(
        DefaultAligner::new(HorizontalAlign::Center, 1),
        ascii_bracket_only_liner(),
        false,
    );
    let rows = printer.print(two_child_tree()).unwrap();
    assert_eq!(rows.len(), 3);
    assert_eq!(rows[0], " R");
    assert_eq!(rows[1], " __ ");
    assert_eq!(rows[2], "A BB");
}

#[test]
fn rendering_twice_is_byte_identical() {
    let printer = TraditionalTreePrinter::new(
        DefaultAligner::new(HorizontalAlign::Center, 1),
        DefaultLiner::new_ascii(),
        false,
    );
    let first = printer.print(two_child_tree()).unwrap();
    let second = printer.print(two_child_tree()).unwrap();
    assert_eq!(first.join("\n").into_bytes(), second.join("\n").into_bytes());
}

#[test]
fn placeholder_only_children_render_as_leaf_when_disabled() {
    let mut root = SimpleTreeNode::new("R");
    root.add_child(PlaceholderTreeNode::new());
    let printer = TraditionalTreePrinter::new(
        DefaultAligner::new(HorizontalAlign::Center, 1),
        DefaultLiner::new_ascii(),
        false,
    );
    let rows = printer.print(root).unwrap();
    // the placeholder still reserves the span, but no connector row is drawn
    assert_eq!(rows, vec!["     R".to_string()]);
}

#[test]
fn placeholder_renders_with_connector_when_enabled() {
    let mut root = SimpleTreeNode::new("R");
    root.add_child(PlaceholderTreeNode::new());
    let printer = TraditionalTreePrinter::new(
        DefaultAligner::new(HorizontalAlign::Center, 1),
        DefaultLiner::new_ascii(),
        true,
    );
    let rows = printer.print(root).unwrap();
    assert_eq!(
        rows,
        vec![
            "     R".to_string(),
            "     |".to_string(),
            "     |".to_string(),
            "PLACEHOLDER".to_string(),
        ]
    );
}

#[test]
fn flush_horizon_waits_for_the_taller_child() {
    // root with children of heights 1 and 2: after the first layer only rows
    // above the shorter child's bottom edge are emitted
    let mut root = SimpleTreeNode::new("R");
    root.add_child(SimpleTreeNode::new("A"));
    root.add_child(SimpleTreeNode::new("B\nB"));
    let printer = TraditionalTreePrinter::new(
        DefaultAligner::new(HorizontalAlign::Center, 1),
        DefaultLiner::new_ascii(),
        false,
    );
    let arena = flatten(&root);
    let aligner = DefaultAligner::new(HorizontalAlign::Center, 1);
    let (width_map, root_width) = aligner.collect_widths(&arena).unwrap();
    let root_id = arena.len() - 1;
    let (rcw, rch) = content_dimension("R").unwrap();
    let placement = aligner.align_node(0, root_width, rcw);
    let mut buffer = LineBuffer::new();
    buffer.write(
        tree_printer::text::LinePosition::new(0, placement.left),
        "R",
    );
    buffer.flush_all();
    let positions = vec![(
        root_id,
        Position {
            row: 0,
            col: 0,
            connection: placement.bottom_connection,
            left: placement.left,
            height: rch,
        },
    )];
    let next = printer
        .print_next_generation(&mut buffer, &arena, &width_map, &positions)
        .unwrap();
    assert_eq!(next.len(), 2);
    // connector rows 1 and 2, children start at row 3; "A" ends at row 4,
    // "B\nB" at row 5: the buffer must stand at 4 with one row pending
    assert_eq!(buffer.flushed_row_count(), 4);
    assert_eq!(buffer.pending_rows().len(), 1);
}

#[test]
fn default_printer_uses_box_drawing_glyphs() {
    let printer = TraditionalTreePrinter::default();
    let rows = printer.print(two_child_tree()).unwrap();
    assert_eq!(rows.len(), 4);
    assert_eq!(rows[0], " R");
    assert!(rows[1].contains('\u{2534}') || rows[1].contains('\u{252c}') || rows[1].contains('\u{2500}'));
    assert_eq!(rows[3], "A BB");
}

#[test]
fn mapping_printer_applies_the_mapper_first() {
    let inner = TraditionalTreePrinter::new(
        DefaultAligner::new(HorizontalAlign::Center, 1),
        ascii_bracket_only_liner(),
        false,
    );
    let mapping = tree_printer::printer::MappingTreePrinter::new(inner, |t| t);
    let rows = mapping.print(two_child_tree()).unwrap();
    assert_eq!(rows, vec![" R".to_string(), " __ ".to_string(), "A BB".to_string()]);
}

#[test]
fn multi_line_content_blocks_are_stacked() {
    let mut root = SimpleTreeNode::new("RR\nRR");
    root.add_child(SimpleTreeNode::new("A"));
    let printer = TraditionalTreePrinter::new(
        DefaultAligner::new(HorizontalAlign::Center, 1),
        ascii_bracket_only_liner(),
        false,
    );
    let rows = printer.print(root).unwrap();
    assert_eq!(rows, vec![
        "RR".to_string(),
        "RR".to_string(),
        " |".to_string(),
        "A".to_string(),
    ]);
}

#[test]
fn left_alignment_keeps_content_at_the_span_start() {
    let printer = TraditionalTreePrinter::new(
        DefaultAligner::new(HorizontalAlign::Left, 1),
        ascii_bracket_only_liner(),
        false,
    );
    let rows = printer.print(two_child_tree()).unwrap();
    assert_eq!(rows[0], "R");
    assert_eq!(rows[2], "A BB");
}

#[test]
fn row_count_follows_the_deepest_path() {
    // heights: root 1, connector 2, tallest child 2: five rows in all
    let mut root = SimpleTreeNode::new("R");
    root.add_child(SimpleTreeNode::new("A"));
    root.add_child(SimpleTreeNode::new("B\nB"));
    let printer = TraditionalTreePrinter::new(
        DefaultAligner::new(HorizontalAlign::Center, 1),
        DefaultLiner::new_ascii(),
        false,
    );
    let rows = printer.print(root).unwrap();
    assert_eq!(rows.len(), 5);
}

#[test]
fn width_map_holds_content_and_span_widths() {
    let arena = flatten(&two_child_tree());
    let aligner = DefaultAligner::new(HorizontalAlign::Center, 1);
    let (width_map, root_width) = aligner.collect_widths(&arena).unwrap();
    // children before the root: "A", "BB", then "R" over span 1 + 1 + 2
    assert_eq!(width_map, vec![1, 2, 4]);
    assert_eq!(root_width, 4);
}
