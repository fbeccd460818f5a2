use tree_printer::aligner::{Aligner, ConnectMode, DefaultAligner};
use tree_printer::liner::Liner;
use tree_printer::config::{HorizontalAlign, Inset};
use tree_printer::errors::RenderError;
use tree_printer::liner::DefaultLiner;
use tree_printer::text::LineBuffer;
use tree_printer::util::content_dimension;

#[test]
fn content_dimension_measures_characters_and_lines() {
    assert_eq!(content_dimension(""), Ok((0, 0)));
    assert_eq!(content_dimension("abc"), Ok((3, 1)));
    assert_eq!(content_dimension("ab\ncdef"), Ok((4, 2)));
    assert_eq!(content_dimension("ab\n"), Ok((2, 1)));
    assert_eq!(content_dimension("h\u{e9}llo"), Ok((5, 1)));
    assert_eq!(content_dimension("a\r\nb"), Ok((1, 2)));
}

#[test]
fn align_node_center_places_content_and_anchors() {
    let aligner = DefaultAligner::new(HorizontalAlign::Center, 1);
    let placement = aligner.align_node(10, 7, 3);
    assert_eq!(placement.left, 12);
    assert_eq!(placement.top_connection, 13);
    assert_eq!(placement.bottom_connection, 13);
}

#[test]
fn align_node_right_flushes_content_to_the_span_end() {
    let aligner = DefaultAligner::new(HorizontalAlign::Right, 1);
    let placement = aligner.align_node(10, 7, 3);
    assert_eq!(placement.left, 14);
    assert_eq!(placement.top_connection, 16);
}

#[test]
fn align_node_clamps_the_content_offset() {
    let mut b = DefaultAligner::builder();
    b.align(HorizontalAlign::Left);
    b.content_offset(100);
    b.gap(1);
    let aligner = b.build();
    let placement = aligner.align_node(0, 10, 4);
    // the offset pushes past the span; the left edge is clamped back
    assert_eq!(placement.left, 6);
}

#[test]
fn context_anchors_ignore_the_content() {
    let mut b = DefaultAligner::builder();
    b.align(HorizontalAlign::Left);
    b.top_connection_align(HorizontalAlign::Right);
    b.top_connection_connect(ConnectMode::Context);
    b.gap(1);
    let aligner = b.build();
    let placement = aligner.align_node(0, 10, 4);
    assert_eq!(placement.left, 0);
    assert_eq!(placement.top_connection, 9);
}

#[test]
fn align_children_lays_spans_left_to_right_with_gaps() {
    let aligner = DefaultAligner::new(HorizontalAlign::Left, 1);
    // node 2 is the parent of nodes 0 and 1
    let width_map: Vec<u32> = vec![1, 2, 4];
    let cols = aligner.align_children(2, &vec![0, 1], 5, &width_map).unwrap();
    assert_eq!(cols, vec![5, 7]);
}

#[test]
fn align_children_centers_a_narrow_child_list() {
    let aligner = DefaultAligner::new(HorizontalAlign::Center, 1);
    // children span 1, parent spans 5: the slack of 4 shifts them by 2
    let width_map: Vec<u32> = vec![1, 5];
    let cols = aligner.align_children(1, &vec![0], 0, &width_map).unwrap();
    assert_eq!(cols, vec![2]);
}

#[test]
fn align_children_reports_a_missing_width() {
    let aligner = DefaultAligner::new(HorizontalAlign::Center, 1);
    let width_map: Vec<u32> = vec![1];
    assert_eq!(
        aligner.align_children(5, &vec![0], 0, &width_map),
        Err(RenderError::GeometryLookup)
    );
    assert_eq!(
        aligner.align_children(0, &vec![7], 0, &width_map),
        Err(RenderError::GeometryLookup)
    );
}

#[test]
fn align_children_reports_an_overflowing_column() {
    let aligner = DefaultAligner::new(HorizontalAlign::Center, 1);
    let width_map: Vec<u32> = vec![u32::MAX, u32::MAX];
    assert_eq!(
        aligner.align_children(1, &vec![0], u32::MAX, &width_map),
        Err(RenderError::NumericRange)
    );
}

#[test]
fn connector_needs_at_least_one_child_anchor() {
    let liner = DefaultLiner::new_ascii();
    let mut buffer = LineBuffer::new();
    assert_eq!(
        liner.print_connections(&mut buffer, 0, 3, &vec![]),
        Err(RenderError::MalformedConnector)
    );
    assert_eq!(buffer.pending_rows().len(), 0);
}

#[test]
fn connector_draws_bracket_and_stubs() {
    let mut b = DefaultLiner::builder();
    b.ascii();
    b.top_height(1);
    b.bottom_height(1);
    let liner = b.build();
    let mut buffer = LineBuffer::new();
    let rows = liner
        .print_connections(&mut buffer, 0, 2, &vec![0, 4])
        .unwrap();
    assert_eq!(rows, 3);
    let pending = buffer.pending_rows().clone();
    assert_eq!(pending[0], "  |");
    assert_eq!(pending[1], " ___ ");
    assert_eq!(pending[2], "|   |");
}

#[test]
fn inset_builder_collects_all_four_sides() {
    let mut b = Inset::builder();
    b.top(1);
    b.right(2);
    b.bottom(3);
    b.left(4);
    let inset = b.build();
    assert_eq!(
        inset,
        Inset { top: 1, right: 2, bottom: 3, left: 4 }
    );
    assert_eq!(Inset::empty(), Inset { top: 0, right: 0, bottom: 0, left: 0 });
}

#[test]
fn liner_builder_overrides_single_glyphs() {
    let mut b = DefaultLiner::builder();
    b.ascii();
    b.bottom_connection_char('v');
    b.bracket_only_char('+');
    let liner = b.build();
    assert_eq!(liner.connections[12], 'v');
    assert_eq!(liner.connections[11], '+');
    assert_eq!(liner.top_height, 0);
    assert_eq!(liner.bottom_height, 1);
    assert!(liner.display_bracket);
}
