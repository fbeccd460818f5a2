use tree_printer::text::{LineBuffer, LinePosition};

#[test]
fn overlay_overwrites_later_columns() {
    let mut buffer = LineBuffer::new();
    buffer.write(LinePosition::new(0, 0), "AB");
    buffer.write(LinePosition::new(0, 1), "X");
    assert_eq!(buffer.pending_rows(), &vec!["AX".to_string()]);
}

#[test]
fn write_past_line_end_pads_with_spaces() {
    let mut buffer = LineBuffer::new();
    buffer.write(LinePosition::new(0, 5), "X");
    assert_eq!(buffer.pending_rows(), &vec!["     X".to_string()]);
}

#[test]
fn overlay_keeps_trailing_content() {
    let mut buffer = LineBuffer::new();
    buffer.write(LinePosition::new(0, 0), "ABCDE");
    buffer.write(LinePosition::new(0, 1), "xy");
    assert_eq!(buffer.pending_rows(), &vec!["AxyDE".to_string()]);
}

#[test]
fn multi_line_write_lands_on_consecutive_rows() {
    let mut buffer = LineBuffer::new();
    buffer.write(LinePosition::new(1, 2), "ab\ncd");
    assert_eq!(
        buffer.pending_rows(),
        &vec!["".to_string(), "  ab".to_string(), "  cd".to_string()]
    );
}

#[test]
fn flush_emits_rows_in_order_and_drops_later_writes() {
    let mut buffer = LineBuffer::new();
    buffer.write(LinePosition::new(0, 0), "one");
    buffer.write(LinePosition::new(1, 0), "two");
    buffer.write(LinePosition::new(2, 0), "three");
    buffer.flush(2);
    assert_eq!(buffer.flushed_row_count(), 2);
    assert_eq!(
        buffer.emitted_rows(),
        &vec!["one".to_string(), "two".to_string()]
    );
    // a write below the flush horizon is dropped
    buffer.write(LinePosition::new(0, 0), "zzz");
    assert_eq!(
        buffer.emitted_rows(),
        &vec!["one".to_string(), "two".to_string()]
    );
    buffer.flush_all();
    assert_eq!(
        buffer.emitted_rows(),
        &vec!["one".to_string(), "two".to_string(), "three".to_string()]
    );
    assert_eq!(buffer.pending_rows().len(), 0);
}

#[test]
fn flush_at_or_below_horizon_is_a_no_op() {
    let mut buffer = LineBuffer::new();
    buffer.write(LinePosition::new(0, 0), "a");
    buffer.flush(1);
    buffer.flush(0);
    buffer.flush(1);
    assert_eq!(buffer.flushed_row_count(), 1);
}

#[test]
fn unicode_columns_count_characters_not_bytes() {
    let mut buffer = LineBuffer::new();
    buffer.write(LinePosition::new(0, 0), "\u{e9}\u{e9}\u{e9}");
    buffer.write(LinePosition::new(0, 1), "X");
    assert_eq!(buffer.pending_rows(), &vec!["\u{e9}X\u{e9}".to_string()]);
}
