use editcore::buffer::Buffer;
use editcore::layout::VisualLine;
use ropey::Rope;

fn vl(offset: usize, len: usize, logical_line: usize) -> VisualLine {
    VisualLine { offset, len, logical_line }
}

fn opened(text: &str, width: usize, height: usize) -> Buffer {
    let mut b = Buffer::open("t.txt".to_string(), Rope::from_str(text));
    b.resize(width, height);
    b
}

#[test]
fn empty_document_has_one_placeholder_row() {
    let b = Buffer::new();
    assert_eq!(b.visual().clone(), vec![vl(0, 0, 0)]);
    assert_eq!(b.get_cursor_pos(), (0, 0));
}

#[test]
fn lines_wrap_at_width() {
    let b = opened("abcdefg\nxy", 3, 5);
    assert_eq!(
        b.visual().clone(),
        vec![vl(0, 3, 0), vl(3, 3, 0), vl(6, 2, 0), vl(0, 2, 1)]
    );
}

#[test]
fn line_of_exactly_the_width_takes_one_row() {
    let b = opened("ab\ncd", 3, 5);
    assert_eq!(b.visual().clone(), vec![vl(0, 3, 0), vl(0, 2, 1)]);
}

#[test]
fn trailing_newline_leaves_an_empty_last_line() {
    let b = opened("ab\n", 20, 5);
    assert_eq!(b.visual().clone(), vec![vl(0, 3, 0), vl(0, 0, 1)]);
}

#[test]
fn partition_sums_line_lengths() {
    let b = opened("hello world\n\nabc", 5, 10);
    let v = b.visual().clone();
    assert_eq!(
        v,
        vec![vl(0, 5, 0), vl(5, 5, 0), vl(10, 2, 0), vl(0, 1, 1), vl(0, 3, 2)]
    );
    let rope = b.lines();
    for line in 0..rope.len_lines() {
        let sum: usize = v.iter().filter(|x| x.logical_line == line).map(|x| x.len).sum();
        assert_eq!(sum, rope.line(line).len_chars());
    }
}

#[test]
fn round_trip_every_position() {
    let mut b = opened("hello world\n\nabc", 5, 10);
    let total = b.lines().len_chars();
    for ci in 0..=total {
        assert_eq!(b.cursor(), ci);
        let (cx, cy) = b.get_cursor_pos();
        assert_eq!(b.visual_to_rope(cx, cy), ci);
        b.cursor_mv(editcore::buffer::Direction::Horiz, 1);
    }
    assert_eq!(b.cursor(), total);
}

#[test]
fn positions_map_to_rows_and_columns() {
    let mut b = opened("hello world\n\nabc", 5, 10);
    b.cursor_mv(editcore::buffer::Direction::Horiz, 7);
    assert_eq!(b.get_cursor_pos(), (2, 1));
    b.cursor_mv(editcore::buffer::Direction::Horiz, 5);
    assert_eq!(b.get_cursor_pos(), (0, 3));
    b.cursor_mv(editcore::buffer::Direction::Horiz, 4);
    assert_eq!(b.get_cursor_pos(), (3, 4));
}

#[test]
fn cursor_at_end_of_full_last_row() {
    let mut b = opened("abcdef", 3, 5);
    b.cursor_mv(editcore::buffer::Direction::Horiz, 6);
    assert_eq!(b.get_cursor_pos(), (3, 1));
    assert_eq!(b.visual_to_rope(3, 1), 6);
}

#[test]
fn visible_rows_show_the_window() {
    let b = opened("hello world\nab", 5, 3);
    let rows = b.visible_rows();
    assert_eq!(
        rows,
        vec![
            (0, "hello".to_string()),
            (0, " worl".to_string()),
            (0, "d\n".to_string())
        ]
    );
}

#[test]
fn resize_twice_is_idempotent() {
    let mut b = opened("a long first line\nshort\nanother long line here", 4, 3);
    b.cursor_mv(editcore::buffer::Direction::Horiz, 30);
    b.resize(6, 2);
    let visual = b.visual().clone();
    let viewport = b.viewport();
    b.resize(6, 2);
    assert_eq!(b.visual().clone(), visual);
    assert_eq!(b.viewport(), viewport);
    assert_eq!(viewport.width, 6);
    assert_eq!(viewport.height, 2);
}

#[test]
fn resize_scrolls_cursor_into_view() {
    let mut b = opened("abcdefghij", 20, 1);
    b.cursor_mv(editcore::buffer::Direction::Horiz, 9);
    b.resize(2, 1);
    assert_eq!(b.viewport().offset, 4);
    assert_eq!(b.get_cursor_pos(), (1, 0));
}
