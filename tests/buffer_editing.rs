use editcore::buffer::{Buffer, Direction};
use ropey::Rope;

fn opened(text: &str, width: usize, height: usize) -> Buffer {
    let mut b = Buffer::open("t.txt".to_string(), Rope::from_str(text));
    b.resize(width, height);
    b
}

fn text(b: &Buffer) -> String {
    b.lines().to_string()
}

fn type_str(b: &mut Buffer, s: &str) {
    for c in s.chars() {
        b.insert(c);
    }
}

#[test]
fn insert_types_at_cursor() {
    let mut b = Buffer::new();
    type_str(&mut b, "ab");
    b.cursor_mv(Direction::Horiz, -1);
    b.insert('x');
    assert_eq!(text(&b), "axb");
    assert_eq!(b.cursor(), 2);
}

#[test]
fn insert_newline_starts_a_line() {
    let mut b = Buffer::new();
    type_str(&mut b, "ab\ncd");
    assert_eq!(text(&b), "ab\ncd");
    assert_eq!(b.get_cursor_pos(), (2, 1));
    assert_eq!(b.visual().len(), 2);
}

#[test]
fn delete_removes_before_cursor() {
    let mut b = Buffer::new();
    type_str(&mut b, "hello");
    b.delete(2);
    assert_eq!(text(&b), "hel");
    assert_eq!(b.cursor(), 3);
}

#[test]
fn delete_at_start_does_nothing() {
    let mut b = opened("abc", 20, 5);
    let before = b.history().timeline().len();
    assert!(!b.is_modified());
    b.delete(1);
    assert_eq!(text(&b), "abc");
    assert_eq!(b.cursor(), 0);
    assert_eq!(b.history().timeline().len(), before);
    assert!(!b.is_modified());
}

#[test]
fn delete_more_than_before_cursor_does_nothing() {
    let mut b = opened("abc", 20, 5);
    b.cursor_mv(Direction::Horiz, 2);
    b.delete(3);
    assert_eq!(text(&b), "abc");
    assert_eq!(b.cursor(), 2);
}

#[test]
fn horizontal_move_outside_document_is_ignored() {
    let mut b = opened("abc", 20, 5);
    b.cursor_mv(Direction::Horiz, -1);
    assert_eq!(b.cursor(), 0);
    b.cursor_mv(Direction::Horiz, 4);
    assert_eq!(b.cursor(), 0);
    b.cursor_mv(Direction::Horiz, 3);
    assert_eq!(b.cursor(), 3);
}

#[test]
fn vertical_move_keeps_sticky_column() {
    let mut b = opened("abcdef\nxy\nabcdef", 20, 5);
    b.cursor_mv(Direction::Horiz, 4);
    assert_eq!(b.get_cursor_pos(), (4, 0));
    b.cursor_mv(Direction::Vert, 1);
    assert_eq!(b.get_cursor_pos(), (2, 1));
    assert_eq!(b.cursor(), 9);
    b.cursor_mv(Direction::Vert, 1);
    assert_eq!(b.get_cursor_pos(), (4, 2));
    assert_eq!(b.cursor(), 14);
    b.cursor_mv(Direction::Vert, -1);
    assert_eq!(b.cursor(), 9);
    b.cursor_mv(Direction::Vert, -1);
    assert_eq!(b.get_cursor_pos(), (4, 0));
    assert_eq!(b.cursor(), 4);
}

#[test]
fn down_then_up_returns_to_column() {
    let mut b = opened("abcdef\nabcdefgh\nabc", 20, 5);
    b.cursor_mv(Direction::Horiz, 5);
    b.cursor_mv(Direction::Vert, 1);
    assert_eq!(b.get_cursor_pos(), (5, 1));
    b.cursor_mv(Direction::Vert, -1);
    assert_eq!(b.cursor(), 5);
}

#[test]
fn vertical_move_to_last_row_may_rest_past_the_end() {
    let mut b = opened("abcdef\nxy", 20, 5);
    b.cursor_mv(Direction::Horiz, 5);
    b.cursor_mv(Direction::Vert, 1);
    assert_eq!(b.get_cursor_pos(), (2, 1));
    assert_eq!(b.cursor(), 9);
}

#[test]
fn vertical_move_outside_document_is_ignored() {
    let mut b = opened("ab\ncd", 20, 5);
    b.cursor_mv(Direction::Vert, -1);
    assert_eq!(b.cursor(), 0);
    b.cursor_mv(Direction::Vert, 2);
    assert_eq!(b.cursor(), 0);
}

#[test]
fn viewport_scrolls_to_follow_cursor() {
    let mut b = opened("a\nb\nc\nd\ne", 20, 2);
    b.cursor_mv(Direction::Vert, 1);
    assert_eq!(b.get_cursor_pos(), (0, 1));
    assert_eq!(b.viewport().offset, 0);
    b.cursor_mv(Direction::Vert, 1);
    assert_eq!(b.viewport().offset, 1);
    assert_eq!(b.get_cursor_pos(), (0, 1));
    b.cursor_mv(Direction::Vert, 2);
    assert_eq!(b.viewport().offset, 3);
    b.cursor_mv(Direction::Vert, -1);
    assert_eq!(b.viewport().offset, 3);
    assert_eq!(b.get_cursor_pos(), (0, 0));
    b.cursor_mv(Direction::Vert, -1);
    assert_eq!(b.viewport().offset, 2);
    assert_eq!(b.visible_rows(), vec![(2, "c\n".to_string()), (3, "d\n".to_string())]);
}

#[test]
fn horizontal_move_scrolls_across_rows() {
    let mut b = opened("abcdef", 2, 1);
    b.cursor_mv(Direction::Horiz, 2);
    assert_eq!(b.viewport().offset, 1);
    assert_eq!(b.get_cursor_pos(), (0, 0));
    b.cursor_mv(Direction::Horiz, -1);
    assert_eq!(b.viewport().offset, 0);
    assert_eq!(b.get_cursor_pos(), (1, 0));
}

#[test]
fn typing_past_the_last_row_scrolls() {
    let mut b = Buffer::new();
    b.resize(3, 1);
    type_str(&mut b, "abcd");
    assert_eq!(b.viewport().offset, 1);
    assert_eq!(b.get_cursor_pos(), (1, 0));
}

#[test]
fn boundary_merging() {
    let mut b = Buffer::new();
    b.insert('c');
    assert_eq!(b.history().timeline().len(), 1);
    b.insert(' ');
    assert_eq!(b.history().timeline().len(), 2);
    assert_eq!(b.history().timeline()[1].text.to_string(), "c");
    b.insert('c');
    assert_eq!(text(&b), "c c");
    b.undo();
    assert_eq!(text(&b), "c");
}

#[test]
fn undo_then_redo_restores() {
    let mut b = Buffer::new();
    type_str(&mut b, "ab cd");
    b.undo();
    assert_eq!(text(&b), "ab");
    assert_eq!(b.cursor(), 2);
    b.redo();
    assert_eq!(text(&b), "ab cd");
    assert_eq!(b.cursor(), 5);
}

#[test]
fn edit_after_undo_blocks_redo() {
    let mut b = Buffer::new();
    type_str(&mut b, "ab cd");
    b.undo();
    b.insert('x');
    b.redo();
    assert_eq!(text(&b), "abx");
    assert_eq!(b.cursor(), 3);
}

#[test]
fn undo_past_the_start_keeps_the_empty_baseline() {
    let mut b = Buffer::new();
    type_str(&mut b, "ab");
    b.undo();
    assert_eq!(text(&b), "");
    b.undo();
    assert_eq!(text(&b), "");
    assert_eq!(b.cursor(), 0);
}

#[test]
fn deletion_after_typing_is_its_own_step() {
    let mut b = Buffer::new();
    type_str(&mut b, "abc");
    b.delete(1);
    b.delete(1);
    assert_eq!(text(&b), "a");
    b.undo();
    assert_eq!(text(&b), "abc");
    assert_eq!(b.cursor(), 3);
    b.redo();
    assert_eq!(text(&b), "a");
}

#[test]
fn cursor_move_closes_the_live_edit() {
    let mut b = Buffer::new();
    type_str(&mut b, "ab");
    b.cursor_mv(Direction::Horiz, -1);
    b.insert('x');
    assert_eq!(text(&b), "axb");
    b.undo();
    assert_eq!(text(&b), "ab");
    assert_eq!(b.cursor(), 2);
}

#[test]
fn save_tracks_modification() {
    let mut b = Buffer::new();
    assert!(!b.is_modified());
    type_str(&mut b, "a ");
    assert!(b.is_modified());
    b.save();
    assert!(!b.is_modified());
    b.insert('b');
    assert!(b.is_modified());
}
