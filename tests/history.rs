use editcore::history::History;
use ropey::Rope;

#[test]
fn starts_with_the_empty_document() {
    let h = History::default();
    assert_eq!(h.timeline().len(), 1);
    assert_eq!(h.timeline()[0].text.len_chars(), 0);
    assert!(!h.is_modified());
}

#[test]
fn update_without_boundary_marks_dirty() {
    let mut h = History::default();
    h.update(&'a', &Rope::from_str("x"), 1);
    assert_eq!(h.timeline().len(), 1);
    assert!(h.is_modified());
}

#[test]
fn space_closes_the_live_edit() {
    let mut h = History::default();
    h.update(&' ', &Rope::from_str("x"), 1);
    assert_eq!(h.timeline().len(), 2);
    assert_eq!(h.timeline()[1].text.to_string(), "x");
    assert_eq!(h.timeline()[1].cs, 1);
}

#[test]
fn stash_of_unchanged_document_adds_nothing() {
    let mut h = History::default();
    h.stash(&Rope::new(), 0);
    assert_eq!(h.timeline().len(), 1);
}

#[test]
fn redo_needs_a_clean_state() {
    let mut h = History::default();
    h.stash(&Rope::from_str("one"), 3);
    assert_eq!(h.undo().text.len_chars(), 0);
    let e = h.redo().expect("a snapshot ahead");
    assert_eq!(e.text.to_string(), "one");
    assert!(h.redo().is_none());
    h.undo();
    h.update(&false, &Rope::new(), 0);
    assert!(h.redo().is_none());
}

#[test]
fn recording_drops_the_redo_branch() {
    let mut h = History::default();
    h.stash(&Rope::from_str("one"), 3);
    h.stash(&Rope::from_str("two"), 3);
    h.undo();
    h.update(&true, &Rope::from_str("three"), 5);
    assert_eq!(h.timeline().len(), 3);
    assert_eq!(h.timeline()[2].text.to_string(), "three");
}

#[test]
fn save_marks_the_current_snapshot() {
    let mut h = History::default();
    h.stash(&Rope::from_str("one"), 3);
    assert!(h.is_modified());
    h.save();
    assert!(!h.is_modified());
    h.undo();
    assert!(h.is_modified());
}
