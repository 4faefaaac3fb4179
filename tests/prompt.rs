use editcore::command::Prompt;

fn typed(s: &str) -> Prompt {
    let mut p = Prompt::default();
    for c in s.chars() {
        p.insert(c);
    }
    p
}

#[test]
fn typing_appends_at_cursor() {
    let p = typed("w f");
    assert_eq!(p.cmd, "w f");
    assert_eq!(p.cx, 3);
}

#[test]
fn typing_in_the_middle() {
    let mut p = typed("ac");
    p.cx = 1;
    p.insert('b');
    assert_eq!(p.cmd, "abc");
    assert_eq!(p.cx, 2);
}

#[test]
fn cursor_past_the_end_appends() {
    let mut p = typed("ab");
    p.cx = 10;
    p.insert('é');
    assert_eq!(p.cmd, "abé");
    assert_eq!(p.cx, 11);
}

#[test]
fn backspace_removes_before_cursor() {
    let mut p = typed("abé");
    p.backspace();
    assert_eq!(p.cmd, "ab");
    assert_eq!(p.cx, 2);
    p.cx = 1;
    p.backspace();
    assert_eq!(p.cmd, "b");
    assert_eq!(p.cx, 0);
}

#[test]
fn message_is_cleared_by_typing() {
    let mut p = typed("xyz");
    p.msg("not a command!".to_string());
    assert!(p.is_msg);
    assert_eq!(p.cx, 0);
    p.insert('q');
    assert_eq!(p.cmd, "q");
    assert_eq!(p.cx, 1);
    assert!(!p.is_msg);
}

#[test]
fn message_is_cleared_by_backspace() {
    let mut p = Prompt::default();
    p.msg("too many args".to_string());
    p.backspace();
    assert_eq!(p.cmd, "");
    assert!(!p.is_msg);
}

#[test]
fn parse_splits_on_ascii_whitespace() {
    let mut p = typed("  e\tfile.txt  \r\n x");
    let args = p.parse();
    assert_eq!(
        args,
        Some(vec!["e".to_string(), "file.txt".to_string(), "x".to_string()])
    );
    assert_eq!(p.cmd, "");
}

#[test]
fn parse_of_empty_prompt_is_none() {
    let mut p = Prompt::default();
    assert_eq!(p.parse(), None);
}

#[test]
fn parse_of_blanks_is_empty() {
    let mut p = typed("   ");
    assert_eq!(p.parse(), Some(vec![]));
    assert_eq!(p.cmd, "");
}
