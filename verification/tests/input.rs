use agent::input::InputBuffer;

#[test]
fn new_buffer_is_empty() {
    let buf = InputBuffer::new();
    assert!(buf.content().is_empty());
    assert_eq!(buf.cursor(), 0);
    assert_eq!(buf.content(), "");
}

#[test]
fn insert_appends_at_end() {
    let mut buf = InputBuffer::new();
    buf.insert('H');
    buf.insert('i');
    assert_eq!(buf.content(), "Hi");
    assert_eq!(buf.cursor(), 2);
}

#[test]
fn insert_in_the_middle() {
    let mut buf = InputBuffer::new();
    buf.insert('a');
    buf.insert('c');
    buf.move_left();
    buf.insert('b');
    assert_eq!(buf.content(), "abc");
    assert_eq!(buf.cursor(), 2);
}

#[test]
fn backspace_removes_preceding_char() {
    let mut buf = InputBuffer::new();
    for ch in "hello".chars() {
        buf.insert(ch);
    }
    buf.backspace();
    assert_eq!(buf.content(), "hell");
    assert_eq!(buf.cursor(), 4);
}

#[test]
fn backspace_at_zero_is_noop() {
    let mut buf = InputBuffer::new();
    buf.backspace();
    assert!(buf.content().is_empty());
    assert_eq!(buf.cursor(), 0);
}

#[test]
fn take_returns_content_and_resets() {
    let mut buf = InputBuffer::new();
    buf.insert('x');
    buf.insert('y');
    let taken = buf.take();
    assert_eq!(taken, "xy");
    assert!(buf.content().is_empty());
    assert_eq!(buf.cursor(), 0);
}

#[test]
fn move_left_clamps_to_zero() {
    let mut buf = InputBuffer::new();
    buf.insert('a');
    buf.move_left();
    buf.move_left();
    assert_eq!(buf.cursor(), 0);
}

#[test]
fn move_right_clamps_to_len() {
    let mut buf = InputBuffer::new();
    buf.insert('a');
    buf.move_right();
    assert_eq!(buf.cursor(), 1);
}

#[test]
fn handles_multibyte_unicode() {
    let mut buf = InputBuffer::new();
    buf.insert('😀');
    buf.insert('!');
    assert_eq!(buf.content(), "😀!");
    assert_eq!(buf.cursor(), 2);

    buf.backspace();
    assert_eq!(buf.content(), "😀");
    assert_eq!(buf.cursor(), 1);

    buf.backspace();
    assert!(buf.content().is_empty());
    assert_eq!(buf.cursor(), 0);
}

#[test]
fn wraps_moves_and_preserves_explicit_line_breaks() {
    let mut buf = InputBuffer::new();
    buf.insert_str("abcd\nef");

    assert_eq!(buf.visual_rows(3), vec![0..3, 3..4, 5..7]);
    assert_eq!(buf.cursor_position(3), (2, 2));

    buf.move_up(3);
    assert_eq!(buf.cursor(), 4);
    buf.move_up(3);
    assert_eq!(buf.cursor(), 1);
    buf.move_down(3);
    assert_eq!(buf.cursor(), 4);
}

#[test]
fn keeps_zero_width_marks_with_their_wrapped_character() {
    let mut buf = InputBuffer::new();
    buf.insert_str("e\u{301}");
    assert_eq!(buf.visual_rows(1), vec![0..2, 2..2]);
}

#[test]
fn blank_drafts_are_not_submittable() {
    let mut buf = InputBuffer::new();
    buf.insert_str(" \n\t");
    assert!(buf.is_blank());
    buf.insert('x');
    assert!(!buf.is_blank());
}

#[test]
fn backspace_undoes_an_insert() {
    let mut buf = InputBuffer::new();
    buf.insert_str("abc");
    buf.move_left();
    let before = (buf.content(), buf.cursor());
    buf.insert('z');
    assert_eq!(buf.content(), "abzc");
    buf.backspace();
    assert_eq!((buf.content(), buf.cursor()), before);
}

#[test]
fn soft_wrapped_rows_cover_the_draft_in_order() {
    let mut buf = InputBuffer::new();
    buf.insert_str("abcdefg\nhi");
    let rows = buf.visual_rows(3);
    assert_eq!(rows, vec![0..3, 3..6, 6..7, 8..10]);
    let chars: Vec<char> = buf.content().chars().collect();
    let joined: String = rows.iter().map(|r| chars[r.clone()].iter().collect::<String>()).collect::<Vec<_>>().join("|");
    assert_eq!(joined, "abc|def|g|hi");
}

#[test]
fn dollar_query_reads_the_partial_skill_name() {
    let mut buf = InputBuffer::new();
    buf.insert_str("use $way");
    assert_eq!(buf.dollar_query().as_deref(), Some("way"));
    buf.insert(' ');
    assert_eq!(buf.dollar_query(), None);
    let mut other = InputBuffer::new();
    other.insert_str("$");
    assert_eq!(other.dollar_query().as_deref(), Some(""));
}

#[test]
fn complete_dollar_replaces_the_partial_name() {
    let mut buf = InputBuffer::new();
    buf.insert_str("run $wa now");
    for _ in 0..4 {
        buf.move_left();
    }
    buf.complete_dollar("wayfinder");
    assert_eq!(buf.content(), "run $wayfinder  now");
    assert_eq!(buf.cursor(), 15);

    let mut plain = InputBuffer::new();
    plain.insert_str("no name");
    plain.complete_dollar("x");
    assert_eq!(plain.content(), "no name");
}
