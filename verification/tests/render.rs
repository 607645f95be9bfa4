use agent::layout::{
    chat_scroll, choice_marker, confirmation_title, cursor_row, input_height, input_scroll,
    input_title, model_text, status_text,
};
use agent::render::{border, column_widths, grid_fits, padding, sanitize, space_string, wrap_starts, Alignment};

#[test]
fn sanitize_expands_tabs_and_escapes_controls() {
    assert_eq!(sanitize("a\tb", 0), "a   b");
    assert_eq!(sanitize("\tx", 2), "  x");
    assert_eq!(sanitize("\x1b[0m\r", 0), "\\x1b[0m\\r");
    assert_eq!(sanitize("\u{7f}", 0), "\\x7f");
    assert_eq!(sanitize("ok é", 0), "ok é");
    assert_eq!(space_string(3), "   ");
}

#[test]
fn columns_grow_toward_their_natural_width() {
    assert_eq!(column_widths(&vec![4, 14], 18), vec![4, 14]);
    assert_eq!(column_widths(&vec![4, 14], 10), vec![1, 9]);
    assert_eq!(column_widths(&vec![3, 3], 4), vec![2, 2]);
    assert_eq!(column_widths(&vec![5], 1), vec![1]);
    assert!(grid_fits(2, 9));
    assert!(!grid_fits(2, 8));
    assert!(!grid_fits(usize::MAX, usize::MAX));
}

#[test]
fn borders_and_padding_frame_cells() {
    assert_eq!(border('┌', '┬', '┐', &vec![1, 2]), "┌───┬────┐");
    assert_eq!(border('└', '┴', '┘', &vec![]), "└");
    assert_eq!(padding(Alignment::Center, 5), (2, 3));
    assert_eq!(padding(Alignment::Right, 5), (5, 0));
    assert_eq!(padding(Alignment::Unspecified, 5), (0, 5));
}

#[test]
fn wrapping_breaks_before_an_overflowing_grapheme() {
    assert_eq!(wrap_starts(&vec![1, 1, 1, 1, 1], 2, 0), vec![2, 4]);
    assert_eq!(wrap_starts(&vec![1, 1, 1, 1], 3, 2), vec![3]);
    assert_eq!(wrap_starts(&vec![2, 2, 2], 3, 0), vec![1, 2]);
    assert!(wrap_starts(&vec![1, 1], 5, 0).is_empty());
}

#[test]
fn wrapped_rows_fit_unless_one_grapheme_is_too_wide() {
    let widths = vec![1, 0, 3, 1];
    let starts = wrap_starts(&widths, 2, 0);
    assert_eq!(starts, vec![2, 3]);
    let mut bounds = vec![0];
    bounds.extend(starts.iter().copied());
    bounds.push(widths.len());
    for pair in bounds.windows(2) {
        let row: usize = widths[pair[0]..pair[1]].iter().sum();
        let before_last: usize = widths[pair[0]..pair[1] - 1].iter().sum();
        assert!(pair[0] < pair[1]);
        assert!(row <= 2 || before_last == 0);
    }
}

#[test]
fn input_pane_grows_to_a_third_of_the_screen() {
    assert_eq!(input_height(true, 40, 60), 5);
    assert_eq!(input_height(false, 0, 60), 3);
    assert_eq!(input_height(false, 5, 60), 7);
    assert_eq!(input_height(false, 40, 60), 20);
    assert_eq!(input_height(false, 40, 6), 3);
}

#[test]
fn panes_scroll_to_keep_content_in_view() {
    assert_eq!(chat_scroll(100, 20, 0), 80);
    assert_eq!(chat_scroll(100, 20, 30), 50);
    assert_eq!(chat_scroll(100, 20, 500), 0);
    assert_eq!(chat_scroll(5, 20, 0), 0);
    assert_eq!(input_scroll(10, 5), 8);
    assert_eq!(input_scroll(1, 5), 0);
}

#[test]
fn status_and_titles_read_as_expected() {
    assert_eq!(status_text(true, true, 5), " awaiting confirmation... ");
    assert_eq!(status_text(false, true, 5), " thinking... ");
    assert_eq!(status_text(false, false, 1234), " tokens: 1234 ");
    assert_eq!(model_text("gpt-4o"), " model: gpt-4o ");
    assert_eq!(input_title(true, false), " Input (Shift+Enter for newline) ");
    assert_eq!(input_title(false, true), " Input (Ctrl+J for newline, waiting...) ");
    assert_eq!(confirmation_title("shell", "{}"), " shell({}) ");
    assert_eq!(choice_marker(true), "> ");
    assert_eq!(choice_marker(false), "  ");
}

#[test]
fn cursor_splits_its_row() {
    let chars: Vec<char> = "hello".chars().collect();
    let row = cursor_row(&chars, 0, 5, 2);
    assert_eq!((row.before.as_str(), row.under, row.after.as_str()), ("he", 'l', "lo"));
    let end = cursor_row(&chars, 0, 5, 5);
    assert_eq!((end.before.as_str(), end.under, end.after.as_str()), ("hello", ' ', ""));
    let clamped = cursor_row(&chars, 2, 4, 0);
    assert_eq!((clamped.before.as_str(), clamped.under, clamped.after.as_str()), ("", 'l', "l"));
}
