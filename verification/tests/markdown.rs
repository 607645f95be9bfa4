use agent::chat::ChatEntry;
use agent::chat_view::chat_lines;
use agent::markdown::{literal, render_markdown, wrap_line, StyledLine, StyledSpan, TextStyle};

fn rendered(source: &str, width: usize) -> Vec<StyledLine> {
    render_markdown(source, width)
}

fn strings(lines: &[StyledLine]) -> Vec<String> {
    lines.iter().map(StyledLine::text).collect()
}

fn cells(text: &str) -> usize {
    ratatui::text::Line::from(text).width()
}

#[test]
fn renders_gfm_without_losing_source_line_breaks() {
    let lines = rendered(
        "# Head\nline one\nline two with **bold** and [docs](https://example.com)\n![diagram](image.png)\n\x1b",
        80,
    );

    assert_eq!(
        strings(&lines),
        [
            "Head",
            "",
            "line one",
            "line two with bold and docs (https://example.com)",
            "![diagram](image.png)",
            "\\x1b",
        ]
    );
    assert!(lines[0].spans[0].style.bold);
    assert!(lines[3].spans.iter().any(|span| span.style.bold && span.text == "bold"));

    let blocks = strings(&rendered(
        "> quote\n\n- [x] done\n  - nested\n\n```rust\nfn main() {}\n```\n\n**streaming",
        20,
    ));
    assert!(blocks.contains(&"│ quote".to_string()));
    assert!(blocks.contains(&"- [x] done".to_string()));
    assert!(blocks.contains(&"  - nested".to_string()));
    assert!(blocks.contains(&"┌─ rust".to_string()));
    assert!(blocks.contains(&"│ fn main() {}".to_string()));
    assert!(blocks.contains(&"**streaming".to_string()));
}

#[test]
fn tables_fit_or_fall_back_to_records() {
    let source = "| Name | Value |\n| --- | --- |\n| alpha | something long |";
    let grid = strings(&rendered(source, 30));
    assert!(grid.first().unwrap().starts_with('┌'));
    assert!(grid.iter().all(|line| cells(line) <= 30));
    assert!(strings(&rendered("| Link |\n| --- |\n| [docs](https://example.com) |", 30))
        .iter()
        .any(|line| line.contains("docs (https://example.com)")));

    assert_eq!(strings(&rendered(source, 7)), ["Name: a", "lpha", "Value: ", "somethi", "ng long"]);
}

#[test]
fn chat_preserves_markdown_layout_and_role_style() {
    let entries = vec![ChatEntry::User("# Head\nbody".into()), ChatEntry::Assistant("**hi**".into())];
    let lines = chat_lines(&entries, "", 10);

    assert_eq!(strings(&lines), ["Head      ", "          ", "body      ", "", "hi"]);
    assert!(lines[0].style.reversed);
    assert!(lines[4].spans[0].style.bold);
}

#[test]
fn ordered_lists_count_from_their_start_and_quotes_bar_every_line() {
    let lines = strings(&rendered("3. three\n4. four\n\n> a\n> b", 40));
    assert_eq!(lines, ["3. three", "4. four", "", "│ a", "│ b"]);
}

#[test]
fn wrapped_quote_lines_repeat_the_bar_and_keep_every_grapheme() {
    let lines = strings(&rendered("> aaaa bbbb cccc", 8));
    assert_eq!(lines, ["│ aaaa b", "│ bbb cc", "│ cc"]);
    let joined: String = lines.iter().map(|line| line.trim_start_matches("│ ")).collect();
    assert_eq!(joined, "aaaa bbbb cccc");
}

#[test]
fn a_wide_line_breaks_before_the_grapheme_that_overflows() {
    let line = StyledLine {
        spans: vec![StyledSpan { text: "abcdef".to_string(), style: TextStyle::bold() }],
        style: TextStyle::plain(),
    };
    let rows = wrap_line(line, 4);
    assert_eq!(strings(&rows), ["abcd", "ef"]);
    assert!(rows.iter().all(|row| row.spans.iter().all(|span| span.style.bold)));
    let fits = StyledLine {
        spans: vec![StyledSpan { text: "abc".to_string(), style: TextStyle::plain() }],
        style: TextStyle::plain(),
    };
    assert_eq!(strings(&wrap_line(fits, 3)), ["abc"]);
}

#[test]
fn literal_text_keeps_its_line_breaks_and_escapes_controls() {
    let lines = literal("one\ttab\r\ntwo", 80);
    assert_eq!(strings(&lines), ["one tab\\r", "two"]);
    assert!(literal("", 5)[0].spans.is_empty());
}

#[test]
fn records_label_missing_headers_by_column_number() {
    let source = "| A | |\n| --- | --- |\n| x | y |\n| z | w |";
    assert_eq!(strings(&rendered(source, 6)), ["A: x", "Column", " 2: y", "", "A: z", "Column", " 2: w"]);
}

#[test]
fn streaming_reply_ends_with_a_cursor() {
    let lines = chat_lines(&Vec::new(), "partial", 20);
    assert_eq!(strings(&lines), ["partial▌"]);
    assert!(lines[0].spans.last().unwrap().style.dim);
}

#[test]
fn tool_entries_are_tinted_plain_text() {
    let entries = vec![ChatEntry::ToolCall { name: "shell".into(), arguments: "{}".into() }];
    let lines = chat_lines(&entries, "", 40);
    assert_eq!(strings(&lines), ["[tool] shell({})"]);
    assert!(lines[0].style.bold);
    assert_eq!(lines[0].style.fg, agent::markdown::Tint::Yellow);
}
