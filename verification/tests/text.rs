use agent::error::Error;
use agent::instructions::{agents_path, agents_step, agents_text, AgentsStep, FileSize};
use agent::text::{
    contains_str, decimal_string, join, join_path, lines_of, normalize_newlines, utf8_byte_len,
};
use agent::tool::ToolOutput;

#[test]
fn tool_output_display() {
    assert_eq!(ToolOutput::Text("ok".to_string()).to_string(), "ok");
    assert_eq!(ToolOutput::Error("bad".to_string()).to_string(), "Error: bad");
}

#[test]
fn lines_follow_str_lines() {
    for text in ["", "a", "a\n", "a\r\nb", "a\rb\r", "\n\n", "x\r\n\r\ny"] {
        let expected: Vec<String> = text.lines().map(str::to_owned).collect();
        assert_eq!(lines_of(text), expected, "for {text:?}");
    }
}

#[test]
fn newlines_are_normalized() {
    assert_eq!(normalize_newlines("a\r\nb\rc\n"), "a\nb\nc\n");
    assert_eq!(normalize_newlines("\r\r\n"), "\n\n");
}

#[test]
fn small_text_helpers() {
    assert_eq!(utf8_byte_len("héllo😀"), 10);
    assert_eq!(decimal_string(0), "0");
    assert_eq!(decimal_string(120000), "120000");
    assert_eq!(join(&vec!["a".into(), "b".into(), "c".into()], ", "), "a, b, c");
    assert_eq!(join(&vec![], ", "), "");
    assert_eq!(join_path("", "x"), "x");
    assert!(contains_str("wayfinder", "yfi"));
    assert!(!contains_str("way", "yaw"));
    assert!(contains_str("way", ""));
}

#[test]
fn reads_only_workdir_agents_and_enforces_limit() {
    let path = agents_path("/w/child");
    assert_eq!(path, "/w/child/AGENTS.md");
    assert_eq!(agents_step(&path, FileSize::Missing).unwrap(), AgentsStep::Empty);
    assert_eq!(agents_step(&path, FileSize::Bytes(32 * 1024)).unwrap(), AgentsStep::Read);
    let error = agents_step(&path, FileSize::Bytes(32 * 1024 + 1)).unwrap_err();
    assert!(error.message().contains("32 KiB"));
    assert_eq!(error, Error::Other("/w/child/AGENTS.md: exceeds 32 KiB limit (32769 bytes)".into()));
    assert_eq!(agents_text(&path, Ok(vec![b'x'; 32 * 1024])).unwrap().len(), 32 * 1024);
    let invalid = agents_text(&path, Ok(vec![0xff, 0xfe])).unwrap_err();
    assert!(invalid.message().starts_with("/w/child/AGENTS.md: invalid UTF-8: "));
    assert_eq!(
        agents_text(&path, Err("denied".into())).unwrap_err(),
        Error::Other("/w/child/AGENTS.md: denied".into())
    );
}
