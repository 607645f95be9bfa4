use agent::error::Error;
use agent::json::{JsonMember, JsonNumber, JsonValue};
use agent::tool::{RiskLevel, ToolOutput};
use agent::tools::{
    resolve, EditFileTool, FileText, GlobTool, GrepTool, ReadFileTool, ShellTool, WriteFileTool,
    DEFAULT_TIMEOUT_MS,
};

fn to_json(v: &serde_json::Value) -> JsonValue {
    match v {
        serde_json::Value::Null => JsonValue::Null,
        serde_json::Value::Bool(b) => JsonValue::Bool(*b),
        serde_json::Value::Number(n) => JsonValue::Number(JsonNumber { unsigned: n.as_u64(), text: n.to_string() }),
        serde_json::Value::String(s) => JsonValue::String(s.clone()),
        serde_json::Value::Array(items) => JsonValue::Array(items.iter().map(to_json).collect()),
        serde_json::Value::Object(map) => JsonValue::Object(
            map.iter().map(|(k, v)| JsonMember { key: k.clone(), value: to_json(v) }).collect(),
        ),
    }
}

fn args(text: &str) -> JsonValue {
    to_json(&serde_json::from_str::<serde_json::Value>(text).unwrap())
}

fn tool_error(result: Result<impl std::fmt::Debug, Error>) -> String {
    match result {
        Err(Error::Tool(m)) => m,
        other => panic!("expected a tool error, got {other:?}"),
    }
}

#[test]
fn relative_paths_are_anchored_to_the_workdir() {
    assert_eq!(resolve("/work", "a.txt"), "/work/a.txt");
    assert_eq!(resolve("/work/", "a.txt"), "/work/a.txt");
    assert_eq!(resolve("/work", "/etc/hosts"), "/etc/hosts");
    let read = ReadFileTool::new("/work").request(&args(r#"{"path":"sub/b.txt"}"#)).unwrap();
    assert_eq!(read.given, "sub/b.txt");
    assert_eq!(read.resolved, "/work/sub/b.txt");
    assert_eq!(GlobTool::new("/work").request(&args(r#"{"pattern":"*.txt"}"#)).unwrap(), "/work/*.txt");
}

#[test]
fn timeout_defaults_to_120_seconds() {
    let schema: serde_json::Value = serde_json::from_str(&ShellTool::new(".").definition().parameters).unwrap();
    assert_eq!(schema["properties"]["timeout"]["default"], 120_000);
    assert!(schema["properties"]["timeout"].get("maximum").is_none());
    let request = ShellTool::new(".").request(&args(r#"{"command":"true"}"#)).unwrap();
    assert_eq!(request.timeout_ms, DEFAULT_TIMEOUT_MS);
    assert_eq!(request.command, "true");
}

#[test]
fn timeout_must_be_a_positive_integer() {
    let tool = ShellTool::new(".");
    for timeout in ["0", "-1", "1.5", "\"5\""] {
        let message = tool_error(tool.request(&args(&format!(r#"{{"command":"true","timeout":{timeout}}}"#))));
        assert!(message.contains("positive integer"));
    }
    assert_eq!(tool.request(&args(r#"{"command":"x","timeout":50}"#)).unwrap().timeout_ms, 50);
}

#[test]
fn missing_command_field() {
    let message = tool_error(ShellTool::new(".").request(&args("{}")));
    assert_eq!(message, "missing 'command' field");
}

#[test]
fn command_outcomes_report_exit_codes() {
    assert_eq!(ShellTool::outcome(true, Some(0), "hello\n".into(), ""), ToolOutput::Text("hello\n".into()));
    assert_eq!(
        ShellTool::outcome(false, Some(1), String::new(), "boom"),
        ToolOutput::Error("exit code 1: boom".into())
    );
    assert_eq!(
        ShellTool::outcome(false, Some(-3), String::new(), "x"),
        ToolOutput::Error("exit code -3: x".into())
    );
    assert_eq!(
        ShellTool::outcome(false, None, String::new(), "killed"),
        ToolOutput::Error("exit code unknown: killed".into())
    );
    assert_eq!(ShellTool::timed_out(50), Error::Tool("command timed out after 50ms".into()));
    assert_eq!(ShellTool::new(".").risk_level(), RiskLevel::High);
}

#[test]
fn missing_path_field() {
    assert_eq!(tool_error(ReadFileTool::new(".").request(&args("{}"))), "missing 'path' field");
}

#[test]
fn read_nonexistent_file() {
    let path = ReadFileTool::new("/").request(&args(r#"{"path":"/nonexistent/path/file.txt"}"#)).unwrap();
    let message = tool_error(ReadFileTool::outcome(&path, Err("No such file or directory".into())));
    assert_eq!(message, "failed to read file '/nonexistent/path/file.txt': No such file or directory");
    assert_eq!(
        ReadFileTool::outcome(&path, Ok("hello from file".into())).unwrap(),
        ToolOutput::Text("hello from file".into())
    );
}

#[test]
fn missing_content_field() {
    let message = tool_error(WriteFileTool::new(".").request(&args(r#"{"path":"/tmp/whatever.txt"}"#)));
    assert_eq!(message, "missing 'content' field");
}

#[test]
fn write_reports_the_path() {
    let request = WriteFileTool::new("/w").request(&args(r#"{"path":"x/test.txt","content":"hello write"}"#)).unwrap();
    assert_eq!(request.path.resolved, "/w/x/test.txt");
    assert_eq!(request.content, "hello write");
    assert_eq!(
        WriteFileTool::outcome(&request.path, Ok(())).unwrap(),
        ToolOutput::Text("Written to x/test.txt".into())
    );
    assert_eq!(
        tool_error(WriteFileTool::outcome(&request.path, Err("read-only".into()))),
        "failed to write file 'x/test.txt': read-only"
    );
}

fn edit(old: &str, new: &str) -> agent::tools::EditRequest {
    EditFileTool::new("/w")
        .request(&args(&format!(r#"{{"path":"f.txt","old_string":"{old}","new_string":"{new}"}}"#)))
        .unwrap()
}

#[test]
fn replace_in_file() {
    let request = edit("hello", "goodbye");
    let content = EditFileTool::apply(&request, "hello world\n").unwrap();
    assert_eq!(content, "goodbye world\n");
    assert_eq!(EditFileTool::edited(&request), ToolOutput::Text("Edited f.txt".into()));
}

#[test]
fn old_string_not_found() {
    let message = tool_error(EditFileTool::apply(&edit("nonexistent", "replacement"), "hello world\n"));
    assert!(message.contains("not found"));
    assert_eq!(message, "old_string not found in 'f.txt'");
}

#[test]
fn old_string_multiple_times() {
    let message = tool_error(EditFileTool::apply(&edit("foo", "bar"), "foo foo foo"));
    assert!(message.contains("3 times"));
    assert_eq!(message, "old_string found 3 times in 'f.txt'; must appear exactly once");
}

#[test]
fn overlapping_text_counts_once_per_match() {
    assert_eq!(EditFileTool::apply(&edit("aa", "b"), "aaa").unwrap(), "ba");
    let message = tool_error(EditFileTool::apply(&edit("", "x"), "ab"));
    assert!(message.contains("3 times"));
    assert_eq!(EditFileTool::apply(&edit("", "x"), "").unwrap(), "x");
}

#[test]
fn glob_missing_pattern_field() {
    assert_eq!(tool_error(GlobTool::new(".").request(&args("{}"))), "missing 'pattern' field");
}

#[test]
fn no_matches_returns_empty() {
    assert_eq!(GlobTool::outcome(Ok(vec![])).unwrap(), ToolOutput::Text(String::new()));
    assert_eq!(
        GlobTool::outcome(Ok(vec!["/d/a.txt".into(), "/d/b.txt".into()])).unwrap(),
        ToolOutput::Text("/d/a.txt\n/d/b.txt".into())
    );
    assert!(tool_error(GlobTool::outcome(Err("bad".into()))).starts_with("invalid glob pattern: "));
}

#[test]
fn grep_missing_pattern_field() {
    assert_eq!(tool_error(GrepTool::new(".").request(&args(r#"{"path":"/tmp"}"#))), "missing 'pattern' field");
}

#[test]
fn invalid_regex() {
    let request = GrepTool::new(".").request(&args(r#"{"pattern":"[invalid","path":"/tmp"}"#)).unwrap();
    let message = tool_error(GrepTool::matcher(&request).map(|_| ()));
    assert!(message.starts_with("invalid regex pattern: "));
}

#[test]
fn search_in_directory() {
    let request = GrepTool::new("/d").request(&args(r#"{"pattern":"hello","path":"."}"#)).unwrap();
    assert_eq!(request.path.resolved, "/d/.");
    let matcher = GrepTool::matcher(&request).unwrap();
    let files = vec![
        FileText { path: "/d/a.txt".into(), content: "hello world\nfoo bar\n".into() },
        FileText { path: "/d/b.txt".into(), content: "no match here\nhello again\r\n".into() },
    ];
    assert_eq!(
        GrepTool::search(&matcher, &files),
        ToolOutput::Text("/d/a.txt:1:hello world\n/d/b.txt:2:hello again".into())
    );
}

#[test]
fn search_single_file() {
    let request = GrepTool::new(".").request(&args(r#"{"pattern":"match.ng","path":"f"}"#)).unwrap();
    let matcher = GrepTool::matcher(&request).unwrap();
    let hits = GrepTool::file_hits(&matcher, "f", "line one\nline two matching pattern\nline three\n");
    assert_eq!(hits, vec!["f:2:line two matching pattern".to_string()]);
}
