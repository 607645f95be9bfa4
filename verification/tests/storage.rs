use agent::context::{Item, Request};
use agent::error::Error;
use agent::message::{Message, ToolCall};
use agent::storage::{
    session_names, DirEntry, FileStorage, LoadOutcome, MemoryStorage, SessionState, StoredSession,
};

#[test]
fn rejects_path_traversal() {
    let error = FileStorage::new("/sessions").path("../outside").unwrap_err();
    assert!(error.message().contains("invalid conversation id"));
    assert_eq!(error, Error::Storage("invalid conversation id: ../outside".into()));
    assert!(FileStorage::new("/sessions").path("").is_err());
}

#[test]
fn session_files_live_in_the_directory() {
    let storage = FileStorage::new("/sessions");
    assert_eq!(storage.path("conv-1").unwrap(), "/sessions/conv-1.json");
    assert_eq!(storage.temporary_path("conv-1").unwrap(), "/sessions/conv-1.json.tmp");
    assert_eq!(
        FileStorage::storage_error("/sessions/x.json", "disk full"),
        Error::Storage("/sessions/x.json: disk full".into())
    );
}

#[test]
fn loads_legacy_message_array_as_responses_context() {
    let state = FileStorage::loaded(
        "/s/old.json",
        LoadOutcome::Found(StoredSession::Legacy(vec![Message::User { content: "hello".into() }])),
    )
    .unwrap();
    assert_eq!(state.transcript.len(), 1);
    assert_eq!(state.context, vec![Item::User { content: "hello".into() }]);
}

#[test]
fn legacy_transcripts_rebuild_calls_and_outputs() {
    let state = SessionState::from_legacy(vec![
        Message::System { content: "s".into() },
        Message::Assistant {
            text: Some("t".into()),
            tool_calls: vec![ToolCall { id: "c1".into(), name: "n".into(), arguments: "{}".into() }],
        },
        Message::Tool { tool_call_id: "c1".into(), content: "out".into() },
    ]);
    assert_eq!(
        state.context,
        vec![
            Item::Assistant { content: "t".into() },
            Item::FunctionCall { call_id: "c1".into(), name: "n".into(), arguments: "{}".into() },
            Item::FunctionCallOutput { call_id: "c1".into(), output: "out".into() },
        ]
    );
}

#[test]
fn missing_and_broken_sessions() {
    let empty = FileStorage::loaded("/s/x.json", LoadOutcome::Missing).unwrap();
    assert_eq!(empty, SessionState::new());
    assert_eq!(
        FileStorage::loaded("/s/x.json", LoadOutcome::Unreadable("denied".into())).unwrap_err(),
        Error::Storage("/s/x.json: denied".into())
    );
    assert_eq!(
        FileStorage::loaded("/s/x.json", LoadOutcome::Invalid("expected value".into())).unwrap_err(),
        Error::Storage("expected value".into())
    );
}

#[test]
fn memory_storage_round_trips_session_state() {
    let mut storage = MemoryStorage::new();
    let state = SessionState {
        transcript: vec![Message::User { content: "persist me".into() }],
        context: vec![Item::User { content: "persist me".into() }],
        pending_request: Some(Request {
            instructions: "rules".into(),
            input: vec![],
            tools: vec![],
            compact_threshold: 80,
        }),
        ..SessionState::new()
    };
    assert_eq!(storage.load("conv-1"), SessionState::new());
    storage.save("conv-1", &state);
    storage.save("conv-2", &SessionState::new());
    assert_eq!(storage.load("conv-1"), state);
    let mut changed = state.clone();
    changed.compaction_count = 7;
    storage.save("conv-1", &changed);
    assert_eq!(storage.load("conv-1"), changed);
    assert_eq!(storage.load("conv-2"), SessionState::new());
}

#[test]
fn lists_json_sessions_in_name_order() {
    let entry = |name: &str, is_file: bool| DirEntry { name: name.into(), is_file };
    assert!(session_names(&vec![]).is_empty());
    let names = session_names(&vec![
        entry("zeta.json", true),
        entry("alpha.json", true),
        entry("ignored.tmp", true),
        entry("dir.json", false),
        entry(".json", true),
        entry("a.b.json", true),
    ]);
    assert_eq!(names, ["a.b", "alpha", "zeta"]);
}
