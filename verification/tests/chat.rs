use agent::chat::{
    handle_agent_event, handle_confirmation_key, handle_input_event, restore_chat_history,
    AgentCommand, App, ChatEntry, InputEvent, KeyCode, KeyEvent, KeyOutcome, PendingConfirmation,
    CONTROL, NO_MODIFIERS, SHIFT,
};
use agent::event::Usage;
use agent::handler::AgentEvent;
use agent::message::{Message, ToolCall};
use agent::skills::SkillInfo;
use agent::tool::ToolOutput;

fn key(code: KeyCode, modifiers: u8) -> InputEvent {
    InputEvent::Key(KeyEvent { code, modifiers })
}

#[test]
fn confirmation_defaults_to_deny_and_can_be_allowed() {
    let mut app = App::new("test-model".to_string(), 100);
    app.confirmation = Some(PendingConfirmation::new(
        "shell".to_string(),
        r#"{"command":"cargo test"}"#.to_string(),
    ));

    let outcome = handle_confirmation_key(&mut app, KeyEvent { code: KeyCode::Enter, modifiers: NO_MODIFIERS });
    assert_eq!(outcome, KeyOutcome::Answered(false));

    app.confirmation = Some(PendingConfirmation::new(
        "shell".to_string(),
        r#"{"command":"cargo test"}"#.to_string(),
    ));
    let outcome = handle_confirmation_key(&mut app, KeyEvent { code: KeyCode::Down, modifiers: NO_MODIFIERS });
    assert_ne!(outcome, KeyOutcome::Ignored);
    assert!(app.confirmation.as_ref().unwrap().allow_selected);
    let outcome = handle_confirmation_key(&mut app, KeyEvent { code: KeyCode::Enter, modifiers: NO_MODIFIERS });
    assert_ne!(outcome, KeyOutcome::Ignored);
    assert_eq!(outcome, KeyOutcome::Answered(true));
}

#[test]
fn restores_messages_and_tool_names() {
    let entries = restore_chat_history(vec![
        Message::System { content: "hidden".into() },
        Message::User { content: "question".into() },
        Message::Assistant {
            text: None,
            tool_calls: vec![ToolCall {
                id: "call-1".into(),
                name: "shell".into(),
                arguments: r#"{"command":"pwd"}"#.into(),
            }],
        },
        Message::Tool { tool_call_id: "call-1".into(), content: "/tmp".into() },
        Message::Assistant { text: Some("done".into()), tool_calls: vec![] },
    ]);

    assert!(matches!(&entries[0], ChatEntry::User(text) if text == "question"));
    assert!(matches!(&entries[1], ChatEntry::ToolCall { name, .. } if name == "shell"));
    assert!(matches!(
        &entries[2],
        ChatEntry::ToolResult { name, output } if name == "shell" && output == "/tmp"
    ));
    assert!(matches!(&entries[3], ChatEntry::Assistant(text) if text == "done"));
}

#[test]
fn multiline_keys_and_paste_edit_without_submitting() {
    let mut app = App::new("test-model".to_string(), 100);

    assert!(handle_input_event(&mut app, key(KeyCode::Enter, SHIFT), 20).is_none());
    handle_input_event(&mut app, InputEvent::Paste("one\r\ntwo".into()), 20);
    handle_input_event(&mut app, key(KeyCode::Char('j'), CONTROL), 20);

    assert_eq!(app.input.content(), "\none\ntwo\n");
    assert!(!app.is_running);
}

#[test]
fn enter_ignores_blank_draft_and_submits_non_blank_draft() {
    let mut app = App::new("test-model".to_string(), 100);
    app.input.insert_str(" \n");
    assert!(handle_input_event(&mut app, key(KeyCode::Enter, NO_MODIFIERS), 20).is_none());
    assert_eq!(app.input.content(), " \n");

    app.input.insert('x');
    let submitted = handle_input_event(&mut app, key(KeyCode::Enter, NO_MODIFIERS), 20);
    assert!(matches!(submitted, Some(AgentCommand::Submit(text)) if text == " \nx"));
    assert!(app.is_running);
    assert!(app.input.content().is_empty());
}

#[test]
fn dollar_picker_filters_and_inserts_selected_skill() {
    let mut app = App::new("test-model".to_string(), 100);
    app.skills = vec![SkillInfo {
        name: "wayfinder".into(),
        description: "plan work".into(),
        path: "/skills/wayfinder/SKILL.md".into(),
        allow_implicit_invocation: true,
    }];

    handle_input_event(&mut app, key(KeyCode::Char('$'), NO_MODIFIERS), 20);
    handle_input_event(&mut app, key(KeyCode::Char('w'), NO_MODIFIERS), 20);
    handle_input_event(&mut app, key(KeyCode::Enter, NO_MODIFIERS), 20);

    assert_eq!(app.input.content(), "$wayfinder ");
    assert!(app.skill_selection.is_none());
}

#[test]
fn only_retryable_failures_enable_retry() {
    let mut app = App::new("test-model".to_string(), 100);
    handle_agent_event(&mut app, AgentEvent::Failed { error: "bad skill".into(), retryable: false });
    assert!(!app.pending_retry);
    handle_agent_event(&mut app, AgentEvent::Failed { error: "network".into(), retryable: true });
    assert!(app.pending_retry);
}

#[test]
fn ctrl_r_retries_only_a_waiting_request() {
    let mut app = App::new("m".to_string(), 100);
    assert!(handle_input_event(&mut app, key(KeyCode::Char('r'), CONTROL), 20).is_none());
    assert_eq!(app.input.content(), "r");
    app.input.take();
    app.pending_retry = true;
    let command = handle_input_event(&mut app, key(KeyCode::Char('r'), CONTROL), 20);
    assert_eq!(command, Some(AgentCommand::Retry));
    assert!(app.is_running);
    assert!(handle_input_event(&mut app, key(KeyCode::Char('r'), CONTROL), 20).is_none());
}

#[test]
fn ctrl_c_quits_and_page_keys_scroll() {
    let mut app = App::new("m".to_string(), 100);
    handle_input_event(&mut app, key(KeyCode::PageUp, NO_MODIFIERS), 20);
    handle_input_event(&mut app, key(KeyCode::PageUp, NO_MODIFIERS), 20);
    assert_eq!(app.scroll_offset, 6);
    handle_input_event(&mut app, key(KeyCode::PageDown, NO_MODIFIERS), 20);
    assert_eq!(app.scroll_offset, 3);
    handle_input_event(&mut app, key(KeyCode::PageDown, NO_MODIFIERS), 20);
    handle_input_event(&mut app, key(KeyCode::PageDown, NO_MODIFIERS), 20);
    assert_eq!(app.scroll_offset, 0);
    handle_input_event(&mut app, key(KeyCode::Char('c'), CONTROL), 20);
    assert!(app.should_quit);
}

#[test]
fn streamed_text_is_flushed_before_tool_calls_and_at_turn_end() {
    let mut app = App::new("m".to_string(), 100);
    app.is_running = true;
    handle_agent_event(&mut app, AgentEvent::TextDelta("Hel".into()));
    handle_agent_event(&mut app, AgentEvent::TextDelta("lo".into()));
    assert_eq!(app.streaming_text, "Hello");
    handle_agent_event(
        &mut app,
        AgentEvent::ToolCallBegin { id: "c".into(), name: "shell".into(), arguments: "{}".into() },
    );
    handle_agent_event(
        &mut app,
        AgentEvent::ToolCallEnd { id: "c".into(), output: ToolOutput::Error("boom".into()) },
    );
    handle_agent_event(
        &mut app,
        AgentEvent::ToolCallDenied { id: "d".into(), name: "grep".into(), reason: "no".into() },
    );
    handle_agent_event(&mut app, AgentEvent::Compacted { total: 12 });
    handle_agent_event(&mut app, AgentEvent::TextDelta("bye".into()));
    handle_agent_event(
        &mut app,
        AgentEvent::TurnComplete {
            usage: Usage { input_tokens: 42, output_tokens: 1, total_tokens: 43, cached_input_tokens: 0 },
            context_window: 200,
        },
    );
    assert_eq!(
        app.chat_history,
        vec![
            ChatEntry::Assistant("Hello".into()),
            ChatEntry::ToolCall { name: "shell".into(), arguments: "{}".into() },
            ChatEntry::ToolResult { name: "shell".into(), output: "error: boom".into() },
            ChatEntry::Error("Tool `grep` denied: no".into()),
            ChatEntry::Activity("context compacted (12)".into()),
            ChatEntry::Assistant("bye".into()),
        ]
    );
    assert_eq!(app.input_tokens, 42);
    assert_eq!(app.context_window, 200);
    assert!(!app.is_running);
    assert!(app.streaming_text.is_empty());
}

#[test]
fn skills_update_adds_warnings_as_activity() {
    let mut app = App::new("m".to_string(), 100);
    handle_agent_event(
        &mut app,
        AgentEvent::SkillsUpdated { skills: vec![], warnings: vec!["a".into(), "b".into()] },
    );
    assert_eq!(app.chat_history, vec![ChatEntry::Activity("a".into()), ChatEntry::Activity("b".into())]);
}

#[test]
fn picker_moves_within_the_offered_skills() {
    let mut app = App::new("m".to_string(), 100);
    let skill = |name: &str| SkillInfo {
        name: name.into(),
        description: "d".into(),
        path: "p".into(),
        allow_implicit_invocation: true,
    };
    app.skills = vec![skill("alpha"), skill("beta"), skill("gamma")];
    handle_input_event(&mut app, key(KeyCode::Char('$'), NO_MODIFIERS), 20);
    handle_input_event(&mut app, key(KeyCode::Char('a'), NO_MODIFIERS), 20);
    assert_eq!(app.filtered_skills().len(), 3);
    handle_input_event(&mut app, key(KeyCode::Down, NO_MODIFIERS), 20);
    handle_input_event(&mut app, key(KeyCode::Down, NO_MODIFIERS), 20);
    handle_input_event(&mut app, key(KeyCode::Down, NO_MODIFIERS), 20);
    assert_eq!(app.skill_selection, Some(2));
    handle_input_event(&mut app, key(KeyCode::Up, NO_MODIFIERS), 20);
    assert_eq!(app.skill_selection, Some(1));
    handle_input_event(&mut app, key(KeyCode::Enter, NO_MODIFIERS), 20);
    assert_eq!(app.input.content(), "$beta ");
    handle_input_event(&mut app, key(KeyCode::Char('$'), NO_MODIFIERS), 20);
    handle_input_event(&mut app, key(KeyCode::Esc, NO_MODIFIERS), 20);
    assert!(app.skill_selection.is_none());
}

#[test]
fn confirmation_keys_answer_and_quit() {
    let mut app = App::new("m".to_string(), 100);
    assert_eq!(
        handle_confirmation_key(&mut app, KeyEvent { code: KeyCode::Char('y'), modifiers: NO_MODIFIERS }),
        KeyOutcome::Ignored
    );
    app.confirmation = Some(PendingConfirmation::new("t".into(), "{}".into()));
    assert_eq!(
        handle_confirmation_key(&mut app, KeyEvent { code: KeyCode::Char('y'), modifiers: NO_MODIFIERS }),
        KeyOutcome::Answered(true)
    );
    assert!(app.confirmation.is_none());
    app.confirmation = Some(PendingConfirmation::new("t".into(), "{}".into()));
    assert_eq!(
        handle_confirmation_key(&mut app, KeyEvent { code: KeyCode::Esc, modifiers: NO_MODIFIERS }),
        KeyOutcome::Answered(false)
    );
    app.confirmation = Some(PendingConfirmation::new("t".into(), "{}".into()));
    assert_eq!(
        handle_confirmation_key(&mut app, KeyEvent { code: KeyCode::Char('c'), modifiers: CONTROL }),
        KeyOutcome::Answered(false)
    );
    assert!(app.should_quit);
}
