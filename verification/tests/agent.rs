use agent::agent::{denial, denied_output, failed_output, Agent, AgentBuilder, ToolEntry, ToolStep};
use agent::context::{Item, RawItem, ToolDefinition};
use agent::error::Error;
use agent::event::{Event, ResponseCollector, Usage};
use agent::guard::Decision;
use agent::message::{Message, ToolCall};
use agent::skills::SkillCatalog;
use agent::storage::SessionState;
use agent::tool::{RiskLevel, ToolOutput};

fn raw(json: &str, item_type: &str) -> Item {
    Item::Raw(RawItem {
        json: json.to_string(),
        item_type: Some(item_type.to_string()),
        call_id: None,
        name: None,
        arguments: None,
    })
}

fn echo_tool() -> ToolEntry {
    ToolEntry {
        definition: ToolDefinition {
            name: "echo".into(),
            description: "echo input".into(),
            parameters: r#"{"type":"object"}"#.into(),
        },
        risk_level: RiskLevel::Low,
    }
}

fn agent(tools: Vec<ToolEntry>) -> Agent {
    Agent::build(SessionState::new(), String::new(), String::new(), SkillCatalog::empty(), tools, Some(100))
        .unwrap()
}

fn respond(agent: &mut Agent, events: Vec<Event>) -> (u64, Vec<ToolCall>, String) {
    let mut collector = ResponseCollector::new();
    for event in events {
        collector.feed(event);
    }
    let (text, output, usage) = collector.finish().unwrap();
    let (compacted, calls) = agent.complete(text.clone(), output, usage);
    (compacted, calls, text)
}

#[test]
fn compaction_prunes_only_canonical_context_and_preserves_transcript() {
    let mut agent = agent(vec![]);
    agent.start_turn("remember me", SkillCatalog::empty()).unwrap();
    let (compacted, calls, _) = respond(
        &mut agent,
        vec![
            Event::TextDelta("done".into()),
            Event::OutputItem(raw(r#"{"type":"compaction","encrypted_content":"opaque"}"#, "compaction")),
            Event::OutputItem(raw(r#"{"type":"message","role":"assistant","content":[]}"#, "message")),
            Event::Done {
                usage: Usage { input_tokens: 81, output_tokens: 2, total_tokens: 83, cached_input_tokens: 0 },
            },
        ],
    );
    assert_eq!(compacted, 1);
    assert!(calls.is_empty());
    let saved = &agent.state;
    assert!(matches!(&saved.transcript[0], Message::User { content } if content == "remember me"));
    assert!(saved.context[0].is_compaction());
    assert_eq!(saved.context.len(), 2);
    assert_eq!(saved.compaction_count, 1);
    assert!(saved.pending_request.is_none());
    assert_eq!(saved.last_input_tokens, 81);
}

#[test]
fn failed_request_is_persisted_and_retry_is_exact() {
    let mut agent = agent(vec![]);
    agent.start_turn("once", SkillCatalog::empty()).unwrap();
    let first = agent.next_request().unwrap();
    agent.fail("network".into());
    assert!(agent.state.pending_request.is_some());
    assert_eq!(agent.state.last_error.as_deref(), Some("network"));
    let second = agent.next_request().unwrap();
    assert_eq!(first, second);
    respond(&mut agent, vec![Event::Done { usage: Usage::default() }]);
    assert_eq!(
        agent.state.transcript.iter().filter(|message| matches!(message, Message::User { .. })).count(),
        1
    );
    assert!(matches!(agent.next_request(), Err(Error::Other(m)) if m == "there is no pending request to retry"));
}

#[test]
fn submitting_while_retry_is_pending_emits_failure() {
    let mut agent = agent(vec![]);
    agent.start_turn("once", SkillCatalog::empty()).unwrap();
    agent.fail("network".into());
    let before = agent.state.clone();
    let error = agent.start_turn("twice", SkillCatalog::empty()).unwrap_err();
    assert_eq!(
        error,
        Error::Other("a failed request is pending; retry it before submitting a new message".into())
    );
    assert!(agent.has_pending_request());
    assert_eq!(agent.state, before);
}

#[test]
fn completed_function_call_and_output_are_chained_to_next_response() {
    let mut agent = agent(vec![echo_tool()]);
    agent.start_turn("go", SkillCatalog::empty()).unwrap();
    let call_item = Item::Raw(RawItem {
        json: r#"{"type":"function_call","call_id":"call-1","name":"echo","arguments":"{\"value\":1}"}"#.into(),
        item_type: Some("function_call".into()),
        call_id: Some("call-1".into()),
        name: Some("echo".into()),
        arguments: Some(r#"{"value":1}"#.into()),
    });
    let (_, calls, _) = respond(
        &mut agent,
        vec![Event::OutputItem(call_item), Event::Done { usage: Usage::default() }],
    );
    assert_eq!(calls.len(), 1);
    let call = &calls[0];
    let step = agent.prepare_call(call, None);
    assert!(matches!(step, ToolStep::Check(RiskLevel::Low)));
    assert!(denial(&Decision::Allow, false).is_none());
    agent.record_tool_output(call, &ToolOutput::Text(r#"{"value":1}"#.into()));
    agent.follow_up();
    let request = agent.next_request().unwrap();
    assert!(request.input.iter().any(|item| matches!(
        item,
        Item::FunctionCallOutput { call_id, .. } if call_id == "call-1"
    )));
    respond(
        &mut agent,
        vec![
            Event::TextDelta("done".into()),
            Event::OutputItem(raw(r#"{"type":"message","role":"assistant","content":[]}"#, "message")),
            Event::Done { usage: Usage::default() },
        ],
    );
    assert_eq!(agent.state.transcript.len(), 4);
}

#[test]
fn unknown_tools_and_bad_arguments_end_the_call() {
    let agent = agent(vec![echo_tool()]);
    let call = ToolCall { id: "c".into(), name: "nope".into(), arguments: "{}".into() };
    assert!(matches!(
        agent.prepare_call(&call, None),
        ToolStep::Output(ToolOutput::Error(m)) if m == "unknown tool: nope"
    ));
    assert!(matches!(
        agent.prepare_call(&call, Some("EOF while parsing".into())),
        ToolStep::Output(ToolOutput::Error(m)) if m == "invalid arguments JSON: EOF while parsing"
    ));
}

#[test]
fn denials_explain_themselves() {
    assert_eq!(denial(&Decision::Deny("policy".into()), true), Some("policy".to_string()));
    assert_eq!(denial(&Decision::NeedConfirm, false), Some("user denied confirmation".to_string()));
    assert_eq!(denial(&Decision::NeedConfirm, true), None);
    assert_eq!(denied_output("policy"), ToolOutput::Error("denied: policy".into()));
    assert_eq!(failed_output(&Error::Tool("bad".into())), ToolOutput::Error("bad".into()));
}

#[test]
fn stream_without_completion_is_an_error() {
    let mut collector = ResponseCollector::new();
    collector.feed(Event::TextDelta("partial".into()));
    assert_eq!(
        collector.finish().unwrap_err(),
        Error::Model("response stream ended before completion".into())
    );
}

#[test]
fn instructions_order_sections_by_authority() {
    let agent = Agent::build(
        SessionState::new(),
        "BASE".into(),
        "PROJECT".into(),
        SkillCatalog::empty(),
        vec![],
        Some(1000),
    )
    .unwrap();
    let text = agent.instructions();
    let base = text.find("<base>\nBASE\n</base>").unwrap();
    let project = text.find("<project-instructions>\nPROJECT\n</project-instructions>").unwrap();
    let skills = text.find("<skills>").unwrap();
    assert!(base < project && project < skills);
    assert!(text.ends_with("\n\n</skills>"));
    assert_eq!(agent.compact_threshold(), 800);
}

#[test]
fn a_zero_context_window_is_refused() {
    let result = Agent::build(SessionState::new(), String::new(), String::new(), SkillCatalog::empty(), vec![], Some(0));
    assert!(matches!(result, Err(Error::Other(m)) if m == "model.context_window must be a positive integer"));
}

#[test]
fn builder_keeps_the_last_tool_of_a_name_in_name_order() {
    let entry = |name: &str, risk: RiskLevel| ToolEntry {
        definition: ToolDefinition { name: name.into(), description: "d".into(), parameters: "{}".into() },
        risk_level: risk,
    };
    let builder = AgentBuilder::new()
        .tool(entry("shell", RiskLevel::High))
        .tool(entry("grep", RiskLevel::Low))
        .tool(entry("shell", RiskLevel::Low));
    let names: Vec<_> = builder.tools().iter().map(|t| t.definition.name.clone()).collect();
    assert_eq!(names, ["grep", "shell"]);
    assert_eq!(builder.tools()[1].risk_level, RiskLevel::Low);
    assert!(matches!(builder.settings(), Err(Error::Other(m)) if m == "workdir is required"));
    let builder = builder.workdir("/w");
    assert!(matches!(builder.settings(), Err(Error::Other(m)) if m == "model.context_window must be a positive integer"));
    let builder = builder.context_window(64);
    assert_eq!(builder.settings().unwrap(), ("/w".to_string(), 64));
    assert_eq!(builder.conversation_name(), "default");
}

#[test]
fn a_response_without_calls_ends_the_turn_after_reporting_compaction() {
    let mut a = agent(vec![echo_tool()]);
    a.state.compaction_count = 3;
    let usage = Usage { input_tokens: 5, output_tokens: 2, total_tokens: 7, cached_input_tokens: 0 };
    let (reports, finished) = a.response_reports(1, &Vec::new(), usage);
    assert!(finished);
    assert_eq!(
        reports,
        vec![
            agent::handler::AgentEvent::Compacted { total: 3 },
            agent::handler::AgentEvent::TurnComplete { usage, context_window: 100 },
        ]
    );
    let call = ToolCall { id: "c".into(), name: "echo".into(), arguments: "{}".into() };
    let (reports, finished) = a.response_reports(0, &vec![call], usage);
    assert!(!finished);
    assert!(reports.is_empty());
}
