use agent::context::{Item, RawItem};
use agent::error::Error;
use agent::event::{Event, Usage};
use agent::json::{JsonMember, JsonNumber, JsonValue};
use agent::context::{Request, ToolDefinition};
use agent::provider::{item_text, parse_stream_event, request_body};

fn to_json(v: &serde_json::Value) -> JsonValue {
    match v {
        serde_json::Value::Null => JsonValue::Null,
        serde_json::Value::Bool(b) => JsonValue::Bool(*b),
        serde_json::Value::Number(n) => JsonValue::Number(JsonNumber { unsigned: n.as_u64(), text: n.to_string() }),
        serde_json::Value::String(s) => JsonValue::String(s.clone()),
        serde_json::Value::Array(items) => JsonValue::Array(items.iter().map(to_json).collect()),
        serde_json::Value::Object(map) => JsonValue::Object(
            map.iter().map(|(k, v)| JsonMember { key: k.clone(), value: to_json(v) }).collect(),
        ),
    }
}

fn parse(text: &str) -> Option<Result<Event, Error>> {
    let value: serde_json::Value = serde_json::from_str(text).unwrap();
    let item = value.get("item").map(|i| serde_json::to_string(i).unwrap());
    parse_stream_event(&to_json(&value), item)
}

#[test]
fn completed_event_only_requires_fields_the_agent_uses() {
    let parsed = parse(
        r#"{
            "type": "response.completed",
            "response": {
                "output": [{"type": "message", "role": "assistant", "content": [{"type": "output_text", "text": "done"}]}],
                "usage": {"input_tokens": 11, "output_tokens": 2, "total_tokens": 13, "input_tokens_details": {"cached_tokens": 7}}
            }
        }"#,
    )
    .unwrap()
    .unwrap();
    assert_eq!(
        parsed,
        Event::Done { usage: Usage { input_tokens: 11, output_tokens: 2, total_tokens: 13, cached_input_tokens: 7 } }
    );
}

#[test]
fn usage_counts_are_capped_and_default_to_zero() {
    let parsed = parse(r#"{"type":"response.completed","response":{"usage":{"input_tokens":99999999999}}}"#);
    assert_eq!(
        parsed,
        Some(Ok(Event::Done {
            usage: Usage { input_tokens: u32::MAX, output_tokens: 0, total_tokens: 0, cached_input_tokens: 0 }
        }))
    );
}

#[test]
fn deltas_and_items_are_passed_on() {
    assert_eq!(parse(r#"{"type":"response.output_text.delta","delta":"hi"}"#), Some(Ok(Event::TextDelta("hi".into()))));
    assert_eq!(
        parse(r#"{"type":"response.output_text.delta"}"#),
        Some(Err(Error::Model("response.output_text.delta missing delta".into())))
    );
    let item = parse(r#"{"type":"response.output_item.done","item":{"type":"function_call","call_id":"c1","name":"echo","arguments":"{}"}}"#);
    match item {
        Some(Ok(Event::OutputItem(Item::Raw(RawItem { json, item_type, call_id, name, arguments })))) => {
            assert_eq!(item_type.as_deref(), Some("function_call"));
            assert_eq!(call_id.as_deref(), Some("c1"));
            assert_eq!(name.as_deref(), Some("echo"));
            assert_eq!(arguments.as_deref(), Some("{}"));
            let back: serde_json::Value = serde_json::from_str(&json).unwrap();
            assert_eq!(back["call_id"], "c1");
        }
        other => panic!("unexpected {other:?}"),
    }
    assert_eq!(
        parse(r#"{"type":"response.output_item.done"}"#),
        Some(Err(Error::Model("response.output_item.done missing item".into())))
    );
}

#[test]
fn failures_carry_the_first_message_found() {
    assert_eq!(
        parse(r#"{"type":"response.failed","response":{"error":{"message":"quota"}},"message":"other"}"#),
        Some(Err(Error::Model("quota".into())))
    );
    assert_eq!(
        parse(r#"{"type":"error","error":{"message":"bad key"}}"#),
        Some(Err(Error::Model("bad key".into())))
    );
    assert_eq!(
        parse(r#"{"type":"response.incomplete","response":{"incomplete_details":{"reason":"max_output_tokens"}}}"#),
        Some(Err(Error::Model("max_output_tokens".into())))
    );
    assert_eq!(parse(r#"{"type":"error"}"#), Some(Err(Error::Model("error".into()))));
    assert_eq!(
        parse(r#"{"type":"error","error":{"message":5},"message":"later"}"#),
        Some(Err(Error::Model("error".into())))
    );
}

#[test]
fn other_events_are_skipped() {
    assert_eq!(parse(r#"{"type":"response.created"}"#), None);
    assert_eq!(parse(r#"{"no":"type"}"#), None);
}

#[test]
fn request_body_uses_responses_compaction_contract() {
    let request = Request {
        instructions: "rules".into(),
        input: vec![Item::User { content: "hi".into() }],
        tools: vec![],
        compact_threshold: 80,
    };
    let body: serde_json::Value = serde_json::from_str(&request_body("test", &request)).unwrap();
    assert_eq!(body["store"], false);
    assert_eq!(body["stream"], true);
    assert!(body.get("truncation").is_none());
    assert_eq!(body["include"][0], "reasoning.encrypted_content");
    assert_eq!(body["context_management"][0]["compact_threshold"], 80);
    assert!(body.get("previous_response_id").is_none());
    assert_eq!(body["input"][0]["role"], "user");
    assert_eq!(body["input"][0]["content"], "hi");
    assert_eq!(body["model"], "test");
}

#[test]
fn request_body_carries_items_and_tools_verbatim() {
    let request = Request {
        instructions: "say \"hi\"\n".into(),
        input: vec![
            Item::FunctionCall { call_id: "c1".into(), name: "echo".into(), arguments: "{\"a\":1}".into() },
            Item::FunctionCallOutput { call_id: "c1".into(), output: "out".into() },
            Item::Raw(RawItem {
                json: r#"{"type":"compaction","encrypted_content":"x"}"#.into(),
                item_type: Some("compaction".into()),
                call_id: None,
                name: None,
                arguments: None,
            }),
        ],
        tools: vec![ToolDefinition {
            name: "echo".into(),
            description: "echo input".into(),
            parameters: r#"{"type":"object"}"#.into(),
        }],
        compact_threshold: 7,
    };
    let body: serde_json::Value = serde_json::from_str(&request_body("m", &request)).unwrap();
    assert_eq!(body["instructions"], "say \"hi\"\n");
    assert_eq!(body["input"][0]["type"], "function_call");
    assert_eq!(body["input"][0]["arguments"], "{\"a\":1}");
    assert_eq!(body["input"][1]["output"], "out");
    assert_eq!(body["input"][2]["encrypted_content"], "x");
    assert_eq!(body["tools"][0]["type"], "function");
    assert_eq!(body["tools"][0]["parameters"]["type"], "object");
    assert_eq!(body["tools"][0]["strict"], false);
    let user: serde_json::Value = serde_json::from_str(&item_text(&Item::Assistant { content: "a".into() })).unwrap();
    assert_eq!(user["role"], "assistant");
}

#[test]
fn request_body_escapes_strings_as_json_does() {
    let request = Request {
        instructions: "a\"b\\c\nd\te\u{1}".into(),
        input: vec![],
        tools: vec![],
        compact_threshold: 1,
    };
    let body = request_body("m", &request);
    assert!(body.contains(r#""instructions":"a\"b\\c\nd\te\u0001""#));
}
