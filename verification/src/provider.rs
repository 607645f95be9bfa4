//! Reading the events of a streamed Responses API answer.
use vstd::prelude::*;

use crate::context::{
    definition_views, item_views, Item, ItemView, RawItem, Request, RequestView, ToolDefinition,
    ToolDefinitionView,
};
use crate::error::Error;
use crate::event::{Event, Usage};
use crate::json::{field, field_of, str_field, str_of, string_field, u64_of, JsonValue};
use crate::text::{decimal, decimal_string, join, joined_with, texts};

verus! {

/// A token count as the provider reports it, capped at `u32::MAX`; a missing count
/// is 0.
pub open spec fn token_count(v: Option<JsonValue>) -> u32 {
    match u64_of(v) {
        Some(n) => if n > u32::MAX {
            u32::MAX
        } else {
            n as u32
        },
        None => 0,
    }
}

/// The usage object of a `response.completed` event.
pub open spec fn usage_object(event: JsonValue) -> Option<JsonValue> {
    field_of(field(event, "response"@), "usage"@)
}

/// The usage a `response.completed` event reports.
pub open spec fn spec_usage(event: JsonValue) -> Usage {
    let u = usage_object(event);
    Usage {
        input_tokens: token_count(field_of(u, "input_tokens"@)),
        output_tokens: token_count(field_of(u, "output_tokens"@)),
        total_tokens: token_count(field_of(u, "total_tokens"@)),
        cached_input_tokens: token_count(
            field_of(field_of(u, "input_tokens_details"@), "cached_tokens"@),
        ),
    }
}

/// The value at the first of the places a failure's message may be: the response's
/// error message, the error message, the reason the response is incomplete, or the
/// message.
pub open spec fn failure_value(event: JsonValue) -> Option<JsonValue> {
    let response = field(event, "response"@);
    let a = field_of(field_of(response, "error"@), "message"@);
    let b = field_of(field(event, "error"@), "message"@);
    let c = field_of(field_of(response, "incomplete_details"@), "reason"@);
    let d = field(event, "message"@);
    if a is Some {
        a
    } else if b is Some {
        b
    } else if c is Some {
        c
    } else {
        d
    }
}

/// The message of a failure event of type `kind`: the text found at the first place
/// that holds anything, when it is a string, and otherwise the event's type.
pub open spec fn failure_message(event: JsonValue, kind: Seq<char>) -> Seq<char> {
    match str_of(failure_value(event)) {
        Some(m) => m,
        None => kind,
    }
}

/// The context item for an output item `item` whose JSON text is `json`.
pub open spec fn raw_item_view(item: JsonValue, json: Seq<char>) -> ItemView {
    ItemView::Raw {
        json,
        item_type: str_field(item, "type"@),
        call_id: str_field(item, "call_id"@),
        name: str_field(item, "name"@),
        arguments: str_field(item, "arguments"@),
    }
}

/// The context item for an output item: its JSON text and the fields the runtime reads.
pub fn raw_item(item: &JsonValue, json: String) -> (i: Item)
    ensures
        i@ == raw_item_view(*item, json@),
{
    Item::Raw(
        RawItem {
            json,
            item_type: string_field(item, "type"),
            call_id: string_field(item, "call_id"),
            name: string_field(item, "name"),
            arguments: string_field(item, "arguments"),
        },
    )
}

/// A token count capped at `u32::MAX`, 0 when missing.
fn count_of(v: Option<&JsonValue>) -> (n: u32)
    ensures
        n == token_count(
            match v {
                Some(x) => Some(*x),
                None => None,
            },
        ),
{
    let value = match v {
        Some(x) => x.as_u64(),
        None => None,
    };
    match value {
        Some(n) => if n > 4294967295u64 {
            4294967295u32
        } else {
            n as u32
        },
        None => 0,
    }
}

/// The member `key` of an optional value.
fn member<'a>(v: Option<&'a JsonValue>, key: &str) -> (r: Option<&'a JsonValue>)
    ensures
        match r {
            Some(x) => field_of(
                match v {
                    Some(y) => Some(*y),
                    None => None,
                },
                key@,
            ) == Some(*x),
            None => field_of(
                match v {
                    Some(y) => Some(*y),
                    None => None,
                },
                key@,
            ) is None,
        },
{
    match v {
        Some(x) => x.get(key),
        None => None,
    }
}

/// The view of an optional reference.
pub open spec fn deref_opt(v: Option<&JsonValue>) -> Option<JsonValue> {
    match v {
        Some(x) => Some(*x),
        None => None,
    }
}

/// The usage a `response.completed` event reports, counts capped at `u32::MAX`.
pub fn usage_of(event: &JsonValue) -> (u: Usage)
    ensures
        u == spec_usage(*event),
{
    let usage = member(event.get("response"), "usage");
    let details = member(usage, "input_tokens_details");
    Usage {
        input_tokens: count_of(member(usage, "input_tokens")),
        output_tokens: count_of(member(usage, "output_tokens")),
        total_tokens: count_of(member(usage, "total_tokens")),
        cached_input_tokens: count_of(member(details, "cached_tokens")),
    }
}

/// The message of a failure event of type `kind`.
pub fn failure_text(event: &JsonValue, kind: &String) -> (m: String)
    ensures
        m@ == failure_message(*event, kind@),
{
    let response = event.get("response");
    let a = member(member(response, "error"), "message");
    let b = member(event.get("error"), "message");
    let c = member(member(response, "incomplete_details"), "reason");
    let d = event.get("message");
    let found = if a.is_some() {
        a
    } else if b.is_some() {
        b
    } else if c.is_some() {
        c
    } else {
        d
    };
    proof {
        assert(deref_opt(found) == failure_value(*event));
    }
    match found {
        Some(v) => match v.as_str() {
            Some(s) => s.clone(),
            None => kind.clone(),
        },
        None => kind.clone(),
    }
}

/// What a stream event of the provider means, with `item_json` the JSON text of its
/// `item` member when it has one. Text deltas and finished output items are passed
/// on, a completed response gives its usage, a failed or incomplete response or an
/// error gives a model error, and any other event is skipped (`None`).
pub fn parse_stream_event(event: &JsonValue, item_json: Option<String>) -> (r: Option<
    Result<Event, Error>,
>)
    requires
        item_json is Some <==> field(*event, "item"@) is Some,
    ensures
        match str_field(*event, "type"@) {
            None => r is None,
            Some(kind) => if kind == "response.output_text.delta"@ {
                match str_field(*event, "delta"@) {
                    Some(d) => r matches Some(Ok(Event::TextDelta(t))) && t@ == d,
                    None => r matches Some(Err(Error::Model(m))) && m@
                        == "response.output_text.delta missing delta"@,
                }
            } else if kind == "response.output_item.done"@ {
                match field(*event, "item"@) {
                    Some(item) => r matches Some(Ok(Event::OutputItem(i))) && i@ == raw_item_view(
                        item,
                        item_json.unwrap()@,
                    ),
                    None => r matches Some(Err(Error::Model(m))) && m@
                        == "response.output_item.done missing item"@,
                }
            } else if kind == "response.completed"@ {
                r matches Some(Ok(Event::Done { usage })) && usage == spec_usage(*event)
            } else if kind == "response.failed"@ || kind == "response.incomplete"@ || kind
                == "error"@ {
                r matches Some(Err(Error::Model(m))) && m@ == failure_message(*event, kind)
            } else {
                r is None
            },
        },
{
    let kind = match string_field(event, "type") {
        Some(k) => k,
        None => {
            return None;
        },
    };
    if kind == String::from_str("response.output_text.delta") {
        return Some(
            match string_field(event, "delta") {
                Some(d) => Ok(Event::TextDelta(d)),
                None => Err(Error::Model(String::from_str("response.output_text.delta missing delta"))),
            },
        );
    }
    if kind == String::from_str("response.output_item.done") {
        return Some(
            match (event.get("item"), item_json) {
                (Some(item), Some(json)) => Ok(Event::OutputItem(raw_item(item, json))),
                _ => Err(Error::Model(String::from_str("response.output_item.done missing item"))),
            },
        );
    }
    if kind == String::from_str("response.completed") {
        return Some(Ok(Event::Done { usage: usage_of(event) }));
    }
    if kind == String::from_str("response.failed") || kind == String::from_str(
        "response.incomplete",
    ) || kind == String::from_str("error") {
        return Some(Err(Error::Model(failure_text(event, &kind))));
    }
    None
}

/// How `serde_json` writes a character inside a string: a quote, a backslash and the
/// control characters below U+0020 are escaped (short forms for backspace, form feed,
/// line feed, carriage return and tab, else `\u00` and two lowercase hexadecimal
/// digits); any other character stands as it is.
pub open spec fn json_escape(c: char) -> Seq<char> {
    if c == '"' {
        seq!['\\', '"']
    } else if c == '\\' {
        seq!['\\', '\\']
    } else if c == '\u{8}' {
        seq!['\\', 'b']
    } else if c == '\u{c}' {
        seq!['\\', 'f']
    } else if c == '\n' {
        seq!['\\', 'n']
    } else if c == '\r' {
        seq!['\\', 'r']
    } else if c == '\t' {
        seq!['\\', 't']
    } else if (c as u32) < 0x20 {
        seq![
            '\\',
            'u',
            '0',
            '0',
            crate::render::hex_digit((c as u32 / 16) as nat),
            crate::render::hex_digit((c as u32 % 16) as nat),
        ]
    } else {
        seq![c]
    }
}

/// Each character of `text` as `serde_json` writes it inside a string.
pub open spec fn json_escaped(text: Seq<char>) -> Seq<char>
    decreases text.len(),
{
    if text.len() == 0 {
        seq![]
    } else {
        json_escaped(text.drop_last()) + json_escape(text.last())
    }
}

/// The JSON text of a string: `text` escaped and in double quotes, as `serde_json`
/// writes it.
pub open spec fn json_string(text: Seq<char>) -> Seq<char> {
    seq!['"'] + json_escaped(text) + seq!['"']
}

/// Calls `serde_json::to_string` on a string: the text quoted, with the characters
/// that `json_escape` lists escaped (serde_json's `ESCAPE` table in `ser.rs`).
/// Serialising a `str` cannot fail, so an error is not expected; the body falls back
/// to an empty JSON string.
#[verifier::external_body]
fn quote(text: &str) -> (s: String)
    ensures
        s@ == json_string(text@),
{
    serde_json::to_string(text).unwrap_or_else(|_| "\"\"".to_string())
}

/// The JSON text of a context item as it is sent.
pub open spec fn item_json(item: ItemView) -> Seq<char> {
    match item {
        ItemView::User { content } => "{\"role\":\"user\",\"content\":"@ + json_string(content)
            + "}"@,
        ItemView::Assistant { content } => "{\"role\":\"assistant\",\"content\":"@ + json_string(
            content,
        ) + "}"@,
        ItemView::FunctionCall { call_id, name, arguments } =>
            "{\"type\":\"function_call\",\"call_id\":"@ + json_string(call_id) + ",\"name\":"@
                + json_string(name) + ",\"arguments\":"@ + json_string(arguments) + "}"@,
        ItemView::FunctionCallOutput { call_id, output } =>
            "{\"type\":\"function_call_output\",\"call_id\":"@ + json_string(call_id)
                + ",\"output\":"@ + json_string(output) + "}"@,
        ItemView::Raw { json, .. } => json,
    }
}

/// The JSON text of a tool as it is offered.
pub open spec fn tool_json(tool: ToolDefinitionView) -> Seq<char> {
    "{\"type\":\"function\",\"name\":"@ + json_string(tool.name) + ",\"description\":"@
        + json_string(tool.description) + ",\"parameters\":"@ + tool.parameters
        + ",\"strict\":false}"@
}

/// The JSON text of a list of texts that are JSON already.
pub open spec fn json_list(parts: Seq<Seq<char>>) -> Seq<char> {
    "["@ + joined_with(parts, ","@) + "]"@
}

/// The JSON texts of context items.
pub open spec fn item_texts(items: Seq<ItemView>) -> Seq<Seq<char>> {
    items.map_values(|i: ItemView| item_json(i))
}

/// The JSON texts of tool definitions.
pub open spec fn tool_texts(tools: Seq<ToolDefinitionView>) -> Seq<Seq<char>> {
    tools.map_values(|t: ToolDefinitionView| tool_json(t))
}

/// The body of a streamed Responses request for `model`: the input, instructions and
/// tools; nothing stored on the provider's side; encrypted reasoning included; and
/// compaction by the provider once the input passes the threshold.
pub open spec fn spec_request_body(model: Seq<char>, request: RequestView) -> Seq<char> {
    "{\"model\":"@ + json_string(model) + ",\"input\":"@ + json_list(item_texts(request.input)) + ",\"instructions\":"@ + json_string(request.instructions) + ",\"tools\":"@ + json_list(tool_texts(request.tools)) + ",\"store\":false,\"stream\":true,\"include\":[\"reasoning.encrypted_content\"],\"context_management\":[{\"type\":\"compaction\",\"compact_threshold\":"@
        + decimal(request.compact_threshold as nat) + "}]}"@
}

/// The JSON text of a context item.
pub fn item_text(item: &Item) -> (s: String)
    ensures
        s@ == item_json(item@),
{
    match item {
        Item::User { content } => {
            let mut s = String::from_str("{\"role\":\"user\",\"content\":");
            s.append(quote(content.as_str()).as_str());
            s.append("}");
            s
        },
        Item::Assistant { content } => {
            let mut s = String::from_str("{\"role\":\"assistant\",\"content\":");
            s.append(quote(content.as_str()).as_str());
            s.append("}");
            s
        },
        Item::FunctionCall { call_id, name, arguments } => {
            let mut s = String::from_str("{\"type\":\"function_call\",\"call_id\":");
            s.append(quote(call_id.as_str()).as_str());
            s.append(",\"name\":");
            s.append(quote(name.as_str()).as_str());
            s.append(",\"arguments\":");
            s.append(quote(arguments.as_str()).as_str());
            s.append("}");
            s
        },
        Item::FunctionCallOutput { call_id, output } => {
            let mut s = String::from_str("{\"type\":\"function_call_output\",\"call_id\":");
            s.append(quote(call_id.as_str()).as_str());
            s.append(",\"output\":");
            s.append(quote(output.as_str()).as_str());
            s.append("}");
            s
        },
        Item::Raw(r) => r.json.clone(),
    }
}

/// The JSON text of a tool definition.
fn tool_text(tool: &ToolDefinition) -> (s: String)
    ensures
        s@ == tool_json(tool@),
{
    let mut s = String::from_str("{\"type\":\"function\",\"name\":");
    s.append(quote(tool.name.as_str()).as_str());
    s.append(",\"description\":");
    s.append(quote(tool.description.as_str()).as_str());
    s.append(",\"parameters\":");
    s.append(tool.parameters.as_str());
    s.append(",\"strict\":false}");
    s
}

/// The body of the streamed Responses request for `model` (see `spec_request_body`).
pub fn request_body(model: &str, request: &Request) -> (s: String)
    ensures
        s@ == spec_request_body(model@, request@),
{
    let mut items: Vec<String> = Vec::new();
    let mut i: usize = 0;
    while i < request.input.len()
        invariant
            i <= request.input.len(),
            texts(items@) == item_texts(item_views(request.input@).take(i as int)),
        decreases request.input.len() - i,
    {
        let t = item_text(&request.input[i]);
        let ghost before = texts(items@);
        items.push(t);
        proof {
            assert(texts(items@) =~= before.push(t@));
            assert(item_views(request.input@).take(i + 1) =~= item_views(request.input@).take(
                i as int,
            ).push(request.input@[i as int]@));
            assert(item_texts(item_views(request.input@).take(i + 1)) =~= item_texts(
                item_views(request.input@).take(i as int),
            ).push(item_json(request.input@[i as int]@)));
        }
        i += 1;
    }
    let mut tools: Vec<String> = Vec::new();
    let mut k: usize = 0;
    while k < request.tools.len()
        invariant
            k <= request.tools.len(),
            texts(tools@) == tool_texts(definition_views(request.tools@).take(k as int)),
        decreases request.tools.len() - k,
    {
        let t = tool_text(&request.tools[k]);
        let ghost before = texts(tools@);
        tools.push(t);
        proof {
            assert(texts(tools@) =~= before.push(t@));
            assert(definition_views(request.tools@).take(k + 1) =~= definition_views(
                request.tools@,
            ).take(k as int).push(request.tools@[k as int]@));
            assert(tool_texts(definition_views(request.tools@).take(k + 1)) =~= tool_texts(
                definition_views(request.tools@).take(k as int),
            ).push(tool_json(request.tools@[k as int]@)));
        }
        k += 1;
    }
    proof {
        assert(item_views(request.input@).take(request.input.len() as int) =~= item_views(
            request.input@,
        ));
        assert(definition_views(request.tools@).take(request.tools.len() as int) =~= definition_views(
            request.tools@,
        ));
    }
    let mut s = String::from_str("{\"model\":");
    s.append(quote(model).as_str());
    s.append(",\"input\":[");
    s.append(join(&items, ",").as_str());
    s.append("],\"instructions\":");
    s.append(quote(request.instructions.as_str()).as_str());
    s.append(",\"tools\":[");
    s.append(join(&tools, ",").as_str());
    s.append(
        "],\"store\":false,\"stream\":true,\"include\":[\"reasoning.encrypted_content\"],\"context_management\":[{\"type\":\"compaction\",\"compact_threshold\":",
    );
    s.append(decimal_string(request.compact_threshold as u64).as_str());
    s.append("}]}");
    proof {
        reveal_strlit("[");
        reveal_strlit("]");
        reveal_strlit("],\"instructions\":");
        reveal_strlit(",\"input\":[");
        reveal_strlit(",\"input\":");
        reveal_strlit(",\"instructions\":");
        reveal_strlit(",\"tools\":[");
        reveal_strlit(",\"tools\":");
        reveal_strlit("],\"store\":false,\"stream\":true,\"include\":[\"reasoning.encrypted_content\"],\"context_management\":[{\"type\":\"compaction\",\"compact_threshold\":");
        reveal_strlit(",\"store\":false,\"stream\":true,\"include\":[\"reasoning.encrypted_content\"],\"context_management\":[{\"type\":\"compaction\",\"compact_threshold\":");
        assert(s@ =~= spec_request_body(model@, request@));
    }
    s
}

} // verus!
