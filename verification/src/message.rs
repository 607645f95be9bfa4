//! Conversation transcript messages.
use vstd::prelude::*;

verus! {

/// A function call requested by the model.
#[derive(Debug, Clone, PartialEq, Eq)]
pub struct ToolCall {
    pub id: String,
    pub name: String,
    pub arguments: String,
}

/// One entry of the human-readable transcript.
#[derive(Debug, Clone, PartialEq, Eq)]
pub enum Message {
    System { content: String },
    User { content: String },
    Assistant { text: Option<String>, tool_calls: Vec<ToolCall> },
    Tool { tool_call_id: String, content: String },
}

impl ToolCall {
    /// A copy of the call, field for field.
    pub fn duplicate(&self) -> (c: ToolCall)
        ensures
            c == *self,
    {
        ToolCall { id: self.id.clone(), name: self.name.clone(), arguments: self.arguments.clone() }
    }
}

/// A copy of `calls`, element for element.
pub fn duplicate_calls(calls: &Vec<ToolCall>) -> (c: Vec<ToolCall>)
    ensures
        c@ == calls@,
{
    let mut out: Vec<ToolCall> = Vec::new();
    let mut i: usize = 0;
    while i < calls.len()
        invariant
            i <= calls.len(),
            out@ == calls@.take(i as int),
        decreases calls.len() - i,
    {
        out.push(calls[i].duplicate());
        assert(calls@.take(i as int).push(calls@[i as int]) =~= calls@.take(i + 1));
        i += 1;
    }
    assert(calls@.take(calls.len() as int) =~= calls@);
    out
}

/// A function call as a value.
pub struct ToolCallView {
    pub id: Seq<char>,
    pub name: Seq<char>,
    pub arguments: Seq<char>,
}

impl View for ToolCall {
    type V = ToolCallView;

    open spec fn view(&self) -> ToolCallView {
        ToolCallView { id: self.id@, name: self.name@, arguments: self.arguments@ }
    }
}

/// The calls as values.
pub open spec fn call_views(calls: Seq<ToolCall>) -> Seq<ToolCallView> {
    calls.map_values(|c: ToolCall| c@)
}

/// A transcript entry as a value.
pub enum MessageView {
    System { content: Seq<char> },
    User { content: Seq<char> },
    Assistant { text: Option<Seq<char>>, tool_calls: Seq<ToolCallView> },
    Tool { tool_call_id: Seq<char>, content: Seq<char> },
}

impl View for Message {
    type V = MessageView;

    open spec fn view(&self) -> MessageView {
        match self {
            Message::System { content } => MessageView::System { content: content@ },
            Message::User { content } => MessageView::User { content: content@ },
            Message::Assistant { text, tool_calls } => MessageView::Assistant {
                text: match text {
                    Some(t) => Some(t@),
                    None => None,
                },
                tool_calls: call_views(tool_calls@),
            },
            Message::Tool { tool_call_id, content } => MessageView::Tool {
                tool_call_id: tool_call_id@,
                content: content@,
            },
        }
    }
}

impl Message {
    /// A copy of the message.
    pub fn duplicate(&self) -> (m: Message)
        ensures
            m@ == self@,
    {
        match self {
            Message::System { content } => Message::System { content: content.clone() },
            Message::User { content } => Message::User { content: content.clone() },
            Message::Assistant { text, tool_calls } => Message::Assistant {
                text: match text {
                    Some(t) => Some(t.clone()),
                    None => None,
                },
                tool_calls: duplicate_calls(tool_calls),
            },
            Message::Tool { tool_call_id, content } => Message::Tool {
                tool_call_id: tool_call_id.clone(),
                content: content.clone(),
            },
        }
    }
}

} // verus!
