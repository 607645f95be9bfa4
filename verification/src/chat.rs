//! The chat screen: its entries, how a stored transcript is shown again, and how the
//! screen's state reacts to keys, pastes and the runtime's reports.
use vstd::prelude::*;

use crate::handler::AgentEvent;
use crate::input::{
    spec_backspace, spec_complete_dollar, spec_dollar_query, spec_insert, spec_insert_str,
    spec_move_left, spec_move_right, spec_move_vertical, DraftState, InputBuffer,
};
use crate::message::{call_views, Message, MessageView, ToolCall, ToolCallView};
use crate::skills::SkillInfo;
use crate::storage::message_views;
use crate::text::{
    all_white_space, concat, contains_str, contains_text, decimal, decimal_string,
    normalize_newlines, spec_normalize_newlines,
};
use crate::tool::ToolOutput;

verus! {

/// One entry of the chat view.
#[derive(Debug, Clone, PartialEq, Eq)]
pub enum ChatEntry {
    User(String),
    Assistant(String),
    ToolCall { name: String, arguments: String },
    ToolResult { name: String, output: String },
    Error(String),
    /// A note about what the runtime did (skills skipped, context compacted).
    Activity(String),
}

/// A chat entry as a value.
pub enum ChatEntryView {
    User(Seq<char>),
    Assistant(Seq<char>),
    ToolCall { name: Seq<char>, arguments: Seq<char> },
    ToolResult { name: Seq<char>, output: Seq<char> },
    Error(Seq<char>),
    Activity(Seq<char>),
}

impl View for ChatEntry {
    type V = ChatEntryView;

    open spec fn view(&self) -> ChatEntryView {
        match self {
            ChatEntry::User(t) => ChatEntryView::User(t@),
            ChatEntry::Assistant(t) => ChatEntryView::Assistant(t@),
            ChatEntry::ToolCall { name, arguments } => ChatEntryView::ToolCall {
                name: name@,
                arguments: arguments@,
            },
            ChatEntry::ToolResult { name, output } => ChatEntryView::ToolResult {
                name: name@,
                output: output@,
            },
            ChatEntry::Error(t) => ChatEntryView::Error(t@),
            ChatEntry::Activity(t) => ChatEntryView::Activity(t@),
        }
    }
}

/// The entries as values.
pub open spec fn entry_views(entries: Seq<ChatEntry>) -> Seq<ChatEntryView> {
    entries.map_values(|e: ChatEntry| e@)
}

/// Every tool call that the assistant messages of `ms` ask for, in order.
pub open spec fn message_calls(ms: Seq<MessageView>) -> Seq<ToolCallView>
    decreases ms.len(),
{
    if ms.len() == 0 {
        seq![]
    } else {
        message_calls(ms.drop_last()) + match ms.last() {
            MessageView::Assistant { tool_calls, .. } => tool_calls,
            _ => seq![],
        }
    }
}

/// The name of the latest call in `calls` with the id `id`, or nothing.
pub open spec fn name_for(calls: Seq<ToolCallView>, id: Seq<char>) -> Seq<char>
    decreases calls.len(),
{
    if calls.len() == 0 {
        seq![]
    } else if calls.last().id == id {
        calls.last().name
    } else {
        name_for(calls.drop_last(), id)
    }
}

/// The entries that show the calls `calls`.
pub open spec fn call_entries(calls: Seq<ToolCallView>) -> Seq<ChatEntryView> {
    calls.map_values(|c: ToolCallView| ChatEntryView::ToolCall { name: c.name, arguments: c.arguments })
}

/// The entries that show message `m`, given the calls asked for before it. System
/// messages are not shown, nor an assistant's empty text; a tool result is labelled
/// with the name of the call it answers.
pub open spec fn entries_for(m: MessageView, earlier: Seq<ToolCallView>) -> Seq<ChatEntryView> {
    match m {
        MessageView::System { .. } => seq![],
        MessageView::User { content } => seq![ChatEntryView::User(content)],
        MessageView::Assistant { text, tool_calls } => (match text {
            Some(t) => if t.len() > 0 {
                seq![ChatEntryView::Assistant(t)]
            } else {
                seq![]
            },
            None => seq![],
        }) + call_entries(tool_calls),
        MessageView::Tool { tool_call_id, content } => seq![
            ChatEntryView::ToolResult { name: name_for(earlier, tool_call_id), output: content },
        ],
    }
}

/// The chat entries that show a stored transcript again.
pub open spec fn spec_restore(ms: Seq<MessageView>) -> Seq<ChatEntryView>
    decreases ms.len(),
{
    if ms.len() == 0 {
        seq![]
    } else {
        spec_restore(ms.drop_last()) + entries_for(ms.last(), message_calls(ms.drop_last()))
    }
}

/// The name of the latest call in `calls` with the id `id`, or an empty name.
fn name_of(calls: &Vec<ToolCall>, id: &String) -> (s: String)
    ensures
        s@ == name_for(call_views(calls@), id@),
{
    let mut k = calls.len();
    proof {
        assert(calls@.take(calls.len() as int) =~= calls@);
    }
    while k > 0
        invariant
            k <= calls.len(),
            name_for(call_views(calls@), id@) == name_for(call_views(calls@.take(k as int)), id@),
        decreases k,
    {
        proof {
            assert(call_views(calls@.take(k as int)).drop_last() =~= call_views(
                calls@.take(k - 1),
            ));
        }
        if calls[k - 1].id == *id {
            return calls[k - 1].name.clone();
        }
        k -= 1;
    }
    String::new()
}

/// The chat entries that show a stored transcript again: what the user wrote, the
/// assistant's text and tool calls, and each tool result under its call's name.
pub fn restore_chat_history(messages: Vec<Message>) -> (entries: Vec<ChatEntry>)
    ensures
        entry_views(entries@) == spec_restore(message_views(messages@)),
{
    let mut entries: Vec<ChatEntry> = Vec::new();
    let mut calls: Vec<ToolCall> = Vec::new();
    let ghost ms = message_views(messages@);
    let mut i: usize = 0;
    while i < messages.len()
        invariant
            i <= messages.len(),
            ms == message_views(messages@),
            entry_views(entries@) == spec_restore(ms.take(i as int)),
            call_views(calls@) == message_calls(ms.take(i as int)),
        decreases messages.len() - i,
    {
        let ghost before = entries@;
        let ghost earlier = call_views(calls@);
        proof {
            assert(ms.take(i + 1).drop_last() =~= ms.take(i as int));
            assert(ms.take(i + 1).last() == messages@[i as int]@);
        }
        match &messages[i] {
            Message::System { .. } => {},
            Message::User { content } => {
                entries.push(ChatEntry::User(content.clone()));
            },
            Message::Assistant { text, tool_calls } => {
                match text {
                    Some(t) => {
                        if !t.as_str().is_empty() {
                            entries.push(ChatEntry::Assistant(t.clone()));
                        }
                    },
                    None => {},
                }
                let ghost mid = entries@;
                let mut k: usize = 0;
                while k < tool_calls.len()
                    invariant
                        k <= tool_calls.len(),
                        entry_views(entries@) == entry_views(mid) + call_entries(
                            call_views(tool_calls@.take(k as int)),
                        ),
                        call_views(calls@) == earlier + call_views(tool_calls@.take(k as int)),
                    decreases tool_calls.len() - k,
                {
                    let c = &tool_calls[k];
                    let ghost e0 = entries@;
                    let ghost c0 = calls@;
                    calls.push(c.duplicate());
                    entries.push(ChatEntry::ToolCall { name: c.name.clone(), arguments: c.arguments.clone() });
                    proof {
                        assert(entry_views(entries@) =~= entry_views(e0).push(
                            ChatEntryView::ToolCall { name: c@.name, arguments: c@.arguments },
                        ));
                        assert(call_views(calls@) =~= call_views(c0).push(c@));
                        assert(call_entries(call_views(tool_calls@.take(k + 1))) =~= call_entries(
                            call_views(tool_calls@.take(k as int)),
                        ).push(ChatEntryView::ToolCall { name: c@.name, arguments: c@.arguments }));
                        assert(call_views(tool_calls@.take(k + 1)) =~= call_views(
                            tool_calls@.take(k as int),
                        ).push(c@));
                        assert(entry_views(entries@) =~= entry_views(mid) + call_entries(
                            call_views(tool_calls@.take(k + 1)),
                        ));
                        assert(call_views(calls@) =~= earlier + call_views(tool_calls@.take(k + 1)));
                    }
                    k += 1;
                }
                proof {
                    assert(tool_calls@.take(tool_calls.len() as int) =~= tool_calls@);
                }
            },
            Message::Tool { tool_call_id, content } => {
                let name = name_of(&calls, tool_call_id);
                entries.push(ChatEntry::ToolResult { name, output: content.clone() });
            },
        }
        proof {
            assert(entry_views(entries@) =~= entry_views(before) + entries_for(
                messages@[i as int]@,
                earlier,
            ));
            assert(call_views(calls@) =~= message_calls(ms.take(i + 1)));
        }
        i += 1;
    }
    proof {
        assert(ms.take(messages.len() as int) =~= ms);
    }
    entries
}

/// A tool call waiting for the user to allow or deny it.
pub struct PendingConfirmation {
    pub name: String,
    /// The call's arguments as JSON text.
    pub arguments: String,
    /// Whether "allow" is the highlighted choice.
    pub allow_selected: bool,
}

impl PendingConfirmation {
    /// A confirmation for a call of `name` with `arguments`; "deny" starts highlighted.
    pub fn new(name: String, arguments: String) -> (c: PendingConfirmation)
        ensures
            c.name == name,
            c.arguments == arguments,
            !c.allow_selected,
    {
        PendingConfirmation { name, arguments, allow_selected: false }
    }
}

/// A pending confirmation as a value.
pub struct ConfirmationView {
    pub name: Seq<char>,
    pub arguments: Seq<char>,
    pub allow_selected: bool,
}

/// The state of the chat screen.
pub struct App {
    pub input: InputBuffer,
    pub chat_history: Vec<ChatEntry>,
    pub streaming_text: String,
    /// How many lines from the bottom the chat view is scrolled up.
    pub scroll_offset: usize,
    pub is_running: bool,
    pub model_id: String,
    pub input_tokens: u32,
    pub context_window: u32,
    pub compaction_count: u64,
    pub should_quit: bool,
    pub confirmation: Option<PendingConfirmation>,
    pub shift_enter_supported: bool,
    pub pending_retry: bool,
    pub skills: Vec<SkillInfo>,
    pub skill_selection: Option<usize>,
}

/// The chat screen's state as a value.
pub struct AppView {
    pub input: DraftState,
    pub chat: Seq<ChatEntryView>,
    pub streaming: Seq<char>,
    pub scroll_offset: usize,
    pub is_running: bool,
    pub model_id: Seq<char>,
    pub input_tokens: u32,
    pub context_window: u32,
    pub compaction_count: u64,
    pub should_quit: bool,
    pub confirmation: Option<ConfirmationView>,
    pub shift_enter_supported: bool,
    pub pending_retry: bool,
    pub skills: Seq<SkillInfo>,
    pub skill_selection: Option<usize>,
}

impl View for App {
    type V = AppView;

    open spec fn view(&self) -> AppView {
        AppView {
            input: self.input@,
            chat: entry_views(self.chat_history@),
            streaming: self.streaming_text@,
            scroll_offset: self.scroll_offset,
            is_running: self.is_running,
            model_id: self.model_id@,
            input_tokens: self.input_tokens,
            context_window: self.context_window,
            compaction_count: self.compaction_count,
            should_quit: self.should_quit,
            confirmation: match self.confirmation {
                Some(c) => Some(
                    ConfirmationView {
                        name: c.name@,
                        arguments: c.arguments@,
                        allow_selected: c.allow_selected,
                    },
                ),
                None => None,
            },
            shift_enter_supported: self.shift_enter_supported,
            pending_retry: self.pending_retry,
            skills: self.skills@,
            skill_selection: self.skill_selection,
        }
    }
}

/// The skills of `skills` whose name contains `query`, in order.
pub open spec fn matching_skills(skills: Seq<SkillInfo>, query: Seq<char>) -> Seq<SkillInfo>
    decreases skills.len(),
{
    if skills.len() == 0 {
        seq![]
    } else {
        let rest = matching_skills(skills.drop_last(), query);
        if contains_text(skills.last().name@, query) {
            rest.push(skills.last())
        } else {
            rest
        }
    }
}

/// The skills offered for the partial `$name` before the cursor: those whose name
/// contains it, or none when no `$name` is being typed.
pub open spec fn spec_filtered(a: AppView) -> Seq<SkillInfo> {
    match spec_dollar_query(a.input) {
        Some(q) => matching_skills(a.skills, q),
        None => seq![],
    }
}

/// The key of a key press, as far as the chat screen tells keys apart.
#[derive(Debug, Clone, Copy, PartialEq, Eq)]
pub enum KeyCode {
    Char(char),
    Enter,
    Backspace,
    Left,
    Right,
    Up,
    Down,
    PageUp,
    PageDown,
    Esc,
    Other,
}

/// No modifier key held.
pub const NO_MODIFIERS: u8 = 0;

/// Shift held, alone.
pub const SHIFT: u8 = 1;

/// Control held, alone.
pub const CONTROL: u8 = 2;

/// A key press: the key and the modifier bits (shift 1, control 2, alt 4, ...).
#[derive(Debug, Clone, Copy, PartialEq, Eq)]
pub struct KeyEvent {
    pub code: KeyCode,
    pub modifiers: u8,
}

/// What the terminal delivered.
#[derive(Debug, Clone, PartialEq, Eq)]
pub enum InputEvent {
    Key(KeyEvent),
    Paste(String),
    Other,
}

/// What the screen asks the runtime to do.
#[derive(Debug, Clone, PartialEq, Eq)]
pub enum AgentCommand {
    Submit(String),
    Retry,
}

/// A command as a value.
pub enum CommandView {
    Submit(Seq<char>),
    Retry,
}

/// The command as a value.
pub open spec fn command_view(c: Option<AgentCommand>) -> Option<CommandView> {
    match c {
        Some(AgentCommand::Submit(t)) => Some(CommandView::Submit(t@)),
        Some(AgentCommand::Retry) => Some(CommandView::Retry),
        None => None,
    }
}

/// What a key did while a confirmation was shown.
#[derive(Debug, Clone, Copy, PartialEq, Eq)]
pub enum KeyOutcome {
    /// No confirmation is shown; the key is for the rest of the screen.
    Ignored,
    /// The key was used by the confirmation, which stays.
    Handled,
    /// The confirmation was answered: allow or deny.
    Answered(bool),
}

/// The key is the character `ch`.
pub open spec fn is_char(code: KeyCode, ch: char) -> bool {
    match code {
        KeyCode::Char(c) => c == ch,
        _ => false,
    }
}

/// `n + 3`, stopping at the largest `usize`.
pub open spec fn scroll_up(n: usize) -> usize {
    if n + 3 > usize::MAX {
        usize::MAX
    } else {
        (n + 3) as usize
    }
}

/// `n - 3`, stopping at 0.
pub open spec fn scroll_down(n: usize) -> usize {
    if n < 3 {
        0
    } else {
        (n - 3) as usize
    }
}

/// The screen after a key while the skill picker is open.
pub open spec fn spec_picker_key(a: AppView, key: KeyEvent) -> AppView {
    let sel = a.skill_selection.unwrap();
    let offered = spec_filtered(a);
    match key.code {
        KeyCode::Esc => AppView { skill_selection: None, ..a },
        KeyCode::Up => if offered.len() > 0 {
            AppView { skill_selection: Some(if sel == 0 { 0 } else { (sel - 1) as usize }), ..a }
        } else {
            a
        },
        KeyCode::Down => if offered.len() > 0 {
            AppView {
                skill_selection: Some(
                    if sel + 1 < offered.len() {
                        (sel + 1) as usize
                    } else {
                        (offered.len() - 1) as usize
                    },
                ),
                ..a
            }
        } else {
            a
        },
        KeyCode::Enter => AppView {
            input: if sel < offered.len() {
                spec_complete_dollar(a.input, offered[sel as int].name@)
            } else {
                a.input
            },
            skill_selection: None,
            ..a
        },
        KeyCode::Char(ch) => AppView { input: spec_insert(a.input, ch), skill_selection: Some(0), ..a },
        KeyCode::Backspace => {
            let input = spec_backspace(a.input);
            AppView {
                input,
                skill_selection: if spec_dollar_query(input) is Some {
                    Some(0)
                } else {
                    None
                },
                ..a
            }
        },
        _ => AppView { skill_selection: None, ..a },
    }
}

/// The key inserts a line break: Shift+Enter or Ctrl+J.
pub open spec fn is_newline_key(key: KeyEvent) -> bool {
    (key.code == KeyCode::Enter && key.modifiers == SHIFT) || (is_char(key.code, 'j')
        && key.modifiers == CONTROL)
}

/// Enter submits the draft: nothing runs and the draft is not blank.
pub open spec fn submits(a: AppView, key: KeyEvent) -> bool {
    &&& !(is_char(key.code, 'c') && key.modifiers == CONTROL)
    &&& !is_newline_key(key)
    &&& key.code == KeyCode::Enter
    &&& !a.is_running
    &&& !all_white_space(a.input.text)
}

/// Ctrl+R retries the failed request: one waits and nothing runs.
pub open spec fn retries(a: AppView, key: KeyEvent) -> bool {
    is_char(key.code, 'r') && key.modifiers == CONTROL && a.pending_retry && !a.is_running
}

/// The screen after a key when no picker is open.
pub open spec fn spec_key(a: AppView, key: KeyEvent, width: int) -> AppView {
    if is_char(key.code, 'c') && key.modifiers == CONTROL {
        AppView { should_quit: true, ..a }
    } else if is_newline_key(key) {
        AppView { input: spec_insert(a.input, '\n'), ..a }
    } else if key.code == KeyCode::Enter {
        if submits(a, key) {
            AppView {
                input: DraftState { text: seq![], cursor: 0 },
                chat: a.chat.push(ChatEntryView::User(a.input.text)),
                is_running: true,
                scroll_offset: 0,
                pending_retry: false,
                ..a
            }
        } else {
            a
        }
    } else if retries(a, key) {
        AppView { is_running: true, ..a }
    } else {
        match key.code {
            KeyCode::Char(ch) => AppView {
                input: spec_insert(a.input, ch),
                skill_selection: if ch == '$' && a.skills.len() > 0 {
                    Some(0)
                } else {
                    a.skill_selection
                },
                ..a
            },
            KeyCode::Backspace => AppView { input: spec_backspace(a.input), ..a },
            KeyCode::Left => AppView { input: spec_move_left(a.input), ..a },
            KeyCode::Right => AppView { input: spec_move_right(a.input), ..a },
            KeyCode::Up => AppView { input: spec_move_vertical(a.input, width, -1), ..a },
            KeyCode::Down => AppView { input: spec_move_vertical(a.input, width, 1), ..a },
            KeyCode::PageUp => AppView { scroll_offset: scroll_up(a.scroll_offset), ..a },
            KeyCode::PageDown => AppView { scroll_offset: scroll_down(a.scroll_offset), ..a },
            _ => a,
        }
    }
}

/// The screen after an input event; `width` is the draft's width in cells.
pub open spec fn spec_input_event(a: AppView, event: InputEvent, width: int) -> AppView {
    match event {
        InputEvent::Paste(t) => AppView {
            input: spec_insert_str(a.input, spec_normalize_newlines(t@)),
            ..a
        },
        InputEvent::Key(key) => if a.skill_selection is Some {
            spec_picker_key(a, key)
        } else {
            spec_key(a, key, width)
        },
        InputEvent::Other => a,
    }
}

/// The command an input event gives: the draft on Enter, a retry on Ctrl+R.
pub open spec fn spec_input_command(a: AppView, event: InputEvent) -> Option<CommandView> {
    match event {
        InputEvent::Key(key) => if a.skill_selection is Some {
            None
        } else if submits(a, key) {
            Some(CommandView::Submit(a.input.text))
        } else if !(is_char(key.code, 'c') && key.modifiers == CONTROL) && !is_newline_key(key)
            && key.code != KeyCode::Enter && retries(a, key) {
            Some(CommandView::Retry)
        } else {
            None
        },
        _ => None,
    }
}

/// The screen after a key while a confirmation may be shown, and what the key did.
pub open spec fn spec_confirmation_key(a: AppView, key: KeyEvent) -> (AppView, KeyOutcome) {
    match a.confirmation {
        None => (a, KeyOutcome::Ignored),
        Some(c) => if is_char(key.code, 'c') && key.modifiers == CONTROL {
            (AppView { confirmation: None, should_quit: true, ..a }, KeyOutcome::Answered(false))
        } else if is_char(key.code, 'y') {
            (AppView { confirmation: None, ..a }, KeyOutcome::Answered(true))
        } else if is_char(key.code, 'n') || key.code == KeyCode::Esc {
            (AppView { confirmation: None, ..a }, KeyOutcome::Answered(false))
        } else if key.code == KeyCode::Enter {
            (AppView { confirmation: None, ..a }, KeyOutcome::Answered(c.allow_selected))
        } else if key.code == KeyCode::Up || key.code == KeyCode::Down {
            (
                AppView {
                    confirmation: Some(ConfirmationView { allow_selected: !c.allow_selected, ..c }),
                    ..a
                },
                KeyOutcome::Handled,
            )
        } else if key.code == KeyCode::PageUp {
            (AppView { scroll_offset: scroll_up(a.scroll_offset), ..a }, KeyOutcome::Handled)
        } else if key.code == KeyCode::PageDown {
            (AppView { scroll_offset: scroll_down(a.scroll_offset), ..a }, KeyOutcome::Handled)
        } else {
            (a, KeyOutcome::Handled)
        },
    }
}

/// The name of the latest tool call shown in `chat`, or nothing.
pub open spec fn last_tool_name(chat: Seq<ChatEntryView>) -> Seq<char>
    decreases chat.len(),
{
    if chat.len() == 0 {
        seq![]
    } else {
        match chat.last() {
            ChatEntryView::ToolCall { name, .. } => name,
            _ => last_tool_name(chat.drop_last()),
        }
    }
}

/// How a tool's output is shown in the chat.
pub open spec fn result_text(output: ToolOutput) -> Seq<char> {
    match output {
        ToolOutput::Text(t) => t@,
        ToolOutput::Error(e) => "error: "@ + e@,
    }
}

/// The streamed text so far becomes an assistant entry, if there is any.
pub open spec fn flushed(a: AppView) -> AppView {
    if a.streaming.len() > 0 {
        AppView { chat: a.chat.push(ChatEntryView::Assistant(a.streaming)), streaming: seq![], ..a }
    } else {
        a
    }
}

/// The entry that reports a denied call.
pub open spec fn denied_text(name: Seq<char>, reason: Seq<char>) -> Seq<char> {
    "Tool `"@ + name + "` denied: "@ + reason
}

/// The entry that reports a compaction.
pub open spec fn compacted_text(total: u64) -> Seq<char> {
    "context compacted ("@ + decimal(total as nat) + ")"@
}

/// The warnings as activity entries.
pub open spec fn activity_entries(warnings: Seq<String>) -> Seq<ChatEntryView> {
    warnings.map_values(|w: String| ChatEntryView::Activity(w@))
}

/// The screen after a report from the runtime.
pub open spec fn spec_agent_event(a: AppView, event: AgentEvent) -> AppView {
    match event {
        AgentEvent::TextDelta(d) => AppView { streaming: a.streaming + d@, ..a },
        AgentEvent::ToolCallBegin { name, arguments, .. } => {
            let f = flushed(a);
            AppView {
                chat: f.chat.push(ChatEntryView::ToolCall { name: name@, arguments: arguments@ }),
                ..f
            }
        },
        AgentEvent::ToolCallEnd { output, .. } => AppView {
            chat: a.chat.push(
                ChatEntryView::ToolResult { name: last_tool_name(a.chat), output: result_text(output) },
            ),
            ..a
        },
        AgentEvent::ToolCallDenied { name, reason, .. } => AppView {
            chat: a.chat.push(ChatEntryView::Error(denied_text(name@, reason@))),
            ..a
        },
        AgentEvent::SkillsUpdated { skills, warnings } => AppView {
            skills: skills@,
            chat: a.chat + activity_entries(warnings@),
            ..a
        },
        AgentEvent::Compacted { total } => AppView {
            compaction_count: total,
            chat: a.chat.push(ChatEntryView::Activity(compacted_text(total))),
            ..a
        },
        AgentEvent::Failed { error, retryable } => AppView {
            streaming: seq![],
            chat: a.chat.push(ChatEntryView::Error(error@)),
            is_running: false,
            pending_retry: retryable,
            ..a
        },
        AgentEvent::TurnComplete { usage, context_window } => {
            let f = flushed(a);
            AppView {
                input_tokens: usage.input_tokens,
                context_window,
                is_running: false,
                pending_retry: false,
                scroll_offset: 0,
                ..f
            }
        },
    }
}

impl App {
    /// A fresh screen for the model `model_id` with a context window of
    /// `context_window` tokens.
    pub fn new(model_id: String, context_window: u32) -> (app: App)
        ensures
            app@.input.text.len() == 0,
            app@.input.cursor == 0,
            app@.chat.len() == 0,
            app@.streaming.len() == 0,
            app@.scroll_offset == 0,
            !app@.is_running,
            app@.model_id == model_id@,
            app@.input_tokens == 0,
            app@.context_window == context_window,
            app@.compaction_count == 0,
            !app@.should_quit,
            app@.confirmation is None,
            !app@.shift_enter_supported,
            !app@.pending_retry,
            app@.skills.len() == 0,
            app@.skill_selection is None,
    {
        App {
            input: InputBuffer::new(),
            chat_history: Vec::new(),
            streaming_text: String::new(),
            scroll_offset: 0,
            is_running: false,
            model_id,
            input_tokens: 0,
            context_window,
            compaction_count: 0,
            should_quit: false,
            confirmation: None,
            shift_enter_supported: false,
            pending_retry: false,
            skills: Vec::new(),
            skill_selection: None,
        }
    }

    /// The skills offered for the partial `$name` before the cursor.
    pub fn filtered_skills(&self) -> (r: Vec<SkillInfo>)
        ensures
            r@ == spec_filtered(self@),
    {
        match self.input.dollar_query() {
            None => Vec::new(),
            Some(q) => {
                let mut r: Vec<SkillInfo> = Vec::new();
                let mut i: usize = 0;
                while i < self.skills.len()
                    invariant
                        i <= self.skills.len(),
                        r@ == matching_skills(self.skills@.take(i as int), q@),
                    decreases self.skills.len() - i,
                {
                    proof {
                        assert(self.skills@.take(i + 1).drop_last() =~= self.skills@.take(i as int));
                    }
                    if contains_str(self.skills[i].name.as_str(), q.as_str()) {
                        r.push(self.skills[i].duplicate());
                    }
                    i += 1;
                }
                proof {
                    assert(self.skills@.take(self.skills.len() as int) =~= self.skills@);
                }
                r
            },
        }
    }
}


/// Reacts to a key, a paste or another terminal event; `width` is the draft's width
/// in cells. Returns the command for the runtime, if the event gives one.
pub fn handle_input_event(app: &mut App, event: InputEvent, width: usize) -> (r: Option<AgentCommand>)
    ensures
        final(app)@ == spec_input_event(old(app)@, event, width as int),
        command_view(r) == spec_input_command(old(app)@, event),
{
    let key = match event {
        InputEvent::Paste(text) => {
            let t = normalize_newlines(text.as_str());
            app.input.insert_str(t.as_str());
            return None;
        },
        InputEvent::Other => {
            return None;
        },
        InputEvent::Key(key) => key,
    };
    match app.skill_selection {
        Some(sel) => {
            picker_key(app, key, sel);
            return None;
        },
        None => {},
    }
    let control = key.modifiers == CONTROL;
    let shift = key.modifiers == SHIFT;
    match key.code {
        KeyCode::Char(c) => {
            if c == 'c' && control {
                app.should_quit = true;
                return None;
            }
            if c == 'j' && control {
                app.input.insert('\n');
                return None;
            }
            if c == 'r' && control && app.pending_retry && !app.is_running {
                app.is_running = true;
                return Some(AgentCommand::Retry);
            }
            app.input.insert(c);
            if c == '$' && app.skills.len() > 0 {
                app.skill_selection = Some(0);
            }
        },
        KeyCode::Enter => {
            if shift {
                app.input.insert('\n');
                return None;
            }
            if !app.is_running && !app.input.is_blank() {
                let text = app.input.take();
                let ghost before = app.chat_history@;
                app.chat_history.push(ChatEntry::User(text.clone()));
                proof {
                    assert(entry_views(app.chat_history@) =~= entry_views(before).push(
                        ChatEntryView::User(text@),
                    ));
                }
                app.is_running = true;
                app.scroll_offset = 0;
                app.pending_retry = false;
                return Some(AgentCommand::Submit(text));
            }
        },
        KeyCode::Backspace => app.input.backspace(),
        KeyCode::Left => app.input.move_left(),
        KeyCode::Right => app.input.move_right(),
        KeyCode::Up => app.input.move_up(width),
        KeyCode::Down => app.input.move_down(width),
        KeyCode::PageUp => {
            app.scroll_offset = app.scroll_offset.saturating_add(3);
        },
        KeyCode::PageDown => {
            app.scroll_offset = app.scroll_offset.saturating_sub(3);
        },
        _ => {},
    }
    None
}

/// A key while the skill picker is open, with `sel` the highlighted skill.
fn picker_key(app: &mut App, key: KeyEvent, sel: usize)
    requires
        old(app)@.skill_selection == Some(sel),
    ensures
        final(app)@ == spec_picker_key(old(app)@, key),
{
    match key.code {
        KeyCode::Esc => {
            app.skill_selection = None;
        },
        KeyCode::Up => {
            let offered = app.filtered_skills();
            if offered.len() > 0 {
                app.skill_selection = Some(sel.saturating_sub(1));
            }
        },
        KeyCode::Down => {
            let offered = app.filtered_skills();
            let n = offered.len();
            if n > 0 {
                app.skill_selection = Some(
                    if sel >= n - 1 {
                        n - 1
                    } else {
                        sel + 1
                    },
                );
            }
        },
        KeyCode::Enter => {
            let offered = app.filtered_skills();
            if sel < offered.len() {
                app.input.complete_dollar(offered[sel].name.as_str());
            }
            app.skill_selection = None;
        },
        KeyCode::Char(ch) => {
            app.input.insert(ch);
            app.skill_selection = Some(0);
        },
        KeyCode::Backspace => {
            app.input.backspace();
            app.skill_selection = match app.input.dollar_query() {
                Some(_) => Some(0),
                None => None,
            };
        },
        _ => {
            app.skill_selection = None;
        },
    }
}

/// Handles a key while a confirmation is shown: `y` allows, `n` or Esc denies, Enter
/// answers with the highlighted choice, Up and Down switch it, Ctrl+C denies and
/// quits. Tells whether there was a confirmation and whether it was answered.
pub fn handle_confirmation_key(app: &mut App, key: KeyEvent) -> (r: KeyOutcome)
    ensures
        (final(app)@, r) == spec_confirmation_key(old(app)@, key),
{
    let allow = match &app.confirmation {
        None => {
            return KeyOutcome::Ignored;
        },
        Some(c) => c.allow_selected,
    };
    let control = key.modifiers == CONTROL;
    match key.code {
        KeyCode::Char(c) => {
            if c == 'c' && control {
                app.confirmation = None;
                app.should_quit = true;
                return KeyOutcome::Answered(false);
            }
            if c == 'y' {
                app.confirmation = None;
                return KeyOutcome::Answered(true);
            }
            if c == 'n' {
                app.confirmation = None;
                return KeyOutcome::Answered(false);
            }
        },
        KeyCode::Esc => {
            app.confirmation = None;
            return KeyOutcome::Answered(false);
        },
        KeyCode::Enter => {
            app.confirmation = None;
            return KeyOutcome::Answered(allow);
        },
        KeyCode::Up | KeyCode::Down => {
            match &mut app.confirmation {
                Some(c) => {
                    c.allow_selected = !allow;
                },
                None => {},
            }
        },
        KeyCode::PageUp => {
            app.scroll_offset = app.scroll_offset.saturating_add(3);
        },
        KeyCode::PageDown => {
            app.scroll_offset = app.scroll_offset.saturating_sub(3);
        },
        _ => {},
    }
    KeyOutcome::Handled
}

/// The name of the latest tool call shown in `chat`, or an empty name.
fn last_tool_call_name(chat: &Vec<ChatEntry>) -> (s: String)
    ensures
        s@ == last_tool_name(entry_views(chat@)),
{
    let mut k = chat.len();
    proof {
        assert(chat@.take(chat.len() as int) =~= chat@);
    }
    while k > 0
        invariant
            k <= chat.len(),
            last_tool_name(entry_views(chat@)) == last_tool_name(entry_views(chat@.take(k as int))),
        decreases k,
    {
        proof {
            assert(entry_views(chat@.take(k as int)).drop_last() =~= entry_views(chat@.take(k - 1)));
        }
        match &chat[k - 1] {
            ChatEntry::ToolCall { name, .. } => {
                return name.clone();
            },
            _ => {},
        }
        k -= 1;
    }
    String::new()
}

/// Appends `entry` to the chat.
fn push_entry(app: &mut App, entry: ChatEntry)
    ensures
        final(app)@ == (AppView { chat: old(app)@.chat.push(entry@), ..old(app)@ }),
{
    let ghost before = app.chat_history@;
    app.chat_history.push(entry);
    proof {
        assert(entry_views(app.chat_history@) =~= entry_views(before).push(entry@));
    }
}

/// Turns the streamed text so far into an assistant entry, if there is any.
fn flush_streaming(app: &mut App)
    ensures
        final(app)@ == flushed(old(app)@),
{
    if !app.streaming_text.as_str().is_empty() {
        let mut text = String::new();
        std::mem::swap(&mut text, &mut app.streaming_text);
        push_entry(app, ChatEntry::Assistant(text));
    }
}

/// Updates the screen for a report from the runtime.
pub fn handle_agent_event(app: &mut App, event: AgentEvent)
    ensures
        final(app)@ == spec_agent_event(old(app)@, event),
{
    match event {
        AgentEvent::TextDelta(delta) => {
            app.streaming_text.append(delta.as_str());
        },
        AgentEvent::ToolCallBegin { name, arguments, .. } => {
            flush_streaming(app);
            push_entry(app, ChatEntry::ToolCall { name, arguments });
        },
        AgentEvent::ToolCallEnd { output, .. } => {
            let shown = match &output {
                ToolOutput::Text(t) => t.clone(),
                ToolOutput::Error(e) => concat("error: ", e.as_str()),
            };
            let name = last_tool_call_name(&app.chat_history);
            push_entry(app, ChatEntry::ToolResult { name, output: shown });
        },
        AgentEvent::ToolCallDenied { name, reason, .. } => {
            let mut text = concat("Tool `", name.as_str());
            text.append("` denied: ");
            text.append(reason.as_str());
            push_entry(app, ChatEntry::Error(text));
        },
        AgentEvent::SkillsUpdated { skills, warnings } => {
            app.skills = skills;
            let ghost start = app@;
            let mut i: usize = 0;
            while i < warnings.len()
                invariant
                    i <= warnings.len(),
                    app@ == (AppView { chat: start.chat + activity_entries(warnings@.take(i as int)), ..start }),
                decreases warnings.len() - i,
            {
                push_entry(app, ChatEntry::Activity(warnings[i].clone()));
                proof {
                    assert(start.chat + activity_entries(warnings@.take(i + 1)) =~= (start.chat
                        + activity_entries(warnings@.take(i as int))).push(
                        ChatEntryView::Activity(warnings@[i as int]@),
                    ));
                }
                i += 1;
            }
            proof {
                assert(warnings@.take(warnings.len() as int) =~= warnings@);
            }
        },
        AgentEvent::Compacted { total } => {
            app.compaction_count = total;
            let mut text = concat("context compacted (", decimal_string(total).as_str());
            text.append(")");
            push_entry(app, ChatEntry::Activity(text));
        },
        AgentEvent::Failed { error, retryable } => {
            app.streaming_text = String::new();
            push_entry(app, ChatEntry::Error(error));
            app.is_running = false;
            app.pending_retry = retryable;
        },
        AgentEvent::TurnComplete { usage, context_window } => {
            flush_streaming(app);
            app.input_tokens = usage.input_tokens;
            app.context_window = context_window;
            app.is_running = false;
            app.pending_retry = false;
            app.scroll_offset = 0;
        },
    }
}


/// Submitting puts the message in the chat: whenever an input event submits a draft,
/// the chat afterwards is the chat before with the user's message (the submitted
/// text) added at the end, and the draft is empty.
pub proof fn lemma_submit_shows_message(a: AppView, event: InputEvent, width: int)
    requires
        spec_input_command(a, event) matches Some(CommandView::Submit(t)),
    ensures
        spec_input_event(a, event, width).chat == a.chat.push(
            ChatEntryView::User(spec_input_command(a, event)->Some_0->Submit_0),
        ),
        spec_input_event(a, event, width).input.text.len() == 0,
{
}

} // verus!
