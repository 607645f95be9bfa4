//! The canonical context: the provider-ready items sent with every request, and the
//! request itself.
use vstd::prelude::*;

use crate::message::{ToolCall, ToolCallView};

verus! {

/// An item the provider produced, kept as its JSON text together with the fields the
/// runtime reads from it.
#[derive(Debug, Clone, PartialEq, Eq)]
pub struct RawItem {
    pub json: String,
    pub item_type: Option<String>,
    pub call_id: Option<String>,
    pub name: Option<String>,
    pub arguments: Option<String>,
}

/// One item of the canonical context.
#[derive(Debug, Clone, PartialEq, Eq)]
pub enum Item {
    /// `{"role":"user","content":..}`
    User { content: String },
    /// `{"role":"assistant","content":..}`
    Assistant { content: String },
    /// `{"type":"function_call","call_id":..,"name":..,"arguments":..}`
    FunctionCall { call_id: String, name: String, arguments: String },
    /// `{"type":"function_call_output","call_id":..,"output":..}`
    FunctionCallOutput { call_id: String, output: String },
    /// An item as the provider sent it.
    Raw(RawItem),
}

/// A context item as a value.
pub enum ItemView {
    User { content: Seq<char> },
    Assistant { content: Seq<char> },
    FunctionCall { call_id: Seq<char>, name: Seq<char>, arguments: Seq<char> },
    FunctionCallOutput { call_id: Seq<char>, output: Seq<char> },
    Raw {
        json: Seq<char>,
        item_type: Option<Seq<char>>,
        call_id: Option<Seq<char>>,
        name: Option<Seq<char>>,
        arguments: Option<Seq<char>>,
    },
}

/// The characters of an optional string.
pub open spec fn opt_view(s: Option<String>) -> Option<Seq<char>> {
    match s {
        Some(t) => Some(t@),
        None => None,
    }
}

impl View for Item {
    type V = ItemView;

    open spec fn view(&self) -> ItemView {
        match self {
            Item::User { content } => ItemView::User { content: content@ },
            Item::Assistant { content } => ItemView::Assistant { content: content@ },
            Item::FunctionCall { call_id, name, arguments } => ItemView::FunctionCall {
                call_id: call_id@,
                name: name@,
                arguments: arguments@,
            },
            Item::FunctionCallOutput { call_id, output } => ItemView::FunctionCallOutput {
                call_id: call_id@,
                output: output@,
            },
            Item::Raw(r) => ItemView::Raw {
                json: r.json@,
                item_type: opt_view(r.item_type),
                call_id: opt_view(r.call_id),
                name: opt_view(r.name),
                arguments: opt_view(r.arguments),
            },
        }
    }
}

/// The items as values.
pub open spec fn item_views(items: Seq<Item>) -> Seq<ItemView> {
    items.map_values(|i: Item| i@)
}

/// The `type` field of an item, when it has a string one.
pub open spec fn item_type(item: ItemView) -> Option<Seq<char>> {
    match item {
        ItemView::User { .. } => None,
        ItemView::Assistant { .. } => None,
        ItemView::FunctionCall { .. } => Some("function_call"@),
        ItemView::FunctionCallOutput { .. } => Some("function_call_output"@),
        ItemView::Raw { item_type, .. } => item_type,
    }
}

/// The item holds opaque compaction state.
pub open spec fn is_compaction(item: ItemView) -> bool {
    item_type(item) == Some("compaction"@)
}

/// The function call an item asks for: a `function_call` item whose call id, name and
/// arguments are all strings.
pub open spec fn item_call(item: ItemView) -> Option<ToolCallView> {
    match item {
        ItemView::FunctionCall { call_id, name, arguments } => Some(
            ToolCallView { id: call_id, name, arguments },
        ),
        ItemView::Raw { item_type, call_id, name, arguments, .. } => {
            if item_type == Some("function_call"@) && call_id is Some && name is Some
                && arguments is Some {
                Some(
                    ToolCallView {
                        id: call_id.unwrap(),
                        name: name.unwrap(),
                        arguments: arguments.unwrap(),
                    },
                )
            } else {
                None
            }
        },
        _ => None,
    }
}

/// The function calls of `items`, in order.
pub open spec fn calls_of(items: Seq<ItemView>) -> Seq<ToolCallView>
    decreases items.len(),
{
    if items.len() == 0 {
        seq![]
    } else {
        let rest = calls_of(items.drop_last());
        match item_call(items.last()) {
            Some(c) => rest.push(c),
            None => rest,
        }
    }
}

/// How many items of `items` hold compaction state.
pub open spec fn compaction_count(items: Seq<ItemView>) -> nat
    decreases items.len(),
{
    if items.len() == 0 {
        0
    } else {
        compaction_count(items.drop_last()) + if is_compaction(items.last()) {
            1nat
        } else {
            0nat
        }
    }
}

/// The index of the last compaction item among the first `k` items.
pub open spec fn last_compaction(items: Seq<ItemView>, k: int) -> Option<int>
    decreases k,
{
    if k <= 0 {
        None
    } else if is_compaction(items[k - 1]) {
        Some(k - 1)
    } else {
        last_compaction(items, k - 1)
    }
}

/// A sequence with a positive count of compaction items holds one.
pub proof fn lemma_count_has_compaction(items: Seq<ItemView>) -> (j: int)
    requires
        compaction_count(items) > 0,
    ensures
        0 <= j < items.len(),
        is_compaction(items[j]),
    decreases items.len(),
{
    if is_compaction(items.last()) {
        (items.len() - 1) as int
    } else {
        let j = lemma_count_has_compaction(items.drop_last());
        j
    }
}

/// The search for the last compaction among the first `k` items finds one at or after
/// any compaction item `j` there.
pub proof fn lemma_last_compaction_found(items: Seq<ItemView>, k: int, j: int)
    requires
        0 <= j < k <= items.len(),
        is_compaction(items[j]),
    ensures
        last_compaction(items, k) matches Some(m) && j <= m < k && is_compaction(items[m]),
    decreases k,
{
    if !is_compaction(items[k - 1]) {
        lemma_last_compaction_found(items, k - 1, j);
    }
}

/// What the search returns is a compaction item among the first `k`.
pub proof fn lemma_last_compaction_is_compaction(items: Seq<ItemView>, k: int)
    requires
        k <= items.len(),
    ensures
        last_compaction(items, k) matches Some(m) ==> 0 <= m < k && is_compaction(items[m]),
    decreases k,
{
    if k > 0 && !is_compaction(items[k - 1]) {
        lemma_last_compaction_is_compaction(items, k - 1);
    }
}

/// The context after a response: everything before the last compaction item is
/// dropped, since that item replaces it.
pub open spec fn prune(items: Seq<ItemView>) -> Seq<ItemView> {
    match last_compaction(items, items.len() as int) {
        Some(k) => items.skip(k),
        None => items,
    }
}

/// A tool the model may call.
#[derive(Debug, Clone, PartialEq, Eq)]
pub struct ToolDefinition {
    pub name: String,
    pub description: String,
    /// The JSON schema of the arguments, as JSON text.
    pub parameters: String,
}

/// A tool definition as a value.
pub struct ToolDefinitionView {
    pub name: Seq<char>,
    pub description: Seq<char>,
    pub parameters: Seq<char>,
}

impl View for ToolDefinition {
    type V = ToolDefinitionView;

    open spec fn view(&self) -> ToolDefinitionView {
        ToolDefinitionView {
            name: self.name@,
            description: self.description@,
            parameters: self.parameters@,
        }
    }
}

/// The definitions as values.
pub open spec fn definition_views(defs: Seq<ToolDefinition>) -> Seq<ToolDefinitionView> {
    defs.map_values(|d: ToolDefinition| d@)
}

/// What is sent to the model for one response.
#[derive(Debug, Clone, PartialEq, Eq)]
pub struct Request {
    pub instructions: String,
    pub input: Vec<Item>,
    pub tools: Vec<ToolDefinition>,
    pub compact_threshold: u32,
}

/// A request as a value.
pub struct RequestView {
    pub instructions: Seq<char>,
    pub input: Seq<ItemView>,
    pub tools: Seq<ToolDefinitionView>,
    pub compact_threshold: u32,
}

impl View for Request {
    type V = RequestView;

    open spec fn view(&self) -> RequestView {
        RequestView {
            instructions: self.instructions@,
            input: item_views(self.input@),
            tools: definition_views(self.tools@),
            compact_threshold: self.compact_threshold,
        }
    }
}

impl RawItem {
    /// A copy of the item.
    pub fn duplicate(&self) -> (c: RawItem)
        ensures
            c == *self,
    {
        RawItem {
            json: self.json.clone(),
            item_type: copy_opt(&self.item_type),
            call_id: copy_opt(&self.call_id),
            name: copy_opt(&self.name),
            arguments: copy_opt(&self.arguments),
        }
    }
}

/// A copy of an optional string.
pub fn copy_opt(s: &Option<String>) -> (c: Option<String>)
    ensures
        c == *s,
{
    match s {
        Some(t) => Some(t.clone()),
        None => None,
    }
}

impl Item {
    /// A copy of the item.
    pub fn duplicate(&self) -> (c: Item)
        ensures
            c == *self,
    {
        match self {
            Item::User { content } => Item::User { content: content.clone() },
            Item::Assistant { content } => Item::Assistant { content: content.clone() },
            Item::FunctionCall { call_id, name, arguments } => Item::FunctionCall {
                call_id: call_id.clone(),
                name: name.clone(),
                arguments: arguments.clone(),
            },
            Item::FunctionCallOutput { call_id, output } => Item::FunctionCallOutput {
                call_id: call_id.clone(),
                output: output.clone(),
            },
            Item::Raw(r) => Item::Raw(r.duplicate()),
        }
    }

    /// Whether the item holds compaction state.
    pub fn is_compaction(&self) -> (b: bool)
        ensures
            b == is_compaction(self@),
    {
        match self {
            Item::Raw(r) => match &r.item_type {
                Some(t) => {
                    let c = String::from_str("compaction");
                    *t == c
                },
                None => false,
            },
            Item::FunctionCall { .. } => {
                proof {
                    reveal_strlit("function_call");
                    reveal_strlit("compaction");
                    assert("function_call"@.len() != "compaction"@.len());
                }
                false
            },
            Item::FunctionCallOutput { .. } => {
                proof {
                    reveal_strlit("function_call_output");
                    reveal_strlit("compaction");
                    assert("function_call_output"@.len() != "compaction"@.len());
                }
                false
            },
            _ => false,
        }
    }

    /// The function call the item asks for, if any.
    pub fn call(&self) -> (c: Option<ToolCall>)
        ensures
            match c {
                Some(t) => item_call(self@) == Some(t@),
                None => item_call(self@) is None,
            },
    {
        match self {
            Item::FunctionCall { call_id, name, arguments } => Some(
                ToolCall { id: call_id.clone(), name: name.clone(), arguments: arguments.clone() },
            ),
            Item::Raw(r) => {
                let kind = String::from_str("function_call");
                match (&r.item_type, &r.call_id, &r.name, &r.arguments) {
                    (Some(t), Some(i), Some(n), Some(a)) => {
                        if *t == kind {
                            Some(ToolCall { id: i.clone(), name: n.clone(), arguments: a.clone() })
                        } else {
                            None
                        }
                    },
                    _ => None,
                }
            },
            _ => None,
        }
    }
}

/// A copy of the items.
pub fn duplicate_items(items: &Vec<Item>) -> (c: Vec<Item>)
    ensures
        c@ == items@,
{
    let mut out: Vec<Item> = Vec::new();
    let mut i: usize = 0;
    while i < items.len()
        invariant
            i <= items.len(),
            out@ == items@.take(i as int),
        decreases items.len() - i,
    {
        out.push(items[i].duplicate());
        assert(items@.take(i as int).push(items@[i as int]) =~= items@.take(i + 1));
        i += 1;
    }
    assert(items@.take(items.len() as int) =~= items@);
    out
}

impl ToolDefinition {
    /// A copy of the definition.
    pub fn duplicate(&self) -> (c: ToolDefinition)
        ensures
            c == *self,
    {
        ToolDefinition {
            name: self.name.clone(),
            description: self.description.clone(),
            parameters: self.parameters.clone(),
        }
    }
}

/// A copy of the definitions.
pub fn duplicate_definitions(defs: &Vec<ToolDefinition>) -> (c: Vec<ToolDefinition>)
    ensures
        c@ == defs@,
{
    let mut out: Vec<ToolDefinition> = Vec::new();
    let mut i: usize = 0;
    while i < defs.len()
        invariant
            i <= defs.len(),
            out@ == defs@.take(i as int),
        decreases defs.len() - i,
    {
        out.push(defs[i].duplicate());
        assert(defs@.take(i as int).push(defs@[i as int]) =~= defs@.take(i + 1));
        i += 1;
    }
    assert(defs@.take(defs.len() as int) =~= defs@);
    out
}

impl Request {
    /// A copy of the request.
    pub fn duplicate(&self) -> (c: Request)
        ensures
            c@ == self@,
    {
        Request {
            instructions: self.instructions.clone(),
            input: duplicate_items(&self.input),
            tools: duplicate_definitions(&self.tools),
            compact_threshold: self.compact_threshold,
        }
    }
}

/// The function calls among `items`, in order.
pub fn function_calls(items: &Vec<Item>) -> (calls: Vec<ToolCall>)
    ensures
        crate::message::call_views(calls@) == calls_of(item_views(items@)),
{
    let mut calls: Vec<ToolCall> = Vec::new();
    let mut i: usize = 0;
    while i < items.len()
        invariant
            i <= items.len(),
            crate::message::call_views(calls@) == calls_of(item_views(items@.take(i as int))),
        decreases items.len() - i,
    {
        proof {
            assert(item_views(items@.take(i + 1)).drop_last() =~= item_views(items@.take(i as int)));
            assert(item_views(items@.take(i + 1)).last() == items@[i as int]@);
        }
        match items[i].call() {
            Some(c) => {
                proof {
                    assert(crate::message::call_views(calls@.push(c)) =~= crate::message::call_views(
                        calls@,
                    ).push(c@));
                }
                calls.push(c);
            },
            None => {},
        }
        i += 1;
    }
    proof {
        assert(items@.take(items.len() as int) =~= items@);
    }
    calls
}

/// How many of `items` hold compaction state.
pub fn count_compactions(items: &Vec<Item>) -> (n: u64)
    requires
        items@.len() <= u64::MAX,
    ensures
        n as nat == compaction_count(item_views(items@)),
{
    let mut n: u64 = 0;
    let mut i: usize = 0;
    while i < items.len()
        invariant
            i <= items.len(),
            items@.len() <= u64::MAX,
            n as nat == compaction_count(item_views(items@.take(i as int))),
            n <= i,
        decreases items.len() - i,
    {
        proof {
            assert(item_views(items@.take(i + 1)).drop_last() =~= item_views(items@.take(i as int)));
            assert(item_views(items@.take(i + 1)).last() == items@[i as int]@);
        }
        if items[i].is_compaction() {
            n = n + 1;
        }
        i += 1;
    }
    proof {
        assert(items@.take(items.len() as int) =~= items@);
    }
    n
}

} // verus!
