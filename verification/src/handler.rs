//! What the runtime reports to its front end while a turn runs.
use vstd::prelude::*;

use crate::event::Usage;
use crate::skills::SkillInfo;
use crate::tool::ToolOutput;

verus! {

/// A report from the runtime to the front end.
#[derive(Debug, Clone, PartialEq, Eq)]
pub enum AgentEvent {
    /// A piece of the response's text arrived.
    TextDelta(String),
    /// A tool call is about to run.
    ToolCallBegin { id: String, name: String, arguments: String },
    /// A tool call finished with this output.
    ToolCallEnd { id: String, output: ToolOutput },
    /// A tool call was refused for `reason`.
    ToolCallDenied { id: String, name: String, reason: String },
    /// The skills were discovered anew; `warnings` say what was skipped or shortened.
    SkillsUpdated { skills: Vec<SkillInfo>, warnings: Vec<String> },
    /// The provider compacted the context; `total` compactions so far.
    Compacted { total: u64 },
    /// The turn failed; `retryable` says whether a retry of the same request waits.
    Failed { error: String, retryable: bool },
    /// The turn finished.
    TurnComplete { usage: Usage, context_window: u32 },
}

} // verus!
