//! What tools report and how risky they are.
use vstd::prelude::*;

use crate::text::concat;

verus! {

/// How much harm a tool call can do, which decides whether it needs confirmation.
#[derive(Debug, Clone, Copy, PartialEq, Eq)]
pub enum RiskLevel {
    Low,
    Medium,
    High,
}

/// The result of a tool call: text for the model, or an error message.
#[derive(Debug, Clone, PartialEq, Eq)]
pub enum ToolOutput {
    Text(String),
    Error(String),
}

impl ToolOutput {
    /// The text shown for the output: the text itself, or the message after `Error: `.
    pub open spec fn shown(&self) -> Seq<char> {
        match self {
            ToolOutput::Text(s) => s@,
            ToolOutput::Error(s) => "Error: "@ + s@,
        }
    }

    /// The text shown for the output.
    pub fn to_string(&self) -> (s: String)
        ensures
            s@ == self.shown(),
    {
        match self {
            ToolOutput::Text(s) => s.clone(),
            ToolOutput::Error(s) => concat("Error: ", s.as_str()),
        }
    }

    /// A copy of the output.
    pub fn duplicate(&self) -> (o: ToolOutput)
        ensures
            o == *self,
    {
        match self {
            ToolOutput::Text(s) => ToolOutput::Text(s.clone()),
            ToolOutput::Error(s) => ToolOutput::Error(s.clone()),
        }
    }
}

} // verus!
