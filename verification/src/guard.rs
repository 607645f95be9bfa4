//! Decisions on whether a tool call may run.
use vstd::prelude::*;

use crate::tool::RiskLevel;

verus! {

/// Whether a tool call may run, must not run (and why), or needs the user's consent.
#[derive(Debug, Clone, PartialEq, Eq)]
pub enum Decision {
    Allow,
    Deny(String),
    NeedConfirm,
}

/// The decision `ConfirmGuard` makes: low risk runs, anything riskier is confirmed.
pub open spec fn confirm_decision(risk_level: RiskLevel) -> Decision {
    match risk_level {
        RiskLevel::Low => Decision::Allow,
        _ => Decision::NeedConfirm,
    }
}

/// Always allows any tool call.
pub struct AutoGuard;

impl AutoGuard {
    /// Allows the call, whatever the tool and its risk.
    pub fn check(&self, tool_name: &str, risk_level: RiskLevel) -> (d: Decision)
        ensures
            d == Decision::Allow,
    {
        Decision::Allow
    }
}

/// Routes by risk level: Low -> Allow, Medium | High -> NeedConfirm.
pub struct ConfirmGuard;

impl ConfirmGuard {
    /// Allows a low-risk call and asks for confirmation of any other.
    pub fn check(&self, tool_name: &str, risk_level: RiskLevel) -> (d: Decision)
        ensures
            d == confirm_decision(risk_level),
    {
        match risk_level {
            RiskLevel::Low => Decision::Allow,
            RiskLevel::Medium | RiskLevel::High => Decision::NeedConfirm,
        }
    }
}

} // verus!
