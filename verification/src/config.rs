//! The front end's settings: the model, the guard mode and the system prompt, with
//! the defaults a missing settings file stands for.
use vstd::prelude::*;

use crate::guard::{confirm_decision, Decision};
use crate::telemetry::{default_endpoint, ObservabilityConfig};
use crate::text::concat;
use crate::tool::RiskLevel;

verus! {

/// The model used when the settings name none.
pub open spec fn default_model() -> Seq<char> {
    "gpt-4o"@
}

/// The model used when the settings name none.
pub fn default_model_id() -> (s: String)
    ensures
        s@ == default_model(),
{
    String::from_str("gpt-4o")
}

/// How tool calls are guarded.
#[derive(Debug, Clone, Copy, PartialEq, Eq)]
pub enum GuardMode {
    /// Every call runs.
    Auto,
    /// Risky calls wait for the user's consent.
    Confirm,
}

/// The guard mode used when the settings name none.
pub fn default_guard_mode() -> (m: GuardMode)
    ensures
        m == GuardMode::Confirm,
{
    GuardMode::Confirm
}

/// The decision of a guard in `mode` on a call of a tool with `risk_level`.
pub open spec fn mode_decision(mode: GuardMode, risk_level: RiskLevel) -> Decision {
    match mode {
        GuardMode::Auto => Decision::Allow,
        GuardMode::Confirm => confirm_decision(risk_level),
    }
}

impl GuardMode {
    /// Allows every call in `Auto` mode; in `Confirm` mode allows low-risk calls and
    /// asks for consent to any other.
    pub fn check(&self, tool_name: &str, risk_level: RiskLevel) -> (d: Decision)
        ensures
            d == mode_decision(*self, risk_level),
    {
        match self {
            GuardMode::Auto => Decision::Allow,
            GuardMode::Confirm => match risk_level {
                RiskLevel::Low => Decision::Allow,
                RiskLevel::Medium | RiskLevel::High => Decision::NeedConfirm,
            },
        }
    }
}

/// Which model to use and how to reach it.
#[derive(Debug, Clone, PartialEq, Eq)]
pub struct ModelConfig {
    pub model_id: String,
    pub api_key: Option<String>,
    pub api_base: Option<String>,
    pub context_window: Option<u32>,
}

impl Default for ModelConfig {
    fn default() -> (c: ModelConfig)
        ensures
            c.model_id@ == default_model(),
            c.api_key is None,
            c.api_base is None,
            c.context_window is None,
    {
        ModelConfig { model_id: default_model_id(), api_key: None, api_base: None, context_window: None }
    }
}

/// How tool calls are guarded.
#[derive(Debug, Clone, PartialEq, Eq)]
pub struct GuardConfig {
    pub mode: GuardMode,
}

impl Default for GuardConfig {
    fn default() -> (c: GuardConfig)
        ensures
            c.mode == GuardMode::Confirm,
    {
        GuardConfig { mode: default_guard_mode() }
    }
}

/// All settings.
#[derive(Debug, Clone, PartialEq, Eq)]
pub struct Config {
    pub model: ModelConfig,
    pub guard: GuardConfig,
    pub system_prompt: Option<String>,
    pub observability: ObservabilityConfig,
}

impl Default for Config {
    fn default() -> (c: Config)
        ensures
            c.model.model_id@ == default_model(),
            c.model.api_key is None,
            c.model.api_base is None,
            c.model.context_window is None,
            c.guard.mode == GuardMode::Confirm,
            c.system_prompt is None,
            !c.observability.enabled,
            c.observability.endpoint@ == default_endpoint(),
    {
        Config {
            model: ModelConfig::default(),
            guard: GuardConfig::default(),
            system_prompt: None,
            observability: ObservabilityConfig::default(),
        }
    }
}

/// Why the settings could not be had.
#[derive(Debug, Clone, PartialEq, Eq)]
pub enum ConfigError {
    /// The file at `path` exists but could not be read; `source` says why.
    Read { path: String, source: String },
    /// The file at `path` is not valid settings; `source` says where and why.
    Parse { path: String, source: String },
}

impl ConfigError {
    /// The error's message.
    pub open spec fn text(&self) -> Seq<char> {
        match self {
            ConfigError::Read { path, source } => "failed to read "@ + path@ + ": "@ + source@,
            ConfigError::Parse { path, source } => "failed to parse "@ + path@ + ": "@ + source@,
        }
    }

    /// The error's message, naming the file and the cause.
    pub fn message(&self) -> (s: String)
        ensures
            s@ == self.text(),
    {
        match self {
            ConfigError::Read { path, source } => {
                let mut s = concat("failed to read ", path.as_str());
                s.append(": ");
                s.append(source.as_str());
                s
            },
            ConfigError::Parse { path, source } => {
                let mut s = concat("failed to parse ", path.as_str());
                s.append(": ");
                s.append(source.as_str());
                s
            },
        }
    }
}

/// What reading the settings file gave.
#[derive(Debug, Clone, PartialEq, Eq)]
pub enum ReadOutcome {
    /// The file's text.
    Text(String),
    /// There is no such file.
    Missing,
    /// The file could not be read, for the given reason.
    Failed(String),
}

/// What to parse, given what reading the file at `path` gave: its text; nothing when
/// the file is missing (the defaults apply); or the read error.
pub fn settings_source(path: &str, read: ReadOutcome) -> (r: Result<Option<String>, ConfigError>)
    ensures
        match read {
            ReadOutcome::Text(t) => r == Ok::<Option<String>, ConfigError>(Some(t)),
            ReadOutcome::Missing => r == Ok::<Option<String>, ConfigError>(None),
            ReadOutcome::Failed(e) => r matches Err(ConfigError::Read { path: p, source })
                && p@ == path@ && source == e,
        },
{
    match read {
        ReadOutcome::Text(t) => Ok(Some(t)),
        ReadOutcome::Missing => Ok(None),
        ReadOutcome::Failed(e) => Err(ConfigError::Read { path: path.to_owned(), source: e }),
    }
}

} // verus!
