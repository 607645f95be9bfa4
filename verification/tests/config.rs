use agent::config::{
    default_guard_mode, default_model_id, settings_source, Config, ConfigError, GuardMode, ReadOutcome,
};
use agent::guard::{AutoGuard, ConfirmGuard, Decision};
use agent::tool::RiskLevel;

#[test]
fn default_config_has_expected_values() {
    let cfg = Config::default();
    assert_eq!(cfg.model.model_id, "gpt-4o");
    assert!(cfg.model.api_key.is_none());
    assert!(cfg.model.api_base.is_none());
    assert!(cfg.model.context_window.is_none());
    assert_eq!(cfg.guard.mode, GuardMode::Confirm);
    assert!(cfg.system_prompt.is_none());
}

#[test]
fn defaults_name_gpt_4o_and_confirmation() {
    assert_eq!(default_model_id(), "gpt-4o");
    assert_eq!(default_guard_mode(), GuardMode::Confirm);
}

#[test]
fn missing_file_means_defaults_and_unreadable_file_is_an_error() {
    assert_eq!(settings_source("/c.toml", ReadOutcome::Missing), Ok(None));
    assert_eq!(settings_source("/c.toml", ReadOutcome::Text("x".into())), Ok(Some("x".into())));
    let error = settings_source("/c.toml", ReadOutcome::Failed("permission denied".into())).unwrap_err();
    assert_eq!(error.message(), "failed to read /c.toml: permission denied");
    let parse = ConfigError::Parse { path: "/c.toml".into(), source: "line 2".into() };
    assert_eq!(parse.message(), "failed to parse /c.toml: line 2");
}

#[test]
fn auto_guard_always_allows() {
    assert_eq!(AutoGuard.check("any_tool", RiskLevel::Low), Decision::Allow);
    assert_eq!(AutoGuard.check("dangerous_tool", RiskLevel::High), Decision::Allow);
}

#[test]
fn confirm_guard_low_risk_allows() {
    assert_eq!(ConfirmGuard.check("safe_tool", RiskLevel::Low), Decision::Allow);
}

#[test]
fn confirm_guard_medium_risk_needs_confirm() {
    assert_eq!(ConfirmGuard.check("medium_tool", RiskLevel::Medium), Decision::NeedConfirm);
}

#[test]
fn confirm_guard_high_risk_needs_confirm() {
    assert_eq!(ConfirmGuard.check("risky_tool", RiskLevel::High), Decision::NeedConfirm);
}

#[test]
fn guard_modes_follow_their_guards() {
    assert_eq!(GuardMode::Auto.check("shell", RiskLevel::High), Decision::Allow);
    assert_eq!(GuardMode::Confirm.check("shell", RiskLevel::High), Decision::NeedConfirm);
    assert_eq!(GuardMode::Confirm.check("read_file", RiskLevel::Low), Decision::Allow);
}
