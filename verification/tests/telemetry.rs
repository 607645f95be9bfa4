use agent::telemetry::{exporter_settings, ObservabilityConfig};

fn enabled(public_key: Option<&str>, secret_key: Option<&str>) -> ObservabilityConfig {
    ObservabilityConfig {
        enabled: true,
        endpoint: "http://collector".into(),
        public_key: public_key.map(String::from),
        secret_key: secret_key.map(String::from),
    }
}

#[test]
fn exporter_sends_basic_credentials_in_base64() {
    let settings = exporter_settings(&enabled(Some("pk"), Some("sk")), None, None, None).unwrap().unwrap();
    assert_eq!(settings.endpoint, "http://collector");
    assert_eq!(settings.headers[0], ("Authorization".to_string(), "Basic cGs6c2s=".to_string()));
    assert_eq!(settings.headers[1], ("x-langfuse-ingestion-version".to_string(), "4".to_string()));
}

#[test]
fn environment_overrides_settings_and_missing_keys_are_errors() {
    let settings =
        exporter_settings(&enabled(None, Some("sk")), Some("http://env".into()), Some("p".into()), None)
            .unwrap()
            .unwrap();
    assert_eq!(settings.endpoint, "http://env");
    assert_eq!(settings.headers[0].1, "Basic cDpzaw==");
    assert!(exporter_settings(&enabled(None, Some("sk")), None, None, None).is_err());
    assert!(exporter_settings(&ObservabilityConfig::default(), None, None, None).unwrap().is_none());
}
