use std::path::PathBuf;

use hermes_scope::hermes_config::{config_from_yaml, config_path_for, config_path_with, parse_hermes_config, YamlValue};

#[test]
fn parses_nested_model_provider_and_default() {
    let yaml = r#"
model:
  provider: openrouter
  default: anthropic/sonnet-4.6
"#;
    let cfg = parse_hermes_config(yaml).expect("valid Hermes YAML");
    assert_eq!(cfg.provider.as_deref(), Some("openrouter"));
    assert_eq!(cfg.model.as_deref(), Some("anthropic/sonnet-4.6"));
    assert!(cfg.extra.is_empty());
}

#[test]
fn parses_scalar_model_without_inventing_provider() {
    let yaml = "model: anthropic/sonnet-4.6\n";
    let cfg = parse_hermes_config(yaml).expect("valid Hermes YAML");
    assert_eq!(cfg.provider, None);
    assert_eq!(cfg.model.as_deref(), Some("anthropic/sonnet-4.6"));
}

#[test]
fn accepts_legacy_model_key_when_default_is_absent() {
    let yaml = r#"
model:
  provider: nous
  model: sonnet-4.6
"#;
    let cfg = parse_hermes_config(yaml).expect("valid Hermes YAML");
    assert_eq!(cfg.provider.as_deref(), Some("nous"));
    assert_eq!(cfg.model.as_deref(), Some("sonnet-4.6"));
}

#[test]
fn invalid_yaml_returns_none() {
    assert!(parse_hermes_config("model: [not: valid").is_none());
}

#[test]
fn credential_fields_are_not_surfaceable() {
    let yaml = r#"
model:
  provider: openrouter
  default: anthropic/sonnet-4.6
api_key: should-not-leak
access_token: should-not-leak
oauth:
  refresh_token: should-not-leak
"#;
    let cfg = parse_hermes_config(yaml).expect("valid Hermes YAML");
    assert!(cfg.extra.is_empty());
    let serialized = format!("{cfg:?}");
    assert!(!serialized.contains("should-not-leak"));
}

#[test]
fn config_path_prefers_hermes_home() {
    assert_eq!(
        config_path_for(Some("/tmp/hermes-agent"), Some("/Users/test")).map(PathBuf::from),
        Some(PathBuf::from("/tmp/hermes-agent/config.yaml"))
    );
}

#[test]
fn config_path_uses_default_home_when_hermes_home_is_absent() {
    assert_eq!(
        config_path_for(None, Some("/Users/test")).map(PathBuf::from),
        Some(PathBuf::from("/Users/test/.hermes/config.yaml"))
    );
}

// --- further cases ---

#[test]
fn config_path_edge_cases() {
    // blank HERMES_HOME falls back to the home directory
    assert_eq!(config_path_for(Some("   "), Some("/home/u/")), Some("/home/u/.hermes/config.yaml".to_string()));
    // HERMES_HOME is trimmed; a trailing separator is not doubled
    assert_eq!(config_path_for(Some(" /h/ "), None), Some("/h/config.yaml".to_string()));
    assert_eq!(config_path_for(None, None), None);
    assert_eq!(config_path_for(Some(""), None), None);
}

#[test]
fn model_fields_edge_cases() {
    // blank default falls back to the legacy key
    let cfg = parse_hermes_config("model:\n  default: '  '\n  model: m\n").unwrap();
    assert_eq!(cfg.model.as_deref(), Some("m"));
    assert_eq!(cfg.provider, None);
    // no model entry at all
    let cfg = parse_hermes_config("other: 1\n").unwrap();
    assert_eq!((cfg.provider, cfg.model), (None, None));
    // a non-string scalar model is not a model name
    let cfg = parse_hermes_config("model: 42\n").unwrap();
    assert_eq!(cfg.model, None);
    // values are trimmed
    let cfg = parse_hermes_config("model:\n  provider: \" p \"\n").unwrap();
    assert_eq!(cfg.provider.as_deref(), Some("p"));
    // a document that is not a mapping has no model
    let cfg = parse_hermes_config("- a\n- b\n").unwrap();
    assert_eq!(cfg.model, None);
}

#[test]
fn config_path_with_uses_the_given_separator() {
    assert_eq!(config_path_with(Some("/tmp/hermes-agent"), Some("/Users/test"), '/'), Some("/tmp/hermes-agent/config.yaml".to_string()));
    assert_eq!(config_path_with(None, Some("/Users/test"), '/'), Some("/Users/test/.hermes/config.yaml".to_string()));
    assert_eq!(config_path_with(Some("  "), Some("/Users/test"), '/'), Some("/Users/test/.hermes/config.yaml".to_string()));
    assert_eq!(config_path_with(None, None, '/'), None);
    assert_eq!(config_path_with(Some("C:\\h"), None, '\\'), Some("C:\\h\\config.yaml".to_string()));
    assert_eq!(config_path_with(Some("C:\\h\\"), None, '\\'), Some("C:\\h\\config.yaml".to_string()));
    // `/` separates components on every platform
    assert_eq!(config_path_with(Some("C:/h/"), None, '\\'), Some("C:/h/config.yaml".to_string()));
}

fn s(x: &str) -> YamlValue {
    YamlValue::String(x.to_string())
}

#[test]
fn config_from_yaml_reads_only_the_model_entry() {
    let doc = YamlValue::Mapping(vec![
        (s("api_key"), s("sk-secret")),
        (s("model"), YamlValue::Mapping(vec![(s("provider"), s("openrouter")), (s("default"), s("  gpt-4o "))])),
    ]);
    let cfg = config_from_yaml(&doc);
    assert_eq!(cfg.provider.as_deref(), Some("openrouter"));
    assert_eq!(cfg.model.as_deref(), Some("gpt-4o"));
    assert!(cfg.extra.is_empty());

    let legacy = YamlValue::Mapping(vec![(s("model"), YamlValue::Mapping(vec![(s("default"), s(" ")), (s("model"), s("m"))]))]);
    assert_eq!(config_from_yaml(&legacy).model.as_deref(), Some("m"));

    let tagged_scalar = YamlValue::Mapping(vec![(s("model"), YamlValue::Tagged("!t".to_string(), Box::new(s("x"))))]);
    let cfg = config_from_yaml(&tagged_scalar);
    assert_eq!(cfg.model.as_deref(), Some("x"));
    assert_eq!(cfg.provider, None);

    let numeric = YamlValue::Mapping(vec![(s("model"), YamlValue::Number("4".to_string()))]);
    assert_eq!(config_from_yaml(&numeric).model, None);
    assert_eq!(config_from_yaml(&YamlValue::Null).model, None);
}
