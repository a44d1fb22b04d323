use hermes_scope::provider_contract::{ProviderId, PROVIDER_CONTRACT_VERSION};
use hermes_scope::provider_discovery::{
    assemble_discovery, builtin_providers, env_provider_entry, extract_yaml_value, finish_discovery, hermes_config_candidates,
    hermes_config_entries, DiscoveryError, DiscoveryResult, DiscoverySource,
};

#[test]
fn test_discovery_error_display_is_credential_safe() {
    let err = DiscoveryError::ConfigReadError {
        path: "/tmp/config.yaml".into(),
        reason: "permission denied".into(),
    };
    let msg = err.message();
    assert!(msg.contains("/tmp/config.yaml"));
    assert!(msg.contains("permission denied"));
    assert!(!msg.contains("sk-"));
    assert!(!msg.contains("api_key"));
}

#[test]
fn test_discovery_error_provider_unavailable() {
    let err = DiscoveryError::ProviderUnavailable { provider: "openai".into() };
    assert!(err.message().contains("openai"));
}

#[test]
fn test_discovery_error_cancelled() {
    let err = DiscoveryError::Cancelled;
    assert_eq!(err.message(), "discovery cancelled");
}

#[test]
fn test_extract_yaml_value() {
    let yaml = "model:\n  provider: anthropic\n  default: sonnet-4\n";
    assert_eq!(extract_yaml_value(yaml, "provider"), Some("anthropic".into()));
    assert_eq!(extract_yaml_value(yaml, "default"), Some("sonnet-4".into()));
    assert_eq!(extract_yaml_value(yaml, "nonexistent"), None);
}

#[test]
fn test_extract_yaml_value_with_quotes() {
    let yaml = "model:\n  provider: \"openai\"\n  default: 'gpt-4o'\n";
    assert_eq!(extract_yaml_value(yaml, "provider"), Some("openai".into()));
    assert_eq!(extract_yaml_value(yaml, "default"), Some("gpt-4o".into()));
}

#[test]
fn test_discovery_result_empty() {
    let result = DiscoveryResult::empty();
    assert!(result.catalog.providers.is_empty());
    assert!(result.sources.is_empty());
    assert!(result.warnings.is_empty());
    assert_eq!(result.catalog.schema, PROVIDER_CONTRACT_VERSION);
}

#[test]
fn test_discovery_result_with_warning() {
    let result = DiscoveryResult::empty().with_warning("test warning");
    assert_eq!(result.warnings.len(), 1);
    assert_eq!(result.warnings[0], "test warning");
}

#[test]
fn test_builtin_providers_empty() {
    let providers = builtin_providers();
    assert!(providers.is_empty());
}

// --- further cases ---

#[test]
fn extract_yaml_value_edge_cases() {
    // first non-empty value wins; an empty value is skipped
    assert_eq!(extract_yaml_value("provider:\nprovider: b\nprovider: c\n", "provider"), Some("b".into()));
    // CRLF line endings
    assert_eq!(extract_yaml_value("a: 1\r\nprovider: x \r\n", "provider"), Some("x".into()));
    // quotes only: nothing left
    assert_eq!(extract_yaml_value("provider: \"\"\n", "provider"), None);
    // no trailing newline
    assert_eq!(extract_yaml_value("  provider:   'q' ", "provider"), Some("q".into()));
    // key must be followed directly by a colon
    assert_eq!(extract_yaml_value("provider_x: 1\n", "provider"), None);
    assert_eq!(extract_yaml_value("", "provider"), None);
}

#[test]
fn provider_id_is_normalized_and_validated() {
    let id = ProviderId::new(" OpenAI ");
    assert_eq!(id.id, "openai");
    assert_eq!(id.label, " OpenAI ");
    assert!(id.is_valid());
    assert!(!ProviderId::new("Invalid Provider!").is_valid());
    assert!(!ProviderId::new("").is_valid());
}

#[test]
fn env_entry_defaults_model_to_auto() {
    let e = env_provider_entry("OpenAI", None).unwrap();
    assert_eq!(e.id.id, "openai");
    assert_eq!(e.models.len(), 1);
    assert_eq!(e.models[0].id.id, "auto");
    assert_eq!(e.models[0].id.provider_id, "openai");
    let e = env_provider_entry("test-provider", Some("test-model")).unwrap();
    assert_eq!(e.models[0].id.id, "test-model");
    assert!(env_provider_entry("Invalid Provider!", Some("m")).is_none());
}

#[test]
fn hermes_config_entries_read_provider_and_default() {
    let v = hermes_config_entries("/h/config.yaml", "model:\n  provider: openai\n  default: gpt-4o\n").unwrap();
    assert_eq!(v.len(), 1);
    assert_eq!(v[0].id.id, "openai");
    assert_eq!(v[0].models[0].id.id, "gpt-4o");
    assert_eq!(v[0].models[0].id.label, "gpt-4o");

    match hermes_config_entries("/h/config.yaml", "model:\n  default: gpt-4o\n") {
        Err(DiscoveryError::ConfigParseError { path, reason }) => {
            assert_eq!(path, "/h/config.yaml");
            assert_eq!(reason, "no provider field");
        }
        other => panic!("unexpected {:?}", other),
    }
    match hermes_config_entries("p", "provider: bad id\n") {
        Err(DiscoveryError::ConfigParseError { reason, .. }) => assert_eq!(reason, "invalid provider ID: bad id"),
        other => panic!("unexpected {:?}", other),
    }
    let v = hermes_config_entries("p", "provider: x\n").unwrap();
    assert_eq!(v[0].models[0].id.id, "auto");
}

#[test]
fn assemble_discovery_orders_sources() {
    let env = env_provider_entry("env-p", Some("m1"));
    let hermes = hermes_config_entries("/h/config.yaml", "provider: hermes-p\ndefault: m2\n");
    let r = assemble_discovery(env, Some(("/h/config.yaml".to_string(), hermes)));
    assert_eq!(r.catalog.providers.len(), 2);
    assert_eq!(r.catalog.providers[0].id.id, "env-p");
    assert_eq!(r.catalog.providers[1].id.id, "hermes-p");
    assert_eq!(r.sources[0].1, DiscoverySource::EnvVars);
    assert_eq!(r.sources[1].1, DiscoverySource::HermesConfig("/h/config.yaml".to_string()));
    assert!(r.warnings.is_empty());

    let failed = Err(DiscoveryError::ConfigReadError { path: "/h".into(), reason: "gone".into() });
    let r = assemble_discovery(None, Some(("/h".to_string(), failed)));
    assert!(r.catalog.providers.is_empty());
    assert_eq!(r.warnings, vec!["Hermes config: cannot read config at /h: gone".to_string()]);
}

#[test]
fn finish_discovery_refuses_secret_fields() {
    let r = DiscoveryResult::empty();
    assert!(finish_discovery(r.clone(), "{\"schema\":1,\"providers\":[]}").is_ok());
    match finish_discovery(r, "{\"Api_Key\": \"x\"}") {
        Err(DiscoveryError::ConfigParseError { path, reason }) => {
            assert_eq!(path, "catalog");
            assert_eq!(reason, "secret field detected in catalog");
        }
        other => panic!("unexpected {:?}", other),
    }
}

#[test]
fn test_read_hermes_config_is_read_only() {
    // the text as it was read from `<tmp>/config.yaml`; the entries come from
    // the text alone, so nothing can be written back
    let original = "model:\n  provider: openai\n  default: gpt-4o\n".to_string();
    let entries = hermes_config_entries("/tmp/h/config.yaml", &original).unwrap();
    assert_eq!(original, "model:\n  provider: openai\n  default: gpt-4o\n");
    assert!(!entries.is_empty());
    assert_eq!(entries[0].id.id, "openai");
    assert_eq!(entries[0].models[0].id.id, "gpt-4o");
}

#[test]
fn test_read_hermes_config_no_provider() {
    let result = hermes_config_entries("/tmp/h/config.yaml", "model:\n  default: gpt-4o\n");
    assert!(result.is_err());
}

#[test]
fn test_discover_from_env_invalid_provider() {
    let entry = env_provider_entry("Invalid Provider!", None);
    if let Some(e) = entry {
        assert!(!e.id.is_valid());
    }
    assert!(env_provider_entry("Invalid Provider!", None).is_none());
}

#[test]
fn test_catalog_is_normalized() {
    let result = assemble_discovery(env_provider_entry("OpenAI", Some("gpt-4o")), None);
    let provider = result.catalog.providers.iter().find(|p| p.id.id == ProviderId::new("openai").id);
    assert!(provider.is_some(), "provider ID should be normalized to lowercase");
    assert_eq!(provider.unwrap().models[0].id.id, "gpt-4o");
    assert_eq!(result.sources[0].1, DiscoverySource::EnvVars);
}

#[test]
fn test_discover_from_env() {
    let result = assemble_discovery(env_provider_entry("test-provider", Some("test-model")), None);
    let result = finish_discovery(result, "{\"schema\":1,\"providers\":[{\"id\":\"test-provider\"}]}").unwrap();
    assert!(result.catalog.providers.iter().any(|p| p.id.id == "test-provider"));
    assert_eq!(result.catalog.schema, PROVIDER_CONTRACT_VERSION);
}

#[test]
fn test_discover_returns_empty_when_no_config() {
    let result = assemble_discovery(None, None);
    assert_eq!(result.catalog.schema, PROVIDER_CONTRACT_VERSION);
    assert!(result.catalog.providers.is_empty());
    assert!(result.sources.is_empty());
    assert!(builtin_providers().is_empty());
}

#[test]
fn test_find_hermes_config_with_env() {
    let tmp = tempfile::TempDir::new().unwrap();
    let home = tmp.path().display().to_string();
    let candidates = hermes_config_candidates(Some(&home), Some("/Users/test"), '/');
    assert_eq!(candidates, vec![format!("{}/config.yaml", home), "/Users/test/.hermes/config.yaml".to_string()]);
    assert_eq!(hermes_config_candidates(None, Some("/Users/test/"), '/'), vec!["/Users/test/.hermes/config.yaml".to_string()]);
    assert!(hermes_config_candidates(None, None, '/').is_empty());
}
