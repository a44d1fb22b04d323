use hermes_scope::memory_scope::HermesMemoryScope;
use hermes_scope::persistence_harness::{
    all_passed, build_report, escape_json, redact_marker, scenario_result, HarnessReport, Scenario, ScenarioResult,
    REPORT_SCHEMA_VERSION,
};
use hermes_scope::runtime_scope::{RuntimeKind, RuntimeScopeContext};

fn ctx(relay: &str, channel: &str, persona: &str) -> RuntimeScopeContext {
    RuntimeScopeContext::new(relay, channel, persona, RuntimeKind::Hermes).unwrap()
}

/// The harness flow with an in-memory store keyed by profile path: the
/// marker is written under scope A, then each restart reads back whatever
/// its own scope holds.
fn simulated_report(marker: &str) -> HarnessReport {
    let ctx_a = ctx("wss://relay-a.example.com", "channel-a", "persona-a");
    let scenarios = vec![
        Scenario::Write(ctx_a.clone(), marker.to_string()),
        Scenario::Restart(ctx_a.clone(), true),
        Scenario::Restart(ctx("wss://relay-a.example.com", "channel-b", "persona-a"), false),
        Scenario::Restart(ctx("wss://relay-a.example.com", "channel-a", "persona-b"), false),
        Scenario::Restart(ctx("wss://relay-b.example.com", "channel-a", "persona-a"), false),
    ];
    let mut store: Vec<(String, String)> = Vec::new();
    let mut results = Vec::new();
    for sc in &scenarios {
        let recovered = match sc {
            Scenario::Write(c, m) => {
                let path = HermesMemoryScope::from_context(c).unwrap().profile_path().to_string();
                store.push((path, m.clone()));
                None
            }
            Scenario::Restart(c, _) => {
                let path = HermesMemoryScope::from_context(c).unwrap().profile_path().to_string();
                store.iter().find(|(p, _)| p.as_str() == path).map(|(_, m)| m.clone())
            }
        };
        results.push(scenario_result(sc, recovered));
    }
    build_report("1700000000s".to_string(), "linux".to_string(), "x86_64".to_string(), results)
}

const MARKER: &str = "marker-0123456789abcdef";

#[test]
fn test_harness_runs_all_scenarios() {
    let report = simulated_report(MARKER);
    assert_eq!(report.schema, 1);
    assert_eq!(report.scenarios.len(), 5, "should run 5 scenarios");
}

#[test]
fn test_restart_same_scope_recovers_marker() {
    let report = simulated_report(MARKER);
    let same = &report.scenarios[1];
    assert!(same.marker_recovered.is_some(), "marker should be recovered");
    assert!(same.passed, "restart in same scope should pass");
}

#[test]
fn test_different_channel_no_recovery() {
    let report = simulated_report(MARKER);
    let ch = &report.scenarios[2];
    assert!(ch.marker_recovered.is_none(), "different channel should NOT recover");
    assert!(ch.passed, "isolation test should pass (no recovery as expected)");
    assert_ne!(ch.channel_id, "channel-a");
}

#[test]
fn test_different_persona_no_recovery() {
    let report = simulated_report(MARKER);
    let p = &report.scenarios[3];
    assert!(p.marker_recovered.is_none());
    assert!(p.passed);
    assert_ne!(p.persona_id, "persona-a");
}

#[test]
fn test_different_relay_no_recovery() {
    let report = simulated_report(MARKER);
    let r = &report.scenarios[4];
    assert!(r.marker_recovered.is_none());
    assert!(r.passed);
    assert_ne!(r.relay_url, "wss://relay-a.example.com");
}

#[test]
fn test_report_has_required_fields() {
    let json = simulated_report(MARKER).to_json();
    assert!(json.contains("\"schema\": 1"));
    assert!(json.contains("\"os\":"));
    assert!(json.contains("\"arch\":"));
    assert!(json.contains("\"scenarios\":"));
    assert!(json.contains("\"all_passed\":"));
}

#[test]
fn test_report_redacts_marker_content() {
    let report = simulated_report(MARKER);
    for sc in &report.scenarios {
        if let Some(m) = &sc.marker_recovered {
            assert!(m.len() <= 8, "marker leaked: {}", m);
        }
    }
    assert_eq!(report.scenarios[1].marker_recovered.as_deref(), Some("marker-0"));
    assert!(!report.to_json().contains("0123456789abcdef"), "full marker leaked");
}

#[test]
fn test_all_scenarios_pass() {
    let report = simulated_report(MARKER);
    assert!(report.all_passed, "all scenarios must pass\n{}", report.to_json());
}

#[test]
fn test_report_json_is_parseable() {
    let json = simulated_report(MARKER).to_json();
    assert_eq!(json.matches('{').count(), json.matches('}').count(), "unbalanced braces in JSON report");
}

#[test]
fn report_json_exact_text() {
    let sc = ScenarioResult {
        name: "first write".to_string(),
        relay_url: "wss://r".to_string(),
        channel_id: "c\"1".to_string(),
        persona_id: "p\\1".to_string(),
        runtime: RuntimeKind::Hermes,
        marker_recovered: None,
        expected_recover: false,
        passed: true,
    };
    let sc2 = ScenarioResult { marker_recovered: Some("abc".to_string()), passed: false, ..sc.clone() };
    let report = build_report("t".to_string(), "linux".to_string(), "x86_64".to_string(), vec![sc, sc2]);
    assert!(!report.all_passed);
    let expected = "{\n  \"schema\": 1,\n  \"timestamp\": \"t\",\n  \"os\": \"linux\",\n  \"arch\": \"x86_64\",\n  \"scenarios\": [\n    {\n      \"name\": \"first write\",\n      \"relay_url\": \"wss://r\",\n      \"channel_id\": \"c\\\"1\",\n      \"persona_id\": \"p\\\\1\",\n      \"runtime\": \"hermes\",\n      \"marker_recovered\": null,\n      \"expected_recover\": false,\n      \"passed\": true\n    },\n    {\n      \"name\": \"first write\",\n      \"relay_url\": \"wss://r\",\n      \"channel_id\": \"c\\\"1\",\n      \"persona_id\": \"p\\\\1\",\n      \"runtime\": \"hermes\",\n      \"marker_recovered\": \"abc\",\n      \"expected_recover\": false,\n      \"passed\": false\n    }\n  ],\n  \"all_passed\": false\n}\n";
    assert_eq!(report.to_json(), expected);
}

#[test]
fn empty_report_json() {
    let report = build_report("t".to_string(), "o".to_string(), "a".to_string(), vec![]);
    assert!(report.all_passed);
    assert_eq!(REPORT_SCHEMA_VERSION, 1);
    assert_eq!(
        report.to_json(),
        "{\n  \"schema\": 1,\n  \"timestamp\": \"t\",\n  \"os\": \"o\",\n  \"arch\": \"a\",\n  \"scenarios\": [\n  ],\n  \"all_passed\": true\n}\n"
    );
}

#[test]
fn escape_json_escapes_backslash_and_quote_only() {
    assert_eq!(escape_json("a\\b\"c"), "a\\\\b\\\"c");
    assert_eq!(escape_json("plain\ntext"), "plain\ntext");
    assert_eq!(escape_json(""), "");
}

#[test]
fn redact_marker_keeps_eight_bytes() {
    assert_eq!(redact_marker("marker-0123456789abcdef"), "marker-0");
    assert_eq!(redact_marker("short"), "short");
    assert_eq!(redact_marker("12345678"), "12345678");
    assert_eq!(redact_marker(""), "");
}

#[test]
fn scenario_verdicts() {
    let c = ctx("wss://relay-a.example.com", "channel-a", "persona-a");
    let w = scenario_result(&Scenario::Write(c.clone(), "m".to_string()), None);
    assert_eq!(w.name, "first write");
    assert!(w.passed);
    assert!(!w.expected_recover);
    let missed = scenario_result(&Scenario::Restart(c.clone(), true), None);
    assert!(!missed.passed);
    let leaked = scenario_result(&Scenario::Restart(c.clone(), false), Some("secret-value".to_string()));
    assert!(!leaked.passed);
    assert_eq!(leaked.marker_recovered.as_deref(), Some("secret-v"));
    assert_eq!(leaked.relay_url, "wss://relay-a.example.com");
    assert_eq!(leaked.runtime, RuntimeKind::Hermes);
    assert!(all_passed(&vec![w.clone()]));
    assert!(!all_passed(&vec![w, missed]));
}
