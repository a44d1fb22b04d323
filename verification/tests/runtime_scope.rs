use hermes_scope::runtime_scope::{
    normalize_relay_url, validate_stable_id, IdField, RuntimeKind, RuntimeScopeContext,
    RuntimeScopeError,
};

#[test]
fn test_display_name_does_not_change_identity() {
    let a = RuntimeScopeContext::with_display(
        "wss://relay.example.com/",
        "11111111-1111-1111-1111-111111111111",
        "22222222-2222-2222-2222-222222222222",
        RuntimeKind::BuzzAcp,
        "Display Channel A",
        "Display Persona A",
    )
    .unwrap();
    let b = RuntimeScopeContext::with_display(
        "WSS://Relay.Example.com",
        "11111111-1111-1111-1111-111111111111",
        "22222222-2222-2222-2222-222222222222",
        RuntimeKind::BuzzAcp,
        "Display Channel B (different!)",
        "Display Persona B (different!)",
    )
    .unwrap();
    assert_eq!(a, b, "REQ-MEM-401 violated: display name altered identity");
}

#[test]
fn test_same_inputs_equal_across_entrypoints() {
    let from_onboarding = RuntimeScopeContext::new(
        "wss://relay.example.com",
        "channel-001",
        "persona-001",
        RuntimeKind::Hermes,
    )
    .unwrap();
    let from_restart = RuntimeScopeContext::new(
        "wss://relay.example.com",
        "channel-001",
        "persona-001",
        RuntimeKind::Hermes,
    )
    .unwrap();
    assert_eq!(from_onboarding, from_restart);
}

#[test]
fn test_relay_url_normalization() {
    let cases = [
        ("WSS://Relay.Example.com", "wss://relay.example.com"),
        ("wss://relay.example.com:443", "wss://relay.example.com"),
        ("wss://relay.example.com/", "wss://relay.example.com"),
        ("HTTPS://Relay.Example.COM/path", "https://relay.example.com/path"),
        ("ws://relay.example.com:80", "ws://relay.example.com"),
    ];
    for (input, expected) in cases {
        let ctx = RuntimeScopeContext::new(input, "c", "p", RuntimeKind::BuzzAcp).unwrap();
        assert_eq!(ctx.relay_url, expected, "failed for input '{}'", input);
    }
}

#[test]
fn test_relay_url_rejects_invalid() {
    let bad = ["", "no-scheme", "ftp://relay", "wss://relay?q=1", "wss://relay#frag"];
    for input in bad {
        let result = RuntimeScopeContext::new(input, "c", "p", RuntimeKind::BuzzAcp);
        assert!(result.is_err(), "should have rejected '{}'", input);
    }
}

#[test]
fn test_channel_id_validation() {
    let ok = RuntimeScopeContext::new("wss://relay", "abc-123", "p", RuntimeKind::BuzzAcp);
    assert!(ok.is_ok());

    let bad_chars = RuntimeScopeContext::new("wss://relay", "abc 123", "p", RuntimeKind::BuzzAcp);
    assert!(matches!(bad_chars, Err(RuntimeScopeError::InvalidChannelId { .. })));

    let empty = RuntimeScopeContext::new("wss://relay", "", "p", RuntimeKind::BuzzAcp);
    assert!(matches!(empty, Err(RuntimeScopeError::InvalidChannelId { .. })));
}

#[test]
fn test_fallback_persona() {
    let ctx = RuntimeScopeContext::new(
        "wss://relay",
        "c",
        RuntimeScopeContext::FALLBACK_PERSONA_ID,
        RuntimeKind::BuzzAcp,
    )
    .unwrap();
    assert_eq!(ctx.persona_id, RuntimeScopeContext::FALLBACK_PERSONA_ID);
}

#[test]
fn test_different_relay_changes_identity() {
    let a = RuntimeScopeContext::new("wss://a.example", "c", "p", RuntimeKind::BuzzAcp).unwrap();
    let b = RuntimeScopeContext::new("wss://b.example", "c", "p", RuntimeKind::BuzzAcp).unwrap();
    assert_ne!(a, b);
}

#[test]
fn test_different_channel_changes_identity() {
    let a = RuntimeScopeContext::new("wss://relay", "channel-a", "p", RuntimeKind::BuzzAcp).unwrap();
    let b = RuntimeScopeContext::new("wss://relay", "channel-b", "p", RuntimeKind::BuzzAcp).unwrap();
    assert_ne!(a, b);
}

#[test]
fn test_different_persona_changes_identity() {
    let a = RuntimeScopeContext::new("wss://relay", "c", "persona-a", RuntimeKind::BuzzAcp).unwrap();
    let b = RuntimeScopeContext::new("wss://relay", "c", "persona-b", RuntimeKind::BuzzAcp).unwrap();
    assert_ne!(a, b);
}

#[test]
fn test_different_runtime_changes_identity() {
    let a = RuntimeScopeContext::new("wss://relay", "c", "p", RuntimeKind::BuzzAcp).unwrap();
    let b = RuntimeScopeContext::new("wss://relay", "c", "p", RuntimeKind::Hermes).unwrap();
    assert_ne!(a, b);
}

#[test]
fn test_path_hash_is_deterministic_and_changes_with_inputs() {
    let a = RuntimeScopeContext::new("wss://relay", "c", "p", RuntimeKind::BuzzAcp).unwrap();
    let b = RuntimeScopeContext::new("wss://relay", "c", "p", RuntimeKind::BuzzAcp).unwrap();
    assert_eq!(a.path_hash(), b.path_hash());

    let c = RuntimeScopeContext::new("wss://relay", "c2", "p", RuntimeKind::BuzzAcp).unwrap();
    assert_ne!(a.path_hash(), c.path_hash());
}

// --- further cases ---

#[test]
fn path_hash_is_sixteen_lowercase_hex_digits() {
    let a = RuntimeScopeContext::new("wss://relay", "c", "p", RuntimeKind::Hermes).unwrap();
    let h = a.path_hash();
    assert_eq!(h.len(), 16);
    assert!(h.chars().all(|c| c.is_ascii_digit() || ('a'..='f').contains(&c)));
}

#[test]
fn relay_url_error_reasons() {
    let reason = |raw: &str| match normalize_relay_url(raw) {
        Err(RuntimeScopeError::InvalidRelayUrl { url, reason }) => {
            assert_eq!(url, raw);
            reason
        }
        other => panic!("expected InvalidRelayUrl, got {:?}", other),
    };
    assert_eq!(reason("   "), "empty");
    assert_eq!(reason("wss://relay?q=1"), "query/fragment not allowed");
    assert_eq!(reason("wss://relay#frag"), "query/fragment not allowed");
    assert_eq!(reason("no-scheme"), "missing scheme");
    assert_eq!(reason("FTP://relay"), "unsupported scheme 'ftp'");
    assert_eq!(reason("wss://"), "empty host");
    assert_eq!(reason("wss://:443/x"), "empty host");
}

#[test]
fn relay_url_edge_cases() {
    assert_eq!(normalize_relay_url("  wss://Relay.Example.com///  ").unwrap(), "wss://relay.example.com");
    assert_eq!(normalize_relay_url("wss://relay.example.com:8443").unwrap(), "wss://relay.example.com:8443");
    assert_eq!(normalize_relay_url("https://relay.example.com:80").unwrap(), "https://relay.example.com:80");
    assert_eq!(normalize_relay_url("http://host:80/A/B/").unwrap(), "http://host/A/B");
    assert_eq!(normalize_relay_url("wss://host:").unwrap(), "wss://host:");
    assert_eq!(normalize_relay_url("wss://a:b").unwrap(), "wss://a:b");
}

#[test]
fn stable_id_is_trimmed_and_lowercased() {
    assert_eq!(validate_stable_id(IdField::Channel, "  ABC-def-9 ").unwrap(), "abc-def-9");
    match validate_stable_id(IdField::Persona, "a.b") {
        Err(RuntimeScopeError::InvalidPersonaId { id, reason }) => {
            assert_eq!(id, "a.b");
            assert_eq!(reason, "contains characters outside [a-z0-9-]");
        }
        other => panic!("unexpected {:?}", other),
    }
    match validate_stable_id(IdField::Persona, " \t") {
        Err(RuntimeScopeError::InvalidPersonaId { reason, .. }) => assert_eq!(reason, "empty"),
        other => panic!("unexpected {:?}", other),
    }
}

#[test]
fn relay_error_is_reported_before_id_errors() {
    let r = RuntimeScopeContext::new("ftp://x", "bad id", "bad id", RuntimeKind::Hermes);
    assert!(matches!(r, Err(RuntimeScopeError::InvalidRelayUrl { .. })));
    let r = RuntimeScopeContext::new("wss://x", "ok", "bad id", RuntimeKind::Hermes);
    assert!(matches!(r, Err(RuntimeScopeError::InvalidPersonaId { .. })));
}

#[test]
fn scope_error_messages() {
    let e = RuntimeScopeError::InvalidChannelId { id: "x y".to_string(), reason: "r".to_string() };
    assert_eq!(e.message(), "invalid channel ID 'x y': r");
    let e = RuntimeScopeError::InvalidRelayUrl { url: "u".to_string(), reason: "empty".to_string() };
    assert_eq!(e.message(), "invalid relay URL 'u': empty");
    assert_eq!(RuntimeKind::BuzzAcp.as_str(), "buzz-acp");
    assert_eq!(RuntimeKind::Hermes.as_str(), "hermes");
}

#[test]
fn display_names_are_kept_but_not_compared() {
    let a = RuntimeScopeContext::with_display("wss://r", "c", "p", RuntimeKind::Hermes, "Chan", "Pers").unwrap();
    assert_eq!(a.display_channel, "Chan");
    assert_eq!(a.display_persona, "Pers");
    let b = RuntimeScopeContext::new("wss://r", "c", "p", RuntimeKind::Hermes).unwrap();
    assert_eq!(b.display_channel, "");
    assert_eq!(a, b);
}

#[test]
fn stable_id_rejects_underscore() {
    match validate_stable_id(IdField::Channel, "abc_123") {
        Err(RuntimeScopeError::InvalidChannelId { id, reason }) => {
            assert_eq!(id, "abc_123");
            assert_eq!(reason, "contains characters outside [a-z0-9-]");
        }
        other => panic!("unexpected {:?}", other),
    }
}

#[test]
fn normalizing_a_normalized_url_changes_nothing() {
    for raw in ["WSS://Relay.Example.com:443/path/", "ws://h:8080", "https://a:b/c:d", "http://x:/y", "wss://a:1:443"] {
        let once = normalize_relay_url(raw).unwrap();
        assert_eq!(normalize_relay_url(&once).unwrap(), once, "{}", raw);
    }
    // where the host itself ends in the default port, a second pass strips it
    let once = normalize_relay_url("wss://a:443:443").unwrap();
    assert_eq!(once, "wss://a:443");
    assert_eq!(normalize_relay_url(&once).unwrap(), "wss://a");
}
