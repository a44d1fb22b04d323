use hermes_scope::hermes_home_inject::{
    apply_overlay, compute_hermes_env_overlay, hermes_env_overlay_at, overlay_from_bootstrap, scope_for_overlay, EnvOverlay, InjectError,
};
use hermes_scope::memory_scope::{HermesMemoryScope, MemoryScopeError};
use hermes_scope::profile_bootstrap::{BootstrapAction, BootstrapError, BootstrapEvent, BootstrapResult};
use hermes_scope::runtime_scope::{RuntimeKind, RuntimeScopeContext};
use tempfile::TempDir;

fn hermes_ctx() -> RuntimeScopeContext {
    RuntimeScopeContext::new("wss://relay.example.com", "channel-1", "persona-1", RuntimeKind::Hermes).unwrap()
}

fn buzz_ctx() -> RuntimeScopeContext {
    RuntimeScopeContext::new("wss://relay.example.com", "channel-1", "persona-1", RuntimeKind::BuzzAcp).unwrap()
}

/// A bootstrap step that reports the profile directory under `root`
/// without touching the filesystem.
fn bootstrap_under(root: String) -> impl Fn(&HermesMemoryScope) -> Result<BootstrapResult, BootstrapError> {
    move |scope: &HermesMemoryScope| {
        Ok(BootstrapResult { profile_dir: format!("{}/{}", root, scope.profile_path()), config_copied: false })
    }
}

fn root_of(tmp: &TempDir) -> String {
    tmp.path().display().to_string()
}

/// A bootstrap step that fails as a file where the profile directory belongs would.
fn blocked_bootstrap(root: String) -> impl Fn(&HermesMemoryScope) -> Result<BootstrapResult, BootstrapError> {
    move |scope: &HermesMemoryScope| {
        Err(BootstrapError::NotADirectory { path: format!("{}/{}", root, scope.profile_path()) })
    }
}

#[test]
fn test_hermes_runtime_gets_overlay() {
    let tmp = TempDir::new().unwrap();
    let overlay = compute_hermes_env_overlay(&hermes_ctx(), bootstrap_under(root_of(&tmp))).unwrap();
    assert!(overlay.is_some());
    let o = overlay.unwrap();
    assert_eq!(o.var, "HERMES_HOME");
    assert_eq!(o.bootstrap.profile_dir, o.value, "overlay points at the bootstrapped directory");
    assert!(o.value.contains("hermes/profiles/v1/"));
}

#[test]
fn test_non_hermes_runtime_gets_no_overlay() {
    let overlay = compute_hermes_env_overlay(&buzz_ctx(), |_: &HermesMemoryScope| -> Result<BootstrapResult, BootstrapError> {
        panic!("bootstrap must not run for non-Hermes runtimes")
    })
    .unwrap();
    assert!(overlay.is_none(), "non-Hermes must not receive HERMES_HOME");
}

#[test]
fn test_apply_overlay_none_preserves_env() {
    let mut env = vec![("HERMES_HOME".to_string(), "/parent/home".to_string())];
    apply_overlay(&mut env, None);
    assert_eq!(env.len(), 1);
    assert_eq!(env[0].1, "/parent/home", "non-Hermes must not remove HERMES_HOME");
}

#[test]
fn test_apply_overlay_overrides_parent() {
    let tmp = TempDir::new().unwrap();
    let overlay = compute_hermes_env_overlay(&hermes_ctx(), bootstrap_under(root_of(&tmp))).unwrap().unwrap();
    let mut env = vec![("HERMES_HOME".to_string(), "/parent/home".to_string())];
    apply_overlay(&mut env, Some(&overlay));
    assert_eq!(env.len(), 1, "should have exactly one HERMES_HOME");
    assert_eq!(env[0].0, "HERMES_HOME");
    assert_eq!(env[0].1, overlay.value, "scoped value must win");
    assert_ne!(env[0].1, "/parent/home", "parent value must NOT win");
}

#[test]
fn test_restart_reuses_same_home() {
    let tmp = TempDir::new().unwrap();
    let a = compute_hermes_env_overlay(&hermes_ctx(), bootstrap_under(root_of(&tmp))).unwrap().unwrap();
    let b = compute_hermes_env_overlay(&hermes_ctx(), bootstrap_under(root_of(&tmp))).unwrap().unwrap();
    assert_eq!(a.value, b.value, "same context must produce same HERMES_HOME");
}

#[test]
fn test_different_isolates_homes() {
    let tmp = TempDir::new().unwrap();
    let ctx_a = RuntimeScopeContext::new("wss://relay.example.com", "channel-a", "persona-1", RuntimeKind::Hermes).unwrap();
    let ctx_b = RuntimeScopeContext::new("wss://relay.example.com", "channel-b", "persona-1", RuntimeKind::Hermes).unwrap();
    let a = compute_hermes_env_overlay(&ctx_a, bootstrap_under(root_of(&tmp))).unwrap().unwrap();
    let b = compute_hermes_env_overlay(&ctx_b, bootstrap_under(root_of(&tmp))).unwrap().unwrap();
    assert_ne!(a.value, b.value, "different channels must isolate homes");
}

#[test]
fn test_bootstrap_failure_blocks_spawn() {
    let tmp = TempDir::new().unwrap();
    let result = compute_hermes_env_overlay(&hermes_ctx(), blocked_bootstrap(root_of(&tmp)));
    assert!(result.is_err());
    match result.unwrap_err() {
        InjectError::Bootstrap(_) => {}
        other => panic!("expected Bootstrap error, got {:?}", other),
    }
}

#[test]
fn test_inject_error_display_is_redacted() {
    let tmp = TempDir::new().unwrap();
    let err = compute_hermes_env_overlay(&hermes_ctx(), blocked_bootstrap(root_of(&tmp))).unwrap_err();
    let msg = err.message();
    assert!(msg.contains("not a directory"));
    assert!(!msg.contains("secret-config-content-12345"), "error leaked config content: {}", msg);
}

// --- further cases ---

#[test]
fn hermes_overlay_value_is_root_plus_profile_path() {
    let overlay = compute_hermes_env_overlay(&hermes_ctx(), bootstrap_under("/app".to_string())).unwrap().unwrap();
    let scope = HermesMemoryScope::from_context(&hermes_ctx()).unwrap();
    assert_eq!(overlay.value, format!("/app/{}", scope.profile_path()));
}

#[test]
fn bootstrap_error_is_passed_through_unchanged() {
    let result = compute_hermes_env_overlay(&hermes_ctx(), |_: &HermesMemoryScope| {
        Err(BootstrapError::NotADirectory { path: "/app/x".to_string() })
    });
    match result {
        Err(InjectError::Bootstrap(BootstrapError::NotADirectory { path })) => assert_eq!(path, "/app/x"),
        other => panic!("expected Bootstrap error, got {:?}", other),
    }
}

#[test]
fn overlay_keeps_other_entries_in_order_and_is_idempotent() {
    let overlay = compute_hermes_env_overlay(&hermes_ctx(), bootstrap_under("/app".to_string())).unwrap().unwrap();
    let mut env = vec![
        ("PATH".to_string(), "/bin".to_string()),
        ("HERMES_HOME".to_string(), "/parent/home".to_string()),
        ("LANG".to_string(), "C".to_string()),
        ("HERMES_HOME".to_string(), "/other".to_string()),
    ];
    apply_overlay(&mut env, Some(&overlay));
    assert_eq!(env.len(), 3);
    assert_eq!(env[0], ("PATH".to_string(), "/bin".to_string()));
    assert_eq!(env[1], ("LANG".to_string(), "C".to_string()));
    assert_eq!(env[2], ("HERMES_HOME".to_string(), overlay.value.clone()));
    let before = env.clone();
    apply_overlay(&mut env, Some(&overlay));
    assert_eq!(env, before);
}

#[test]
fn latest_overlay_wins() {
    let first = EnvOverlay {
        var: "HERMES_HOME".to_string(),
        value: "/a".to_string(),
        bootstrap: BootstrapResult { profile_dir: "/a".to_string(), config_copied: false },
    };
    let second = EnvOverlay {
        var: "HERMES_HOME".to_string(),
        value: "/b".to_string(),
        bootstrap: BootstrapResult { profile_dir: "/b".to_string(), config_copied: true },
    };
    let mut env = vec![("X".to_string(), "1".to_string())];
    apply_overlay(&mut env, Some(&first));
    apply_overlay(&mut env, Some(&second));
    assert_eq!(env, vec![("X".to_string(), "1".to_string()), ("HERMES_HOME".to_string(), "/b".to_string())]);
}

#[test]
fn inject_error_messages() {
    let e = InjectError::NotHermesRuntime { runtime: RuntimeKind::BuzzAcp };
    assert_eq!(e.message(), "HERMES_HOME injection is only available for Hermes runtimes; got buzz-acp");
    let e = InjectError::Scope(MemoryScopeError::NotHermesRuntime { runtime: RuntimeKind::BuzzAcp });
    assert_eq!(e.message(), "memory scope error: memory scope is only available for Hermes runtimes; got buzz-acp");
    let e = InjectError::Bootstrap(BootstrapError::Io { path: "/p".to_string(), reason: "denied".to_string() });
    assert_eq!(e.message(), "profile bootstrap failed: I/O error at '/p': denied");
}

#[test]
fn inject_error_from_component_errors() {
    let s = MemoryScopeError::NotHermesRuntime { runtime: RuntimeKind::BuzzAcp };
    assert_eq!(InjectError::from(s.clone()), InjectError::Scope(s));
    let b = BootstrapError::SymlinkDetected { path: "/x".to_string() };
    assert_eq!(InjectError::from(b.clone()), InjectError::Bootstrap(b));
}

#[test]
fn scope_for_overlay_only_for_hermes() {
    assert_eq!(scope_for_overlay(&buzz_ctx()), Ok(None));
    let s = scope_for_overlay(&hermes_ctx()).unwrap().unwrap();
    assert_eq!(s, HermesMemoryScope::from_context(&hermes_ctx()).unwrap());
}

#[test]
fn overlay_from_bootstrap_outcomes() {
    let r = BootstrapResult { profile_dir: "/app/hermes/profiles/v1/x".to_string(), config_copied: true };
    let o = overlay_from_bootstrap(Ok(r.clone())).unwrap().unwrap();
    assert_eq!(o.var, "HERMES_HOME");
    assert_eq!(o.value, r.profile_dir);
    assert_eq!(o.bootstrap, r);
    let e = BootstrapError::Io { path: "/p".to_string(), reason: "denied".to_string() };
    assert_eq!(overlay_from_bootstrap(Err(e.clone())), Err(InjectError::Bootstrap(e)));
}

#[test]
fn overlay_at_root_names_the_scoped_profile_dir() {
    let answer = |_: &str, action: &BootstrapAction| match action {
        BootstrapAction::ProbeSymlinks => BootstrapEvent::SymlinksProbed(vec![]),
        BootstrapAction::ProbeProfileDir => BootstrapEvent::ProfileDirProbed { exists: false, is_dir: false },
        _ => BootstrapEvent::ProfileDirCreated(Ok(())),
    };
    let o = hermes_env_overlay_at(&hermes_ctx(), "/data/app", '/', false, answer).unwrap().unwrap();
    let scope = HermesMemoryScope::from_context(&hermes_ctx()).unwrap();
    assert_eq!(o.var, "HERMES_HOME");
    assert_eq!(o.value, format!("/data/app/{}", scope.profile_path()));
    assert_eq!(o.bootstrap.profile_dir, o.value);
    assert!(!o.bootstrap.config_copied);
    let none = hermes_env_overlay_at(&buzz_ctx(), "/data/app", '/', false, |_: &str, _: &BootstrapAction| -> BootstrapEvent {
        panic!("no bootstrap for non-Hermes runtimes")
    });
    assert_eq!(none, Ok(None));
    let blocked = hermes_env_overlay_at(&hermes_ctx(), "/data/app", '/', false, |_: &str, action: &BootstrapAction| match action {
        BootstrapAction::ProbeSymlinks => BootstrapEvent::SymlinksProbed(vec![]),
        _ => BootstrapEvent::ProfileDirProbed { exists: true, is_dir: false },
    });
    assert_eq!(
        blocked,
        Err(InjectError::Bootstrap(BootstrapError::NotADirectory { path: format!("/data/app/{}", scope.profile_path()) }))
    );
}
