use std::cell::RefCell;
use std::collections::{HashMap, HashSet};

use hermes_scope::memory_scope::HermesMemoryScope;
use hermes_scope::profile_bootstrap::{
    bootstrap_with, check_no_symlinks, copy_failure_error, profile_dir_for, to_io_err, BootstrapAction, BootstrapError, BootstrapEvent,
    BootstrapMachine, BootstrapResult, BootstrapStage, CopyFailure, PathProbe,
};
use hermes_scope::runtime_scope::{RuntimeKind, RuntimeScopeContext};

/// An in-memory stand-in for the filesystem the bootstrap runs against.
#[derive(Default)]
struct FakeFs {
    dirs: HashSet<String>,
    files: HashMap<String, String>,
    symlinks: HashSet<String>,
}

impl FakeFs {
    fn present(&self, p: &str) -> bool {
        self.dirs.contains(p) || self.files.contains_key(p) || self.symlinks.contains(p)
    }

    fn prefixes(path: &str) -> Vec<String> {
        let mut out = Vec::new();
        let mut acc = String::new();
        for part in path.split('/').filter(|s| !s.is_empty()) {
            acc.push('/');
            acc.push_str(part);
            out.push(acc.clone());
        }
        out
    }

    fn write(&mut self, path: &str, content: &str) {
        let parent = &path[..path.rfind('/').unwrap()];
        for p in Self::prefixes(parent) {
            self.dirs.insert(p);
        }
        self.files.insert(path.to_string(), content.to_string());
    }
}

fn hermes_scope() -> HermesMemoryScope {
    let ctx = RuntimeScopeContext::new("wss://relay.example.com", "channel-1", "persona-1", RuntimeKind::Hermes).unwrap();
    HermesMemoryScope::from_context(&ctx).unwrap()
}

/// Answer one bootstrap action against `fs`.
fn perform(fs: &RefCell<&mut FakeFs>, profile_dir: &str, home: Option<&str>, action: &BootstrapAction) -> BootstrapEvent {
    let mut fs = fs.borrow_mut();
    let dest = format!("{}/config.yaml", profile_dir);
    match action {
        BootstrapAction::Finish(_) => panic!("a finished bootstrap asks for nothing"),
        BootstrapAction::ProbeSymlinks => BootstrapEvent::SymlinksProbed(
            FakeFs::prefixes(profile_dir)
                .into_iter()
                .map(|p| PathProbe { exists: fs.present(&p), is_symlink: fs.symlinks.contains(&p), path: p })
                .collect(),
        ),
        BootstrapAction::ProbeProfileDir => BootstrapEvent::ProfileDirProbed {
            exists: fs.present(profile_dir),
            is_dir: fs.dirs.contains(profile_dir),
        },
        BootstrapAction::CreateProfileDir => {
            for p in FakeFs::prefixes(profile_dir) {
                fs.dirs.insert(p);
            }
            BootstrapEvent::ProfileDirCreated(Ok(()))
        }
        BootstrapAction::ProbeSourceConfig => BootstrapEvent::SourceConfigProbed {
            exists: fs.files.contains_key(&format!("{}/config.yaml", home.unwrap())),
        },
        BootstrapAction::ProbeDestConfig => BootstrapEvent::DestConfigProbed { exists: fs.present(&dest) },
        BootstrapAction::CopyConfig => {
            if fs.present(&dest) {
                BootstrapEvent::ConfigCopied(Err(CopyFailure::Create {
                    path: dest.clone(),
                    reason: "File exists".to_string(),
                    already_exists: true,
                }))
            } else {
                let content = fs.files[&format!("{}/config.yaml", home.unwrap())].clone();
                fs.files.insert(dest.clone(), content);
                BootstrapEvent::ConfigCopied(Ok(()))
            }
        }
    }
}

/// Run the bootstrap of `scope` under `root` against `fs`.
fn bootstrap(fs: &mut FakeFs, scope: &HermesMemoryScope, root: &str, home: Option<&str>) -> Result<BootstrapResult, BootstrapError> {
    let cell = RefCell::new(fs);
    bootstrap_with(scope, root, '/', home.is_some(), |dir: &str, action: &BootstrapAction| perform(&cell, dir, home, action))
}

#[test]
fn test_bootstrap_creates_dir() {
    let mut fs = FakeFs::default();
    let result = bootstrap(&mut fs, &hermes_scope(), "/tmp/app", None).unwrap();
    assert!(fs.dirs.contains(&result.profile_dir), "profile dir should exist");
    assert!(!result.config_copied, "no source => no copy");
}

#[test]
fn test_bootstrap_is_idempotent() {
    let mut fs = FakeFs::default();
    let result1 = bootstrap(&mut fs, &hermes_scope(), "/tmp/app", None).unwrap();
    let result2 = bootstrap(&mut fs, &hermes_scope(), "/tmp/app", None).unwrap();
    assert_eq!(result1.profile_dir, result2.profile_dir, "same dir both runs");
}

#[test]
fn test_copies_config_yaml_from_hermes_home() {
    let mut fs = FakeFs::default();
    fs.write("/home/h/config.yaml", "model: hermes\n");
    fs.write("/home/h/memories/secret.md", "private\n");
    fs.dirs.insert("/home/h/sessions".to_string());
    fs.write("/home/h/.env", "SECRET=token\n");

    let result = bootstrap(&mut fs, &hermes_scope(), "/tmp/app", Some("/home/h")).unwrap();
    assert!(result.config_copied, "config should be copied");
    let dest_config = format!("{}/config.yaml", result.profile_dir);
    assert_eq!(fs.files[&dest_config], "model: hermes\n");
    assert!(!fs.present(&format!("{}/memories", result.profile_dir)));
    assert!(!fs.present(&format!("{}/sessions", result.profile_dir)));
    assert!(!fs.present(&format!("{}/.env", result.profile_dir)));
}

#[test]
fn test_forbidden_siblings_not_copied() {
    let mut fs = FakeFs::default();
    fs.write("/home/h/config.yaml", "ok\n");
    fs.write("/home/h/.env", "SECRET=token\n");
    fs.dirs.insert("/home/h/state".to_string());

    let result = bootstrap(&mut fs, &hermes_scope(), "/tmp/app", Some("/home/h")).unwrap();
    assert!(!fs.present(&format!("{}/.env", result.profile_dir)));
    assert!(!fs.present(&format!("{}/state", result.profile_dir)));
}

#[test]
fn test_existing_config_preserved() {
    let mut fs = FakeFs::default();
    fs.write("/home/h/config.yaml", "source\n");
    let r1 = bootstrap(&mut fs, &hermes_scope(), "/tmp/app", Some("/home/h")).unwrap();
    assert!(r1.config_copied);
    let dest_config = format!("{}/config.yaml", r1.profile_dir);
    fs.files.insert(dest_config.clone(), "local-changes\n".to_string());

    let r2 = bootstrap(&mut fs, &hermes_scope(), "/tmp/app", Some("/home/h")).unwrap();
    assert!(!r2.config_copied, "should not overwrite existing config");
    assert_eq!(fs.files[&dest_config], "local-changes\n");
}

#[test]
fn test_missing_source_config_is_ok() {
    let mut fs = FakeFs::default();
    fs.dirs.insert("/home/h".to_string());
    let result = bootstrap(&mut fs, &hermes_scope(), "/tmp/app", Some("/home/h")).unwrap();
    assert!(!result.config_copied);
    assert!(fs.dirs.contains(&result.profile_dir), "dir still created");
}

#[test]
fn test_none_hermes_home_is_ok() {
    let mut fs = FakeFs::default();
    let result = bootstrap(&mut fs, &hermes_scope(), "/tmp/app", None).unwrap();
    assert!(!result.config_copied);
    assert!(fs.dirs.contains(&result.profile_dir));
}

#[test]
fn test_symlink_in_profile_path_rejected() {
    let mut fs = FakeFs::default();
    fs.dirs.insert("/tmp".to_string());
    fs.dirs.insert("/tmp/app".to_string());
    fs.dirs.insert("/tmp/app/real-hermes".to_string());
    fs.symlinks.insert("/tmp/app/hermes".to_string());
    let result = bootstrap(&mut fs, &hermes_scope(), "/tmp/app", None);
    assert!(result.is_err());
    match result.unwrap_err() {
        BootstrapError::SymlinkDetected { path } => assert!(path.ends_with("hermes")),
        other => panic!("expected SymlinkDetected, got {:?}", other),
    }
    assert!(!fs.dirs.contains(&format!("/tmp/app/{}", hermes_scope().profile_path())), "nothing created");
}

#[test]
fn test_file_where_directory_expected_rejected() {
    let mut fs = FakeFs::default();
    let scope = hermes_scope();
    let profile_path = format!("/tmp/app/{}", scope.profile_path());
    fs.write(&profile_path, "blocker\n");

    let result = bootstrap(&mut fs, &scope, "/tmp/app", None);
    assert!(result.is_err());
    match result.unwrap_err() {
        BootstrapError::NotADirectory { path } => assert!(path.ends_with(&scope.hash())),
        other => panic!("expected NotADirectory, got {:?}", other),
    }
}

#[test]
fn test_second_bootstrap_does_not_truncate() {
    let mut fs = FakeFs::default();
    fs.write("/home/h/config.yaml", "original\n");
    let r1 = bootstrap(&mut fs, &hermes_scope(), "/tmp/app", Some("/home/h")).unwrap();
    assert!(r1.config_copied);
    let dest = format!("{}/config.yaml", r1.profile_dir);
    let content1 = fs.files[&dest].clone();
    let r2 = bootstrap(&mut fs, &hermes_scope(), "/tmp/app", Some("/home/h")).unwrap();
    assert!(!r2.config_copied);
    assert_eq!(content1, fs.files[&dest], "content must not change on second init");
}

#[test]
fn test_error_messages_do_not_contain_config_content() {
    let mut fs = FakeFs::default();
    fs.write("/home/h/config.yaml", "model: hermes\n");
    bootstrap(&mut fs, &hermes_scope(), "/tmp/app", Some("/home/h")).unwrap();
    let r = bootstrap(&mut fs, &hermes_scope(), "/tmp/app", Some("/home/h")).unwrap();
    assert!(!r.config_copied);
    let e = copy_failure_error(CopyFailure::Create {
        path: "/tmp/app/config.yaml".to_string(),
        reason: "File exists".to_string(),
        already_exists: true,
    });
    assert!(!e.message().contains("model: hermes"));
}

// --- further cases ---

#[test]
fn concurrent_winner_is_reported_as_config_already_exists() {
    let (m, a) = BootstrapMachine::start("/p".to_string(), true);
    assert_eq!(a, BootstrapAction::ProbeSymlinks);
    let (m, a) = m.step(BootstrapEvent::SymlinksProbed(vec![]));
    assert_eq!(a, BootstrapAction::ProbeProfileDir);
    let (m, a) = m.step(BootstrapEvent::ProfileDirProbed { exists: false, is_dir: false });
    assert_eq!(a, BootstrapAction::CreateProfileDir);
    let (m, a) = m.step(BootstrapEvent::ProfileDirCreated(Ok(())));
    assert_eq!(a, BootstrapAction::ProbeSourceConfig);
    let (m, a) = m.step(BootstrapEvent::SourceConfigProbed { exists: true });
    assert_eq!(a, BootstrapAction::ProbeDestConfig);
    let (m, a) = m.step(BootstrapEvent::DestConfigProbed { exists: false });
    assert_eq!(a, BootstrapAction::CopyConfig);
    assert_eq!(m.stage, BootstrapStage::CopyConfig);
    let (m, a) = m.step(BootstrapEvent::ConfigCopied(Err(CopyFailure::Create {
        path: "/p/config.yaml".to_string(),
        reason: "File exists".to_string(),
        already_exists: true,
    })));
    assert_eq!(m.stage, BootstrapStage::Finished);
    assert_eq!(
        a,
        BootstrapAction::Finish(Err(BootstrapError::ConfigAlreadyExists { path: "/p/config.yaml".to_string() }))
    );
}

#[test]
fn create_failure_is_an_io_error_at_the_profile_dir() {
    let (m, _) = BootstrapMachine::start("/p".to_string(), false);
    let (m, _) = m.step(BootstrapEvent::SymlinksProbed(vec![]));
    let (m, _) = m.step(BootstrapEvent::ProfileDirProbed { exists: true, is_dir: true });
    let (_, a) = m.step(BootstrapEvent::ProfileDirCreated(Err("denied".to_string())));
    assert_eq!(
        a,
        BootstrapAction::Finish(Err(BootstrapError::Io { path: "/p".to_string(), reason: "denied".to_string() }))
    );
}

#[test]
fn symlink_check_reports_first_existing_symlink() {
    let probes = vec![
        PathProbe { path: "/a".to_string(), exists: true, is_symlink: false },
        PathProbe { path: "/a/b".to_string(), exists: false, is_symlink: true },
        PathProbe { path: "/a/b/c".to_string(), exists: true, is_symlink: true },
        PathProbe { path: "/a/b/c/d".to_string(), exists: true, is_symlink: true },
    ];
    assert_eq!(check_no_symlinks(&probes), Err(BootstrapError::SymlinkDetected { path: "/a/b/c".to_string() }));
    assert_eq!(check_no_symlinks(&probes[..2].to_vec()), Ok(()));
    assert_eq!(check_no_symlinks(&vec![]), Ok(()));
}

#[test]
fn copy_failures_map_to_errors() {
    let read = CopyFailure::Read { path: "/s".to_string(), reason: "gone".to_string() };
    assert_eq!(copy_failure_error(read), BootstrapError::Io { path: "/s".to_string(), reason: "gone".to_string() });
    let create = CopyFailure::Create { path: "/d".to_string(), reason: "denied".to_string(), already_exists: false };
    assert_eq!(copy_failure_error(create), BootstrapError::Io { path: "/d".to_string(), reason: "denied".to_string() });
    let write = CopyFailure::Write { path: "/d".to_string(), reason: "full".to_string() };
    assert_eq!(copy_failure_error(write), BootstrapError::Io { path: "/d".to_string(), reason: "full".to_string() });
    assert_eq!(
        to_io_err("/x".to_string(), "bad".to_string()),
        BootstrapError::Io { path: "/x".to_string(), reason: "bad".to_string() }
    );
}

#[test]
fn bootstrap_error_messages() {
    assert_eq!(
        BootstrapError::SymlinkDetected { path: "/a".to_string() }.message(),
        "symlink detected at '/a' \u{2014} refusing to bootstrap"
    );
    assert_eq!(
        BootstrapError::NotADirectory { path: "/a".to_string() }.message(),
        "profile path '/a' exists but is not a directory"
    );
    assert_eq!(
        BootstrapError::ConfigAlreadyExists { path: "/a".to_string() }.message(),
        "config.yaml already exists at '/a' \u{2014} refusing to overwrite"
    );
    assert_eq!(
        BootstrapError::Io { path: "/a".to_string(), reason: "r".to_string() }.message(),
        "I/O error at '/a': r"
    );
}

#[test]
fn machine_accepts_only_the_answer_to_its_action() {
    let (m, _) = BootstrapMachine::start("/p".to_string(), false);
    assert!(m.accepts_event(&BootstrapEvent::SymlinksProbed(vec![])));
    assert!(!m.accepts_event(&BootstrapEvent::DestConfigProbed { exists: false }));
    let (m, _) = m.step(BootstrapEvent::SymlinksProbed(vec![]));
    assert!(m.accepts_event(&BootstrapEvent::ProfileDirProbed { exists: false, is_dir: false }));
    assert!(!m.accepts_event(&BootstrapEvent::SymlinksProbed(vec![])));
    let (m, _) = m.step(BootstrapEvent::ProfileDirProbed { exists: false, is_dir: false });
    let (m, a) = m.step(BootstrapEvent::ProfileDirCreated(Ok(())));
    assert_eq!(a, BootstrapAction::Finish(Ok(BootstrapResult { profile_dir: "/p".to_string(), config_copied: false })));
    assert!(!m.accepts_event(&BootstrapEvent::ConfigCopied(Ok(()))));
}

#[test]
fn profile_dir_is_root_joined_with_the_profile_path() {
    let scope = hermes_scope();
    assert_eq!(profile_dir_for(&scope, "/tmp/app", '/'), format!("/tmp/app/{}", scope.profile_path()));
    assert_eq!(profile_dir_for(&scope, "/tmp/app/", '/'), format!("/tmp/app/{}", scope.profile_path()));
    assert_eq!(profile_dir_for(&scope, "", '/'), scope.profile_path());
    assert_eq!(profile_dir_for(&scope, "C:\\app", '\\'), format!("C:\\app\\{}", scope.profile_path()));
}

#[test]
fn out_of_order_answer_ends_with_an_io_error() {
    let scope = hermes_scope();
    let r = bootstrap_with(&scope, "/r", '/', false, |_: &str, _: &BootstrapAction| BootstrapEvent::DestConfigProbed { exists: false });
    assert_eq!(
        r,
        Err(BootstrapError::Io {
            path: format!("/r/{}", scope.profile_path()),
            reason: "unexpected bootstrap event".to_string()
        })
    );
}
