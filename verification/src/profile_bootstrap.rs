//! Hermes profile bootstrap decisions.
//!
//! Bootstrapping a profile directory alternates filesystem work with
//! decisions. The decisions live here as a state machine: the caller
//! performs each `BootstrapAction` on the filesystem and hands back what it
//! observed as a `BootstrapEvent`; `BootstrapMachine::step` decides what
//! comes next. The machine is fail-closed: it refuses symlinks and
//! non-directory objects before creating anything, copies only `config.yaml`,
//! never over an existing one, and treats a missing source config as success.

use vstd::prelude::*;

use crate::memory_scope::HermesMemoryScope;
use crate::text::{chars_of, join_spec, join_with};

verus! {

/// Errors produced by profile bootstrap.
#[derive(Debug, Clone, PartialEq, Eq)]
pub enum BootstrapError {
    /// A path component is a symlink and was refused.
    SymlinkDetected { path: String },
    /// The profile path exists but is not a directory.
    NotADirectory { path: String },
    /// A `config.yaml` already exists at the destination and was not overwritten.
    ConfigAlreadyExists { path: String },
    /// A filesystem I/O error occurred.
    Io { path: String, reason: String },
}

/// The human-readable message of a bootstrap error.
pub open spec fn bootstrap_error_message(e: BootstrapError) -> Seq<char> {
    match e {
        BootstrapError::SymlinkDetected { path } => "symlink detected at '"@ + path@
            + "' \u{2014} refusing to bootstrap"@,
        BootstrapError::NotADirectory { path } => "profile path '"@ + path@
            + "' exists but is not a directory"@,
        BootstrapError::ConfigAlreadyExists { path } => "config.yaml already exists at '"@ + path@
            + "' \u{2014} refusing to overwrite"@,
        BootstrapError::Io { path, reason } => "I/O error at '"@ + path@ + "': "@ + reason@,
    }
}

impl BootstrapError {
    /// The human-readable message (what `Display` shows). It names paths and
    /// I/O reasons only, never file contents.
    pub fn message(&self) -> (s: String)
        ensures
            s@ == bootstrap_error_message(*self),
    {
        match self {
            BootstrapError::SymlinkDetected { path } => {
                let mut s = String::from_str("symlink detected at '");
                s.append(path.as_str());
                s.append("' \u{2014} refusing to bootstrap");
                s
            },
            BootstrapError::NotADirectory { path } => {
                let mut s = String::from_str("profile path '");
                s.append(path.as_str());
                s.append("' exists but is not a directory");
                s
            },
            BootstrapError::ConfigAlreadyExists { path } => {
                let mut s = String::from_str("config.yaml already exists at '");
                s.append(path.as_str());
                s.append("' \u{2014} refusing to overwrite");
                s
            },
            BootstrapError::Io { path, reason } => {
                let mut s = String::from_str("I/O error at '");
                s.append(path.as_str());
                s.append("': ");
                s.append(reason.as_str());
                s
            },
        }
    }
}

/// Result of a bootstrap operation.
#[derive(Debug, Clone, PartialEq, Eq)]
pub struct BootstrapResult {
    /// The profile directory that was created or already existed.
    pub profile_dir: String,
    /// Whether `config.yaml` was copied from the source Hermes home.
    pub config_copied: bool,
}

/// What the caller saw at one component of the profile path.
#[derive(Debug, Clone, PartialEq, Eq)]
pub struct PathProbe {
    /// The path up to and including this component.
    pub path: String,
    /// Whether the path exists (following symlinks).
    pub exists: bool,
    /// Whether the path itself is a symlink.
    pub is_symlink: bool,
}

/// How copying `config.yaml` failed.
#[derive(Debug, Clone, PartialEq, Eq)]
pub enum CopyFailure {
    /// Reading the source failed.
    Read { path: String, reason: String },
    /// Creating the destination failed; `already_exists` when it was there.
    Create { path: String, reason: String, already_exists: bool },
    /// Writing the destination failed.
    Write { path: String, reason: String },
}

/// Index of the first probed component that exists and is a symlink.
pub open spec fn first_symlink_from(probes: Seq<PathProbe>, i: int) -> Option<int>
    decreases probes.len() - i,
{
    if i < 0 || i >= probes.len() {
        None
    } else if probes[i].exists && probes[i].is_symlink {
        Some(i)
    } else {
        first_symlink_from(probes, i + 1)
    }
}

pub open spec fn first_symlink(probes: Seq<PathProbe>) -> Option<int> {
    first_symlink_from(probes, 0)
}

/// The verdict on a probed path: refused at its first existing symlink.
pub open spec fn symlink_verdict(probes: Seq<PathProbe>) -> Result<(), BootstrapError> {
    match first_symlink(probes) {
        Some(i) => Err(BootstrapError::SymlinkDetected { path: probes[i].path }),
        None => Ok(()),
    }
}

/// Verify that no existing component of the profile path is a symlink.
pub fn check_no_symlinks(probes: &Vec<PathProbe>) -> (res: Result<(), BootstrapError>)
    ensures
        res == symlink_verdict(probes@),
{
    let mut i: usize = 0;
    while i < probes.len()
        invariant
            i <= probes.len(),
            first_symlink(probes@) == first_symlink_from(probes@, i as int),
        decreases probes.len() - i,
    {
        if probes[i].exists && probes[i].is_symlink {
            return Err(BootstrapError::SymlinkDetected { path: probes[i].path.clone() });
        }
        i = i + 1;
    }
    Ok(())
}

/// The I/O error for `path` with the failure's description.
pub fn to_io_err(path: String, reason: String) -> (e: BootstrapError)
    ensures
        e == (BootstrapError::Io { path, reason }),
{
    BootstrapError::Io { path, reason }
}

/// The bootstrap error a failed copy yields.
pub open spec fn copy_failure_spec(f: CopyFailure) -> BootstrapError {
    match f {
        CopyFailure::Read { path, reason } => BootstrapError::Io { path, reason },
        CopyFailure::Create { path, reason, already_exists } => if already_exists {
            BootstrapError::ConfigAlreadyExists { path }
        } else {
            BootstrapError::Io { path, reason }
        },
        CopyFailure::Write { path, reason } => BootstrapError::Io { path, reason },
    }
}

/// Map a failed copy to a bootstrap error: an existing destination is
/// `ConfigAlreadyExists` (the first writer wins), anything else is `Io`.
pub fn copy_failure_error(f: CopyFailure) -> (e: BootstrapError)
    ensures
        e == copy_failure_spec(f),
{
    match f {
        CopyFailure::Read { path, reason } => to_io_err(path, reason),
        CopyFailure::Create { path, reason, already_exists } => if already_exists {
            BootstrapError::ConfigAlreadyExists { path }
        } else {
            to_io_err(path, reason)
        },
        CopyFailure::Write { path, reason } => to_io_err(path, reason),
    }
}

/// Where a bootstrap stands.
#[derive(Debug, Clone, Copy, PartialEq, Eq, Structural)]
pub enum BootstrapStage {
    CheckSymlinks,
    CheckProfileDir,
    CreateProfileDir,
    CheckSourceConfig,
    CheckDestConfig,
    CopyConfig,
    Finished,
}

/// What the caller must do next.
#[derive(Debug, PartialEq, Eq)]
pub enum BootstrapAction {
    /// Probe every component of the profile path (`SymlinksProbed`).
    ProbeSymlinks,
    /// Report whether the profile path exists and is a directory.
    ProbeProfileDir,
    /// Create the profile directory tree (idempotent).
    CreateProfileDir,
    /// Report whether `<hermes_home>/config.yaml` exists.
    ProbeSourceConfig,
    /// Report whether `<profile_dir>/config.yaml` exists.
    ProbeDestConfig,
    /// Copy the source `config.yaml` to a destination that must not exist.
    CopyConfig,
    /// Stop with this outcome.
    Finish(Result<BootstrapResult, BootstrapError>),
}

/// What the caller observed while performing an action.
#[derive(Debug, PartialEq, Eq)]
pub enum BootstrapEvent {
    SymlinksProbed(Vec<PathProbe>),
    ProfileDirProbed { exists: bool, is_dir: bool },
    /// `Err` holds the failure's description.
    ProfileDirCreated(Result<(), String>),
    SourceConfigProbed { exists: bool },
    DestConfigProbed { exists: bool },
    ConfigCopied(Result<(), CopyFailure>),
}

/// A bootstrap in progress.
#[derive(Debug)]
pub struct BootstrapMachine {
    /// Where the bootstrap stands.
    pub stage: BootstrapStage,
    /// Display form of `<app_data_root>/<profile_path>`.
    pub profile_dir: String,
    /// Whether a source Hermes home was given.
    pub has_hermes_home: bool,
}

/// The event that answers the action of `stage`.
pub open spec fn accepts(stage: BootstrapStage, e: BootstrapEvent) -> bool {
    match stage {
        BootstrapStage::CheckSymlinks => e is SymlinksProbed,
        BootstrapStage::CheckProfileDir => e is ProfileDirProbed,
        BootstrapStage::CreateProfileDir => e is ProfileDirCreated,
        BootstrapStage::CheckSourceConfig => e is SourceConfigProbed,
        BootstrapStage::CheckDestConfig => e is DestConfigProbed,
        BootstrapStage::CopyConfig => e is ConfigCopied,
        BootstrapStage::Finished => false,
    }
}

pub open spec fn finished(profile_dir: String, has_hermes_home: bool) -> BootstrapMachine {
    BootstrapMachine { stage: BootstrapStage::Finished, profile_dir, has_hermes_home }
}

pub open spec fn at_stage(m: BootstrapMachine, stage: BootstrapStage) -> BootstrapMachine {
    BootstrapMachine { stage, profile_dir: m.profile_dir, has_hermes_home: m.has_hermes_home }
}

/// Successful end of a bootstrap.
pub open spec fn done_ok(m: BootstrapMachine, copied: bool) -> (BootstrapMachine, BootstrapAction) {
    (
        finished(m.profile_dir, m.has_hermes_home),
        BootstrapAction::Finish(
            Ok(BootstrapResult { profile_dir: m.profile_dir, config_copied: copied }),
        ),
    )
}

/// Failed end of a bootstrap.
pub open spec fn done_err(m: BootstrapMachine, e: BootstrapError) -> (BootstrapMachine, BootstrapAction) {
    (finished(m.profile_dir, m.has_hermes_home), BootstrapAction::Finish(Err(e)))
}

/// One step of the bootstrap: the next machine and the next action.
pub open spec fn step_spec(m: BootstrapMachine, e: BootstrapEvent) -> (BootstrapMachine, BootstrapAction) {
    match e {
        BootstrapEvent::SymlinksProbed(probes) => match symlink_verdict(probes@) {
            Err(err) => done_err(m, err),
            Ok(_) => (at_stage(m, BootstrapStage::CheckProfileDir), BootstrapAction::ProbeProfileDir),
        },
        BootstrapEvent::ProfileDirProbed { exists, is_dir } => if exists && !is_dir {
            done_err(m, BootstrapError::NotADirectory { path: m.profile_dir })
        } else {
            (at_stage(m, BootstrapStage::CreateProfileDir), BootstrapAction::CreateProfileDir)
        },
        BootstrapEvent::ProfileDirCreated(r) => match r {
            Err(reason) => done_err(m, BootstrapError::Io { path: m.profile_dir, reason }),
            Ok(_) => if m.has_hermes_home {
                (at_stage(m, BootstrapStage::CheckSourceConfig), BootstrapAction::ProbeSourceConfig)
            } else {
                done_ok(m, false)
            },
        },
        BootstrapEvent::SourceConfigProbed { exists } => if exists {
            (at_stage(m, BootstrapStage::CheckDestConfig), BootstrapAction::ProbeDestConfig)
        } else {
            done_ok(m, false)
        },
        BootstrapEvent::DestConfigProbed { exists } => if exists {
            done_ok(m, false)
        } else {
            (at_stage(m, BootstrapStage::CopyConfig), BootstrapAction::CopyConfig)
        },
        BootstrapEvent::ConfigCopied(r) => match r {
            Err(f) => done_err(m, copy_failure_spec(f)),
            Ok(_) => done_ok(m, true),
        },
    }
}

impl BootstrapMachine {
    /// Begin bootstrapping `profile_dir`; `has_hermes_home` tells whether a
    /// source Hermes home (to copy `config.yaml` from) was given.
    pub fn start(profile_dir: String, has_hermes_home: bool) -> (res: (
        BootstrapMachine,
        BootstrapAction,
    ))
        ensures
            res.0 == (BootstrapMachine {
                stage: BootstrapStage::CheckSymlinks,
                profile_dir,
                has_hermes_home,
            }),
            res.1 == BootstrapAction::ProbeSymlinks,
    {
        (
            BootstrapMachine { stage: BootstrapStage::CheckSymlinks, profile_dir, has_hermes_home },
            BootstrapAction::ProbeSymlinks,
        )
    }

    /// Whether `event` answers the action this machine last asked for.
    pub fn accepts_event(&self, event: &BootstrapEvent) -> (res: bool)
        ensures
            res == accepts(self.stage, *event),
    {
        match self.stage {
            BootstrapStage::CheckSymlinks => matches!(event, BootstrapEvent::SymlinksProbed(_)),
            BootstrapStage::CheckProfileDir => matches!(event, BootstrapEvent::ProfileDirProbed { .. }),
            BootstrapStage::CreateProfileDir => matches!(event, BootstrapEvent::ProfileDirCreated(_)),
            BootstrapStage::CheckSourceConfig => matches!(event, BootstrapEvent::SourceConfigProbed { .. }),
            BootstrapStage::CheckDestConfig => matches!(event, BootstrapEvent::DestConfigProbed { .. }),
            BootstrapStage::CopyConfig => matches!(event, BootstrapEvent::ConfigCopied(_)),
            BootstrapStage::Finished => false,
        }
    }

    /// Decide the next step from what the caller observed.
    pub fn step(self, event: BootstrapEvent) -> (res: (BootstrapMachine, BootstrapAction))
        requires
            accepts(self.stage, event),
        ensures
            res == step_spec(self, event),
    {
        let BootstrapMachine { stage: _, profile_dir, has_hermes_home } = self;
        match event {
            BootstrapEvent::SymlinksProbed(probes) => match check_no_symlinks(&probes) {
                Err(err) => (
                    BootstrapMachine { stage: BootstrapStage::Finished, profile_dir, has_hermes_home },
                    BootstrapAction::Finish(Err(err)),
                ),
                Ok(_) => (
                    BootstrapMachine {
                        stage: BootstrapStage::CheckProfileDir,
                        profile_dir,
                        has_hermes_home,
                    },
                    BootstrapAction::ProbeProfileDir,
                ),
            },
            BootstrapEvent::ProfileDirProbed { exists, is_dir } => if exists && !is_dir {
                let path = profile_dir.clone();
                (
                    BootstrapMachine { stage: BootstrapStage::Finished, profile_dir, has_hermes_home },
                    BootstrapAction::Finish(Err(BootstrapError::NotADirectory { path })),
                )
            } else {
                (
                    BootstrapMachine {
                        stage: BootstrapStage::CreateProfileDir,
                        profile_dir,
                        has_hermes_home,
                    },
                    BootstrapAction::CreateProfileDir,
                )
            },
            BootstrapEvent::ProfileDirCreated(r) => match r {
                Err(reason) => {
                    let err = to_io_err(profile_dir.clone(), reason);
                    (
                        BootstrapMachine {
                            stage: BootstrapStage::Finished,
                            profile_dir,
                            has_hermes_home,
                        },
                        BootstrapAction::Finish(Err(err)),
                    )
                },
                Ok(_) => if has_hermes_home {
                    (
                        BootstrapMachine {
                            stage: BootstrapStage::CheckSourceConfig,
                            profile_dir,
                            has_hermes_home,
                        },
                        BootstrapAction::ProbeSourceConfig,
                    )
                } else {
                    Self::finish_ok(profile_dir, has_hermes_home, false)
                },
            },
            BootstrapEvent::SourceConfigProbed { exists } => if exists {
                (
                    BootstrapMachine {
                        stage: BootstrapStage::CheckDestConfig,
                        profile_dir,
                        has_hermes_home,
                    },
                    BootstrapAction::ProbeDestConfig,
                )
            } else {
                Self::finish_ok(profile_dir, has_hermes_home, false)
            },
            BootstrapEvent::DestConfigProbed { exists } => if exists {
                Self::finish_ok(profile_dir, has_hermes_home, false)
            } else {
                (
                    BootstrapMachine { stage: BootstrapStage::CopyConfig, profile_dir, has_hermes_home },
                    BootstrapAction::CopyConfig,
                )
            },
            BootstrapEvent::ConfigCopied(r) => match r {
                Err(f) => (
                    BootstrapMachine { stage: BootstrapStage::Finished, profile_dir, has_hermes_home },
                    BootstrapAction::Finish(Err(copy_failure_error(f))),
                ),
                Ok(_) => Self::finish_ok(profile_dir, has_hermes_home, true),
            },
        }
    }

    fn finish_ok(profile_dir: String, has_hermes_home: bool, copied: bool) -> (res: (
        BootstrapMachine,
        BootstrapAction,
    ))
        ensures
            res == done_ok(
                BootstrapMachine { stage: BootstrapStage::Finished, profile_dir, has_hermes_home },
                copied,
            ),
    {
        let dir = profile_dir.clone();
        (
            BootstrapMachine { stage: BootstrapStage::Finished, profile_dir, has_hermes_home },
            BootstrapAction::Finish(Ok(BootstrapResult { profile_dir: dir, config_copied: copied })),
        )
    }
}

// ---------------------------------------------------------------------------
// Running a bootstrap
// ---------------------------------------------------------------------------

/// The profile directory of a scope: the app-data root joined with the
/// scope's profile path (as `Path::join` joins it, with separator `sep`).
pub open spec fn profile_dir_spec(app_data_root: Seq<char>, profile_path: Seq<char>, sep: char) -> Seq<
    char,
> {
    join_spec(app_data_root, profile_path, sep)
}

/// The profile directory of `scope` under `app_data_root`.
pub fn profile_dir_for(scope: &HermesMemoryScope, app_data_root: &str, sep: char) -> (d: String)
    ensures
        d@ == profile_dir_spec(app_data_root@, scope@.profile_path, sep),
{
    join_with(chars_of(app_data_root).as_slice(), scope.profile_path(), sep)
}

/// What every finished bootstrap of directory `dir` reports: success names
/// `dir` and copies only when a source home was given; a non-directory is
/// refused at `dir`.
pub open spec fn bootstrap_outcome_ok(
    res: Result<BootstrapResult, BootstrapError>,
    dir: Seq<char>,
    has_hermes_home: bool,
) -> bool {
    &&& res matches Ok(r) ==> r.profile_dir@ == dir && (r.config_copied ==> has_hermes_home)
    &&& res matches Err(BootstrapError::NotADirectory { path }) ==> path@ == dir
}

/// How a run of the machine ends.
pub enum RunEnd {
    /// The machine finished with this outcome.
    Finished(Result<BootstrapResult, BootstrapError>),
    /// An answer did not match the action asked (the run then ends with an
    /// I/O error at the profile directory).
    Refused,
}

/// The run of the machine `(m, a)` in which `io`, asked each action with
/// directory `d`, answered `evs` in turn: `Some` of how it ends when every
/// answer is one `io` can give to the action it was asked and the run ends
/// exactly after the last answer, else `None`.
pub open spec fn bootstrap_run<F: Fn(&str, &BootstrapAction) -> BootstrapEvent>(
    io: F,
    d: &str,
    m: BootstrapMachine,
    a: BootstrapAction,
    evs: Seq<BootstrapEvent>,
) -> Option<RunEnd>
    decreases evs.len(),
{
    if a is Finish {
        if evs.len() == 0 {
            Some(RunEnd::Finished(a->Finish_0))
        } else {
            None
        }
    } else if evs.len() == 0 || !call_ensures(io, (d, &a), evs[0]) {
        None
    } else if accepts(m.stage, evs[0]) {
        bootstrap_run(io, d, step_spec(m, evs[0]).0, step_spec(m, evs[0]).1, evs.drop_first())
    } else if evs.len() == 1 {
        Some(RunEnd::Refused)
    } else {
        None
    }
}

/// `res` is what a run against `io` of the machine started on `dir` (with a
/// source home or not) returns.
pub open spec fn bootstrap_run_returns<F: Fn(&str, &BootstrapAction) -> BootstrapEvent>(
    io: F,
    dir: Seq<char>,
    has_hermes_home: bool,
    res: Result<BootstrapResult, BootstrapError>,
) -> bool {
    exists|d: &str, m: BootstrapMachine, evs: Seq<BootstrapEvent>|
        #![trigger bootstrap_run(io, d, m, BootstrapAction::ProbeSymlinks, evs)]
        d@ == dir && m.stage == BootstrapStage::CheckSymlinks && m.profile_dir@ == dir
            && m.has_hermes_home == has_hermes_home && match bootstrap_run(
            io,
            d,
            m,
            BootstrapAction::ProbeSymlinks,
            evs,
        ) {
            Some(RunEnd::Finished(r)) => res == r,
            Some(RunEnd::Refused) => res matches Err(BootstrapError::Io { path, reason }) && path@
                == dir && reason@ == "unexpected bootstrap event"@,
            None => false,
        }
}

proof fn lemma_run_extend<F: Fn(&str, &BootstrapAction) -> BootstrapEvent>(
    io: F,
    d: &str,
    m0: BootstrapMachine,
    a0: BootstrapAction,
    evs: Seq<BootstrapEvent>,
    m: BootstrapMachine,
    a: BootstrapAction,
    e: BootstrapEvent,
)
    requires
        forall|rest: Seq<BootstrapEvent>|
            #[trigger] bootstrap_run(io, d, m0, a0, evs + rest) == bootstrap_run(io, d, m, a, rest),
        !(a is Finish),
        call_ensures(io, (d, &a), e),
        accepts(m.stage, e),
    ensures
        forall|rest: Seq<BootstrapEvent>|
            #[trigger] bootstrap_run(io, d, m0, a0, evs.push(e) + rest) == bootstrap_run(
                io,
                d,
                step_spec(m, e).0,
                step_spec(m, e).1,
                rest,
            ),
{
    assert forall|rest: Seq<BootstrapEvent>|
        #[trigger] bootstrap_run(io, d, m0, a0, evs.push(e) + rest) == bootstrap_run(
            io,
            d,
            step_spec(m, e).0,
            step_spec(m, e).1,
            rest,
        ) by {
        let r2 = seq![e] + rest;
        assert(evs.push(e) + rest =~= evs + r2);
        assert(r2[0] == e);
        assert(r2.drop_first() =~= rest);
        assert(bootstrap_run(io, d, m0, a0, evs + r2) == bootstrap_run(io, d, m, a, r2));
    }
}

/// Bootstrap the profile directory of `scope` under `app_data_root`:
/// `io` performs each action on the filesystem (given the profile
/// directory) and reports what it observed; the machine decides. The result
/// is what the machine's run on `io`'s answers returns. An answer that does
/// not match the action ends the bootstrap with an I/O error at the profile
/// directory.
pub fn bootstrap_with<F>(
    scope: &HermesMemoryScope,
    app_data_root: &str,
    sep: char,
    has_hermes_home: bool,
    io: F,
) -> (res: Result<BootstrapResult, BootstrapError>) where F: Fn(&str, &BootstrapAction) -> BootstrapEvent
    requires
        forall|d: &str, a: &BootstrapAction| #[trigger] call_requires(io, (d, a)),
    ensures
        bootstrap_run_returns(
            io,
            profile_dir_spec(app_data_root@, scope@.profile_path, sep),
            has_hermes_home,
            res,
        ),
        bootstrap_outcome_ok(res, profile_dir_spec(app_data_root@, scope@.profile_path, sep), has_hermes_home),
{
    let dir = profile_dir_for(scope, app_data_root, sep);
    let d: &str = dir.as_str();
    let ghost dv = dir@;
    let (mut machine, mut action) = BootstrapMachine::start(dir.clone(), has_hermes_home);
    let ghost m0 = machine;
    let ghost evs: Seq<BootstrapEvent> = Seq::empty();
    assert forall|rest: Seq<BootstrapEvent>|
        #[trigger] bootstrap_run(io, d, m0, BootstrapAction::ProbeSymlinks, evs + rest)
            == bootstrap_run(io, d, machine, action, rest) by {
        assert(evs + rest =~= rest);
    }
    loop
        invariant
            dv == profile_dir_spec(app_data_root@, scope@.profile_path, sep),
            d@ == dv,
            m0.stage == BootstrapStage::CheckSymlinks,
            m0.profile_dir@ == dv,
            m0.has_hermes_home == has_hermes_home,
            machine.profile_dir@ == dv,
            machine.has_hermes_home == has_hermes_home,
            (machine.stage == BootstrapStage::Finished) <==> (action is Finish),
            action matches BootstrapAction::Finish(r) ==> bootstrap_outcome_ok(r, dv, has_hermes_home),
            stage_rank(machine.stage) >= 3 && machine.stage != BootstrapStage::Finished
                ==> has_hermes_home,
            forall|x: &str, a: &BootstrapAction| #[trigger] call_requires(io, (x, a)),
            forall|rest: Seq<BootstrapEvent>|
                #[trigger] bootstrap_run(io, d, m0, BootstrapAction::ProbeSymlinks, evs + rest)
                    == bootstrap_run(io, d, machine, action, rest),
        decreases 6 - stage_rank(machine.stage),
    {
        if let BootstrapAction::Finish(r) = action {
            proof {
                assert(evs + Seq::<BootstrapEvent>::empty() =~= evs);
                assert(bootstrap_run(io, d, m0, BootstrapAction::ProbeSymlinks, evs + Seq::empty())
                    == bootstrap_run(io, d, machine, action, Seq::empty()));
            }
            return r;
        }
        let event = io(d, &action);
        if !machine.accepts_event(&event) {
            proof {
                let one = seq![event];
                assert(evs + one =~= evs.push(event));
                assert(bootstrap_run(io, d, m0, BootstrapAction::ProbeSymlinks, evs + one)
                    == bootstrap_run(io, d, machine, action, one));
                assert(one[0] == event);
                assert(bootstrap_run(io, d, machine, action, one) == Some(RunEnd::Refused));
            }
            let err: Result<BootstrapResult, BootstrapError> = Err(
                BootstrapError::Io {
                    path: String::from_str(d),
                    reason: String::from_str("unexpected bootstrap event"),
                },
            );
            proof {
                let fin = evs + seq![event];
                assert(bootstrap_run(io, d, m0, BootstrapAction::ProbeSymlinks, fin) == Some(RunEnd::Refused));
                assert(d@ == profile_dir_spec(app_data_root@, scope@.profile_path, sep)
                    && m0.stage == BootstrapStage::CheckSymlinks && m0.profile_dir@ == d@
                    && m0.has_hermes_home == has_hermes_home && match bootstrap_run(
                    io,
                    d,
                    m0,
                    BootstrapAction::ProbeSymlinks,
                    fin,
                ) {
                    Some(RunEnd::Finished(r)) => err == r,
                    Some(RunEnd::Refused) => err matches Err(BootstrapError::Io { path, reason }) && path@
                        == d@ && reason@ == "unexpected bootstrap event"@,
                    None => false,
                });
            }
            return err;
        }
        proof {
            lemma_step_progresses(machine, event);
            lemma_copied_only_after_copy(machine, event);
            lemma_run_extend(io, d, m0, BootstrapAction::ProbeSymlinks, evs, machine, action, event);
            evs = evs.push(event);
        }
        let (next, next_action) = machine.step(event);
        machine = next;
        action = next_action;
    }
}

// ---------------------------------------------------------------------------
// Laws
// ---------------------------------------------------------------------------

/// Position of a stage in the bootstrap order.
pub open spec fn stage_rank(s: BootstrapStage) -> nat {
    match s {
        BootstrapStage::CheckSymlinks => 0,
        BootstrapStage::CheckProfileDir => 1,
        BootstrapStage::CreateProfileDir => 2,
        BootstrapStage::CheckSourceConfig => 3,
        BootstrapStage::CheckDestConfig => 4,
        BootstrapStage::CopyConfig => 5,
        BootstrapStage::Finished => 6,
    }
}

/// Every step moves to a later stage (so a bootstrap ends after at most six
/// steps), keeps the profile directory and the source-home flag, and
/// finishes exactly when it answers with `Finish`.
pub proof fn lemma_step_progresses(m: BootstrapMachine, e: BootstrapEvent)
    requires
        accepts(m.stage, e),
    ensures
        stage_rank(step_spec(m, e).0.stage) > stage_rank(m.stage),
        step_spec(m, e).0.profile_dir == m.profile_dir,
        step_spec(m, e).0.has_hermes_home == m.has_hermes_home,
        (step_spec(m, e).0.stage == BootstrapStage::Finished) <==> (step_spec(m, e).1 is Finish),
{
}

/// Fail-closed: the directory is created only after a probe that found no
/// existing non-directory, which itself follows a symlink probe that found
/// no symlink; a symlink or a non-directory ends the bootstrap with an error.
pub proof fn lemma_create_only_after_safe_probes(m: BootstrapMachine, e: BootstrapEvent)
    requires
        accepts(m.stage, e),
    ensures
        step_spec(m, e).1 == BootstrapAction::CreateProfileDir ==> (e matches BootstrapEvent::ProfileDirProbed {
            exists,
            is_dir,
        } && !(exists && !is_dir) && m.stage == BootstrapStage::CheckProfileDir),
        step_spec(m, e).0.stage == BootstrapStage::CheckProfileDir ==> (e matches BootstrapEvent::SymlinksProbed(p)
            && first_symlink(p@) is None && m.stage == BootstrapStage::CheckSymlinks),
        (e matches BootstrapEvent::SymlinksProbed(p) && first_symlink(p@) is Some) ==> (step_spec(
            m,
            e,
        ).1 matches BootstrapAction::Finish(Err(BootstrapError::SymlinkDetected { .. }))),
        (e matches BootstrapEvent::ProfileDirProbed { exists, is_dir } && exists && !is_dir) ==> (
        step_spec(m, e).1 == BootstrapAction::Finish(
            Err(BootstrapError::NotADirectory { path: m.profile_dir }),
        )),
{
}

/// Never overwrite: the copy is requested only when the destination was
/// found absent, after the source was found present, after the directory
/// was created with a source home given; an existing destination ends the
/// bootstrap successfully without copying, and a destination that appears
/// in between (a concurrent winner) is reported as `ConfigAlreadyExists`.
pub proof fn lemma_copy_only_into_absent_destination(m: BootstrapMachine, e: BootstrapEvent)
    requires
        accepts(m.stage, e),
    ensures
        step_spec(m, e).1 == BootstrapAction::CopyConfig ==> (m.stage
            == BootstrapStage::CheckDestConfig && e == BootstrapEvent::DestConfigProbed {
            exists: false,
        }),
        step_spec(m, e).0.stage == BootstrapStage::CheckDestConfig ==> (m.stage
            == BootstrapStage::CheckSourceConfig && e == BootstrapEvent::SourceConfigProbed {
            exists: true,
        }),
        step_spec(m, e).0.stage == BootstrapStage::CheckSourceConfig ==> (m.has_hermes_home
            && m.stage == BootstrapStage::CreateProfileDir
            && e matches BootstrapEvent::ProfileDirCreated(Ok(_))),
        e == (BootstrapEvent::DestConfigProbed { exists: true }) ==> step_spec(m, e).1
            == BootstrapAction::Finish(
            Ok(BootstrapResult { profile_dir: m.profile_dir, config_copied: false }),
        ),
        e matches BootstrapEvent::ConfigCopied(
            Err(CopyFailure::Create { path, already_exists: true, .. }),
        ) ==> step_spec(m, e).1 == BootstrapAction::Finish(
            Err(BootstrapError::ConfigAlreadyExists { path }),
        ),
{
}

/// A missing source configuration, or no source home at all, is not an
/// error: the bootstrap succeeds without copying.
pub proof fn lemma_missing_source_is_not_an_error(m: BootstrapMachine, e: BootstrapEvent)
    requires
        accepts(m.stage, e),
    ensures
        e == (BootstrapEvent::SourceConfigProbed { exists: false }) ==> step_spec(m, e).1
            == BootstrapAction::Finish(
            Ok(BootstrapResult { profile_dir: m.profile_dir, config_copied: false }),
        ),
        (!m.has_hermes_home && e matches BootstrapEvent::ProfileDirCreated(Ok(_))) ==> step_spec(
            m,
            e,
        ).1 == BootstrapAction::Finish(
            Ok(BootstrapResult { profile_dir: m.profile_dir, config_copied: false }),
        ),
{
}

/// `config_copied` is reported only after a successful copy, and every
/// success reports the machine's own profile directory.
pub proof fn lemma_copied_only_after_copy(m: BootstrapMachine, e: BootstrapEvent)
    requires
        accepts(m.stage, e),
    ensures
        step_spec(m, e).1 matches BootstrapAction::Finish(Ok(r)) ==> (r.profile_dir
            == m.profile_dir && (r.config_copied ==> (m.stage == BootstrapStage::CopyConfig
            && e matches BootstrapEvent::ConfigCopied(Ok(_))))),
{
}


/// A run of a bootstrap fails closed and never overwrites: it succeeds only
/// after `io` reported no symlink on the path, no non-directory at the
/// profile directory, and the directory created; success names the
/// machine's profile directory; and it reports a copy exactly when `io`
/// copied, which it was asked to do only after reporting a source config
/// present and the destination absent. A symlink or a non-directory ends
/// the run with that error at once.
pub proof fn lemma_run_fails_closed<F: Fn(&str, &BootstrapAction) -> BootstrapEvent>(
    io: F,
    d: &str,
    m: BootstrapMachine,
    evs: Seq<BootstrapEvent>,
)
    requires
        m.stage == BootstrapStage::CheckSymlinks,
        bootstrap_run(io, d, m, BootstrapAction::ProbeSymlinks, evs) is Some,
    ensures
        ({
            let end = bootstrap_run(io, d, m, BootstrapAction::ProbeSymlinks, evs)->0;
            &&& (evs[0] matches BootstrapEvent::SymlinksProbed(p) && first_symlink(p@) is Some) ==> (
            evs.len() == 1 && end matches RunEnd::Finished(Err(BootstrapError::SymlinkDetected { .. })))
            &&& (evs.len() > 1 && (evs[1] matches BootstrapEvent::ProfileDirProbed { exists, is_dir }
                && exists && !is_dir)) ==> (evs.len() == 2 && end == RunEnd::Finished(
                Err(BootstrapError::NotADirectory { path: m.profile_dir }),
            ))
            &&& end matches RunEnd::Finished(Ok(r)) ==> {
                &&& evs.len() >= 3
                &&& evs[0] matches BootstrapEvent::SymlinksProbed(p) && first_symlink(p@) is None
                &&& evs[1] matches BootstrapEvent::ProfileDirProbed { exists, is_dir } && !(exists
                    && !is_dir)
                &&& evs[2] matches BootstrapEvent::ProfileDirCreated(Ok(_))
                &&& r.profile_dir == m.profile_dir
                &&& r.config_copied <==> (evs.len() == 6 && (evs[5] matches BootstrapEvent::ConfigCopied(
                    Ok(_),
                )))
                &&& r.config_copied ==> (m.has_hermes_home && evs[3]
                    == BootstrapEvent::SourceConfigProbed { exists: true } && evs[4]
                    == BootstrapEvent::DestConfigProbed { exists: false })
            }
        }),
{
    let a0 = BootstrapAction::ProbeSymlinks;
    let e0 = evs[0];
    if !accepts(m.stage, e0) {
        return;
    }
    let (m1, a1) = step_spec(m, e0);
    let r1 = evs.drop_first();
    assert(bootstrap_run(io, d, m, a0, evs) == bootstrap_run(io, d, m1, a1, r1));
    if a1 is Finish {
        return;
    }
    assert(m1.stage == BootstrapStage::CheckProfileDir);
    let e1 = r1[0];
    assert(e1 == evs[1]);
    if !accepts(m1.stage, e1) {
        return;
    }
    let (m2, a2) = step_spec(m1, e1);
    let r2 = r1.drop_first();
    assert(bootstrap_run(io, d, m1, a1, r1) == bootstrap_run(io, d, m2, a2, r2));
    if a2 is Finish {
        return;
    }
    assert(m2.stage == BootstrapStage::CreateProfileDir);
    let e2 = r2[0];
    assert(e2 == evs[2]);
    if !accepts(m2.stage, e2) {
        return;
    }
    let (m3, a3) = step_spec(m2, e2);
    let r3 = r2.drop_first();
    assert(bootstrap_run(io, d, m2, a2, r2) == bootstrap_run(io, d, m3, a3, r3));
    if a3 is Finish {
        return;
    }
    assert(m3.stage == BootstrapStage::CheckSourceConfig);
    let e3 = r3[0];
    assert(e3 == evs[3]);
    if !accepts(m3.stage, e3) {
        return;
    }
    let (m4, a4) = step_spec(m3, e3);
    let r4 = r3.drop_first();
    assert(bootstrap_run(io, d, m3, a3, r3) == bootstrap_run(io, d, m4, a4, r4));
    if a4 is Finish {
        return;
    }
    assert(m4.stage == BootstrapStage::CheckDestConfig);
    let e4 = r4[0];
    assert(e4 == evs[4]);
    if !accepts(m4.stage, e4) {
        return;
    }
    let (m5, a5) = step_spec(m4, e4);
    let r5 = r4.drop_first();
    assert(bootstrap_run(io, d, m4, a4, r4) == bootstrap_run(io, d, m5, a5, r5));
    if a5 is Finish {
        return;
    }
    assert(m5.stage == BootstrapStage::CopyConfig);
    let e5 = r5[0];
    assert(e5 == evs[5]);
    if !accepts(m5.stage, e5) {
        return;
    }
    let (m6, a6) = step_spec(m5, e5);
    let r6 = r5.drop_first();
    assert(bootstrap_run(io, d, m5, a5, r5) == bootstrap_run(io, d, m6, a6, r6));
    assert(a6 is Finish);
    assert(r6.len() == 0);
}

} // verus!
