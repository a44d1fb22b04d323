//! `HERMES_HOME` injection at spawn.
//!
//! Computes the environment overlay applied to a Hermes runtime child
//! process: `HERMES_HOME` is set to the scoped profile directory. Non-Hermes
//! runtimes receive no overlay, so their environment is left untouched.
//! The profile bootstrap itself is filesystem work, handed in by the caller.

use vstd::prelude::*;

use crate::memory_scope::{
    lemma_scope_ignores_display_names, memory_scope_error_message, profile_path_spec, scope_of,
    HermesMemoryScope, MemoryScopeError, PROFILE_PATH_PREFIX,
};
use crate::profile_bootstrap::{
    bootstrap_error_message, bootstrap_run_returns, bootstrap_with, profile_dir_spec, BootstrapAction,
    BootstrapError,
    BootstrapEvent, BootstrapResult,
};
use crate::runtime_scope::{runtime_name, same_identity, RuntimeKind, RuntimeScopeContext};

verus! {

/// The environment variable name that controls the Hermes home directory.
pub const HERMES_HOME_VAR: &'static str = "HERMES_HOME";

/// Error returned by `compute_hermes_env_overlay`.
#[derive(Debug, Clone, PartialEq, Eq)]
pub enum InjectError {
    /// The runtime is not a Hermes alias.
    NotHermesRuntime { runtime: RuntimeKind },
    /// The memory scope could not be derived.
    Scope(MemoryScopeError),
    /// The profile directory bootstrap failed.
    Bootstrap(BootstrapError),
}

/// The human-readable message of an injection error.
pub open spec fn inject_error_message(e: InjectError) -> Seq<char> {
    match e {
        InjectError::NotHermesRuntime { runtime } =>
            "HERMES_HOME injection is only available for Hermes runtimes; got "@ + runtime_name(
                runtime,
            ),
        InjectError::Scope(s) => "memory scope error: "@ + memory_scope_error_message(s),
        InjectError::Bootstrap(b) => "profile bootstrap failed: "@ + bootstrap_error_message(b),
    }
}

impl InjectError {
    /// The human-readable message (what `Display` shows). It carries no
    /// file contents.
    pub fn message(&self) -> (s: String)
        ensures
            s@ == inject_error_message(*self),
    {
        match self {
            InjectError::NotHermesRuntime { runtime } => {
                let mut s = String::from_str(
                    "HERMES_HOME injection is only available for Hermes runtimes; got ",
                );
                s.append(runtime.as_str());
                s
            },
            InjectError::Scope(e) => {
                let mut s = String::from_str("memory scope error: ");
                s.append(e.message().as_str());
                s
            },
            InjectError::Bootstrap(e) => {
                let mut s = String::from_str("profile bootstrap failed: ");
                s.append(e.message().as_str());
                s
            },
        }
    }
}

impl From<MemoryScopeError> for InjectError {
    fn from(e: MemoryScopeError) -> (res: Self) {
        InjectError::Scope(e)
    }
}

impl vstd::std_specs::convert::FromSpecImpl<MemoryScopeError> for InjectError {
    open spec fn obeys_from_spec() -> bool {
        true
    }

    open spec fn from_spec(e: MemoryScopeError) -> InjectError {
        InjectError::Scope(e)
    }
}

impl From<BootstrapError> for InjectError {
    fn from(e: BootstrapError) -> (res: Self) {
        InjectError::Bootstrap(e)
    }
}

impl vstd::std_specs::convert::FromSpecImpl<BootstrapError> for InjectError {
    open spec fn obeys_from_spec() -> bool {
        true
    }

    open spec fn from_spec(e: BootstrapError) -> InjectError {
        InjectError::Bootstrap(e)
    }
}

/// The overlay to apply to a child process environment.
#[derive(Debug, Clone, PartialEq, Eq)]
pub struct EnvOverlay {
    /// The variable name (always `HERMES_HOME`).
    pub var: String,
    /// The scoped profile path.
    pub value: String,
    /// The bootstrap result (directory created or present, config copied flag).
    pub bootstrap: BootstrapResult,
}

/// The overlay outcome for a bootstrap outcome `b`.
pub open spec fn overlay_outcome(
    res: Result<Option<EnvOverlay>, InjectError>,
    b: Result<BootstrapResult, BootstrapError>,
) -> bool {
    match b {
        Err(e) => res == Err::<Option<EnvOverlay>, InjectError>(InjectError::Bootstrap(e)),
        Ok(r) => res matches Ok(Some(o)) && o.var@ == HERMES_HOME_VAR@ && o.value@ == r.profile_dir@
            && o.bootstrap == r,
    }
}

/// The scope to bootstrap for a spawn of `ctx`: `None` for non-Hermes
/// runtimes (nothing is bootstrapped and no overlay is made), else the
/// context's memory scope.
pub fn scope_for_overlay(ctx: &RuntimeScopeContext) -> (res: Result<Option<HermesMemoryScope>, InjectError>)
    ensures
        ctx.runtime != RuntimeKind::Hermes ==> res matches Ok(None),
        ctx.runtime == RuntimeKind::Hermes ==> (res matches Ok(Some(s)) && s@ == scope_of(*ctx)),
{
    if ctx.runtime != RuntimeKind::Hermes {
        return Ok(None);
    }
    match HermesMemoryScope::from_context(ctx) {
        Ok(s) => Ok(Some(s)),
        Err(e) => Err(InjectError::from(e)),
    }
}

/// The overlay for a bootstrap outcome: a failed bootstrap blocks the spawn
/// (`InjectError::Bootstrap`), a successful one sets `HERMES_HOME` to the
/// bootstrapped profile directory.
pub fn overlay_from_bootstrap(b: Result<BootstrapResult, BootstrapError>) -> (res: Result<
    Option<EnvOverlay>,
    InjectError,
>)
    ensures
        overlay_outcome(res, b),
{
    match b {
        Err(e) => Err(InjectError::from(e)),
        Ok(r) => {
            let value = r.profile_dir.clone();
            Ok(Some(EnvOverlay { var: String::from_str(HERMES_HOME_VAR), value, bootstrap: r }))
        },
    }
}

/// Compute the environment overlay for a runtime spawn.
///
/// - Non-Hermes runtimes get `Ok(None)`: their environment is not modified
///   and `bootstrap` is not called (its precondition is granted only for
///   the scope of a Hermes context).
/// - Hermes runtimes derive their `HermesMemoryScope`, then `bootstrap` is
///   called on it before the spawn; if it fails, the spawn must not
///   proceed and the error is returned as `InjectError::Bootstrap`.
/// - Otherwise `HERMES_HOME` is set to the bootstrapped profile directory.
pub fn compute_hermes_env_overlay<F>(ctx: &RuntimeScopeContext, bootstrap: F) -> (res: Result<
    Option<EnvOverlay>,
    InjectError,
>) where F: FnOnce(&HermesMemoryScope) -> Result<BootstrapResult, BootstrapError>
    requires
        ctx.runtime == RuntimeKind::Hermes ==> forall|s: &HermesMemoryScope|
            s@ == scope_of(*ctx) ==> #[trigger] call_requires(bootstrap, (s,)),
    ensures
        ctx.runtime != RuntimeKind::Hermes ==> res == Ok::<Option<EnvOverlay>, InjectError>(None),
        ctx.runtime == RuntimeKind::Hermes ==> exists|
            s: HermesMemoryScope,
            b: Result<BootstrapResult, BootstrapError>,
        |
            #[trigger] call_ensures(bootstrap, (&s,), b) && s@ == scope_of(*ctx) && overlay_outcome(
                res,
                b,
            ),
{
    let scope = match scope_for_overlay(ctx) {
        Ok(Some(s)) => s,
        Ok(None) => {
            return Ok(None);
        },
        Err(e) => {
            return Err(e);
        },
    };
    let b = bootstrap(&scope);
    overlay_from_bootstrap(b)
}

/// The environment overlay for a spawn of `ctx` whose profile lives under
/// `app_data_root`: as `compute_hermes_env_overlay`, with the bootstrap run
/// here and `io` doing its filesystem work. A Hermes overlay's
/// `HERMES_HOME` is the scope's profile directory under the root; `io` is
/// never called for other runtimes.
pub fn hermes_env_overlay_at<F>(
    ctx: &RuntimeScopeContext,
    app_data_root: &str,
    sep: char,
    has_hermes_home: bool,
    io: F,
) -> (res: Result<Option<EnvOverlay>, InjectError>) where
    F: Fn(&str, &BootstrapAction) -> BootstrapEvent,

    requires
        ctx.runtime == RuntimeKind::Hermes ==> forall|d: &str, a: &BootstrapAction|
            #[trigger] call_requires(io, (d, a)),
    ensures
        ctx.runtime != RuntimeKind::Hermes ==> res == Ok::<Option<EnvOverlay>, InjectError>(None),
        ctx.runtime == RuntimeKind::Hermes ==> match res {
            Ok(Some(o)) => o.var@ == HERMES_HOME_VAR@ && o.value@ == overlay_home(
                *ctx,
                app_data_root@,
                sep,
            ) && o.bootstrap.profile_dir@ == o.value@ && (o.bootstrap.config_copied
                ==> has_hermes_home),
            Ok(None) => false,
            Err(e) => e matches InjectError::Bootstrap(b) && (b matches BootstrapError::NotADirectory {
                path,
            } ==> path@ == overlay_home(*ctx, app_data_root@, sep)),
        },
        ctx.runtime == RuntimeKind::Hermes ==> exists|b: Result<BootstrapResult, BootstrapError>|
            #[trigger] bootstrap_run_returns(io, overlay_home(*ctx, app_data_root@, sep), has_hermes_home, b)
                && overlay_outcome(res, b),
{
    let scope = match scope_for_overlay(ctx) {
        Ok(Some(s)) => s,
        Ok(None) => {
            return Ok(None);
        },
        Err(e) => {
            return Err(e);
        },
    };
    let b = bootstrap_with(&scope, app_data_root, sep, has_hermes_home, io);
    overlay_from_bootstrap(b)
}

/// Entries whose key is not `var`.
pub open spec fn other_key(var: Seq<char>) -> spec_fn((String, String)) -> bool {
    |p: (String, String)| p.0@ != var
}

/// The environment after applying an overlay setting `var` to `value`:
/// every entry for `var` removed, then `(var, value)` appended.
pub open spec fn env_after(env: Seq<(String, String)>, var: String, value: String) -> Seq<
    (String, String),
> {
    env.filter(other_key(var@)).push((var, value))
}

/// Merge an overlay into an environment.
///
/// With `Some(o)`, every existing entry for `o.var` (an inherited
/// `HERMES_HOME`) is removed and `(o.var, o.value)` appended, so the scoped
/// value wins. With `None` the environment is unchanged.
pub fn apply_overlay(env: &mut Vec<(String, String)>, overlay: Option<&EnvOverlay>)
    ensures
        overlay is None ==> final(env)@ == old(env)@,
        overlay matches Some(o) ==> final(env)@ == env_after(old(env)@, o.var, o.value),
{
    if let Some(o) = overlay {
        let ghost pred = other_key(o.var@);
        let mut kept: Vec<(String, String)> = Vec::new();
        let mut i: usize = 0;
        while i < env.len()
            invariant
                i <= env.len(),
                env@ == old(env)@,
                pred == other_key(o.var@),
                kept@ == env@.take(i as int).filter(pred),
            decreases env.len() - i,
        {
            proof {
                reveal_with_fuel(Seq::<_>::filter, 1);
                assert(env@.take(i + 1).drop_last() =~= env@.take(i as int));
            }
            if env[i].0 != o.var {
                kept.push((env[i].0.clone(), env[i].1.clone()));
            }
            i = i + 1;
        }
        assert(env@.take(env.len() as int) =~= env@);
        kept.push((o.var.clone(), o.value.clone()));
        *env = kept;
    }
}

// ---------------------------------------------------------------------------
// Laws
// ---------------------------------------------------------------------------

/// After an overlay the environment holds exactly one entry for the
/// variable, the last one, with the overlay's value; every other entry is
/// kept, in its order.
pub proof fn lemma_overlay_sets_exactly_once(env: Seq<(String, String)>, var: String, value: String)
    ensures
        env_after(env, var, value).last() == (var, value),
        forall|i: int|
            0 <= i < env_after(env, var, value).len() - 1 ==> (#[trigger] env_after(
                env,
                var,
                value,
            )[i]).0@ != var@,
        forall|p: (String, String)| #[trigger]
            env.contains(p) && p.0@ != var@ ==> env_after(env, var, value).contains(p),
{
    broadcast use vstd::seq_lib::group_filter_ensures;

    let f = env.filter(other_key(var@));
    assert forall|i: int| 0 <= i < env_after(env, var, value).len() - 1 implies (#[trigger] env_after(
        env,
        var,
        value,
    )[i]).0@ != var@ by {
        assert(env_after(env, var, value)[i] == f[i]);
        assert(f.contains(f[i]));
    }
    assert forall|p: (String, String)| #[trigger]
        env.contains(p) && p.0@ != var@ implies env_after(env, var, value).contains(p) by {
        let k = choose|k: int| 0 <= k < env.len() && env[k] == p;
        assert(other_key(var@)(env[k]));
        assert(f.contains(p));
        let j = choose|j: int| 0 <= j < f.len() && f[j] == p;
        assert(env_after(env, var, value)[j] == p);
    }
}

proof fn lemma_filter_idempotent(s: Seq<(String, String)>, pred: spec_fn((String, String)) -> bool)
    ensures
        s.filter(pred).filter(pred) == s.filter(pred),
    decreases s.len(),
{
    reveal_with_fuel(Seq::<_>::filter, 1);
    if s.len() > 0 {
        lemma_filter_idempotent(s.drop_last(), pred);
        let f = s.drop_last().filter(pred);
        if pred(s.last()) {
            assert(s.filter(pred) == f.push(s.last()));
            assert(f.push(s.last()).drop_last() =~= f);
        }
    }
}

/// Applying overlays for the same variable twice leaves only the later
/// value: re-applying the same overlay changes nothing, and a newer value
/// replaces an older one.
pub proof fn lemma_overlay_latest_wins(
    env: Seq<(String, String)>,
    var: String,
    first: String,
    second: String,
)
    ensures
        env_after(env_after(env, var, first), var, second) == env_after(env, var, second),
{
    let pred = other_key(var@);
    let f = env.filter(pred);
    reveal_with_fuel(Seq::<_>::filter, 1);
    assert(f.push((var, first)).drop_last() =~= f);
    assert(!pred((var, first)));
    assert(f.push((var, first)).filter(pred) == f.filter(pred));
    lemma_filter_idempotent(env, pred);
}


/// The `HERMES_HOME` of a Hermes context spawned under `app_data_root`: the
/// root joined with the scope's profile path.
pub open spec fn overlay_home(ctx: RuntimeScopeContext, app_data_root: Seq<char>, sep: char) -> Seq<
    char,
> {
    profile_dir_spec(app_data_root, scope_of(ctx).profile_path, sep)
}

/// The `HERMES_HOME` of a spawn follows its scope: under one app-data root,
/// contexts with the same identity get the same home (a restart reuses its
/// home), and two homes are equal exactly when the two scopes' hashes are
/// equal (scopes with different hashes are isolated).
pub proof fn lemma_overlay_home_follows_scope(
    a: RuntimeScopeContext,
    b: RuntimeScopeContext,
    root: Seq<char>,
    sep: char,
)
    ensures
        same_identity(a, b) ==> overlay_home(a, root, sep) == overlay_home(b, root, sep),
        overlay_home(a, root, sep) == overlay_home(b, root, sep) <==> scope_of(a).hash == scope_of(
            b,
        ).hash,
{
    if same_identity(a, b) {
        lemma_scope_ignores_display_names(a, b);
    }
    let ha = scope_of(a).hash;
    let hb = scope_of(b).hash;
    let p = PROFILE_PATH_PREFIX@ + seq!['/'];
    let x = profile_dir_spec(root, Seq::empty(), sep);
    assert(profile_dir_spec(root, profile_path_spec(ha), sep) =~= x + p + ha);
    assert(profile_dir_spec(root, profile_path_spec(hb), sep) =~= x + p + hb);
    if overlay_home(a, root, sep) == overlay_home(b, root, sep) {
        assert(ha =~= (x + p + ha).skip((x + p).len() as int));
        assert(hb =~= (x + p + hb).skip((x + p).len() as int));
    }
}

} // verus!
