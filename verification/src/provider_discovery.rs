//! Read-only provider discovery.
//!
//! Normalizes providers found in the environment and in a Hermes config
//! file into a `ProviderCatalog`. Reading the environment and the file is
//! the caller's work; what is decided from what was read lives here. The
//! Hermes config is only ever read, never written.

use vstd::prelude::*;

use crate::hermes_config::opt_str_view;
use crate::text::{join_spec, join_with, strip_leading, strip_trailing};
use crate::runtime_scope::{lemma_strip_leading_suffix, lemma_strip_trailing_prefix};
use crate::provider_contract::{
    assert_no_secrets_in_json, default_capabilities, to_lowercase_spec, secret_verdict,
    ModelCapabilities, ModelEntry, ModelId, ProviderCatalog, ProviderEntry, ProviderId,
    PROVIDER_CONTRACT_VERSION,
};
use crate::text::{
    ascii_lower, ascii_lower_exec, chars_of, find_char, find_char_exec, lemma_find_char_from,
    slice_of, string_of, strip_both, strip_both_exec, trim, trim_chars, CharClass, in_class,
};

verus! {

/// Where provider information came from.
#[derive(Debug, Clone, PartialEq)]
pub enum DiscoverySource {
    /// Buzz's own config file.
    BuzzConfig(String),
    /// Environment variables.
    EnvVars,
    /// Hermes config file (read-only).
    HermesConfig(String),
    /// Built-in defaults.
    Builtin,
}

/// Discovery result: the catalog and where each provider came from.
#[derive(Debug, Clone, PartialEq)]
pub struct DiscoveryResult {
    /// The normalized catalog.
    pub catalog: ProviderCatalog,
    /// Where each provider was discovered from.
    pub sources: Vec<(ProviderId, DiscoverySource)>,
    /// Warnings (non-fatal issues encountered during discovery).
    pub warnings: Vec<String>,
}

impl DiscoveryResult {
    /// An empty result: empty catalog at the current schema, no sources, no
    /// warnings.
    pub fn empty() -> (res: Self)
        ensures
            res.catalog.schema == PROVIDER_CONTRACT_VERSION,
            res.catalog.providers@.len() == 0,
            res.sources@.len() == 0,
            res.warnings@.len() == 0,
    {
        DiscoveryResult { catalog: ProviderCatalog::new(), sources: Vec::new(), warnings: Vec::new() }
    }

    /// The same result with `warning` appended.
    pub fn with_warning(self, warning: &str) -> (res: Self)
        ensures
            res.catalog == self.catalog,
            res.sources == self.sources,
            res.warnings@.len() == self.warnings@.len() + 1,
            forall|i: int| 0 <= i < self.warnings@.len() ==> res.warnings@[i] == self.warnings@[i],
            res.warnings@.last()@ == warning@,
    {
        let mut r = self;
        r.warnings.push(String::from_str(warning));
        r
    }
}

/// Discovery error: messages carry paths and generic reasons, never secrets.
#[derive(Debug, Clone, PartialEq)]
pub enum DiscoveryError {
    /// Config file could not be read.
    ConfigReadError { path: String, reason: String },
    /// Config file could not be parsed.
    ConfigParseError { path: String, reason: String },
    /// Discovery was cancelled.
    Cancelled,
    /// A provider's API endpoint was unreachable.
    ProviderUnavailable { provider: String },
}

/// The human-readable message of a discovery error.
pub open spec fn discovery_error_message(e: DiscoveryError) -> Seq<char> {
    match e {
        DiscoveryError::ConfigReadError { path, reason } => "cannot read config at "@ + path@
            + ": "@ + reason@,
        DiscoveryError::ConfigParseError { path, reason } => "cannot parse config at "@ + path@
            + ": "@ + reason@,
        DiscoveryError::Cancelled => "discovery cancelled"@,
        DiscoveryError::ProviderUnavailable { provider } => "provider '"@ + provider@
            + "' is unavailable"@,
    }
}

impl DiscoveryError {
    /// The human-readable message (what `Display` shows).
    pub fn message(&self) -> (s: String)
        ensures
            s@ == discovery_error_message(*self),
    {
        match self {
            DiscoveryError::ConfigReadError { path, reason } => {
                let mut s = String::from_str("cannot read config at ");
                s.append(path.as_str());
                s.append(": ");
                s.append(reason.as_str());
                s
            },
            DiscoveryError::ConfigParseError { path, reason } => {
                let mut s = String::from_str("cannot parse config at ");
                s.append(path.as_str());
                s.append(": ");
                s.append(reason.as_str());
                s
            },
            DiscoveryError::Cancelled => String::from_str("discovery cancelled"),
            DiscoveryError::ProviderUnavailable { provider } => {
                let mut s = String::from_str("provider '");
                s.append(provider.as_str());
                s.append("' is unavailable");
                s
            },
        }
    }
}

// ---------------------------------------------------------------------------
// Minimal `key: value` extraction
// ---------------------------------------------------------------------------

/// A line without a trailing `\r`.
pub open spec fn strip_cr(l: Seq<char>) -> Seq<char> {
    if l.len() > 0 && l.last() == '\r' {
        l.drop_last()
    } else {
        l
    }
}

/// `str::lines`: split at `\n`, dropping a `\r` before it; a final line
/// ending adds no empty line.
pub open spec fn split_lines(s: Seq<char>) -> Seq<Seq<char>>
    decreases s.len(),
{
    if s.len() == 0 {
        Seq::empty()
    } else {
        match find_char(s, '\n') {
            None => seq![s],
            Some(i) => {
                proof {
                    lemma_find_char_from(s, '\n', 0);
                }
                seq![strip_cr(s.take(i))] + split_lines(s.skip(i + 1))
            },
        }
    }
}

/// The value of `key` on one line: the line trimmed must start with
/// `key:`; the rest is trimmed and stripped of `"` and `'` at both ends, and
/// must not be empty.
pub open spec fn line_value(line: Seq<char>, key: Seq<char>) -> Option<Seq<char>> {
    let t = trim(line);
    let prefix = key.push(':');
    if prefix.len() <= t.len() && t.take(prefix.len() as int) == prefix {
        let v = strip_both(trim(t.skip(prefix.len() as int)), CharClass::Quote);
        if v.len() > 0 {
            Some(v)
        } else {
            None
        }
    } else {
        None
    }
}

/// The first line value of `key`.
pub open spec fn extract_from_lines(lines: Seq<Seq<char>>, key: Seq<char>) -> Option<Seq<char>>
    decreases lines.len(),
{
    if lines.len() == 0 {
        None
    } else {
        match line_value(lines[0], key) {
            Some(v) => Some(v),
            None => extract_from_lines(lines.drop_first(), key),
        }
    }
}

/// `extract_yaml_value`: the first non-empty value of a `key:` line.
pub open spec fn extract_yaml_spec(yaml: Seq<char>, key: Seq<char>) -> Option<Seq<char>> {
    extract_from_lines(split_lines(yaml), key)
}

fn line_value_exec(line: &[char], key: &[char]) -> (res: Option<Vec<char>>)
    ensures
        match res {
            Some(v) => line_value(line@, key@) == Some(v@),
            None => line_value(line@, key@) is None,
        },
{
    let t = trim_chars(line);
    let mut prefix: Vec<char> = slice_of(key, 0, key.len());
    assert(key@.subrange(0, key@.len() as int) =~= key@);
    prefix.push(':');
    if prefix.len() > t.len() {
        return None;
    }
    let head = slice_of(t.as_slice(), 0, prefix.len());
    if !crate::text::chars_eq(head.as_slice(), prefix.as_slice()) {
        assert(t@.take(prefix@.len() as int) =~= head@);
        return None;
    }
    assert(t@.take(prefix@.len() as int) =~= head@);
    let rest = slice_of(t.as_slice(), prefix.len(), t.len());
    assert(t@.skip(prefix@.len() as int) =~= rest@);
    let trimmed = trim_chars(rest.as_slice());
    let v = strip_both_exec(trimmed.as_slice(), CharClass::Quote);
    if v.len() > 0 {
        Some(v)
    } else {
        None
    }
}

/// Simple value extraction for `key: value` lines (at any indentation).
///
/// Returns the first non-empty value, trimmed and stripped of surrounding
/// quotes; `None` when no line carries the key with a value.
pub fn extract_yaml_value(yaml: &str, key: &str) -> (res: Option<String>)
    ensures
        match res {
            Some(v) => extract_yaml_spec(yaml@, key@) == Some(v@),
            None => extract_yaml_spec(yaml@, key@) is None,
        },
{
    let key_chars = chars_of(key);
    let mut rest = chars_of(yaml);
    while rest.len() > 0
        invariant
            key_chars@ == key@,
            extract_yaml_spec(yaml@, key@) == extract_from_lines(split_lines(rest@), key@),
        decreases rest.len(),
    {
        proof {
            lemma_find_char_from(rest@, '\n', 0);
        }
        let (line, next) = match find_char_exec(rest.as_slice(), '\n') {
            Some(i) => {
                let raw = slice_of(rest.as_slice(), 0, i);
                let line = if raw.len() > 0 && raw[raw.len() - 1] == '\r' {
                    slice_of(raw.as_slice(), 0, raw.len() - 1)
                } else {
                    raw
                };
                assert(rest@.take(i as int) =~= raw@);
                assert(raw@.drop_last() =~= raw@.subrange(0, raw@.len() - 1));
                let next = slice_of(rest.as_slice(), i + 1, rest.len());
                assert(rest@.skip(i + 1) =~= next@);
                (line, next)
            },
            None => {
                let line = slice_of(rest.as_slice(), 0, rest.len());
                assert(rest@.subrange(0, rest@.len() as int) =~= rest@);
                (line, Vec::new())
            },
        };
        let ghost lines = split_lines(rest@);
        assert(lines[0] == line@);
        assert(lines.drop_first() =~= split_lines(next@));
        match line_value_exec(line.as_slice(), key_chars.as_slice()) {
            Some(v) => {
                return Some(string_of(v.as_slice()));
            },
            None => {},
        }
        rest = next;
    }
    None
}

// ---------------------------------------------------------------------------
// Normalizing what was found
// ---------------------------------------------------------------------------

/// The provider id for a raw provider name: trimmed and ASCII-lowercased,
/// with the raw name as label.
pub open spec fn provider_id_spec(raw: Seq<char>) -> Seq<char> {
    ascii_lower(trim(raw))
}

/// Characters allowed in a provider id.
pub open spec fn is_provider_id_char(c: char) -> bool {
    ('a' <= c && c <= 'z') || ('0' <= c && c <= '9') || c == '-' || c == '_'
}

/// A provider id is valid when non-empty and made of `[a-z0-9-_]` only.
pub open spec fn valid_provider_id(id: Seq<char>) -> bool {
    id.len() > 0 && forall|i: int| 0 <= i < id.len() ==> is_provider_id_char(#[trigger] id[i])
}

impl ProviderId {
    /// Normalize a raw provider name into an id (trimmed, lowercased); the
    /// raw name is kept as label.
    pub fn new(raw: &str) -> (res: Self)
        ensures
            res.id@ == provider_id_spec(raw@),
            res.label@ == raw@,
    {
        let chars = chars_of(raw);
        let t = trim_chars(chars.as_slice());
        let lower = ascii_lower_exec(t.as_slice());
        ProviderId { id: string_of(lower.as_slice()), label: String::from_str(raw) }
    }

    /// Whether the id is non-empty and made of `[a-z0-9-_]` only.
    pub fn is_valid(&self) -> (res: bool)
        ensures
            res == valid_provider_id(self.id@),
    {
        let v = chars_of(self.id.as_str());
        if v.len() == 0 {
            return false;
        }
        let mut i: usize = 0;
        while i < v.len()
            invariant
                i <= v.len(),
                v@ == self.id@,
                forall|k: int|
                    0 <= k < i ==> is_provider_id_char(#[trigger] v@[k]),
            decreases v.len() - i,
        {
            let c = v[i];
            if !(('a' <= c && c <= 'z') || ('0' <= c && c <= '9') || c == '-' || c == '_') {
                return false;
            }
            i = i + 1;
        }
        true
    }
}

fn copy_provider_id(p: &ProviderId) -> (r: ProviderId)
    ensures
        r == *p,
{
    ProviderId { id: p.id.clone(), label: p.label.clone() }
}

/// The single-model entry for a provider id and a model name.
pub open spec fn entry_matches(
    e: ProviderEntry,
    provider_raw: Seq<char>,
    model: Seq<char>,
    model_label: Seq<char>,
) -> bool {
    &&& e.id.id@ == provider_id_spec(provider_raw)
    &&& e.id.label@ == provider_raw
    &&& e.models@.len() == 1
    &&& e.models@[0].id.id@ == model
    &&& e.models@[0].id.provider_id@ == provider_id_spec(provider_raw)
    &&& e.models@[0].id.label@ == model_label
    &&& e.models@[0].capabilities == default_capabilities()
}

fn single_model_entry(pid: ProviderId, model: &str, model_label: &str) -> (e: ProviderEntry)
    ensures
        e.id == pid,
        e.models@.len() == 1,
        e.models@[0].id.id@ == model@,
        e.models@[0].id.provider_id@ == pid.id@,
        e.models@[0].id.label@ == model_label@,
        e.models@[0].capabilities == default_capabilities(),
{
    let provider_id = pid.id.clone();
    let mut models: Vec<ModelEntry> = Vec::new();
    models.push(
        ModelEntry {
            id: ModelId {
                id: String::from_str(model),
                provider_id,
                label: String::from_str(model_label),
            },
            capabilities: ModelCapabilities::default(),
        },
    );
    ProviderEntry { id: pid, models }
}

/// The entry discovered from the environment: the provider name and the
/// model name (`auto` when unset). `None` when the provider id is invalid.
pub fn env_provider_entry(provider: &str, model: Option<&str>) -> (res: Option<ProviderEntry>)
    ensures
        valid_provider_id(provider_id_spec(provider@)) <==> res is Some,
        res matches Some(e) ==> entry_matches(
            e,
            provider@,
            match model {
                Some(m) => m@,
                None => "auto"@,
            },
            Seq::empty(),
        ),
{
    let pid = ProviderId::new(provider);
    if !pid.is_valid() {
        return None;
    }
    let model_name = match model {
        Some(m) => m,
        None => "auto",
    };
    proof {
        reveal_strlit("");
    }
    assert(""@ =~= Seq::<char>::empty());
    Some(single_model_entry(pid, model_name, ""))
}

/// What a Hermes config yields: `provider:` is required, `default:` names the
/// model (`auto` when absent), and the provider id must be valid.
pub open spec fn hermes_config_spec(path: Seq<char>, raw: Seq<char>) -> Result<
    (Seq<char>, Seq<char>),
    Seq<char>,
> {
    match extract_yaml_spec(raw, "provider"@) {
        None => Err("no provider field"@),
        Some(p) => if valid_provider_id(provider_id_spec(p)) {
            Ok(
                (
                    p,
                    match extract_yaml_spec(raw, "default"@) {
                        Some(m) => m,
                        None => "auto"@,
                    },
                ),
            )
        } else {
            Err("invalid provider ID: "@ + p)
        },
    }
}

/// Where a Hermes config may be, in the order to try: `<HERMES_HOME>/config.yaml`
/// when `HERMES_HOME` is set, then `<home>/.hermes/config.yaml` when a home
/// directory is known.
pub open spec fn config_candidates_spec(
    hermes_home: Option<Seq<char>>,
    home: Option<Seq<char>>,
    sep: char,
) -> Seq<Seq<char>> {
    (match hermes_home {
        Some(h) => seq![join_spec(h, "config.yaml"@, sep)],
        None => Seq::empty(),
    }) + (match home {
        Some(h) => seq![join_spec(join_spec(h, ".hermes"@, sep), "config.yaml"@, sep)],
        None => Seq::empty(),
    })
}

/// The paths at which to look for the Hermes config, in order, with path
/// separator `sep`; the first one that exists is read.
pub fn hermes_config_candidates(hermes_home: Option<&str>, home: Option<&str>, sep: char) -> (res:
    Vec<String>)
    ensures
        res@.len() == config_candidates_spec(opt_str_view(hermes_home), opt_str_view(home), sep).len(),
        forall|i: int|
            0 <= i < res@.len() ==> #[trigger] res@[i]@ == config_candidates_spec(
                opt_str_view(hermes_home),
                opt_str_view(home),
                sep,
            )[i],
{
    let mut res: Vec<String> = Vec::new();
    if let Some(h) = hermes_home {
        res.push(join_with(chars_of(h).as_slice(), "config.yaml", sep));
    }
    if let Some(h) = home {
        let dir = join_with(chars_of(h).as_slice(), ".hermes", sep);
        res.push(join_with(chars_of(dir.as_str()).as_slice(), "config.yaml", sep));
    }
    res
}

/// The entries read from a Hermes config file's text (read-only).
pub fn hermes_config_entries(path: &str, raw: &str) -> (res: Result<Vec<ProviderEntry>, DiscoveryError>)
    ensures
        match res {
            Ok(v) => hermes_config_spec(path@, raw@) matches Ok((p, m)) && v@.len() == 1
                && entry_matches(v@[0], p, m, m),
            Err(e) => hermes_config_spec(path@, raw@) matches Err(reason) && e matches DiscoveryError::ConfigParseError {
                path: ep,
                reason: er,
            } && ep@ == path@ && er@ == reason,
        },
{
    let provider = match extract_yaml_value(raw, "provider") {
        Some(p) => p,
        None => {
            return Err(
                DiscoveryError::ConfigParseError {
                    path: String::from_str(path),
                    reason: String::from_str("no provider field"),
                },
            );
        },
    };
    let model = match extract_yaml_value(raw, "default") {
        Some(m) => m,
        None => String::from_str("auto"),
    };
    let pid = ProviderId::new(provider.as_str());
    if !pid.is_valid() {
        let mut reason = String::from_str("invalid provider ID: ");
        reason.append(provider.as_str());
        return Err(DiscoveryError::ConfigParseError { path: String::from_str(path), reason });
    }
    let entry = single_model_entry(pid, model.as_str(), model.as_str());
    let mut v: Vec<ProviderEntry> = Vec::new();
    v.push(entry);
    Ok(v)
}

/// Built-in default providers, used when nothing else was found: none.
pub fn builtin_providers() -> (res: Vec<ProviderEntry>)
    ensures
        res@.len() == 0,
{
    Vec::new()
}

/// The entries the Hermes config contributed.
pub open spec fn hermes_found(hermes: Option<(String, Result<Vec<ProviderEntry>, DiscoveryError>)>) -> Seq<
    ProviderEntry,
> {
    match hermes {
        Some((_, Ok(v))) => v@,
        _ => Seq::empty(),
    }
}

/// The entries the environment contributed.
pub open spec fn env_found(env: Option<ProviderEntry>) -> Seq<ProviderEntry> {
    match env {
        Some(e) => seq![e],
        None => Seq::empty(),
    }
}

/// Assemble a discovery result from the environment's entry and the Hermes
/// config outcome (its path and what reading it gave). Environment entries
/// come first; a failed Hermes read becomes a warning; built-in defaults
/// are used when nothing was found.
pub fn assemble_discovery(
    env_entry: Option<ProviderEntry>,
    hermes: Option<(String, Result<Vec<ProviderEntry>, DiscoveryError>)>,
) -> (res: DiscoveryResult)
    ensures
        res.catalog.schema == PROVIDER_CONTRACT_VERSION,
        res.catalog.providers@ == env_found(env_entry) + hermes_found(hermes),
        res.sources@.len() == res.catalog.providers@.len(),
        forall|i: int|
            0 <= i < res.sources@.len() ==> (#[trigger] res.sources@[i]).0
                == res.catalog.providers@[i].id,
        forall|i: int|
            0 <= i < env_found(env_entry).len() ==> (#[trigger] res.sources@[i]).1
                == DiscoverySource::EnvVars,
        forall|i: int|
            env_found(env_entry).len() <= i < res.sources@.len() ==> (hermes matches Some((path, _))
                && (#[trigger] res.sources@[i]).1 == DiscoverySource::HermesConfig(path)),
        hermes matches Some((_, Err(e))) ==> (res.warnings@.len() == 1 && res.warnings@[0]@
            == "Hermes config: "@ + discovery_error_message(e)),
        !(hermes matches Some((_, Err(_)))) ==> res.warnings@.len() == 0,
{
    let mut result = DiscoveryResult::empty();
    let mut found_any = false;
    let ghost env_list = env_found(env_entry);
    if let Some(entry) = env_entry {
        let id = copy_provider_id(&entry.id);
        result.sources.push((id, DiscoverySource::EnvVars));
        result.catalog.providers.push(entry);
        found_any = true;
        assert(result.catalog.providers@ =~= env_list);
    } else {
        assert(result.catalog.providers@ =~= env_list);
    }
    assert(forall|k: int|
        0 <= k < env_list.len() ==> (#[trigger] result.sources@[k]).1 == DiscoverySource::EnvVars);
    match hermes {
        Some((path, Ok(entries))) => {
            let ghost before = result.catalog.providers@;
            let ghost src_before = result.sources@;
            let ghost all = entries@;
            let n = entries.len();
            assert(all.len() == n);
            let mut remaining = entries;
            let mut i: usize = 0;
            while remaining.len() > 0
                invariant
                    i + remaining@.len() == all.len(),
                    all.len() <= usize::MAX,
                    forall|k: int|
                        0 <= k < before.len() ==> (#[trigger] result.sources@[k]).1
                            == DiscoverySource::EnvVars,
                    remaining@ == all.skip(i as int),
                    before == env_list,
                    result.catalog.schema == PROVIDER_CONTRACT_VERSION,
                    result.catalog.providers@ == before + all.take(i as int),
                    result.sources@.len() == result.catalog.providers@.len(),
                    src_before.len() == before.len(),
                    forall|k: int| 0 <= k < src_before.len() ==> result.sources@[k] == src_before[k],
                    forall|k: int|
                        0 <= k < result.sources@.len() ==> (#[trigger] result.sources@[k]).0
                            == result.catalog.providers@[k].id,
                    forall|k: int|
                        before.len() <= k < result.sources@.len() ==> (#[trigger] result.sources@[k]).1
                            == DiscoverySource::HermesConfig(path),
                    result.warnings@.len() == 0,
                    found_any == (result.catalog.providers@.len() > 0),
                decreases remaining.len(),
            {
                let entry = remaining.remove(0);
                let id = copy_provider_id(&entry.id);
                result.sources.push((id, DiscoverySource::HermesConfig(path.clone())));
                result.catalog.providers.push(entry);
                assert(all.take(i + 1) =~= all.take(i as int).push(all[i as int]));
                assert(remaining@ =~= all.skip(i + 1));
                found_any = true;
                i = i + 1;
            }
            assert(all.take(i as int) =~= all);
        },
        Some((_, Err(e))) => {
            let mut w = String::from_str("Hermes config: ");
            w.append(e.message().as_str());
            result = result.with_warning(w.as_str());
            assert(result.catalog.providers@ =~= env_list + Seq::empty());
        },
        None => {
            assert(result.catalog.providers@ =~= env_list + Seq::empty());
        },
    }
    if !found_any {
        let builtin = builtin_providers();
        assert(builtin@.len() == 0);
    }
    result
}

/// The final check before a discovery result is returned: the catalog's
/// JSON text must hold no secret-like field, else a credential-safe parse
/// error is returned (its message never repeats the field).
pub fn finish_discovery(result: DiscoveryResult, catalog_json: &str) -> (res: Result<
    DiscoveryResult,
    DiscoveryError,
>)
    ensures
        secret_verdict(to_lowercase_spec(catalog_json@)) is Ok ==> res == Ok::<
            DiscoveryResult,
            DiscoveryError,
        >(result),
        secret_verdict(to_lowercase_spec(catalog_json@)) is Err ==> (res matches Err(
            DiscoveryError::ConfigParseError { path, reason },
        ) && path@ == "catalog"@ && reason@ == "secret field detected in catalog"@),
{
    match assert_no_secrets_in_json(catalog_json) {
        Ok(()) => Ok(result),
        Err(_) => Err(
            DiscoveryError::ConfigParseError {
                path: String::from_str("catalog"),
                reason: String::from_str("secret field detected in catalog"),
            },
        ),
    }
}


/// `v` is a contiguous part of `s`, character for character.
pub open spec fn is_part(v: Seq<char>, s: Seq<char>) -> bool {
    exists|a: int, b: int| 0 <= a <= b <= s.len() && v == s.subrange(a, b)
}

proof fn lemma_part_trans(v: Seq<char>, w: Seq<char>, s: Seq<char>)
    requires
        is_part(v, w),
        is_part(w, s),
    ensures
        is_part(v, s),
{
    let (a1, b1) = choose|a: int, b: int| 0 <= a <= b <= w.len() && v == w.subrange(a, b);
    let (a2, b2) = choose|a: int, b: int| 0 <= a <= b <= s.len() && w == s.subrange(a, b);
    assert(v =~= s.subrange(a2 + a1, a2 + b1));
}

proof fn lemma_part_of_strip(s: Seq<char>, cls: CharClass)
    ensures
        is_part(strip_both(s, cls), s),
{
    lemma_strip_leading_suffix(s, cls);
    let l = strip_leading(s, cls);
    lemma_strip_trailing_prefix(l, cls);
    let a = s.len() - l.len();
    let b = a + strip_trailing(l, cls).len();
    assert(strip_both(s, cls) =~= s.subrange(a, b));
}

proof fn lemma_line_value_part(line: Seq<char>, key: Seq<char>)
    ensures
        line_value(line, key) matches Some(v) ==> is_part(v, line),
{
    if line_value(line, key) is Some {
        let t = trim(line);
        let prefix = key.push(':');
        let rest = t.skip(prefix.len() as int);
        let tr = trim(rest);
        lemma_part_of_strip(line, CharClass::Whitespace);
        assert(is_part(rest, t)) by {
            assert(rest =~= t.subrange(prefix.len() as int, t.len() as int));
        }
        lemma_part_of_strip(rest, CharClass::Whitespace);
        lemma_part_of_strip(tr, CharClass::Quote);
        lemma_part_trans(tr, rest, t);
        lemma_part_trans(tr, t, line);
        lemma_part_trans(strip_both(tr, CharClass::Quote), tr, line);
    }
}

proof fn lemma_lines_are_parts(s: Seq<char>)
    ensures
        forall|k: int| 0 <= k < split_lines(s).len() ==> is_part(#[trigger] split_lines(s)[k], s),
    decreases s.len(),
{
    if s.len() > 0 {
        lemma_find_char_from(s, '\n', 0);
        match find_char(s, '\n') {
            None => {
                assert(split_lines(s) == seq![s]);
                assert(s =~= s.subrange(0, s.len() as int));
            },
            Some(i) => {
                let head = strip_cr(s.take(i));
                let tail = s.skip(i + 1);
                lemma_lines_are_parts(tail);
                assert(split_lines(s) == seq![head] + split_lines(tail));
                assert(is_part(head, s)) by {
                    assert(head =~= s.subrange(0, head.len() as int));
                }
                assert(is_part(tail, s)) by {
                    assert(tail =~= s.subrange(i + 1, s.len() as int));
                }
                assert forall|k: int| 0 <= k < split_lines(s).len() implies is_part(
                    #[trigger] split_lines(s)[k],
                    s,
                ) by {
                    if k > 0 {
                        assert(split_lines(s)[k] == split_lines(tail)[k - 1]);
                        lemma_part_trans(split_lines(tail)[k - 1], tail, s);
                    }
                }
            },
        }
    }
}

proof fn lemma_extract_from_some_line(lines: Seq<Seq<char>>, key: Seq<char>)
    ensures
        extract_from_lines(lines, key) matches Some(v) ==> exists|k: int|
            0 <= k < lines.len() && line_value(#[trigger] lines[k], key) == Some(v),
    decreases lines.len(),
{
    if lines.len() > 0 && line_value(lines[0], key) is None {
        lemma_extract_from_some_line(lines.drop_first(), key);
        if extract_from_lines(lines, key) is Some {
            let v = extract_from_lines(lines, key)->0;
            let k = choose|k: int|
                0 <= k < lines.drop_first().len() && line_value(
                    #[trigger] lines.drop_first()[k],
                    key,
                ) == Some(v);
            assert(lines[k + 1] == lines.drop_first()[k]);
        }
    }
}

proof fn lemma_strip_leading_first(s: Seq<char>, cls: CharClass)
    ensures
        strip_leading(s, cls).len() > 0 ==> !in_class(cls, strip_leading(s, cls)[0]),
    decreases s.len(),
{
    if s.len() > 0 && in_class(cls, s[0]) {
        lemma_strip_leading_first(s.drop_first(), cls);
    }
}

/// An extracted value is the configured text itself: a non-empty,
/// contiguous part of the YAML, character for character (only the
/// whitespace and quotes around it are dropped, nothing else is changed),
/// that neither starts nor ends with a quote.
pub proof fn lemma_extracted_value_is_verbatim(yaml: Seq<char>, key: Seq<char>)
    ensures
        extract_yaml_spec(yaml, key) matches Some(v) ==> (is_part(v, yaml) && v.len() > 0 && v[0]
            != '"' && v[0] != '\'' && v.last() != '"' && v.last() != '\''),
        extract_yaml_spec(yaml, key) matches Some(v) ==> exists|k: int|
            0 <= k < split_lines(yaml).len() && trim(#[trigger] split_lines(yaml)[k]).take(
                key.len() as int + 1,
            ) == key.push(':') && is_part(v, trim(split_lines(yaml)[k]).skip(key.len() as int + 1)),
{
    if extract_yaml_spec(yaml, key) is Some {
        let v = extract_yaml_spec(yaml, key)->0;
        let lines = split_lines(yaml);
        lemma_extract_from_some_line(lines, key);
        let k = choose|k: int| 0 <= k < lines.len() && line_value(#[trigger] lines[k], key) == Some(v);
        lemma_line_value_part(lines[k], key);
        lemma_lines_are_parts(yaml);
        lemma_part_trans(v, lines[k], yaml);
        let t = trim(lines[k]);
        let tr = trim(t.skip(key.push(':').len() as int));
        lemma_part_of_strip(t.skip(key.push(':').len() as int), CharClass::Whitespace);
        lemma_part_of_strip(tr, CharClass::Quote);
        lemma_part_trans(v, tr, t.skip(key.push(':').len() as int));
        assert(t.take(key.len() as int + 1) == key.push(':'));
        lemma_strip_leading_suffix(tr, CharClass::Quote);
        let l = strip_leading(tr, CharClass::Quote);
        lemma_strip_trailing_prefix(l, CharClass::Quote);
        lemma_strip_leading_first(tr, CharClass::Quote);
        assert(v == strip_trailing(l, CharClass::Quote));
        assert(v[0] == l[0]);
    }
}

} // verus!
