//! Provider capability contract.
//!
//! Versioned internal types for providers, models and capabilities.
//! Provider and model identity is the stable `id`, never the display
//! label. No secrets are part of the contract; `assert_no_secrets_in_json`
//! guards serialized catalogs against secret-like field names.

use vstd::prelude::*;

use crate::text::{chars_of, contains_seq, contains_seq_exec};

verus! {

/// Schema version tag, embedded in serialized payloads.
pub const PROVIDER_CONTRACT_VERSION: u32 = 1;

/// A provider identity (stable: the label may change without invalidating the id).
#[derive(Debug, Clone, PartialEq, Eq)]
pub struct ProviderId {
    /// Stable identifier (e.g. "openai", "anthropic", "hermes").
    pub id: String,
    /// Human-readable label (display only, never identity).
    pub label: String,
}

/// A model identity within a provider.
#[derive(Debug, Clone, PartialEq, Eq)]
pub struct ModelId {
    /// Stable model identifier (e.g. "gpt-4o", "o1-preview").
    pub id: String,
    /// Parent provider id.
    pub provider_id: String,
    /// Human-readable label (display only, never identity).
    pub label: String,
}

/// Cost tier (relative, never exact amounts).
#[derive(Debug, Clone, Copy, PartialEq, Eq, Structural)]
pub enum CostTier {
    Free,
    Low,
    Medium,
    High,
    Unknown,
}

/// Availability state of a model at discovery time.
#[derive(Debug, Clone, Copy, PartialEq, Eq, Structural)]
pub enum ModelAvailability {
    Available,
    Degraded,
    Unavailable,
    Unknown,
}

/// Model capability set.
#[derive(Debug, Clone, PartialEq, Eq)]
pub struct ModelCapabilities {
    /// Maximum context window in tokens.
    pub max_context_tokens: Option<u32>,
    /// Whether the model supports reasoning/chain-of-thought.
    pub supports_reasoning: bool,
    /// Whether tool-use / function-calling is supported.
    pub supports_tools: bool,
    /// Whether image inputs are supported.
    pub supports_images: bool,
    /// Whether structured / JSON-mode output is supported.
    pub supports_structured_output: bool,
    /// Relative cost tier.
    pub cost_tier: CostTier,
    /// Availability at discovery time.
    pub availability: ModelAvailability,
}

/// The capabilities assumed when nothing is known about a model.
pub open spec fn default_capabilities() -> ModelCapabilities {
    ModelCapabilities {
        max_context_tokens: None,
        supports_reasoning: false,
        supports_tools: false,
        supports_images: false,
        supports_structured_output: false,
        cost_tier: CostTier::Unknown,
        availability: ModelAvailability::Unknown,
    }
}

impl Default for ModelCapabilities {
    fn default() -> (res: Self)
        ensures
            res == default_capabilities(),
    {
        ModelCapabilities {
            max_context_tokens: None,
            supports_reasoning: false,
            supports_tools: false,
            supports_images: false,
            supports_structured_output: false,
            cost_tier: CostTier::Unknown,
            availability: ModelAvailability::Unknown,
        }
    }
}

/// A complete model entry: identity and capabilities.
#[derive(Debug, Clone, PartialEq, Eq)]
pub struct ModelEntry {
    pub id: ModelId,
    pub capabilities: ModelCapabilities,
}

/// A provider entry: identity and its models.
#[derive(Debug, Clone, PartialEq, Eq)]
pub struct ProviderEntry {
    pub id: ProviderId,
    pub models: Vec<ModelEntry>,
}

/// The contract payload: a versioned catalog of providers.
#[derive(Debug, Clone, PartialEq, Eq)]
pub struct ProviderCatalog {
    pub schema: u32,
    pub providers: Vec<ProviderEntry>,
}

impl ProviderCatalog {
    /// Create an empty catalog with the current schema version.
    pub fn new() -> (res: Self)
        ensures
            res.schema == PROVIDER_CONTRACT_VERSION,
            res.providers@.len() == 0,
    {
        ProviderCatalog { schema: PROVIDER_CONTRACT_VERSION, providers: Vec::new() }
    }
}

impl Default for ProviderCatalog {
    fn default() -> (res: Self)
        ensures
            res.schema == PROVIDER_CONTRACT_VERSION,
            res.providers@.len() == 0,
    {
        Self::new()
    }
}

// ---------------------------------------------------------------------------
// Secret guard
// ---------------------------------------------------------------------------

/// Names the result of `str::to_lowercase` (Unicode lowercase mapping).
pub uninterp spec fn to_lowercase_spec(s: Seq<char>) -> Seq<char>;

/// std's `str::to_lowercase`: the Unicode lowercase of `s`, named
/// `to_lowercase_spec`.
#[verifier::external_body]
fn str_to_lowercase(s: &str) -> (res: String)
    ensures
        res@ == to_lowercase_spec(s@),
{
    s.to_lowercase()
}

/// The key names that must not appear as JSON fields, in the order they
/// are checked.
pub open spec fn forbidden_keys() -> Seq<Seq<char>> {
    seq![
        "api_key"@,
        "apikey"@,
        "secret"@,
        "token"@,
        "password"@,
        "credential"@,
        "private_key"@,
        "auth_header"@,
        "bearer"@,
    ]
}

fn forbidden_key(i: usize) -> (k: &'static str)
    requires
        i < 9,
    ensures
        k@ == forbidden_keys()[i as int],
{
    match i {
        0 => "api_key",
        1 => "apikey",
        2 => "secret",
        3 => "token",
        4 => "password",
        5 => "credential",
        6 => "private_key",
        7 => "auth_header",
        _ => "bearer",
    }
}

/// `"` followed by key `i`: the start of a field named (or prefixed by) it.
pub open spec fn key_pattern(key: Seq<char>) -> Seq<char> {
    seq!['"'] + key
}

/// Whether forbidden key `i` occurs as a field name (`"<key>`) in the
/// lowercased text.
pub open spec fn key_found(lower: Seq<char>, i: int) -> bool {
    contains_seq(lower, key_pattern(forbidden_keys()[i]))
}

/// The forbidden keys among the first `n` (in list order) that occur in the
/// lowercased text.
pub open spec fn found_keys_upto(lower: Seq<char>, n: int) -> Seq<Seq<char>>
    decreases n,
{
    if n <= 0 {
        Seq::empty()
    } else if key_found(lower, n - 1) {
        found_keys_upto(lower, n - 1).push(forbidden_keys()[n - 1])
    } else {
        found_keys_upto(lower, n - 1)
    }
}

/// Every forbidden key that occurs in the lowercased text, in list order.
pub open spec fn found_keys(lower: Seq<char>) -> Seq<Seq<char>> {
    found_keys_upto(lower, 9)
}

/// `'k1', 'k2', ...`: the keys, each quoted, separated by `, `.
pub open spec fn quoted_list(keys: Seq<Seq<char>>) -> Seq<char>
    decreases keys.len(),
{
    if keys.len() == 0 {
        Seq::empty()
    } else if keys.len() == 1 {
        seq!['\''] + keys[0] + seq!['\'']
    } else {
        quoted_list(keys.drop_last()) + seq![',', ' ', '\''] + keys.last() + seq!['\'']
    }
}

/// The error message listing the detected keys.
pub open spec fn secret_message(keys: Seq<Seq<char>>) -> Seq<char> {
    "secret-like field detected in catalog JSON: "@ + quoted_list(keys)
}

/// The verdict on lowercased JSON text: `Err` listing every forbidden key
/// that appears as `"<key>` (in list order), else `Ok`.
pub open spec fn secret_verdict(lower: Seq<char>) -> Result<(), Seq<char>> {
    if found_keys(lower).len() == 0 {
        Ok(())
    } else {
        Err(secret_message(found_keys(lower)))
    }
}

/// Check already-lowercased JSON text for secret-like field names.
pub fn check_lowercased_json(lower: &str) -> (res: Result<(), String>)
    ensures
        match res {
            Ok(()) => secret_verdict(lower@) == Ok::<(), Seq<char>>(()),
            Err(m) => secret_verdict(lower@) == Err::<(), Seq<char>>(m@),
        },
{
    let text = chars_of(lower);
    let mut listed = String::new();
    let mut count: usize = 0;
    let mut i: usize = 0;
    while i < 9
        invariant
            i <= 9,
            text@ == lower@,
            count == found_keys_upto(lower@, i as int).len(),
            count <= i,
            listed@ == quoted_list(found_keys_upto(lower@, i as int)),
        decreases 9 - i,
    {
        let key = forbidden_key(i);
        let mut pattern: Vec<char> = Vec::new();
        pattern.push('"');
        let key_chars = chars_of(key);
        let mut k: usize = 0;
        while k < key_chars.len()
            invariant
                k <= key_chars.len(),
                pattern@ == seq!['"'] + key_chars@.take(k as int),
            decreases key_chars.len() - k,
        {
            pattern.push(key_chars[k]);
            assert(key_chars@.take(k + 1) =~= key_chars@.take(k as int).push(key_chars@[k as int]));
            k = k + 1;
        }
        assert(key_chars@.take(key_chars.len() as int) =~= key_chars@);
        if contains_seq_exec(text.as_slice(), pattern.as_slice()) {
            let ghost before = found_keys_upto(lower@, i as int);
            let ghost after = found_keys_upto(lower@, i + 1);
            assert(after == before.push(forbidden_keys()[i as int]));
            assert(after.drop_last() =~= before);
            if count > 0 {
                listed.append(", '");
            } else {
                listed.append("'");
            }
            listed.append(key);
            listed.append("'");
            proof {
                reveal_strlit(", '");
                reveal_strlit("'");
            }
            assert(listed@ =~= quoted_list(after));
            count = count + 1;
        }
        i = i + 1;
    }
    if count == 0 {
        Ok(())
    } else {
        let mut msg = String::from_str("secret-like field detected in catalog JSON: ");
        msg.append(listed.as_str());
        Err(msg)
    }
}

/// Verify that a serialized catalog contains no secret-like fields.
///
/// Returns `Ok(())` when, after lowercasing, no `"<key>` occurs for any of
/// the forbidden keys, or `Err(message)` listing every key found, in list
/// order.
pub fn assert_no_secrets_in_json(json: &str) -> (res: Result<(), String>)
    ensures
        match res {
            Ok(()) => secret_verdict(to_lowercase_spec(json@)) == Ok::<(), Seq<char>>(()),
            Err(m) => secret_verdict(to_lowercase_spec(json@)) == Err::<(), Seq<char>>(m@),
        },
{
    let lower = str_to_lowercase(json);
    check_lowercased_json(lower.as_str())
}

/// The guard refuses exactly when some forbidden key occurs as `"<key>` in
/// the lowercased text, and then names each such key, once, in list order.
pub proof fn lemma_secret_verdict_complete(lower: Seq<char>)
    ensures
        (secret_verdict(lower) is Ok) <==> (forall|i: int|
            0 <= i < 9 ==> !contains_seq(lower, #[trigger] key_pattern(forbidden_keys()[i]))),
        forall|i: int|
            0 <= i < 9 ==> (key_found(lower, i) <==> #[trigger] found_keys(lower).contains(
                forbidden_keys()[i],
            )),
{
    lemma_found_keys(lower, 9);
}

proof fn lemma_forbidden_keys_distinct()
    ensures
        forall|i: int, j: int|
            0 <= i < 9 && 0 <= j < 9 && i != j ==> #[trigger] forbidden_keys()[i]
                != #[trigger] forbidden_keys()[j],
{
    reveal_strlit("api_key");
    reveal_strlit("apikey");
    reveal_strlit("secret");
    reveal_strlit("token");
    reveal_strlit("password");
    reveal_strlit("credential");
    reveal_strlit("private_key");
    reveal_strlit("auth_header");
    reveal_strlit("bearer");
    assert forall|i: int, j: int|
        0 <= i < 9 && 0 <= j < 9 && i != j implies #[trigger] forbidden_keys()[i]
            != #[trigger] forbidden_keys()[j] by {
        let a = forbidden_keys()[i];
        let b = forbidden_keys()[j];
        if a == b {
            assert(a.len() == b.len());
            assert(a[0] == b[0]);
            assert(a[1] == b[1]);
            assert(a[a.len() - 1] == b[b.len() - 1]);
        }
    }
}

proof fn lemma_found_keys(lower: Seq<char>, n: int)
    requires
        0 <= n <= 9,
    ensures
        (found_keys_upto(lower, n).len() == 0) <==> (forall|i: int|
            0 <= i < n ==> !contains_seq(lower, #[trigger] key_pattern(forbidden_keys()[i]))),
        forall|i: int|
            0 <= i < 9 ==> (#[trigger] found_keys_upto(lower, n).contains(forbidden_keys()[i])
                <==> (i < n && key_found(lower, i))),
    decreases n,
{
    lemma_forbidden_keys_distinct();
    if n > 0 {
        lemma_found_keys(lower, n - 1);
        let prev = found_keys_upto(lower, n - 1);
        if key_found(lower, n - 1) {
            let cur = prev.push(forbidden_keys()[n - 1]);
            assert forall|i: int| 0 <= i < 9 implies (#[trigger] found_keys_upto(
                lower,
                n,
            ).contains(forbidden_keys()[i]) <==> (i < n && key_found(lower, i))) by {
                if cur.contains(forbidden_keys()[i]) && i != n - 1 {
                    let j = choose|j: int| 0 <= j < cur.len() && cur[j] == forbidden_keys()[i];
                    if j < prev.len() {
                        assert(prev.contains(forbidden_keys()[i]));
                    }
                }
                if i == n - 1 {
                    assert(cur[prev.len() as int] == forbidden_keys()[i]);
                }
                if i < n - 1 && key_found(lower, i) {
                    assert(prev.contains(forbidden_keys()[i]));
                    let j = choose|j: int| 0 <= j < prev.len() && prev[j] == forbidden_keys()[i];
                    assert(cur[j] == forbidden_keys()[i]);
                }
            }
        } else {
            assert forall|i: int| 0 <= i < 9 implies (#[trigger] found_keys_upto(
                lower,
                n,
            ).contains(forbidden_keys()[i]) <==> (i < n && key_found(lower, i))) by {
                if i == n - 1 && prev.contains(forbidden_keys()[i]) {
                    assert(false);
                }
            }
        }
    }
}

} // verus!
