//! Hermes memory scope derivation.
//!
//! Derives a deterministic, filesystem-safe profile path from a
//! `RuntimeScopeContext` for the Hermes runtime. Only the stable identity
//! fields (relay URL, channel id, persona id) enter the hash; display names
//! never do. The hash is the lowercase hex SHA-256 of a versioned canonical
//! string. Nothing here touches the filesystem.

use sha2::{Digest, Sha256};

use vstd::prelude::*;

use crate::runtime_scope::{
    context_spec, lemma_valid_id_shape, runtime_name, same_identity, RuntimeKind,
    RuntimeScopeContext, ScopeErrorView,
};
use crate::text::{
    hex_digit, is_hex_lower_char, lower_hex, lower_hex_exec, push_char, push_chars,
    chars_of, strip_trailing, trailing_start, CharClass, contains_seq, occurs_at,
};

verus! {

/// Version tag embedded in the canonical serialization.
/// Changing this tag changes every profile path (intentional).
pub const MEMORY_SCOPE_VERSION: &'static str = "buzz-hermes-memory-v1";

/// Path fragment placed under the app-data dir for Hermes profiles.
pub const PROFILE_PATH_PREFIX: &'static str = "hermes/profiles/v1";

/// Names the SHA-256 digest of a byte string.
pub uninterp spec fn sha256_spec(data: Seq<u8>) -> Seq<u8>;

/// sha2's `Sha256::digest`: the result is the SHA-256 digest of `data`
/// (named `sha256_spec`), 32 bytes long.
#[verifier::external_body]
fn sha256_digest(data: &[u8]) -> (res: Vec<u8>)
    ensures
        res@ == sha256_spec(data@),
        res@.len() == 32,
{
    Sha256::digest(data).to_vec()
}

/// `std::path::MAIN_SEPARATOR`: `/` on Unix-like platforms, `\` on Windows.
#[verifier::external_body]
pub(crate) fn main_separator() -> (c: char)
    ensures
        c == '/' || c == '\\',
{
    std::path::MAIN_SEPARATOR
}

/// The canonical serialization of a scope:
/// `buzz-hermes-memory-v1\n<relay_url>\n<channel_id>\n<persona_id>\nhermes`.
pub open spec fn canonical_spec(relay: Seq<char>, channel: Seq<char>, persona: Seq<char>) -> Seq<
    char,
> {
    MEMORY_SCOPE_VERSION@ + seq!['\n'] + relay + seq!['\n'] + channel + seq!['\n'] + persona
        + seq!['\n'] + "hermes"@
}

/// The canonical serialization of a context's stable fields.
pub open spec fn context_canonical(ctx: RuntimeScopeContext) -> Seq<char> {
    canonical_spec(ctx.relay_url@, ctx.channel_id@, ctx.persona_id@)
}

/// `hermes/profiles/v1/<hash>`.
pub open spec fn profile_path_spec(hash: Seq<char>) -> Seq<char> {
    PROFILE_PATH_PREFIX@ + seq!['/'] + hash
}

/// The contents of a scope.
pub struct ScopeView {
    pub canonical: Seq<char>,
    pub hash: Seq<char>,
    pub profile_path: Seq<char>,
}

/// The scope a canonical string and its digest produce.
pub open spec fn scope_from_digest(canonical: Seq<char>, digest: Seq<u8>) -> ScopeView {
    ScopeView {
        canonical,
        hash: lower_hex(digest),
        profile_path: profile_path_spec(lower_hex(digest)),
    }
}

/// The scope derived from a context: the canonical string of its stable
/// fields and the hex SHA-256 of that string's UTF-8 bytes.
pub open spec fn scope_of(ctx: RuntimeScopeContext) -> ScopeView {
    scope_from_digest(
        context_canonical(ctx),
        sha256_spec(vstd::utf8::encode_utf8(context_canonical(ctx))),
    )
}

/// A scope's hash is 64 lowercase hex digits and its path is the fixed
/// prefix, `/`, and the hash.
pub open spec fn scope_view_wf(v: ScopeView) -> bool {
    &&& v.hash.len() == 64
    &&& forall|i: int| 0 <= i < v.hash.len() ==> is_hex_lower_char(#[trigger] v.hash[i])
    &&& v.profile_path == profile_path_spec(v.hash)
}

/// A derived Hermes memory scope: a versioned, deterministic profile path.
#[derive(Debug, Clone, PartialEq, Eq)]
pub struct HermesMemoryScope {
    /// Canonical serialization that was hashed (for audit only).
    canonical: String,
    /// Lowercase hex SHA-256 of the canonical serialization.
    hash: String,
    /// Profile path under app-data: prefix + hash.
    profile_path: String,
}

impl View for HermesMemoryScope {
    type V = ScopeView;

    closed spec fn view(&self) -> ScopeView {
        ScopeView {
            canonical: self.canonical@,
            hash: self.hash@,
            profile_path: self.profile_path@,
        }
    }
}

/// Error returned when a scope cannot be derived.
#[derive(Debug, Clone, PartialEq, Eq)]
pub enum MemoryScopeError {
    /// The runtime is not Hermes.
    NotHermesRuntime { runtime: RuntimeKind },
}

impl MemoryScopeError {
    /// The human-readable message (what `Display` shows).
    pub fn message(&self) -> (s: String)
        ensures
            s@ == memory_scope_error_message(*self),
    {
        match self {
            MemoryScopeError::NotHermesRuntime { runtime } => {
                let mut s = String::from_str(
                    "memory scope is only available for Hermes runtimes; got ",
                );
                s.append(runtime.as_str());
                s
            },
        }
    }
}

pub open spec fn memory_scope_error_message(e: MemoryScopeError) -> Seq<char> {
    match e {
        MemoryScopeError::NotHermesRuntime { runtime } =>
            "memory scope is only available for Hermes runtimes; got "@ + runtime_name(runtime),
    }
}

/// `within`: the root without trailing `/` or `\`, the separator, and the
/// profile path.
pub open spec fn within_spec(root: Seq<char>, profile_path: Seq<char>, sep: char) -> Seq<char> {
    strip_trailing(root, CharClass::PathSeparator) + seq![sep] + profile_path
}

proof fn lemma_lower_hex_shape(bytes: Seq<u8>)
    ensures
        lower_hex(bytes).len() == 2 * bytes.len(),
        forall|i: int| 0 <= i < lower_hex(bytes).len() ==> is_hex_lower_char(#[trigger] lower_hex(bytes)[i]),
    decreases bytes.len(),
{
    if bytes.len() > 0 {
        lemma_lower_hex_shape(bytes.drop_last());
        let b = bytes.last();
        assert(is_hex_lower_char(hex_digit(b as int / 16)));
        assert(is_hex_lower_char(hex_digit(b as int % 16)));
        let prev = lower_hex(bytes.drop_last());
        assert forall|i: int| 0 <= i < lower_hex(bytes).len() implies is_hex_lower_char(
            #[trigger] lower_hex(bytes)[i],
        ) by {
            if i < prev.len() {
                assert(lower_hex(bytes)[i] == prev[i]);
            }
        }
    }
}

/// Compute SHA-256 of `input`'s UTF-8 bytes and return it as lowercase hex.
pub fn hex_sha256(input: &str) -> (s: String)
    ensures
        s@ == lower_hex(sha256_spec(vstd::utf8::encode_utf8(input@))),
        s@.len() == 64,
{
    let digest = sha256_digest(input.as_bytes());
    proof {
        lemma_lower_hex_shape(digest@);
    }
    lower_hex_exec(digest.as_slice())
}

impl HermesMemoryScope {
    /// Derive a memory scope from a runtime scope context.
    ///
    /// Returns `Err(NotHermesRuntime)` when `ctx.runtime` is not `Hermes`.
    pub fn from_context(ctx: &RuntimeScopeContext) -> (res: Result<Self, MemoryScopeError>)
        ensures
            ctx.runtime != RuntimeKind::Hermes ==> res == Err::<Self, MemoryScopeError>(
                MemoryScopeError::NotHermesRuntime { runtime: ctx.runtime },
            ),
            ctx.runtime == RuntimeKind::Hermes ==> (res matches Ok(s) && s@ == scope_of(*ctx)
                && scope_view_wf(s@)),
    {
        if ctx.runtime != RuntimeKind::Hermes {
            return Err(MemoryScopeError::NotHermesRuntime { runtime: ctx.runtime });
        }
        let canonical = Self::canonical_form(ctx);
        let digest = sha256_digest(canonical.as_str().as_bytes());
        Ok(Self::from_digest(canonical, digest.as_slice()))
    }

    /// Build the scope for a canonical string whose 32-byte SHA-256 digest
    /// is `digest`.
    pub fn from_digest(canonical: String, digest: &[u8]) -> (res: Self)
        requires
            digest@.len() == 32,
        ensures
            res@ == scope_from_digest(canonical@, digest@),
            scope_view_wf(res@),
    {
        proof {
            lemma_lower_hex_shape(digest@);
        }
        let hash = lower_hex_exec(digest);
        let mut profile_path = String::from_str(PROFILE_PATH_PREFIX);
        push_char(&mut profile_path, '/');
        profile_path.append(hash.as_str());
        assert(profile_path@ =~= profile_path_spec(hash@));
        HermesMemoryScope { canonical, hash, profile_path }
    }

    /// Build the canonical serialization that feeds the hash:
    /// `buzz-hermes-memory-v1\n<relay_url>\n<channel_id>\n<persona_id>\nhermes`.
    ///
    /// The runtime is always written as `hermes`: every Hermes alias maps to
    /// the same scope.
    pub fn canonical_form(ctx: &RuntimeScopeContext) -> (s: String)
        ensures
            s@ == context_canonical(*ctx),
    {
        let mut s = String::from_str(MEMORY_SCOPE_VERSION);
        push_char(&mut s, '\n');
        s.append(ctx.relay_url.as_str());
        push_char(&mut s, '\n');
        s.append(ctx.channel_id.as_str());
        push_char(&mut s, '\n');
        s.append(ctx.persona_id.as_str());
        push_char(&mut s, '\n');
        s.append("hermes");
        s
    }

    /// The canonical serialization that was hashed (audit only).
    pub fn canonical(&self) -> (s: &str)
        ensures
            s@ == self@.canonical,
    {
        self.canonical.as_str()
    }

    /// Lowercase hex SHA-256 of the canonical serialization.
    pub fn hash(&self) -> (s: &str)
        ensures
            s@ == self@.hash,
    {
        self.hash.as_str()
    }

    /// Profile path relative to `<app-data>`: the fixed prefix and the hash.
    pub fn profile_path(&self) -> (s: &str)
        ensures
            s@ == self@.profile_path,
    {
        self.profile_path.as_str()
    }

    /// Join the profile path onto a concrete app-data root with separator
    /// `sep`, after removing the root's trailing `/` and `\\`. Does not
    /// create anything.
    pub fn within_sep(&self, app_data_root: &str, sep: char) -> (s: String)
        ensures
            s@ == within_spec(app_data_root@, self@.profile_path, sep),
    {
        let root = chars_of(app_data_root);
        let end = trailing_start(root.as_slice(), CharClass::PathSeparator);
        let mut s = String::new();
        push_chars(&mut s, crate::text::slice_of(root.as_slice(), 0, end).as_slice());
        push_char(&mut s, sep);
        s.append(self.profile_path.as_str());
        assert(s@ =~= within_spec(app_data_root@, self@.profile_path, sep));
        s
    }

    /// Join the profile path onto a concrete app-data root with the
    /// platform's main separator (`within_sep` with `MAIN_SEPARATOR`).
    pub fn within(&self, app_data_root: &str) -> (s: String)
        ensures
            s@ == within_spec(app_data_root@, self@.profile_path, '/') || s@ == within_spec(
                app_data_root@,
                self@.profile_path,
                '\\',
            ),
    {
        self.within_sep(app_data_root, main_separator())
    }
}

// ---------------------------------------------------------------------------
// Laws
// ---------------------------------------------------------------------------

/// Number of occurrences of `c` in `s`.
pub open spec fn count_char(s: Seq<char>, c: char) -> nat
    decreases s.len(),
{
    if s.len() == 0 {
        0
    } else {
        count_char(s.drop_last(), c) + if s.last() == c {
            1nat
        } else {
            0nat
        }
    }
}

/// Display names never enter a scope: contexts with the same stable fields
/// derive the same canonical string, hash and profile path.
pub proof fn lemma_scope_ignores_display_names(a: RuntimeScopeContext, b: RuntimeScopeContext)
    requires
        same_identity(a, b),
    ensures
        scope_of(a) == scope_of(b),
{
}

proof fn lemma_split_at_last_newline(a1: Seq<char>, b1: Seq<char>, a2: Seq<char>, b2: Seq<char>)
    requires
        a1 + seq!['\n'] + b1 == a2 + seq!['\n'] + b2,
        !b1.contains('\n'),
        !b2.contains('\n'),
    ensures
        a1 == a2,
        b1 == b2,
{
    let x = a1 + seq!['\n'] + b1;
    let y = a2 + seq!['\n'] + b2;
    let n = seq!['\n'];
    assert(x.len() == y.len());
    assert((a1 + n).len() == a1.len() + 1);
    assert((a2 + n).len() == a2.len() + 1);
    if b1.len() < b2.len() {
        let k = a1.len() as int;
        assert(x[k] == '\n');
        let j = k - a2.len() - 1;
        assert(0 <= j < b2.len());
        assert(y[k] == b2[j]);
        assert(b2.contains('\n'));
    } else if b2.len() < b1.len() {
        let k = a2.len() as int;
        assert(y[k] == '\n');
        let j = k - a1.len() - 1;
        assert(0 <= j < b1.len());
        assert(x[k] == b1[j]);
        assert(b1.contains('\n'));
    } else {
        assert(a1 =~= x.take(a1.len() as int));
        assert(a2 =~= y.take(a2.len() as int));
        assert(b1 =~= x.skip(a1.len() as int + 1));
        assert(b2 =~= y.skip(a2.len() as int + 1));
    }
}

/// The canonical string identifies the stable fields: when channel and
/// persona ids hold no newline (every id that `validate_stable_id` accepts),
/// equal canonical strings come only from equal relay, channel and persona.
pub proof fn lemma_canonical_identifies_scope(a: RuntimeScopeContext, b: RuntimeScopeContext)
    requires
        !a.channel_id@.contains('\n'),
        !a.persona_id@.contains('\n'),
        !b.channel_id@.contains('\n'),
        !b.persona_id@.contains('\n'),
        context_canonical(a) == context_canonical(b),
    ensures
        a.relay_url@ == b.relay_url@,
        a.channel_id@ == b.channel_id@,
        a.persona_id@ == b.persona_id@,
{
    let v = MEMORY_SCOPE_VERSION@ + seq!['\n'];
    let n = seq!['\n'];
    let h = seq!['\n'] + "hermes"@;
    let xa = v + a.relay_url@ + n + a.channel_id@ + n + a.persona_id@;
    let xb = v + b.relay_url@ + n + b.channel_id@ + n + b.persona_id@;
    assert(context_canonical(a) =~= xa + h);
    assert(context_canonical(b) =~= xb + h);
    assert(xa.len() == xb.len());
    assert(xa =~= (xa + h).take(xa.len() as int));
    assert(xb =~= (xb + h).take(xb.len() as int));
    lemma_split_at_last_newline(
        v + a.relay_url@ + n + a.channel_id@,
        a.persona_id@,
        v + b.relay_url@ + n + b.channel_id@,
        b.persona_id@,
    );
    lemma_split_at_last_newline(v + a.relay_url@, a.channel_id@, v + b.relay_url@, b.channel_id@);
    assert(a.relay_url@ =~= (v + a.relay_url@).skip(v.len() as int));
    assert(b.relay_url@ =~= (v + b.relay_url@).skip(v.len() as int));
}

/// A well-formed scope's path stays under the profile root: it starts with
/// `hermes/profiles/v1/`, holds exactly three `/`, no `.` (so no `..`), and
/// only ASCII characters.
pub proof fn lemma_profile_path_is_confined(v: ScopeView)
    requires
        scope_view_wf(v),
    ensures
        v.profile_path == "hermes/profiles/v1/"@ + v.hash,
        v.profile_path.len() == 83,
        count_char(v.profile_path, '/') == 3,
        !v.profile_path.contains('.'),
        !contains_seq(v.profile_path, seq!['.', '.']),
        forall|i: int| 0 <= i < v.profile_path.len() ==> (#[trigger] v.profile_path[i] as u32) < 128,
{
    reveal_strlit("hermes/profiles/v1");
    reveal_strlit("hermes/profiles/v1/");
    let p = v.profile_path;
    assert(p =~= "hermes/profiles/v1/"@ + v.hash);
    assert forall|i: int| 0 <= i < p.len() implies p[i] != '.' && (#[trigger] p[i] as u32) < 128
        && (i >= 19 ==> p[i] != '/') by {
        if i >= 19 {
            assert(p[i] == v.hash[i - 19]);
            assert(is_hex_lower_char(v.hash[i - 19]));
        }
    }
    lemma_count_no_slash(p, 19);
    assert(p.take(19) =~= "hermes/profiles/v1/"@);
    assert(count_char(p.take(19), '/') == 3) by {
        reveal_with_fuel(count_char, 20);
    }
    assert(!contains_seq(p, seq!['.', '.'])) by {
        if contains_seq(p, seq!['.', '.']) {
            let i = choose|i: int| occurs_at(p, seq!['.', '.'], i);
            assert(p.subrange(i, i + 2)[0] == '.');
            assert(p[i] == '.');
        }
    }
}

proof fn lemma_count_no_slash(p: Seq<char>, k: int)
    requires
        0 <= k <= p.len(),
        forall|i: int| k <= i < p.len() ==> p[i] != '/',
    ensures
        count_char(p, '/') == count_char(p.take(k), '/'),
    decreases p.len() - k,
{
    if p.len() > k {
        lemma_count_no_slash(p.drop_last(), k);
        assert(p.drop_last().take(k) =~= p.take(k));
    } else {
        assert(p.take(k) =~= p);
    }
}

/// Trailing separators on the app-data root do not change the joined path.
pub proof fn lemma_within_ignores_trailing_separator(
    root: Seq<char>,
    profile_path: Seq<char>,
    sep: char,
    trailing: char,
)
    requires
        trailing == '/' || trailing == '\\',
    ensures
        within_spec(root.push(trailing), profile_path, sep) == within_spec(root, profile_path, sep),
{
    assert(root.push(trailing).drop_last() =~= root);
}

/// Contexts built from inputs (as `RuntimeScopeContext::with_display`
/// builds them) with different stable fields hash different canonical
/// strings; the hash is the only place two such scopes could still meet.
pub proof fn lemma_distinct_contexts_distinct_canonical(
    a: RuntimeScopeContext,
    b: RuntimeScopeContext,
    ra: Seq<char>,
    ca: Seq<char>,
    pa: Seq<char>,
    rb: Seq<char>,
    cb: Seq<char>,
    pb: Seq<char>,
)
    requires
        context_spec(ra, ca, pa) == Ok::<(Seq<char>, Seq<char>, Seq<char>), ScopeErrorView>(
            (a.relay_url@, a.channel_id@, a.persona_id@),
        ),
        context_spec(rb, cb, pb) == Ok::<(Seq<char>, Seq<char>, Seq<char>), ScopeErrorView>(
            (b.relay_url@, b.channel_id@, b.persona_id@),
        ),
        a.relay_url@ != b.relay_url@ || a.channel_id@ != b.channel_id@ || a.persona_id@
            != b.persona_id@,
    ensures
        context_canonical(a) != context_canonical(b),
{
    lemma_valid_id_shape(ca);
    lemma_valid_id_shape(pa);
    lemma_valid_id_shape(cb);
    lemma_valid_id_shape(pb);
    if context_canonical(a) == context_canonical(b) {
        lemma_canonical_identifies_scope(a, b);
    }
}

} // verus!
