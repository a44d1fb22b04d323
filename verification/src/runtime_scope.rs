//! Runtime scope context: the canonical identity of an agent runtime.
//!
//! A `RuntimeScopeContext` carries the relay/community URL, channel,
//! persona and runtime kind of an agent. Stable identifiers (normalized
//! URLs, lowercased ids) are used instead of display names, so the same
//! logical scope yields the same identity from every entrypoint.
//!
//! Everything here is pure: no environment, file or network access.

use std::collections::hash_map::DefaultHasher;
use std::hash::Hasher;

use vstd::prelude::*;
use vstd::std_specs::cmp::PartialEqSpecImpl;
use vstd::std_specs::hash::DefaultHasherAdditionalSpecFns;

use crate::text::{
    all_ascii_digits, ascii_lower, ascii_lower_exec, chars_eq, chars_of, contains_char,
    find_char, find_char_exec, find_seq, find_seq_exec, lemma_find_seq_from_some, hex_u64, hex_u64_exec, in_class, lemma_find_char_from, strip_leading, rfind_char_before, push_char, push_chars, rfind_char,
    rfind_char_exec, slice_of, string_of, strip_trailing, strip_trailing_exec, trim, trim_chars, CharClass,
    find_char_from, find_seq_from, is_ws, occurs_at, ascii_lower_char,
};

verus! {

/// Supported runtime kinds.
#[derive(Debug, Clone, Copy, PartialEq, Eq, Hash, Structural)]
pub enum RuntimeKind {
    /// The native Buzz ACP runtime.
    BuzzAcp,
    /// The Hermes ACP runtime (hermes-acp / hermes / hermes-agent).
    Hermes,
}

/// The display name of a runtime kind.
pub open spec fn runtime_name(k: RuntimeKind) -> Seq<char> {
    match k {
        RuntimeKind::BuzzAcp => "buzz-acp"@,
        RuntimeKind::Hermes => "hermes"@,
    }
}

impl RuntimeKind {
    /// The kebab-case name of the runtime (`buzz-acp` or `hermes`).
    pub fn as_str(&self) -> (s: &'static str)
        ensures
            s@ == runtime_name(*self),
    {
        match self {
            RuntimeKind::BuzzAcp => "buzz-acp",
            RuntimeKind::Hermes => "hermes",
        }
    }
}

/// Error produced when constructing a `RuntimeScopeContext` from invalid inputs.
#[derive(Debug, Clone, PartialEq, Eq)]
pub enum RuntimeScopeError {
    /// The relay URL could not be parsed as a valid URL with scheme.
    InvalidRelayUrl { url: String, reason: String },
    /// The channel ID is empty or contains characters outside [a-z0-9-].
    InvalidChannelId { id: String, reason: String },
    /// The persona ID is empty or contains characters outside [a-z0-9-].
    InvalidPersonaId { id: String, reason: String },
}

/// The contents of a `RuntimeScopeError`, as character sequences.
pub enum ScopeErrorView {
    Relay { url: Seq<char>, reason: Seq<char> },
    Channel { id: Seq<char>, reason: Seq<char> },
    Persona { id: Seq<char>, reason: Seq<char> },
}

impl View for RuntimeScopeError {
    type V = ScopeErrorView;

    open spec fn view(&self) -> ScopeErrorView {
        match self {
            RuntimeScopeError::InvalidRelayUrl { url, reason } => ScopeErrorView::Relay {
                url: url@,
                reason: reason@,
            },
            RuntimeScopeError::InvalidChannelId { id, reason } => ScopeErrorView::Channel {
                id: id@,
                reason: reason@,
            },
            RuntimeScopeError::InvalidPersonaId { id, reason } => ScopeErrorView::Persona {
                id: id@,
                reason: reason@,
            },
        }
    }
}

/// The human-readable message of a scope error.
pub open spec fn scope_error_message(e: ScopeErrorView) -> Seq<char> {
    match e {
        ScopeErrorView::Relay { url, reason } => "invalid relay URL '"@ + url + "': "@ + reason,
        ScopeErrorView::Channel { id, reason } => "invalid channel ID '"@ + id + "': "@ + reason,
        ScopeErrorView::Persona { id, reason } => "invalid persona ID '"@ + id + "': "@ + reason,
    }
}

impl RuntimeScopeError {
    /// The human-readable message (what `Display` shows).
    pub fn message(&self) -> (s: String)
        ensures
            s@ == scope_error_message(self@),
    {
        let (prefix, value, reason) = match self {
            RuntimeScopeError::InvalidRelayUrl { url, reason } => ("invalid relay URL '", url, reason),
            RuntimeScopeError::InvalidChannelId { id, reason } => ("invalid channel ID '", id, reason),
            RuntimeScopeError::InvalidPersonaId { id, reason } => ("invalid persona ID '", id, reason),
        };
        let mut s = String::from_str(prefix);
        s.append(value.as_str());
        s.append("': ");
        s.append(reason.as_str());
        s
    }
}

// ---------------------------------------------------------------------------
// Relay URL normalization
// ---------------------------------------------------------------------------

pub open spec fn scheme_wss() -> Seq<char> {
    seq!['w', 's', 's']
}

pub open spec fn scheme_ws() -> Seq<char> {
    seq!['w', 's']
}

pub open spec fn scheme_https() -> Seq<char> {
    seq!['h', 't', 't', 'p', 's']
}

pub open spec fn scheme_http() -> Seq<char> {
    seq!['h', 't', 't', 'p']
}

pub open spec fn scheme_separator() -> Seq<char> {
    seq![':', '/', '/']
}

pub open spec fn is_supported_scheme(s: Seq<char>) -> bool {
    s == scheme_wss() || s == scheme_ws() || s == scheme_https() || s == scheme_http()
}

/// The port that a supported scheme uses by default.
pub open spec fn default_port(scheme: Seq<char>) -> Seq<char> {
    if scheme == scheme_wss() || scheme == scheme_https() {
        seq!['4', '4', '3']
    } else {
        seq!['8', '0']
    }
}

/// Splits `host[:port][/path]` (no trailing `/`) at its first `/`.
pub open spec fn split_authority(r: Seq<char>) -> (Seq<char>, Seq<char>) {
    match find_char(r, '/') {
        Some(k) => (r.take(k), r.skip(k)),
        None => (r, Seq::empty()),
    }
}

/// Splits an authority at its last `:` when only digits follow it.
pub open spec fn split_port(authority: Seq<char>) -> (Seq<char>, Option<Seq<char>>) {
    match rfind_char(authority, ':') {
        Some(k) => if all_ascii_digits(authority.skip(k + 1)) {
            (authority.take(k), Some(authority.skip(k + 1)))
        } else {
            (authority, None)
        },
        None => (authority, None),
    }
}

/// The `:port` part kept in the normalized URL.
pub open spec fn port_suffix(scheme: Seq<char>, port: Option<Seq<char>>) -> Seq<char> {
    match port {
        Some(p) => if p == default_port(scheme) {
            Seq::empty()
        } else {
            seq![':'] + p
        },
        None => Seq::empty(),
    }
}

/// Relay URL normalization: `Ok` with the normalized URL, or `Err` with the
/// reason it is rejected.
///
/// Scheme and host are lowercased, the default port and trailing slashes are
/// stripped; empty input, query, fragment, a missing or unsupported scheme
/// and an empty host are rejected.
pub open spec fn normalize_relay_spec(raw: Seq<char>) -> Result<Seq<char>, Seq<char>> {
    let t = trim(raw);
    if t.len() == 0 {
        Err("empty"@)
    } else if t.contains('?') || t.contains('#') {
        Err("query/fragment not allowed"@)
    } else {
        match find_seq(t, scheme_separator()) {
            None => Err("missing scheme"@),
            Some(i) => {
                let scheme = ascii_lower(t.take(i));
                let rest = t.skip(i + 3);
                if !is_supported_scheme(scheme) {
                    Err("unsupported scheme '"@ + scheme + seq!['\''])
                } else {
                    let r = strip_trailing(rest, CharClass::Slash);
                    let (authority, path) = split_authority(r);
                    let (host, port) = split_port(authority);
                    let host_lower = ascii_lower(host);
                    if host_lower.len() == 0 {
                        Err("empty host"@)
                    } else {
                        Ok(scheme + scheme_separator() + host_lower + port_suffix(scheme, port)
                            + path)
                    }
                }
            },
        }
    }
}

fn relay_error(raw: &str, reason: &str) -> (e: RuntimeScopeError)
    ensures
        e@ == (ScopeErrorView::Relay { url: raw@, reason: reason@ }),
{
    RuntimeScopeError::InvalidRelayUrl { url: String::from_str(raw), reason: String::from_str(reason) }
}

fn supported_scheme_exec(s: &[char]) -> (res: bool)
    ensures
        res == is_supported_scheme(s@),
{
    let wss = ['w', 's', 's'];
    let ws = ['w', 's'];
    let https = ['h', 't', 't', 'p', 's'];
    let http = ['h', 't', 't', 'p'];
    assert(wss@ =~= scheme_wss());
    assert(ws@ =~= scheme_ws());
    assert(https@ =~= scheme_https());
    assert(http@ =~= scheme_http());
    chars_eq(s, &wss) || chars_eq(s, &ws) || chars_eq(s, &https) || chars_eq(s, &http)
}

fn all_digits_exec(v: &[char]) -> (res: bool)
    ensures
        res == all_ascii_digits(v@),
{
    let mut i: usize = 0;
    while i < v.len()
        invariant
            i <= v.len(),
            forall|k: int| 0 <= k < i ==> '0' <= #[trigger] v@[k] && v@[k] <= '9',
        decreases v.len() - i,
    {
        if !('0' <= v[i] && v[i] <= '9') {
            return false;
        }
        i = i + 1;
    }
    true
}

/// The view of an optional character vector.
pub open spec fn opt_chars_view(o: Option<Vec<char>>) -> Option<Seq<char>> {
    match o {
        Some(v) => Some(v@),
        None => None,
    }
}

fn port_suffix_exec(scheme: &[char], port: Option<Vec<char>>) -> (res: Vec<char>)
    requires
        is_supported_scheme(scheme@),
    ensures
        res@ == port_suffix(scheme@, opt_chars_view(port)),
{
    match port {
        Some(p) => {
            let wss = ['w', 's', 's'];
            let https = ['h', 't', 't', 'p', 's'];
            let p443 = ['4', '4', '3'];
            let p80 = ['8', '0'];
            assert(wss@ =~= scheme_wss());
            assert(https@ =~= scheme_https());
            assert(p443@ =~= seq!['4', '4', '3']);
            assert(p80@ =~= seq!['8', '0']);
            let is_default = if chars_eq(scheme, &wss) || chars_eq(scheme, &https) {
                chars_eq(p.as_slice(), &p443)
            } else {
                chars_eq(p.as_slice(), &p80)
            };
            if is_default {
                Vec::new()
            } else {
                let mut out: Vec<char> = Vec::new();
                out.push(':');
                let mut i: usize = 0;
                while i < p.len()
                    invariant
                        i <= p.len(),
                        out@ == seq![':'] + p@.take(i as int),
                    decreases p.len() - i,
                {
                    out.push(p[i]);
                    assert(p@.take(i + 1) =~= p@.take(i as int).push(p@[i as int]));
                    i = i + 1;
                }
                assert(p@.take(p.len() as int) =~= p@);
                out
            }
        },
        None => Vec::new(),
    }
}

/// Normalize a relay URL: lowercase scheme and host, strip the default port
/// and trailing slashes, reject query and fragment.
pub fn normalize_relay_url(raw: &str) -> (res: Result<String, RuntimeScopeError>)
    ensures
        match res {
            Ok(s) => normalize_relay_spec(raw@) == Ok::<Seq<char>, Seq<char>>(s@),
            Err(e) => normalize_relay_spec(raw@) matches Err(reason) && e@ == (
            ScopeErrorView::Relay { url: raw@, reason }),
        },
{
    let raw_chars = chars_of(raw);
    let t = trim_chars(raw_chars.as_slice());
    if t.len() == 0 {
        return Err(relay_error(raw, "empty"));
    }
    if contains_char(t.as_slice(), '?') || contains_char(t.as_slice(), '#') {
        return Err(relay_error(raw, "query/fragment not allowed"));
    }
    let sep = [':', '/', '/'];
    assert(sep@ =~= scheme_separator());
    let i = match find_seq_exec(t.as_slice(), &sep) {
        Some(i) => i,
        None => {
            return Err(relay_error(raw, "missing scheme"));
        },
    };
    proof {
        lemma_find_seq_from_some(t@, scheme_separator(), 0);
    }
    let scheme = ascii_lower_exec(slice_of(t.as_slice(), 0, i).as_slice());
    let rest = slice_of(t.as_slice(), i + 3, t.len());
    if !supported_scheme_exec(scheme.as_slice()) {
        let mut reason = String::from_str("unsupported scheme '");
        push_chars(&mut reason, scheme.as_slice());
        push_char(&mut reason, '\'');
        assert(t@.take(i as int) =~= t@.subrange(0, i as int));
        assert(reason@ =~= "unsupported scheme '"@ + scheme@ + seq!['\'']);
        let e = RuntimeScopeError::InvalidRelayUrl { url: String::from_str(raw), reason };
        return Err(e);
    }
    assert(t@.take(i as int) =~= t@.subrange(0, i as int));
    assert(t@.skip(i + 3) =~= t@.subrange(i + 3, t@.len() as int));
    let r = strip_trailing_exec(rest.as_slice(), CharClass::Slash);
    let (authority, path) = match find_char_exec(r.as_slice(), '/') {
        Some(k) => (slice_of(r.as_slice(), 0, k), slice_of(r.as_slice(), k, r.len())),
        None => (slice_of(r.as_slice(), 0, r.len()), Vec::new()),
    };
    assert(r@.subrange(0, r@.len() as int) =~= r@);
    assert(authority@ == split_authority(r@).0);
    assert(path@ =~= split_authority(r@).1);
    let (host, port) = match rfind_char_exec(authority.as_slice(), ':') {
        Some(k) => {
            let after = slice_of(authority.as_slice(), k + 1, authority.len());
            if all_digits_exec(after.as_slice()) {
                (slice_of(authority.as_slice(), 0, k), Some(after))
            } else {
                (slice_of(authority.as_slice(), 0, authority.len()), None)
            }
        },
        None => (slice_of(authority.as_slice(), 0, authority.len()), None),
    };
    assert(authority@.subrange(0, authority@.len() as int) =~= authority@);
    assert(host@ == split_port(authority@).0);
    assert(opt_chars_view(port) == split_port(authority@).1);
    let suffix = port_suffix_exec(scheme.as_slice(), port);
    let host_lower = ascii_lower_exec(host.as_slice());
    if host_lower.len() == 0 {
        return Err(relay_error(raw, "empty host"));
    }
    let mut out = String::new();
    push_chars(&mut out, scheme.as_slice());
    out.append("://");
    push_chars(&mut out, host_lower.as_slice());
    push_chars(&mut out, suffix.as_slice());
    push_chars(&mut out, path.as_slice());
    proof {
        reveal_strlit("://");
    }
    assert(out@ =~= scheme@ + scheme_separator() + host_lower@ + suffix@ + path@);
    Ok(out)
}

// ---------------------------------------------------------------------------
// Stable identifiers
// ---------------------------------------------------------------------------

/// Which identifier a stable id names (selects the error variant).
#[derive(Debug, Clone, Copy, PartialEq, Eq, Structural)]
pub enum IdField {
    Channel,
    Persona,
}

/// Characters allowed in a stable identifier (before lowercasing).
pub open spec fn is_id_char(c: char) -> bool {
    ('a' <= c && c <= 'z') || ('A' <= c && c <= 'Z') || ('0' <= c && c <= '9') || c == '-'
}

/// Stable id validation: `Ok` with the trimmed, lowercased id, or `Err` with
/// the reason it is rejected.
pub open spec fn validate_id_spec(raw: Seq<char>) -> Result<Seq<char>, Seq<char>> {
    let t = trim(raw);
    if t.len() == 0 {
        Err("empty"@)
    } else if forall|i: int| 0 <= i < t.len() ==> is_id_char(#[trigger] ascii_lower(t)[i]) {
        Ok(ascii_lower(t))
    } else {
        Err("contains characters outside [a-z0-9-]"@)
    }
}

/// The error for a rejected id of `field`.
pub open spec fn id_error(field: IdField, raw: Seq<char>, reason: Seq<char>) -> ScopeErrorView {
    match field {
        IdField::Channel => ScopeErrorView::Channel { id: raw, reason },
        IdField::Persona => ScopeErrorView::Persona { id: raw, reason },
    }
}

fn id_error_exec(field: IdField, raw: &str, reason: &str) -> (e: RuntimeScopeError)
    ensures
        e@ == id_error(field, raw@, reason@),
{
    match field {
        IdField::Channel => RuntimeScopeError::InvalidChannelId {
            id: String::from_str(raw),
            reason: String::from_str(reason),
        },
        IdField::Persona => RuntimeScopeError::InvalidPersonaId {
            id: String::from_str(raw),
            reason: String::from_str(reason),
        },
    }
}

/// Validate and normalize a stable identifier (UUID or coordinate):
/// trimmed, ASCII-lowercased, non-empty, only `[a-z0-9-]`.
pub fn validate_stable_id(field: IdField, raw: &str) -> (res: Result<String, RuntimeScopeError>)
    ensures
        match res {
            Ok(s) => validate_id_spec(raw@) == Ok::<Seq<char>, Seq<char>>(s@),
            Err(e) => validate_id_spec(raw@) matches Err(reason) && e@ == id_error(
                field,
                raw@,
                reason,
            ),
        },
{
    let raw_chars = chars_of(raw);
    let t = trim_chars(raw_chars.as_slice());
    if t.len() == 0 {
        return Err(id_error_exec(field, raw, "empty"));
    }
    let lower = ascii_lower_exec(t.as_slice());
    let mut i: usize = 0;
    while i < lower.len()
        invariant
            i <= lower.len(),
            t@ == trim(raw@),
            t@.len() > 0,
            lower@ == ascii_lower(t@),
            forall|k: int| 0 <= k < i ==> is_id_char(#[trigger] lower@[k]),
        decreases lower.len() - i,
    {
        let c = lower[i];
        if !(('a' <= c && c <= 'z') || ('A' <= c && c <= 'Z') || ('0' <= c && c <= '9') || c == '-') {
            assert(!is_id_char(lower@[i as int]));
            return Err(id_error_exec(field, raw, "contains characters outside [a-z0-9-]"));
        }
        i = i + 1;
    }
    Ok(string_of(lower.as_slice()))
}

// ---------------------------------------------------------------------------
// The context
// ---------------------------------------------------------------------------

/// Canonical identity of an agent's runtime scope.
///
/// `relay_url`, `channel_id`, `persona_id` and `runtime` are the identity;
/// `display_channel` and `display_persona` are labels for humans only and
/// take no part in equality.
#[derive(Debug, Clone)]
pub struct RuntimeScopeContext {
    /// Normalized relay/community URL (e.g. `wss://relay.example.com`).
    pub relay_url: String,
    /// Stable channel identifier (UUID or coordinate).
    pub channel_id: String,
    /// Stable persona identifier (UUID or canonical fallback).
    pub persona_id: String,
    /// Runtime kind.
    pub runtime: RuntimeKind,
    /// Human-readable display name for the channel (not used for identity).
    pub display_channel: String,
    /// Human-readable display name for the persona (not used for identity).
    pub display_persona: String,
}

/// Two contexts name the same scope: their stable fields are equal.
pub open spec fn same_identity(a: RuntimeScopeContext, b: RuntimeScopeContext) -> bool {
    &&& a.relay_url@ == b.relay_url@
    &&& a.channel_id@ == b.channel_id@
    &&& a.persona_id@ == b.persona_id@
    &&& a.runtime == b.runtime
}

impl PartialEq for RuntimeScopeContext {
    fn eq(&self, other: &Self) -> (res: bool) {
        self.relay_url == other.relay_url && self.channel_id == other.channel_id
            && self.persona_id == other.persona_id && self.runtime == other.runtime
    }
}

impl Eq for RuntimeScopeContext {}

impl PartialEqSpecImpl for RuntimeScopeContext {
    open spec fn obeys_eq_spec() -> bool {
        true
    }

    open spec fn eq_spec(&self, other: &RuntimeScopeContext) -> bool {
        same_identity(*self, *other)
    }
}

/// The stable fields that a relay URL, channel id and persona id produce,
/// or the first error among them (relay, then channel, then persona).
pub open spec fn context_spec(relay: Seq<char>, channel: Seq<char>, persona: Seq<char>) -> Result<
    (Seq<char>, Seq<char>, Seq<char>),
    ScopeErrorView,
> {
    match normalize_relay_spec(relay) {
        Err(reason) => Err(ScopeErrorView::Relay { url: relay, reason }),
        Ok(r) => match validate_id_spec(channel) {
            Err(reason) => Err(ScopeErrorView::Channel { id: channel, reason }),
            Ok(c) => match validate_id_spec(persona) {
                Err(reason) => Err(ScopeErrorView::Persona { id: persona, reason }),
                Ok(p) => Ok((r, c, p)),
            },
        },
    }
}

/// The bytes that `path_hash` feeds to the hasher, one entry per write: each
/// string is written as its UTF-8 bytes followed by `0xff` (how `str` is
/// hashed), then the runtime's discriminant as `tag`.
pub open spec fn path_hash_writes(ctx: RuntimeScopeContext, tag: Seq<u8>) -> Seq<Seq<u8>> {
    seq![
        vstd::utf8::encode_utf8(ctx.relay_url@),
        seq![0xffu8],
        vstd::utf8::encode_utf8(ctx.channel_id@),
        seq![0xffu8],
        vstd::utf8::encode_utf8(ctx.persona_id@),
        seq![0xffu8],
        tag,
    ]
}

/// The discriminant of a runtime kind, as its derived `Hash` writes it.
pub open spec fn runtime_discriminant(k: RuntimeKind) -> nat {
    match k {
        RuntimeKind::BuzzAcp => 0,
        RuntimeKind::Hermes => 1,
    }
}

/// The `n` little-endian bytes of `v`.
pub open spec fn le_bytes(v: nat, n: nat) -> Seq<u8>
    decreases n,
{
    if n == 0 {
        Seq::empty()
    } else {
        seq![(v % 256) as u8] + le_bytes(v / 256, (n - 1) as nat)
    }
}

/// The width of `isize` and `usize` in bytes.
pub open spec fn word_bytes() -> nat {
    (usize::BITS / 8) as nat
}

/// std's `isize::to_ne_bytes`: the `size_of::<isize>()` bytes of `i` in the
/// platform's byte order, so its little-endian bytes or their reverse.
#[verifier::external_body]
fn isize_ne_bytes(i: isize) -> (b: Vec<u8>)
    requires
        0 <= i,
    ensures
        b@ == le_bytes(i as nat, word_bytes()) || b@ == le_bytes(i as nat, word_bytes()).reverse(),
{
    i.to_ne_bytes().to_vec()
}

/// What `path_hash` returns with the runtime tag written as `tag`.
pub open spec fn path_hash_with(ctx: RuntimeScopeContext, tag: Seq<u8>) -> Seq<char> {
    hex_u64(DefaultHasher::spec_finish(path_hash_writes(ctx, tag)))
}

impl RuntimeScopeContext {
    /// Canonical fallback persona ID used when a persona is not yet chosen.
    pub const FALLBACK_PERSONA_ID: &'static str = "default-persona";

    /// Construct a context with empty display names.
    pub fn new(relay_url: &str, channel_id: &str, persona_id: &str, runtime: RuntimeKind) -> (res:
        Result<Self, RuntimeScopeError>)
        ensures
            match res {
                Ok(ctx) => {
                    &&& context_spec(relay_url@, channel_id@, persona_id@) == Ok::<
                        (Seq<char>, Seq<char>, Seq<char>),
                        ScopeErrorView,
                    >((ctx.relay_url@, ctx.channel_id@, ctx.persona_id@))
                    &&& ctx.runtime == runtime
                    &&& ctx.display_channel@ == Seq::<char>::empty()
                    &&& ctx.display_persona@ == Seq::<char>::empty()
                },
                Err(e) => context_spec(relay_url@, channel_id@, persona_id@) == Err::<
                    (Seq<char>, Seq<char>, Seq<char>),
                    ScopeErrorView,
                >(e@),
            },
    {
        proof {
            reveal_strlit("");
        }
        Self::with_display(relay_url, channel_id, persona_id, runtime, "", "")
    }

    /// Construct a context with display names. Display names are stored for
    /// human inspection but do not affect equality.
    pub fn with_display(
        relay_url: &str,
        channel_id: &str,
        persona_id: &str,
        runtime: RuntimeKind,
        display_channel: &str,
        display_persona: &str,
    ) -> (res: Result<Self, RuntimeScopeError>)
        ensures
            match res {
                Ok(ctx) => {
                    &&& context_spec(relay_url@, channel_id@, persona_id@) == Ok::<
                        (Seq<char>, Seq<char>, Seq<char>),
                        ScopeErrorView,
                    >((ctx.relay_url@, ctx.channel_id@, ctx.persona_id@))
                    &&& ctx.runtime == runtime
                    &&& ctx.display_channel@ == display_channel@
                    &&& ctx.display_persona@ == display_persona@
                },
                Err(e) => context_spec(relay_url@, channel_id@, persona_id@) == Err::<
                    (Seq<char>, Seq<char>, Seq<char>),
                    ScopeErrorView,
                >(e@),
            },
    {
        let relay = normalize_relay_url(relay_url)?;
        let channel = validate_stable_id(IdField::Channel, channel_id)?;
        let persona = validate_stable_id(IdField::Persona, persona_id)?;
        Ok(RuntimeScopeContext {
            relay_url: relay,
            channel_id: channel,
            persona_id: persona,
            runtime,
            display_channel: String::from_str(display_channel),
            display_persona: String::from_str(display_persona),
        })
    }

    /// Hash of the stable fields, as 16 lowercase hex digits, for filesystem
    /// paths: `DefaultHasher` fed the relay URL, channel id and persona id
    /// (each as `str` hashes) and the runtime's discriminant (as `isize`
    /// hashes: its native-endian bytes).
    pub fn path_hash(&self) -> (s: String)
        ensures
            s@ == path_hash_with(*self, le_bytes(runtime_discriminant(self.runtime), word_bytes()))
                || s@ == path_hash_with(
                *self,
                le_bytes(runtime_discriminant(self.runtime), word_bytes()).reverse(),
            ),
    {
        let mut h = DefaultHasher::new();
        let sep: [u8; 1] = [0xff];
        h.write(self.relay_url.as_str().as_bytes());
        h.write(&sep);
        h.write(self.channel_id.as_str().as_bytes());
        h.write(&sep);
        h.write(self.persona_id.as_str().as_bytes());
        h.write(&sep);
        let discriminant: isize = match self.runtime {
            RuntimeKind::BuzzAcp => 0,
            RuntimeKind::Hermes => 1,
        };
        let tag = isize_ne_bytes(discriminant);
        h.write(tag.as_slice());
        assert(sep@ =~= seq![0xffu8]);
        assert(h@ =~= path_hash_writes(*self, tag@));
        hex_u64_exec(h.finish())
    }
}

// ---------------------------------------------------------------------------
// Laws
// ---------------------------------------------------------------------------

/// No query or fragment delimiter in `s`.
pub open spec fn no_query_or_fragment(s: Seq<char>) -> bool {
    forall|j: int| 0 <= j < s.len() ==> #[trigger] s[j] != '?' && s[j] != '#'
}

/// `strip_trailing` keeps a prefix that does not end in the class.
pub proof fn lemma_strip_trailing_prefix(s: Seq<char>, cls: CharClass)
    ensures
        strip_trailing(s, cls).len() <= s.len(),
        strip_trailing(s, cls) == s.take(strip_trailing(s, cls).len() as int),
        strip_trailing(s, cls).len() > 0 ==> !in_class(cls, strip_trailing(s, cls).last()),
    decreases s.len(),
{
    if s.len() > 0 && in_class(cls, s.last()) {
        lemma_strip_trailing_prefix(s.drop_last(), cls);
        let r = strip_trailing(s.drop_last(), cls);
        assert(s.drop_last().take(r.len() as int) =~= s.take(r.len() as int));
    } else {
        assert(s.take(s.len() as int) =~= s);
    }
}

/// `strip_leading` keeps a suffix.
pub proof fn lemma_strip_leading_suffix(s: Seq<char>, cls: CharClass)
    ensures
        strip_leading(s, cls).len() <= s.len(),
        strip_leading(s, cls) == s.skip(s.len() - strip_leading(s, cls).len()),
    decreases s.len(),
{
    if s.len() > 0 && in_class(cls, s[0]) {
        lemma_strip_leading_suffix(s.drop_first(), cls);
        let r = strip_leading(s.drop_first(), cls);
        assert(s.drop_first().skip(s.len() - 1 - r.len()) =~= s.skip(s.len() - r.len()));
    } else {
        assert(s.skip(0) =~= s);
    }
}

/// Trimming keeps a contiguous part of the text.
pub proof fn lemma_trim_is_subrange(s: Seq<char>)
    ensures
        exists|a: int, b: int| 0 <= a <= b <= s.len() && trim(s) == s.subrange(a, b),
{
    lemma_strip_leading_suffix(s, CharClass::Whitespace);
    let l = strip_leading(s, CharClass::Whitespace);
    lemma_strip_trailing_prefix(l, CharClass::Whitespace);
    let a = s.len() - l.len();
    let b = a + strip_trailing(l, CharClass::Whitespace).len();
    assert(trim(s) =~= s.subrange(a, b));
}

/// A normalized relay URL keeps the documented shape: it starts with a
/// lowercase supported scheme and `://`, holds no query or fragment
/// delimiter, and does not end with `/`.
pub proof fn lemma_normalized_relay_shape(raw: Seq<char>)
    requires
        normalize_relay_spec(raw) is Ok,
    ensures
        ({
            let out = normalize_relay_spec(raw)->Ok_0;
            &&& exists|scheme: Seq<char>|
                is_supported_scheme(scheme) && #[trigger] out.take(scheme.len() as int + 3) == scheme
                    + scheme_separator()
            &&& no_query_or_fragment(out)
            &&& out.len() > 0 && out.last() != '/'
        }),
{
    let t = trim(raw);
    let i = find_seq(t, scheme_separator())->0;
    lemma_find_seq_from_some(t, scheme_separator(), 0);
    let scheme = ascii_lower(t.take(i));
    let rest = t.skip(i + 3);
    let r = strip_trailing(rest, CharClass::Slash);
    lemma_strip_trailing_prefix(rest, CharClass::Slash);
    let (authority, path) = split_authority(r);
    let (host, port) = split_port(authority);
    let host_lower = ascii_lower(host);
    let suffix = port_suffix(scheme, port);
    let out = scheme + scheme_separator() + host_lower + suffix + path;
    assert(normalize_relay_spec(raw)->Ok_0 == out);
    // no query or fragment: every part comes from `t`, which has none
    assert(no_query_or_fragment(t)) by {
        if !no_query_or_fragment(t) {
            let j = choose|j: int| 0 <= j < t.len() && !(t[j] != '?' && t[j] != '#');
            if t[j] == '?' {
                assert(t.contains('?'));
            } else {
                assert(t.contains('#'));
            }
        }
    }
    assert(no_query_or_fragment(rest));
    assert(no_query_or_fragment(r)) by {
        assert forall|j: int| 0 <= j < r.len() implies #[trigger] r[j] != '?' && r[j] != '#' by {
            assert(r[j] == rest.take(r.len() as int)[j]);
        }
    }
    lemma_find_char_from(r, '/', 0);
    assert(no_query_or_fragment(authority));
    assert(no_query_or_fragment(path));
    lemma_find_char_from(authority, ':', 0);
    lemma_rfind_bounds(authority, ':', authority.len() as int);
    assert(no_query_or_fragment(host));
    assert(no_query_or_fragment(host_lower));
    assert(no_query_or_fragment(scheme));
    assert(no_query_or_fragment(suffix));
    assert(no_query_or_fragment(out)) by {
        assert forall|j: int| 0 <= j < out.len() implies #[trigger] out[j] != '?' && out[j] != '#' by {
            let n1 = scheme.len() as int;
            let n2 = n1 + 3;
            let n3 = n2 + host_lower.len();
            let n4 = n3 + suffix.len();
            if j < n1 {
                assert(out[j] == scheme[j]);
            } else if j < n2 {
                assert(out[j] == scheme_separator()[j - n1]);
            } else if j < n3 {
                assert(out[j] == host_lower[j - n2]);
            } else if j < n4 {
                assert(out[j] == suffix[j - n3]);
            } else {
                assert(out[j] == path[j - n4]);
            }
        }
    }
    // the scheme prefix
    assert(out.take(scheme.len() as int + 3) =~= scheme + scheme_separator());
    // no trailing slash
    assert(authority.len() == 0 || forall|j: int| 0 <= j < authority.len() ==> authority[j] != '/');
    assert(host.len() > 0 && host.last() != '/') by {
        assert(host.last() == authority[host.len() - 1]);
    }
    assert(host_lower.last() != '/');
    if path.len() > 0 {
        assert(path.last() == r.last());
        assert(out.last() == path.last());
    } else if suffix.len() > 0 {
        assert(suffix.last() != '/') by {
            let p = port->0;
            if p.len() > 0 {
                assert(suffix.last() == p.last());
                assert(p.last() == authority[authority.len() - 1]);
                assert(all_ascii_digits(p));
                assert('0' <= p[p.len() - 1] && p[p.len() - 1] <= '9');
            } else {
                assert(suffix =~= seq![':']);
            }
        }
        assert(out.last() == suffix.last());
    } else {
        assert(out.last() == host_lower.last());
    }
}

proof fn lemma_rfind_bounds(s: Seq<char>, c: char, end: int)
    requires
        0 <= end <= s.len(),
    ensures
        rfind_char_before(s, c, end) matches Some(k) ==> (0 <= k < end && s[k] == c),
    decreases end,
{
    if end > 0 && s[end - 1] != c {
        lemma_rfind_bounds(s, c, end - 1);
    }
}

/// A validated stable id is non-empty and made of `[a-z0-9-]` only (so
/// it holds no whitespace, newline, separator or dot).
pub proof fn lemma_valid_id_shape(raw: Seq<char>)
    requires
        validate_id_spec(raw) is Ok,
    ensures
        ({
            let id = validate_id_spec(raw)->Ok_0;
            &&& id.len() > 0
            &&& forall|i: int|
                0 <= i < id.len() ==> (('a' <= #[trigger] id[i] && id[i] <= 'z') || ('0' <= id[i]
                    && id[i] <= '9') || id[i] == '-')
            &&& !id.contains('\n')
        }),
{
    let id = validate_id_spec(raw)->Ok_0;
    assert forall|i: int| 0 <= i < id.len() implies (('a' <= #[trigger] id[i] && id[i] <= 'z') || (
    '0' <= id[i] && id[i] <= '9') || id[i] == '-') by {
        assert(is_id_char(id[i]));
    }
}

/// Display names take no part in identity: any two contexts built from the
/// same relay URL, channel id, persona id and runtime are equal, whatever
/// their display names.
pub proof fn lemma_identity_ignores_display_names(a: RuntimeScopeContext, b: RuntimeScopeContext, relay: Seq<char>, channel: Seq<char>, persona: Seq<char>)
    requires
        context_spec(relay, channel, persona) == Ok::<(Seq<char>, Seq<char>, Seq<char>), ScopeErrorView>(
            (a.relay_url@, a.channel_id@, a.persona_id@),
        ),
        context_spec(relay, channel, persona) == Ok::<(Seq<char>, Seq<char>, Seq<char>), ScopeErrorView>(
            (b.relay_url@, b.channel_id@, b.persona_id@),
        ),
        a.runtime == b.runtime,
    ensures
        same_identity(a, b),
{
}


/// The parts a relay URL is normalized from: the lowercased scheme, the
/// host, the port (when the authority ends in `:<digits>`) and the path.
pub open spec fn relay_parts(raw: Seq<char>) -> (Seq<char>, Seq<char>, Option<Seq<char>>, Seq<
    char,
>) {
    let t = trim(raw);
    let i = find_seq(t, scheme_separator())->0;
    let scheme = ascii_lower(t.take(i));
    let r = strip_trailing(t.skip(i + 3), CharClass::Slash);
    let (authority, path) = split_authority(r);
    let (host, port) = split_port(authority);
    (scheme, host, port, path)
}

/// Whether a second normalization pass would read a port out of the host
/// again and change it: the first pass dropped the port or found none, and
/// the lowercased host itself ends in `:<digits>` where that port is the
/// default one (as in `wss://a:443:443`) or nothing precedes the `:` (as
/// in `wss://:5:443`).
pub open spec fn relay_host_splits_again(raw: Seq<char>) -> bool {
    let (scheme, host, port, _) = relay_parts(raw);
    let (host2, port2) = split_port(ascii_lower(host));
    &&& port_suffix(scheme, port).len() == 0
    &&& port2 is Some
    &&& (port2 == Some(default_port(scheme)) || host2.len() == 0)
}

proof fn lemma_find_seq_at(s: Seq<char>, pat: Seq<char>, from: int, k: int)
    requires
        0 <= from <= k,
        occurs_at(s, pat, k),
        forall|j: int| 0 <= j < k ==> !occurs_at(s, pat, j),
    ensures
        find_seq_from(s, pat, from) == Some(k),
    decreases k - from,
{
    if from < k {
        lemma_find_seq_at(s, pat, from + 1, k);
    }
}

proof fn lemma_rfind_last(s: Seq<char>, c: char, k: int, end: int)
    requires
        0 <= k < end <= s.len(),
        s[k] == c,
        forall|j: int| k < j < end ==> s[j] != c,
    ensures
        rfind_char_before(s, c, end) == Some(k),
    decreases end,
{
    if s[end - 1] != c {
        lemma_rfind_last(s, c, k, end - 1);
    }
}

proof fn lemma_lower_idempotent(s: Seq<char>)
    ensures
        ascii_lower(ascii_lower(s)) == ascii_lower(s),
{
    assert(ascii_lower(ascii_lower(s)) =~= ascii_lower(s));
}

/// What the first pass produces, and the shape of its parts.
proof fn lemma_first_pass_parts(raw: Seq<char>)
    requires
        normalize_relay_spec(raw) is Ok,
    ensures
        ({
            let (scheme, host, port, path) = relay_parts(raw);
            &&& normalize_relay_spec(raw)->Ok_0 == scheme + scheme_separator() + ascii_lower(host)
                + port_suffix(scheme, port) + path
            &&& is_supported_scheme(scheme)
            &&& ascii_lower(host).len() > 0
            &&& forall|j: int| 0 <= j < host.len() ==> #[trigger] host[j] != '/'
            &&& path.len() == 0 || path[0] == '/'
            &&& port matches Some(p) ==> all_ascii_digits(p)
        }),
{
    let t = trim(raw);
    let i = find_seq(t, scheme_separator())->0;
    let r = strip_trailing(t.skip(i + 3), CharClass::Slash);
    let (authority, path) = split_authority(r);
    lemma_find_char_from(r, '/', 0);
    assert(forall|j: int| 0 <= j < authority.len() ==> authority[j] != '/');
    lemma_rfind_bounds(authority, ':', authority.len() as int);
}

/// The second pass reads the same scheme and the same remainder.
proof fn lemma_second_pass_head(out: Seq<char>, scheme: Seq<char>, rest: Seq<char>)
    requires
        out == scheme + scheme_separator() + rest,
        is_supported_scheme(scheme),
        rest.len() > 0,
        !is_ws(out.last()),
        no_query_or_fragment(out),
    ensures
        trim(out) == out,
        !out.contains('?') && !out.contains('#'),
        find_seq(out, scheme_separator()) == Some(scheme.len() as int),
        ascii_lower(out.take(scheme.len() as int)) == scheme,
        out.skip(scheme.len() as int + 3) == rest,
{
    let n1 = scheme.len() as int;
    assert(!is_ws(out[0])) by {
        assert(out[0] == scheme[0]);
    }
    assert(strip_leading(out, CharClass::Whitespace) == out);
    assert(strip_trailing(out, CharClass::Whitespace) == out);
    if out.contains('?') || out.contains('#') {
        let j = choose|j: int| 0 <= j < out.len() && (out[j] == '?' || out[j] == '#');
        assert(out[j] != '?' && out[j] != '#');
    }
    assert(out.subrange(n1, n1 + 3) =~= scheme_separator());
    assert forall|j: int| 0 <= j < n1 implies !occurs_at(out, scheme_separator(), j) by {
        assert(out[j] == scheme[j]);
        if occurs_at(out, scheme_separator(), j) {
            assert(out.subrange(j, j + 3)[0] == ':');
        }
    }
    lemma_find_seq_at(out, scheme_separator(), 0, n1);
    assert(out.take(n1) =~= scheme);
    assert(ascii_lower(scheme) =~= scheme);
    assert(out.skip(n1 + 3) =~= rest);
}

/// The second pass splits the remainder at the start of the path again.
proof fn lemma_second_pass_authority(a2: Seq<char>, path: Seq<char>)
    requires
        a2.len() > 0,
        forall|j: int| 0 <= j < a2.len() ==> #[trigger] a2[j] != '/',
        path.len() == 0 || path[0] == '/',
        (a2 + path).last() != '/',
    ensures
        strip_trailing(a2 + path, CharClass::Slash) == a2 + path,
        split_authority(a2 + path) == (a2, path),
{
    let rest = a2 + path;
    lemma_find_char_from(rest, '/', 0);
    if path.len() > 0 {
        assert(rest[a2.len() as int] == '/');
        assert(rest.take(a2.len() as int) =~= a2);
        assert(rest.skip(a2.len() as int) =~= path);
    } else {
        assert(rest =~= a2);
        assert(forall|j: int| 0 <= j < rest.len() ==> rest[j] == a2[j]);
    }
}

/// The second pass reads the same host and port suffix again.
proof fn lemma_second_pass_port(scheme: Seq<char>, hl: Seq<char>, port: Option<Seq<char>>)
    requires
        is_supported_scheme(scheme),
        ascii_lower(hl) == hl,
        port matches Some(p) ==> all_ascii_digits(p),
        hl.len() > 0,
        !(port_suffix(scheme, port).len() == 0 && split_port(hl).1 is Some && (split_port(hl).1
            == Some(default_port(scheme)) || split_port(hl).0.len() == 0)),
    ensures
        ({
            let a2 = hl + port_suffix(scheme, port);
            let (host2, port2) = split_port(a2);
            &&& ascii_lower(host2) + port_suffix(scheme, port2) == a2
            &&& ascii_lower(host2).len() > 0
        }),
{
    let sfx = port_suffix(scheme, port);
    let a2 = hl + sfx;
    let (host2, port2) = split_port(a2);
    if sfx.len() > 0 {
        let p = port->0;
        assert(sfx =~= seq![':'] + p);
        assert forall|j: int| hl.len() < j < a2.len() implies a2[j] != ':' by {
            assert(a2[j] == p[j - hl.len() - 1]);
        }
        lemma_rfind_last(a2, ':', hl.len() as int, a2.len() as int);
        assert(a2.skip((hl.len() + 1) as int) =~= p);
        assert(a2.take(hl.len() as int) =~= hl);
    } else {
        assert(a2 =~= hl);
        lemma_rfind_bounds(hl, ':', hl.len() as int);
        if port2 is Some {
            let k = rfind_char(hl, ':')->0;
            assert(hl =~= hl.take(k) + seq![':'] + hl.skip(k + 1));
            assert(ascii_lower(host2) =~= host2) by {
                assert forall|j: int| 0 <= j < host2.len() implies #[trigger] ascii_lower(
                    host2,
                )[j] == host2[j] by {
                    assert(host2[j] == hl[j]);
                    assert(ascii_lower(hl)[j] == hl[j]);
                }
            }
            assert(ascii_lower(host2) + port_suffix(scheme, port2) =~= a2);
        }
    }
}

/// Normalizing a normalized relay URL changes nothing, except where the
/// normalized URL ends in whitespace (a second pass trims it) or a second
/// pass would read a different host (`relay_host_splits_again`).
pub proof fn lemma_normalize_relay_idempotent(raw: Seq<char>)
    requires
        normalize_relay_spec(raw) is Ok,
        !is_ws(normalize_relay_spec(raw)->Ok_0.last()),
        !relay_host_splits_again(raw),
    ensures
        normalize_relay_spec(normalize_relay_spec(raw)->Ok_0) == normalize_relay_spec(raw),
{
    lemma_normalized_relay_shape(raw);
    lemma_first_pass_parts(raw);
    let (scheme, host, port, path) = relay_parts(raw);
    let hl = ascii_lower(host);
    let sfx = port_suffix(scheme, port);
    let a2 = hl + sfx;
    let rest = a2 + path;
    let out = normalize_relay_spec(raw)->Ok_0;
    assert(out =~= scheme + scheme_separator() + rest);
    lemma_second_pass_head(out, scheme, rest);
    lemma_lower_idempotent(host);
    assert forall|j: int| 0 <= j < a2.len() implies #[trigger] a2[j] != '/' by {
        if j < hl.len() {
            assert(hl[j] == ascii_lower_char(host[j]));
        } else {
            let p = port->0;
            assert(sfx =~= seq![':'] + p);
            if j > hl.len() {
                assert(a2[j] == p[j - hl.len() - 1]);
            }
        }
    }
    assert(rest.last() == out.last());
    lemma_second_pass_authority(a2, path);
    lemma_second_pass_port(scheme, hl, port);
    let (host2, port2) = split_port(a2);
    assert(ascii_lower(out.take(scheme.len() as int)) == scheme);
    assert(out.skip(scheme.len() as int + 3) == rest);
    assert(strip_trailing(rest, CharClass::Slash) == rest);
    assert(split_authority(rest) == (a2, path));
    assert(scheme + scheme_separator() + ascii_lower(host2) + port_suffix(scheme, port2) + path
        =~= out);
    assert(normalize_relay_spec(out) == Ok::<Seq<char>, Seq<char>>(out));
}

/// The authority of a relay URL: what follows `://` up to the first `/`
/// (trailing slashes removed first).
pub open spec fn relay_authority(raw: Seq<char>) -> Seq<char> {
    let t = trim(raw);
    let i = find_seq(t, scheme_separator())->0;
    split_authority(strip_trailing(t.skip(i + 3), CharClass::Slash)).0
}

/// At most one `:` in `s`.
pub open spec fn at_most_one_colon(s: Seq<char>) -> bool {
    forall|j: int, k: int| 0 <= j < k < s.len() ==> !(#[trigger] s[j] == ':' && #[trigger] s[k] == ':')
}

proof fn lemma_rfind_lower(s: Seq<char>, end: int)
    requires
        0 <= end <= s.len(),
    ensures
        rfind_char_before(ascii_lower(s), ':', end) == rfind_char_before(s, ':', end),
    decreases end,
{
    if end > 0 {
        assert(ascii_lower(s)[end - 1] == ascii_lower_char(s[end - 1]));
        lemma_rfind_lower(s, end - 1);
    }
}

/// The same split of the port before and after lowercasing.
proof fn lemma_split_port_lower(a: Seq<char>)
    ensures
        split_port(ascii_lower(a)).1 is Some <==> split_port(a).1 is Some,
        split_port(a).1 is None ==> split_port(ascii_lower(a)).0 == ascii_lower(a),
{
    lemma_rfind_lower(a, a.len() as int);
    lemma_rfind_bounds(a, ':', a.len() as int);
    let la = ascii_lower(a);
    if rfind_char(a, ':') is Some {
        let k = rfind_char(a, ':')->0;
        assert(la.skip(k + 1) =~= ascii_lower(a.skip(k + 1)));
        let x = a.skip(k + 1);
        if all_ascii_digits(x) {
            assert forall|j: int| 0 <= j < x.len() implies #[trigger] ascii_lower(x)[j] >= '0'
                && ascii_lower(x)[j] <= '9' by {
                assert(x[j] >= '0' && x[j] <= '9');
            }
            assert(all_ascii_digits(ascii_lower(x)));
        } else {
            let j = choose|j: int| 0 <= j < x.len() && !('0' <= x[j] && x[j] <= '9');
            assert(ascii_lower(x)[j] == ascii_lower_char(x[j]));
            assert(!all_ascii_digits(ascii_lower(x)));
        }
    }
}

/// What follows `://` in a relay URL, trailing slashes removed.
pub open spec fn relay_rest(raw: Seq<char>) -> Seq<char> {
    let t = trim(raw);
    let i = find_seq(t, scheme_separator())->0;
    strip_trailing(t.skip(i + 3), CharClass::Slash)
}

proof fn lemma_rest_no_ws(raw: Seq<char>)
    requires
        find_seq(trim(raw), scheme_separator()) is Some,
        forall|j: int| 0 <= j < raw.len() ==> !is_ws(#[trigger] raw[j]),
    ensures
        forall|j: int| 0 <= j < relay_rest(raw).len() ==> !is_ws(#[trigger] relay_rest(raw)[j]),
{
    let t = trim(raw);
    let i = find_seq(t, scheme_separator())->0;
    lemma_find_seq_from_some(t, scheme_separator(), 0);
    lemma_trim_is_subrange(raw);
    let rest = t.skip(i + 3);
    let r = relay_rest(raw);
    lemma_strip_trailing_prefix(rest, CharClass::Slash);
    let (a, b) = choose|a: int, b: int| 0 <= a <= b <= raw.len() && trim(raw) == raw.subrange(a, b);
    assert forall|j: int| 0 <= j < r.len() implies !is_ws(#[trigger] r[j]) by {
        assert(r[j] == rest[j]);
        assert(rest[j] == t[i + 3 + j]);
        assert(t[i + 3 + j] == raw[a + i + 3 + j]);
    }
}

/// No whitespace in the raw URL leaves none at the end of the normalized one.
#[verifier::spinoff_prover]
proof fn lemma_no_trailing_ws(raw: Seq<char>)
    requires
        normalize_relay_spec(raw) is Ok,
        forall|j: int| 0 <= j < raw.len() ==> !is_ws(#[trigger] raw[j]),
    ensures
        !is_ws(normalize_relay_spec(raw)->Ok_0.last()),
{
    lemma_first_pass_parts(raw);
    assert(find_seq(trim(raw), scheme_separator()) is Some);
    lemma_rest_no_ws(raw);
    let r = relay_rest(raw);
    let (authority, path) = split_authority(r);
    let (scheme, host, port, path2) = relay_parts(raw);
    assert(path2 == path);
    assert(split_port(authority) == (host, port));
    lemma_find_char_from(r, '/', 0);
    lemma_rfind_bounds(authority, ':', authority.len() as int);
    let hl = ascii_lower(host);
    let sfx = port_suffix(scheme, port);
    let out = normalize_relay_spec(raw)->Ok_0;
    assert(out == scheme + scheme_separator() + hl + sfx + path);
    if path.len() > 0 {
        assert(out.last() == path.last());
        assert(path.last() == r[r.len() - 1]);
    } else if sfx.len() > 0 {
        assert(out.last() == sfx.last());
        let p = port->0;
        if p.len() > 0 {
            assert(sfx =~= seq![':'] + p);
            assert(sfx.last() == p[p.len() - 1]);
        } else {
            assert(sfx =~= seq![':']);
        }
    } else {
        assert(out.last() == hl.last());
        assert(hl.last() == ascii_lower_char(host[host.len() - 1]));
        assert(host[host.len() - 1] == authority[host.len() - 1]);
        assert(authority[host.len() - 1] == r[host.len() - 1]);
    }
}

/// An authority with at most one `:` leaves no port in the host to split
/// off again.
proof fn lemma_single_colon_no_resplit(raw: Seq<char>)
    requires
        normalize_relay_spec(raw) is Ok,
        at_most_one_colon(relay_authority(raw)),
    ensures
        !relay_host_splits_again(raw),
{
    let authority = relay_authority(raw);
    let (scheme, host, port, _) = relay_parts(raw);
    lemma_rfind_bounds(authority, ':', authority.len() as int);
    if port is Some {
        let k = rfind_char(authority, ':')->0;
        assert(host =~= authority.take(k));
        assert forall|j: int| 0 <= j < host.len() implies #[trigger] host[j] != ':' by {
            assert(host[j] == authority[j]);
            assert(authority[k] == ':');
        }
        lemma_rfind_bounds(host, ':', host.len() as int);
        lemma_split_port_lower(host);
        assert(split_port(host).1 is None);
    } else {
        assert(host == authority);
        lemma_split_port_lower(host);
    }
}

/// Normalization is idempotent on relay URLs written without whitespace
/// and with at most one `:` in the authority: normalizing the normalized
/// URL gives it back.
pub proof fn lemma_normalize_relay_idempotent_plain(raw: Seq<char>)
    requires
        normalize_relay_spec(raw) is Ok,
        forall|j: int| 0 <= j < raw.len() ==> !is_ws(#[trigger] raw[j]),
        at_most_one_colon(relay_authority(raw)),
    ensures
        normalize_relay_spec(normalize_relay_spec(raw)->Ok_0) == normalize_relay_spec(raw),
{
    lemma_no_trailing_ws(raw);
    lemma_single_colon_no_resplit(raw);
    lemma_normalize_relay_idempotent(raw);
}


/// The default port of a scheme is never kept: for every supported scheme
/// and host, `<scheme>://<host>:<default port>` names the same relay as
/// `<scheme>://<host>`, and both normalize to the scheme, `://` and the
/// lowercased host.
pub proof fn lemma_default_port_is_stripped(scheme: Seq<char>, host: Seq<char>)
    requires
        is_supported_scheme(scheme),
        host.len() > 0,
        forall|j: int|
            0 <= j < host.len() ==> #[trigger] host[j] != '/' && host[j] != '?' && host[j] != '#'
                && host[j] != ':',
        !is_ws(host.last()),
    ensures
        normalize_relay_spec(scheme + scheme_separator() + host + seq![':'] + default_port(scheme))
            == normalize_relay_spec(scheme + scheme_separator() + host),
        normalize_relay_spec(scheme + scheme_separator() + host) == Ok::<Seq<char>, Seq<char>>(
            scheme + scheme_separator() + ascii_lower(host),
        ),
{
    let dp = default_port(scheme);
    let with_port = host + seq![':'] + dp;
    lemma_relay_without_port_shape(scheme, host, with_port);
    lemma_relay_without_port_shape(scheme, host, host);
    assert(scheme + scheme_separator() + host + seq![':'] + dp =~= scheme + scheme_separator()
        + with_port);
}

/// Normalizing `<scheme>://<rest>` where `rest` is the host, optionally
/// followed by `:` and the scheme's default port.
proof fn lemma_relay_without_port_shape(scheme: Seq<char>, host: Seq<char>, rest: Seq<char>)
    requires
        is_supported_scheme(scheme),
        host.len() > 0,
        forall|j: int|
            0 <= j < host.len() ==> #[trigger] host[j] != '/' && host[j] != '?' && host[j] != '#'
                && host[j] != ':',
        !is_ws(host.last()),
        rest == host || rest == host + seq![':'] + default_port(scheme),
    ensures
        normalize_relay_spec(scheme + scheme_separator() + rest) == Ok::<Seq<char>, Seq<char>>(
            scheme + scheme_separator() + ascii_lower(host),
        ),
{
    let out = scheme + scheme_separator() + rest;
    let dp = default_port(scheme);
    assert(dp.len() > 0 && forall|j: int| 0 <= j < dp.len() ==> '0' <= #[trigger] dp[j] && dp[j] <= '9');
    assert(rest.len() > 0);
    assert(!is_ws(out.last()) && out.last() != '/') by {
        assert(out.last() == rest.last());
        if rest != host {
            assert(rest.last() == dp[dp.len() - 1]);
        }
    }
    assert forall|j: int| 0 <= j < rest.len() implies #[trigger] rest[j] != '/' && rest[j] != '?'
        && rest[j] != '#' by {
        if j >= host.len() && rest != host {
            if j > host.len() {
                assert(rest[j] == dp[j - host.len() - 1]);
            }
        }
    }
    assert(no_query_or_fragment(out)) by {
        assert forall|j: int| 0 <= j < out.len() implies #[trigger] out[j] != '?' && out[j] != '#' by {
            let n = scheme.len() + 3;
            if j >= n {
                assert(out[j] == rest[j - n]);
            } else if j >= scheme.len() {
                assert(out[j] == scheme_separator()[j - scheme.len()]);
            } else {
                assert(out[j] == scheme[j]);
            }
        }
    }
    lemma_second_pass_head(out, scheme, rest);
    assert(strip_trailing(rest, CharClass::Slash) == rest);
    lemma_find_char_from(rest, '/', 0);
    assert(split_authority(rest) == (rest, Seq::<char>::empty()));
    lemma_rfind_bounds(host, ':', host.len() as int);
    if rest == host {
        assert(split_port(host) == (host, Option::<Seq<char>>::None));
    } else {
        assert(rest[host.len() as int] == ':');
        assert forall|j: int| host.len() < j < rest.len() implies rest[j] != ':' by {
            assert(rest[j] == dp[j - host.len() - 1]);
        }
        lemma_rfind_last(rest, ':', host.len() as int, rest.len() as int);
        assert(rest.skip(host.len() as int + 1) =~= dp);
        assert(rest.take(host.len() as int) =~= host);
        assert(split_port(rest) == (host, Some(dp)));
    }
    assert(ascii_lower(host).len() > 0);
    assert(scheme + scheme_separator() + ascii_lower(host) + Seq::<char>::empty() + Seq::<char>::empty()
        =~= scheme + scheme_separator() + ascii_lower(host));
}

/// Normalizing `<scheme>://<host>` optionally followed by `:<port>`.
proof fn lemma_relay_host_port_shape(scheme: Seq<char>, host: Seq<char>, rest: Seq<char>, port: Seq<char>)
    requires
        is_supported_scheme(scheme),
        host.len() > 0,
        forall|j: int|
            0 <= j < host.len() ==> #[trigger] host[j] != '/' && host[j] != '?' && host[j] != '#'
                && host[j] != ':',
        !is_ws(host.last()),
        port.len() > 0,
        all_ascii_digits(port),
        rest == host || rest == host + seq![':'] + port,
    ensures
        normalize_relay_spec(scheme + scheme_separator() + rest) == Ok::<Seq<char>, Seq<char>>(
            scheme + scheme_separator() + ascii_lower(host) + if rest == host {
                Seq::<char>::empty()
            } else {
                port_suffix(scheme, Some(port))
            },
        ),
{
    let out = scheme + scheme_separator() + rest;
    let dp = port;
    assert(rest.len() > 0);
    assert(!is_ws(out.last()) && out.last() != '/') by {
        assert(out.last() == rest.last());
        if rest != host {
            assert(rest.last() == dp[dp.len() - 1]);
            assert('0' <= dp[dp.len() - 1] && dp[dp.len() - 1] <= '9');
        }
    }
    assert forall|j: int| 0 <= j < rest.len() implies #[trigger] rest[j] != '/' && rest[j] != '?'
        && rest[j] != '#' by {
        if j >= host.len() && rest != host {
            if j > host.len() {
                assert(rest[j] == dp[j - host.len() - 1]);
                assert('0' <= dp[j - host.len() - 1]);
            }
        }
    }
    assert(no_query_or_fragment(out)) by {
        assert forall|j: int| 0 <= j < out.len() implies #[trigger] out[j] != '?' && out[j] != '#' by {
            let n = scheme.len() + 3;
            if j >= n {
                assert(out[j] == rest[j - n]);
            } else if j >= scheme.len() {
                assert(out[j] == scheme_separator()[j - scheme.len()]);
            } else {
                assert(out[j] == scheme[j]);
            }
        }
    }
    lemma_second_pass_head(out, scheme, rest);
    assert(strip_trailing(rest, CharClass::Slash) == rest);
    lemma_find_char_from(rest, '/', 0);
    assert(split_authority(rest) == (rest, Seq::<char>::empty()));
    lemma_rfind_bounds(host, ':', host.len() as int);
    if rest == host {
        assert(split_port(host) == (host, Option::<Seq<char>>::None));
    } else {
        assert(rest[host.len() as int] == ':');
        assert forall|j: int| host.len() < j < rest.len() implies rest[j] != ':' by {
            assert(rest[j] == dp[j - host.len() - 1]);
        }
        lemma_rfind_last(rest, ':', host.len() as int, rest.len() as int);
        assert(rest.skip(host.len() as int + 1) =~= dp);
        assert(rest.take(host.len() as int) =~= host);
        assert(split_port(rest) == (host, Some(dp)));
    }
    assert(ascii_lower(host).len() > 0);
    if rest == host {
        assert(scheme + scheme_separator() + ascii_lower(host) + Seq::<char>::empty() + Seq::<char>::empty()
            =~= scheme + scheme_separator() + ascii_lower(host) + Seq::<char>::empty());
    } else {
        assert(scheme + scheme_separator() + ascii_lower(host) + port_suffix(scheme, Some(port))
            + Seq::<char>::empty() =~= scheme + scheme_separator() + ascii_lower(host) + port_suffix(
            scheme,
            Some(port),
        ));
    }
}


/// A port other than the scheme's default is kept: `<scheme>://<host>:<port>`
/// normalizes to the scheme, `://`, the lowercased host, `:` and the port.
pub proof fn lemma_other_port_is_kept(scheme: Seq<char>, host: Seq<char>, port: Seq<char>)
    requires
        is_supported_scheme(scheme),
        host.len() > 0,
        forall|j: int|
            0 <= j < host.len() ==> #[trigger] host[j] != '/' && host[j] != '?' && host[j] != '#'
                && host[j] != ':',
        !is_ws(host.last()),
        port.len() > 0,
        all_ascii_digits(port),
        port != default_port(scheme),
    ensures
        normalize_relay_spec(scheme + scheme_separator() + host + seq![':'] + port) == Ok::<
            Seq<char>,
            Seq<char>,
        >(scheme + scheme_separator() + ascii_lower(host) + seq![':'] + port),
{
    let rest = host + seq![':'] + port;
    lemma_relay_host_port_shape(scheme, host, rest, port);
    assert(rest != host);
    assert(scheme + scheme_separator() + host + seq![':'] + port =~= scheme + scheme_separator() + rest);
    assert(scheme + scheme_separator() + ascii_lower(host) + port_suffix(scheme, Some(port)) =~= scheme
        + scheme_separator() + ascii_lower(host) + seq![':'] + port);
}

} // verus!
