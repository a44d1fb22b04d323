//! Memory persistence harness: scenario verdicts and the JSON report.
//!
//! The harness proves that memory persists across restarts in the same
//! scope and does not leak between scopes. Running the scenarios touches
//! the filesystem; what is decided from what was observed (the verdict of a
//! scenario, the redaction of the recovered marker, the report) lives here.

use vstd::prelude::*;

use crate::runtime_scope::{runtime_name, RuntimeKind, RuntimeScopeContext};
use crate::text::{decimal, push_char, push_decimal};

verus! {

/// Schema version for the harness report JSON.
pub const REPORT_SCHEMA_VERSION: u32 = 1;

/// A single scenario result row in the harness report.
#[derive(Debug, Clone)]
pub struct ScenarioResult {
    pub name: String,
    pub relay_url: String,
    pub channel_id: String,
    pub persona_id: String,
    pub runtime: RuntimeKind,
    pub marker_recovered: Option<String>,
    pub expected_recover: bool,
    pub passed: bool,
}

/// Harness report.
#[derive(Debug, Clone)]
pub struct HarnessReport {
    pub schema: u32,
    pub timestamp: String,
    pub os: String,
    pub arch: String,
    pub scenarios: Vec<ScenarioResult>,
    pub all_passed: bool,
}

/// A harness scenario.
#[derive(Debug, Clone)]
pub enum Scenario {
    /// Write the marker under the context's scope.
    Write(RuntimeScopeContext, String),
    /// Restart in the context's scope; whether the marker should be recovered.
    Restart(RuntimeScopeContext, bool),
}

// ---------------------------------------------------------------------------
// JSON string escaping
// ---------------------------------------------------------------------------

pub open spec fn escape_char(c: char) -> Seq<char> {
    if c == '\\' {
        seq!['\\', '\\']
    } else if c == '"' {
        seq!['\\', '"']
    } else {
        seq![c]
    }
}

/// Backslashes doubled, then double quotes backslash-escaped.
pub open spec fn escape_json_spec(s: Seq<char>) -> Seq<char>
    decreases s.len(),
{
    if s.len() == 0 {
        Seq::empty()
    } else {
        escape_char(s[0]) + escape_json_spec(s.drop_first())
    }
}

proof fn lemma_escape_append(a: Seq<char>, b: Seq<char>)
    ensures
        escape_json_spec(a + b) == escape_json_spec(a) + escape_json_spec(b),
    decreases a.len(),
{
    if a.len() == 0 {
        assert(a + b =~= b);
    } else {
        lemma_escape_append(a.drop_first(), b);
        assert((a + b).drop_first() =~= a.drop_first() + b);
        assert(escape_json_spec(a + b) =~= escape_char(a[0]) + escape_json_spec(a.drop_first()
            + b));
    }
}

/// `s.replace('\\', "\\\\").replace('"', "\\\"")`.
pub fn escape_json(s: &str) -> (res: String)
    ensures
        res@ == escape_json_spec(s@),
{
    let v = crate::text::chars_of(s);
    let mut out = String::new();
    let mut i: usize = 0;
    while i < v.len()
        invariant
            i <= v.len(),
            v@ == s@,
            out@ == escape_json_spec(v@.take(i as int)),
        decreases v.len() - i,
    {
        let c = v[i];
        proof {
            lemma_escape_append(v@.take(i as int), seq![c]);
            assert(v@.take(i + 1) =~= v@.take(i as int) + seq![c]);
            assert(escape_json_spec(seq![c]) =~= escape_char(c)) by {
                assert(seq![c].drop_first() =~= Seq::<char>::empty());
                assert(escape_json_spec(Seq::<char>::empty()) == Seq::<char>::empty());
            }
        }
        if c == '\\' {
            push_char(&mut out, '\\');
            push_char(&mut out, '\\');
        } else if c == '"' {
            push_char(&mut out, '\\');
            push_char(&mut out, '"');
        } else {
            push_char(&mut out, c);
        }
        assert(out@ =~= escape_json_spec(v@.take(i + 1)));
        i = i + 1;
    }
    assert(v@.take(v.len() as int) =~= v@);
    out
}

/// The body of a JSON string literal is well formed: every backslash starts
/// a `\\` or `\"` escape and no double quote appears unescaped.
pub open spec fn json_string_body_ok(t: Seq<char>) -> bool
    decreases t.len(),
{
    if t.len() == 0 {
        true
    } else if t[0] == '\\' {
        t.len() >= 2 && (t[1] == '\\' || t[1] == '"') && json_string_body_ok(t.skip(2))
    } else if t[0] == '"' {
        false
    } else {
        json_string_body_ok(t.skip(1))
    }
}

/// Escaped text is always a well-formed JSON string body, so a field value
/// can never end its string early.
pub proof fn lemma_escape_is_well_formed(s: Seq<char>)
    ensures
        json_string_body_ok(escape_json_spec(s)),
    decreases s.len(),
{
    if s.len() > 0 {
        lemma_escape_is_well_formed(s.drop_first());
        let rest = escape_json_spec(s.drop_first());
        let e = escape_json_spec(s);
        assert(e == escape_char(s[0]) + rest);
        if s[0] == '\\' || s[0] == '"' {
            assert(e.skip(2) =~= rest);
        } else {
            assert(e.skip(1) =~= rest);
        }
    }
}

// ---------------------------------------------------------------------------
// The report
// ---------------------------------------------------------------------------

pub open spec fn bool_text(b: bool) -> Seq<char> {
    if b {
        "true"@
    } else {
        "false"@
    }
}

/// `"<escaped>"` or `null`.
pub open spec fn marker_text(m: Option<String>) -> Seq<char> {
    match m {
        Some(m) => "\""@ + escape_json_spec(m@) + "\""@,
        None => "null"@,
    }
}

/// A string field: its label (up to the opening quote), the escaped value,
/// and the closing quote and comma.
pub open spec fn str_field(label: Seq<char>, value: Seq<char>) -> Seq<char> {
    label + escape_json_spec(value) + "\",\n"@
}

/// The identity fields of a scenario object.
pub open spec fn scenario_head(sc: ScenarioResult) -> Seq<char> {
    "    {\n"@ + str_field("      \"name\": \""@, sc.name@) + str_field(
        "      \"relay_url\": \""@,
        sc.relay_url@,
    ) + str_field("      \"channel_id\": \""@, sc.channel_id@) + str_field(
        "      \"persona_id\": \""@,
        sc.persona_id@,
    )
}

/// The outcome fields of a scenario object, one line each.
pub open spec fn scenario_tail_lines(sc: ScenarioResult) -> Seq<char> {
    "      \"runtime\": \""@ + runtime_name(sc.runtime) + "\",\n"@ + "      \"marker_recovered\": "@
        + marker_text(sc.marker_recovered) + ",\n"@ + "      \"expected_recover\": "@ + bool_text(
        sc.expected_recover,
    ) + ",\n"@ + "      \"passed\": "@ + bool_text(sc.passed) + "\n"@
}

/// The outcome fields of a scenario object and its closing brace; `last`
/// drops the trailing comma.
pub open spec fn scenario_tail(sc: ScenarioResult, last: bool) -> Seq<char> {
    scenario_tail_lines(sc) + if last {
        "    }\n"@
    } else {
        "    },\n"@
    }
}

/// The JSON object of one scenario; `last` drops the trailing comma.
pub open spec fn scenario_json(sc: ScenarioResult, last: bool) -> Seq<char> {
    scenario_head(sc) + scenario_tail(sc, last)
}

/// The JSON objects of the first `k` scenarios of `all`.
pub open spec fn scenarios_json(all: Seq<ScenarioResult>, k: int) -> Seq<char>
    decreases k,
{
    if k <= 0 {
        Seq::empty()
    } else {
        scenarios_json(all, k - 1) + scenario_json(all[k - 1], k == all.len())
    }
}

/// The JSON text of a report.
pub open spec fn report_json(r: HarnessReport) -> Seq<char> {
    "{\n"@ + "  \"schema\": "@ + decimal(r.schema as nat) + ",\n"@ + "  \"timestamp\": \""@
        + escape_json_spec(r.timestamp@) + "\",\n"@ + "  \"os\": \""@ + escape_json_spec(r.os@)
        + "\",\n"@ + "  \"arch\": \""@ + escape_json_spec(r.arch@) + "\",\n"@
        + "  \"scenarios\": [\n"@ + scenarios_json(r.scenarios@, r.scenarios@.len() as int)
        + "  ],\n"@ + "  \"all_passed\": "@ + bool_text(r.all_passed) + "\n"@ + "}\n"@
}

fn push_bool(s: &mut String, b: bool)
    ensures
        final(s)@ == old(s)@ + bool_text(b),
{
    if b {
        s.append("true");
    } else {
        s.append("false");
    }
}

fn push_str_field(s: &mut String, label: &str, value: &str)
    ensures
        final(s)@ == old(s)@ + str_field(label@, value@),
{
    let ghost start = s@;
    s.append(label);
    s.append(escape_json(value).as_str());
    s.append("\",\n");
    assert(s@ =~= start + str_field(label@, value@));
}

fn push_scenario_head(s: &mut String, sc: &ScenarioResult)
    ensures
        final(s)@ == old(s)@ + scenario_head(*sc),
{
    let ghost start = s@;
    s.append("    {\n");
    push_str_field(s, "      \"name\": \"", sc.name.as_str());
    push_str_field(s, "      \"relay_url\": \"", sc.relay_url.as_str());
    push_str_field(s, "      \"channel_id\": \"", sc.channel_id.as_str());
    push_str_field(s, "      \"persona_id\": \"", sc.persona_id.as_str());
    assert(s@ =~= start + scenario_head(*sc));
}

fn push_marker(s: &mut String, m: &Option<String>)
    ensures
        final(s)@ == old(s)@ + marker_text(*m),
{
    let ghost start = s@;
    match m {
        Some(m) => {
            s.append("\"");
            s.append(escape_json(m.as_str()).as_str());
            s.append("\"");
        },
        None => {
            s.append("null");
        },
    }
    assert(s@ =~= start + marker_text(*m));
}

#[verifier::spinoff_prover]
fn push_scenario_tail(s: &mut String, sc: &ScenarioResult, last: bool)
    ensures
        final(s)@ == old(s)@ + scenario_tail(*sc, last),
{
    let ghost start = s@;
    s.append("      \"runtime\": \"");
    s.append(sc.runtime.as_str());
    s.append("\",\n");
    s.append("      \"marker_recovered\": ");
    push_marker(s, &sc.marker_recovered);
    s.append(",\n");
    s.append("      \"expected_recover\": ");
    push_bool(s, sc.expected_recover);
    s.append(",\n");
    s.append("      \"passed\": ");
    push_bool(s, sc.passed);
    s.append("\n");
    if last {
        s.append("    }\n");
    } else {
        s.append("    },\n");
    }
    assert(s@ =~= start + scenario_tail(*sc, last));
}

fn push_scenario(s: &mut String, sc: &ScenarioResult, last: bool)
    ensures
        final(s)@ == old(s)@ + scenario_json(*sc, last),
{
    let ghost start = s@;
    push_scenario_head(s, sc);
    push_scenario_tail(s, sc, last);
    assert(s@ =~= start + scenario_json(*sc, last));
}

impl HarnessReport {
    /// Serialize to a minimal JSON string. The report never carries secrets:
    /// recovered markers are already redacted by `scenario_result`.
    pub fn to_json(&self) -> (s: String)
        ensures
            s@ == report_json(*self),
    {
        let mut s = String::new();
        s.append("{\n");
        s.append("  \"schema\": ");
        push_decimal(&mut s, self.schema as u64);
        s.append(",\n");
        s.append("  \"timestamp\": \"");
        s.append(escape_json(self.timestamp.as_str()).as_str());
        s.append("\",\n");
        s.append("  \"os\": \"");
        s.append(escape_json(self.os.as_str()).as_str());
        s.append("\",\n");
        s.append("  \"arch\": \"");
        s.append(escape_json(self.arch.as_str()).as_str());
        s.append("\",\n");
        s.append("  \"scenarios\": [\n");
        let ghost head = s@;
        let n = self.scenarios.len();
        let mut i: usize = 0;
        while i < n
            invariant
                n == self.scenarios@.len(),
                i <= n,
                s@ == head + scenarios_json(self.scenarios@, i as int),
            decreases n - i,
        {
            push_scenario(&mut s, &self.scenarios[i], i + 1 == n);
            i = i + 1;
        }
        s.append("  ],\n");
        s.append("  \"all_passed\": ");
        push_bool(&mut s, self.all_passed);
        s.append("\n");
        s.append("}\n");
        assert(s@ =~= report_json(*self));
        s
    }
}

// ---------------------------------------------------------------------------
// Scenario verdicts
// ---------------------------------------------------------------------------

/// The first 8 bytes of a recovered marker, or all of it when shorter.
/// Requires byte 8 to end a character when the marker is longer.
pub open spec fn redacted_bytes(m: Seq<char>) -> Seq<u8> {
    let b = vstd::utf8::encode_utf8(m);
    if b.len() > 8 {
        b.take(8)
    } else {
        b
    }
}

/// Redact a recovered marker to its first 8 bytes, so the report never
/// shows the whole memory content.
pub fn redact_marker(m: &str) -> (res: String)
    requires
        vstd::utf8::encode_utf8(m@).len() <= usize::MAX,
        vstd::utf8::encode_utf8(m@).len() <= 8 || vstd::utf8::is_char_boundary(
            vstd::utf8::encode_utf8(m@),
            8,
        ),
    ensures
        vstd::utf8::encode_utf8(res@) == redacted_bytes(m@),
{
    if m.len() > 8 {
        let (head, _) = m.split_at(8);
        let r = head.to_owned();
        assert(vstd::utf8::encode_utf8(r@) =~= vstd::utf8::encode_utf8(m@).subrange(0, 8));
        r
    } else {
        m.to_owned()
    }
}

/// The scenario's name.
pub open spec fn scenario_name(sc: Scenario) -> Seq<char> {
    match sc {
        Scenario::Write(..) => "first write"@,
        Scenario::Restart(..) => "restart recover"@,
    }
}

/// The scenario's context.
pub open spec fn scenario_ctx(sc: Scenario) -> RuntimeScopeContext {
    match sc {
        Scenario::Write(ctx, _) => ctx,
        Scenario::Restart(ctx, _) => ctx,
    }
}

/// Whether the scenario expects the marker to be recovered.
pub open spec fn scenario_expects(sc: Scenario) -> bool {
    match sc {
        Scenario::Write(..) => false,
        Scenario::Restart(_, e) => e,
    }
}

/// A write always passes once it got this far; a restart passes when
/// recovery matches what was expected.
pub open spec fn scenario_passes(sc: Scenario, recovered: Option<String>) -> bool {
    match sc {
        Scenario::Write(..) => true,
        Scenario::Restart(_, expected) => (recovered is Some) == expected,
    }
}

/// The result row for a scenario, given the marker read back (`None` for a
/// write, or when no marker was found).
pub fn scenario_result(sc: &Scenario, recovered: Option<String>) -> (res: ScenarioResult)
    requires
        recovered matches Some(m) ==> vstd::utf8::encode_utf8(m@).len() <= usize::MAX,
        recovered matches Some(m) ==> (vstd::utf8::encode_utf8(m@).len() <= 8
            || vstd::utf8::is_char_boundary(vstd::utf8::encode_utf8(m@), 8)),
    ensures
        res.name@ == scenario_name(*sc),
        res.relay_url@ == scenario_ctx(*sc).relay_url@,
        res.channel_id@ == scenario_ctx(*sc).channel_id@,
        res.persona_id@ == scenario_ctx(*sc).persona_id@,
        res.runtime == scenario_ctx(*sc).runtime,
        res.expected_recover == scenario_expects(*sc),
        res.passed == scenario_passes(*sc, recovered),
        recovered is None ==> res.marker_recovered is None,
        recovered matches Some(m) ==> (res.marker_recovered matches Some(d)
            && vstd::utf8::encode_utf8(d@) == redacted_bytes(m@)),
{
    let (name, ctx, expected) = match sc {
        Scenario::Write(ctx, _) => (String::from_str("first write"), ctx, false),
        Scenario::Restart(ctx, e) => (String::from_str("restart recover"), ctx, *e),
    };
    let passed = match sc {
        Scenario::Write(..) => true,
        Scenario::Restart(_, e) => recovered.is_some() == *e,
    };
    let display = match &recovered {
        Some(m) => Some(redact_marker(m.as_str())),
        None => None,
    };
    ScenarioResult {
        name,
        relay_url: ctx.relay_url.clone(),
        channel_id: ctx.channel_id.clone(),
        persona_id: ctx.persona_id.clone(),
        runtime: ctx.runtime,
        marker_recovered: display,
        expected_recover: expected,
        passed,
    }
}

/// Whether every scenario passed.
pub fn all_passed(results: &Vec<ScenarioResult>) -> (res: bool)
    ensures
        res == (forall|i: int| 0 <= i < results@.len() ==> (#[trigger] results@[i]).passed),
{
    let mut i: usize = 0;
    while i < results.len()
        invariant
            i <= results.len(),
            forall|k: int| 0 <= k < i ==> (#[trigger] results@[k]).passed,
        decreases results.len() - i,
    {
        if !results[i].passed {
            return false;
        }
        i = i + 1;
    }
    true
}

/// Assemble the report from the scenario results.
pub fn build_report(timestamp: String, os: String, arch: String, scenarios: Vec<ScenarioResult>) -> (res:
    HarnessReport)
    ensures
        res.schema == REPORT_SCHEMA_VERSION,
        res.timestamp == timestamp,
        res.os == os,
        res.arch == arch,
        res.scenarios == scenarios,
        res.all_passed == (forall|i: int|
            0 <= i < scenarios@.len() ==> (#[trigger] scenarios@[i]).passed),
{
    let ok = all_passed(&scenarios);
    HarnessReport { schema: REPORT_SCHEMA_VERSION, timestamp, os, arch, scenarios, all_passed: ok }
}

/// A redacted marker never exceeds 8 bytes.
pub proof fn lemma_redaction_bounded(m: Seq<char>)
    ensures
        redacted_bytes(m).len() <= 8,
        redacted_bytes(m).len() <= vstd::utf8::encode_utf8(m).len(),
{
}


// ---------------------------------------------------------------------------
// The report as a JSON document
// ---------------------------------------------------------------------------

/// A JSON scalar.
pub enum JsonScalar {
    Str(Seq<char>),
    Num(nat),
    Bool(bool),
    Null,
}

/// A member value of the report document: a scalar, or an array of flat
/// objects (objects whose members are scalars).
pub enum JsonField {
    Scalar(JsonScalar),
    ObjectArray(Seq<Seq<(Seq<char>, JsonScalar)>>),
}

/// `n` spaces.
pub open spec fn spaces(n: nat) -> Seq<char> {
    Seq::new(n, |i: int| ' ')
}

/// A JSON string literal: the escaped body between double quotes.
pub open spec fn json_string(s: Seq<char>) -> Seq<char> {
    seq!['"'] + escape_json_spec(s) + seq!['"']
}

/// The JSON text of a scalar.
pub open spec fn scalar_text(v: JsonScalar) -> Seq<char> {
    match v {
        JsonScalar::Str(s) => json_string(s),
        JsonScalar::Num(n) => decimal(n),
        JsonScalar::Bool(b) => bool_text(b),
        JsonScalar::Null => "null"@,
    }
}

/// One member line of an object at indentation `ind`: `"key": value`,
/// with a comma unless it is the last.
pub open spec fn member_line(ind: nat, key: Seq<char>, value: Seq<char>, last: bool) -> Seq<char> {
    spaces(ind) + json_string(key) + seq![':', ' '] + value + if last {
        seq!['\n']
    } else {
        seq![',', '\n']
    }
}

/// The first `k` member lines of a flat object.
pub open spec fn flat_members(ms: Seq<(Seq<char>, JsonScalar)>, ind: nat, k: int) -> Seq<char>
    decreases k,
{
    if k <= 0 {
        Seq::empty()
    } else {
        flat_members(ms, ind, k - 1) + member_line(ind, ms[k - 1].0, scalar_text(ms[k - 1].1), k == ms.len())
    }
}

/// A flat object opened at indentation `ind`.
pub open spec fn flat_object(ms: Seq<(Seq<char>, JsonScalar)>, ind: nat) -> Seq<char> {
    seq!['{', '\n'] + flat_members(ms, ind + 2, ms.len() as int) + spaces(ind) + seq!['}']
}

/// The first `k` elements of an array of flat objects at indentation `ind`.
pub open spec fn array_items(objs: Seq<Seq<(Seq<char>, JsonScalar)>>, ind: nat, k: int) -> Seq<char>
    decreases k,
{
    if k <= 0 {
        Seq::empty()
    } else {
        array_items(objs, ind, k - 1) + spaces(ind) + flat_object(objs[k - 1], ind) + if k
            == objs.len() {
            seq!['\n']
        } else {
            seq![',', '\n']
        }
    }
}

/// The JSON text of a member value opened at indentation `ind`.
pub open spec fn field_text(f: JsonField, ind: nat) -> Seq<char> {
    match f {
        JsonField::Scalar(v) => scalar_text(v),
        JsonField::ObjectArray(objs) => seq!['[', '\n'] + array_items(objs, ind + 2, objs.len() as int)
            + spaces(ind) + seq![']'],
    }
}

/// The first `k` member lines of the top-level object.
pub open spec fn doc_members(ms: Seq<(Seq<char>, JsonField)>, k: int) -> Seq<char>
    decreases k,
{
    if k <= 0 {
        Seq::empty()
    } else {
        doc_members(ms, k - 1) + member_line(2, ms[k - 1].0, field_text(ms[k - 1].1, 2), k == ms.len())
    }
}

/// A top-level JSON object, followed by a newline.
pub open spec fn doc_text(ms: Seq<(Seq<char>, JsonField)>) -> Seq<char> {
    seq!['{', '\n'] + doc_members(ms, ms.len() as int) + seq!['}', '\n']
}

/// The members of one scenario object.
pub open spec fn scenario_doc(sc: ScenarioResult) -> Seq<(Seq<char>, JsonScalar)> {
    seq![
        ("name"@, JsonScalar::Str(sc.name@)),
        ("relay_url"@, JsonScalar::Str(sc.relay_url@)),
        ("channel_id"@, JsonScalar::Str(sc.channel_id@)),
        ("persona_id"@, JsonScalar::Str(sc.persona_id@)),
        ("runtime"@, JsonScalar::Str(runtime_name(sc.runtime))),
        ("marker_recovered"@, match sc.marker_recovered {
            Some(m) => JsonScalar::Str(m@),
            None => JsonScalar::Null,
        }),
        ("expected_recover"@, JsonScalar::Bool(sc.expected_recover)),
        ("passed"@, JsonScalar::Bool(sc.passed)),
    ]
}

/// The report as a JSON document: its fields, and one object per scenario.
pub open spec fn report_doc(r: HarnessReport) -> Seq<(Seq<char>, JsonField)> {
    seq![
        ("schema"@, JsonField::Scalar(JsonScalar::Num(r.schema as nat))),
        ("timestamp"@, JsonField::Scalar(JsonScalar::Str(r.timestamp@))),
        ("os"@, JsonField::Scalar(JsonScalar::Str(r.os@))),
        ("arch"@, JsonField::Scalar(JsonScalar::Str(r.arch@))),
        ("scenarios"@, JsonField::ObjectArray(
            Seq::new(r.scenarios@.len(), |i: int| scenario_doc(r.scenarios@[i])),
        )),
        ("all_passed"@, JsonField::Scalar(JsonScalar::Bool(r.all_passed))),
    ]
}

proof fn lemma_escape_plain(s: Seq<char>)
    requires
        forall|i: int| 0 <= i < s.len() ==> s[i] != '\\' && s[i] != '"',
    ensures
        escape_json_spec(s) == s,
    decreases s.len(),
{
    if s.len() > 0 {
        lemma_escape_plain(s.drop_first());
        assert(escape_json_spec(s) =~= seq![s[0]] + s.drop_first());
    }
}

/// A key made of plain characters prints as itself.
proof fn lemma_key_line(key: Seq<char>, value: Seq<char>, last: bool)
    requires
        forall|i: int| 0 <= i < key.len() ==> key[i] != '\\' && key[i] != '"',
    ensures
        member_line(6, key, value, last) == seq![' ', ' ', ' ', ' ', ' ', ' ', '"'] + key + seq![
            '"',
            ':',
            ' ',
        ] + value + if last {
            seq!['\n']
        } else {
            seq![',', '\n']
        },
{
    lemma_escape_plain(key);
    assert(spaces(6) =~= seq![' ', ' ', ' ', ' ', ' ', ' ']);
    assert(member_line(6, key, value, last) =~= seq![' ', ' ', ' ', ' ', ' ', ' ', '"'] + key
        + seq!['"', ':', ' '] + value + if last {
        seq!['\n']
    } else {
        seq![',', '\n']
    });
}

/// A string member line is the label (up to the opening quote), the
/// escaped value and `",\n`.
proof fn lemma_str_line(key: Seq<char>, label: Seq<char>, v: Seq<char>)
    requires
        forall|i: int| 0 <= i < key.len() ==> key[i] != '\\' && key[i] != '"',
        label == seq![' ', ' ', ' ', ' ', ' ', ' ', '"'] + key + seq!['"', ':', ' ', '"'],
    ensures
        member_line(6, key, json_string(v), false) == str_field(label, v),
{
    lemma_key_line(key, json_string(v), false);
    reveal_strlit("\",\n");
    assert(member_line(6, key, json_string(v), false) =~= str_field(label, v));
}

/// A member line with an unquoted value: the label (up to the value) and
/// the value and separator.
proof fn lemma_raw_line(key: Seq<char>, label: Seq<char>, value: Seq<char>, last: bool)
    requires
        forall|i: int| 0 <= i < key.len() ==> key[i] != '\\' && key[i] != '"',
        label == seq![' ', ' ', ' ', ' ', ' ', ' ', '"'] + key + seq!['"', ':', ' '],
    ensures
        member_line(6, key, value, last) == label + value + if last {
            seq!['\n']
        } else {
            seq![',', '\n']
        },
{
    lemma_key_line(key, value, last);
    assert(member_line(6, key, value, last) =~= label + value + if last {
        seq!['\n']
    } else {
        seq![',', '\n']
    });
}

proof fn lemma_scenario_head_lines(sc: ScenarioResult)
    ensures
        flat_members(scenario_doc(sc), 6, 4) == str_field("      \"name\": \""@, sc.name@) + str_field(
            "      \"relay_url\": \""@,
            sc.relay_url@,
        ) + str_field("      \"channel_id\": \""@, sc.channel_id@) + str_field(
            "      \"persona_id\": \""@,
            sc.persona_id@,
        ),
{
    let ms = scenario_doc(sc);
    reveal_strlit("name");
    reveal_strlit("relay_url");
    reveal_strlit("channel_id");
    reveal_strlit("persona_id");
    reveal_strlit("      \"name\": \"");
    reveal_strlit("      \"relay_url\": \"");
    reveal_strlit("      \"channel_id\": \"");
    reveal_strlit("      \"persona_id\": \"");
    let q = seq![' ', ' ', ' ', ' ', ' ', ' ', '"'];
    let t = seq!['"', ':', ' ', '"'];
    assert("      \"name\": \""@ =~= seq![' ', ' ', ' ', ' ', ' ', ' ', '"'] + "name"@ + seq!['"', ':', ' ', '"']);
    assert(forall|i: int| 0 <= i < "name"@.len() ==> "name"@[i] != '\\' && "name"@[i] != '"');
    lemma_str_line("name"@, "      \"name\": \""@, sc.name@);
    assert("      \"relay_url\": \""@ =~= seq![' ', ' ', ' ', ' ', ' ', ' ', '"'] + "relay_url"@ + seq!['"', ':', ' ', '"']);
    assert(forall|i: int| 0 <= i < "relay_url"@.len() ==> "relay_url"@[i] != '\\' && "relay_url"@[i] != '"');
    lemma_str_line("relay_url"@, "      \"relay_url\": \""@, sc.relay_url@);
    assert("      \"channel_id\": \""@ =~= seq![' ', ' ', ' ', ' ', ' ', ' ', '"'] + "channel_id"@ + seq!['"', ':', ' ', '"']);
    assert(forall|i: int| 0 <= i < "channel_id"@.len() ==> "channel_id"@[i] != '\\' && "channel_id"@[i] != '"');
    lemma_str_line("channel_id"@, "      \"channel_id\": \""@, sc.channel_id@);
    assert("      \"persona_id\": \""@ =~= seq![' ', ' ', ' ', ' ', ' ', ' ', '"'] + "persona_id"@ + seq!['"', ':', ' ', '"']);
    assert(forall|i: int| 0 <= i < "persona_id"@.len() ==> "persona_id"@[i] != '\\' && "persona_id"@[i] != '"');
    lemma_str_line("persona_id"@, "      \"persona_id\": \""@, sc.persona_id@);
    assert(ms.len() == 8);
    assert(flat_members(ms, 6, 0) =~= Seq::<char>::empty());
    assert(flat_members(ms, 6, 1) == flat_members(ms, 6, 0) + member_line(6, "name"@, json_string(sc.name@), false));
    assert(flat_members(ms, 6, 2) == flat_members(ms, 6, 1) + member_line(6, "relay_url"@, json_string(sc.relay_url@), false));
    assert(flat_members(ms, 6, 3) == flat_members(ms, 6, 2) + member_line(6, "channel_id"@, json_string(sc.channel_id@), false));
    assert(flat_members(ms, 6, 4) == flat_members(ms, 6, 3) + member_line(6, "persona_id"@, json_string(sc.persona_id@), false));
    assert(flat_members(ms, 6, 4) =~= str_field("      \"name\": \""@, sc.name@) + str_field(
        "      \"relay_url\": \""@,
        sc.relay_url@,
    ) + str_field("      \"channel_id\": \""@, sc.channel_id@) + str_field(
        "      \"persona_id\": \""@,
        sc.persona_id@,
    ));
}

#[verifier::spinoff_prover]
#[verifier::rlimit(40)]
proof fn lemma_scenario_tail_lines(sc: ScenarioResult)
    ensures
        flat_members(scenario_doc(sc), 6, 8) == flat_members(scenario_doc(sc), 6, 4)
            + scenario_tail_lines(sc),
{
    let ms = scenario_doc(sc);
    reveal_strlit("runtime");
    reveal_strlit("marker_recovered");
    reveal_strlit("expected_recover");
    reveal_strlit("passed");
    reveal_strlit("      \"runtime\": \"");
    reveal_strlit("      \"marker_recovered\": ");
    reveal_strlit("      \"expected_recover\": ");
    reveal_strlit("      \"passed\": ");
    reveal_strlit("\",\n");
    reveal_strlit(",\n");
    reveal_strlit("\n");
    reveal_strlit("hermes");
    reveal_strlit("buzz-acp");
    assert("      \"runtime\": \""@ =~= seq![' ', ' ', ' ', ' ', ' ', ' ', '"'] + "runtime"@ + seq!['"', ':', ' ', '"']);
    assert(forall|i: int| 0 <= i < "runtime"@.len() ==> "runtime"@[i] != '\\' && "runtime"@[i] != '"');
    lemma_str_line("runtime"@, "      \"runtime\": \""@, runtime_name(sc.runtime));
    lemma_escape_plain(runtime_name(sc.runtime));
    assert("      \"marker_recovered\": "@ =~= seq![' ', ' ', ' ', ' ', ' ', ' ', '"'] + "marker_recovered"@ + seq!['"', ':', ' ']);
    assert(forall|i: int| 0 <= i < "marker_recovered"@.len() ==> "marker_recovered"@[i] != '\\' && "marker_recovered"@[i] != '"');
    lemma_raw_line(
        "marker_recovered"@,
        "      \"marker_recovered\": "@,
        marker_text(sc.marker_recovered),
        false,
    );
    assert(scalar_text(ms[5].1) == marker_text(sc.marker_recovered)) by {
        reveal_strlit("null");
        reveal_strlit("\"");
    }
    assert("      \"expected_recover\": "@ =~= seq![' ', ' ', ' ', ' ', ' ', ' ', '"'] + "expected_recover"@ + seq!['"', ':', ' ']);
    assert(forall|i: int| 0 <= i < "expected_recover"@.len() ==> "expected_recover"@[i] != '\\' && "expected_recover"@[i] != '"');
    lemma_raw_line("expected_recover"@, "      \"expected_recover\": "@, bool_text(sc.expected_recover), false);
    assert("      \"passed\": "@ =~= seq![' ', ' ', ' ', ' ', ' ', ' ', '"'] + "passed"@ + seq!['"', ':', ' ']);
    assert(forall|i: int| 0 <= i < "passed"@.len() ==> "passed"@[i] != '\\' && "passed"@[i] != '"');
    lemma_raw_line("passed"@, "      \"passed\": "@, bool_text(sc.passed), true);
    assert(ms.len() == 8);
    assert(flat_members(ms, 6, 5) == flat_members(ms, 6, 4) + member_line(6, "runtime"@, json_string(runtime_name(sc.runtime)), false));
    assert(flat_members(ms, 6, 6) == flat_members(ms, 6, 5) + member_line(6, "marker_recovered"@, marker_text(sc.marker_recovered), false));
    assert(flat_members(ms, 6, 7) == flat_members(ms, 6, 6) + member_line(6, "expected_recover"@, bool_text(sc.expected_recover), false));
    assert(flat_members(ms, 6, 8) == flat_members(ms, 6, 7) + member_line(6, "passed"@, bool_text(sc.passed), true));
    assert(json_string(runtime_name(sc.runtime)) =~= "\""@ + runtime_name(sc.runtime) + "\""@) by {
        reveal_strlit("\"");
    }
    assert(flat_members(ms, 6, 8) =~= flat_members(ms, 6, 4) + scenario_tail_lines(sc));
}

proof fn lemma_object_shape(h: Seq<char>, t: Seq<char>, last: bool)
    ensures
        spaces(4) + (seq!['{', '\n'] + (h + t) + spaces(4) + seq!['}']) + (if last {
            seq!['\n']
        } else {
            seq![',', '\n']
        }) == "    {\n"@ + h + (t + if last {
            "    }\n"@
        } else {
            "    },\n"@
        }),
{
    reveal_strlit("    {\n");
    reveal_strlit("    }\n");
    reveal_strlit("    },\n");
    assert(spaces(4) =~= seq![' ', ' ', ' ', ' ']);
    assert(spaces(4) + (seq!['{', '\n'] + (h + t) + spaces(4) + seq!['}']) + (if last {
        seq!['\n']
    } else {
        seq![',', '\n']
    }) =~= "    {\n"@ + h + (t + if last {
        "    }\n"@
    } else {
        "    },\n"@
    }));
}

proof fn lemma_scenario_object(sc: ScenarioResult, last: bool)
    ensures
        spaces(4) + flat_object(scenario_doc(sc), 4) + (if last {
            seq!['\n']
        } else {
            seq![',', '\n']
        }) == scenario_json(sc, last),
{
    let ms = scenario_doc(sc);
    let h = flat_members(ms, 6, 4);
    let t = scenario_tail_lines(sc);
    lemma_scenario_head_lines(sc);
    lemma_scenario_tail_lines(sc);
    assert(ms.len() == 8);
    assert(flat_object(ms, 4) == seq!['{', '\n'] + (h + t) + spaces(4) + seq!['}']);
    lemma_object_shape(h, t, last);
    reveal_strlit("    {\n");
    assert(scenario_head(sc) =~= "    {\n"@ + h);
    assert(scenario_json(sc, last) =~= "    {\n"@ + h + (t + if last {
        "    }\n"@
    } else {
        "    },\n"@
    }));
}

proof fn lemma_array_items(all: Seq<ScenarioResult>, k: int)
    requires
        0 <= k <= all.len(),
    ensures
        array_items(Seq::new(all.len(), |i: int| scenario_doc(all[i])), 4, k) == scenarios_json(all, k),
    decreases k,
{
    if k > 0 {
        lemma_array_items(all, k - 1);
        lemma_scenario_object(all[k - 1], k == all.len());
        assert(4nat + 2 == 6);
    }
}

/// A top-level member line: `  "key": ` then the value and separator.
proof fn lemma_top_line(key: Seq<char>, label: Seq<char>, value: Seq<char>, last: bool)
    requires
        forall|i: int| 0 <= i < key.len() ==> key[i] != '\\' && key[i] != '"',
        label == seq![' ', ' ', '"'] + key + seq!['"', ':', ' '],
    ensures
        member_line(2, key, value, last) == label + value + if last {
            seq!['\n']
        } else {
            seq![',', '\n']
        },
{
    lemma_escape_plain(key);
    assert(spaces(2) =~= seq![' ', ' ']);
    assert(member_line(2, key, value, last) =~= label + value + if last {
        seq!['\n']
    } else {
        seq![',', '\n']
    });
}

/// The report's text, grouped by member line.
pub open spec fn report_lines(r: HarnessReport) -> Seq<Seq<char>> {
    seq![
        "  \"schema\": "@ + decimal(r.schema as nat) + ",\n"@,
        "  \"timestamp\": "@ + json_string(r.timestamp@) + ",\n"@,
        "  \"os\": "@ + json_string(r.os@) + ",\n"@,
        "  \"arch\": "@ + json_string(r.arch@) + ",\n"@,
        "  \"scenarios\": "@ + ("[\n"@ + scenarios_json(r.scenarios@, r.scenarios@.len() as int)
            + "  ]"@) + ",\n"@,
        "  \"all_passed\": "@ + bool_text(r.all_passed) + "\n"@,
    ]
}

proof fn lemma_assoc3(x: Seq<char>, a: Seq<char>, b: Seq<char>, c: Seq<char>)
    ensures
        x + a + b + c == x + (a + b + c),
{
    assert(x + a + b + c =~= x + (a + b + c));
}

proof fn lemma_string_line(label: Seq<char>, open_label: Seq<char>, v: Seq<char>)
    requires
        open_label == label + seq!['"'],
    ensures
        open_label + escape_json_spec(v) + "\",\n"@ == label + json_string(v) + ",\n"@,
{
    reveal_strlit("\",\n");
    reveal_strlit(",\n");
    assert(open_label + escape_json_spec(v) + "\",\n"@ =~= label + json_string(v) + ",\n"@);
}

proof fn lemma_report_lines(r: HarnessReport)
    ensures
        report_json(r) == "{\n"@ + report_lines(r)[0] + report_lines(r)[1] + report_lines(r)[2]
            + report_lines(r)[3] + report_lines(r)[4] + report_lines(r)[5] + "}\n"@,
{
    let l = report_lines(r);
    let p0 = "{\n"@;
    let p1 = p0 + "  \"schema\": "@ + decimal(r.schema as nat) + ",\n"@;
    lemma_assoc3(p0, "  \"schema\": "@, decimal(r.schema as nat), ",\n"@);
    let p2 = p1 + "  \"timestamp\": \""@ + escape_json_spec(r.timestamp@) + "\",\n"@;
    lemma_assoc3(p1, "  \"timestamp\": \""@, escape_json_spec(r.timestamp@), "\",\n"@);
    reveal_strlit("  \"timestamp\": \"");
    reveal_strlit("  \"timestamp\": ");
    assert("  \"timestamp\": \""@ =~= "  \"timestamp\": "@ + seq!['"']);
    lemma_string_line("  \"timestamp\": "@, "  \"timestamp\": \""@, r.timestamp@);
    let p3 = p2 + "  \"os\": \""@ + escape_json_spec(r.os@) + "\",\n"@;
    lemma_assoc3(p2, "  \"os\": \""@, escape_json_spec(r.os@), "\",\n"@);
    reveal_strlit("  \"os\": \"");
    reveal_strlit("  \"os\": ");
    assert("  \"os\": \""@ =~= "  \"os\": "@ + seq!['"']);
    lemma_string_line("  \"os\": "@, "  \"os\": \""@, r.os@);
    let p4 = p3 + "  \"arch\": \""@ + escape_json_spec(r.arch@) + "\",\n"@;
    lemma_assoc3(p3, "  \"arch\": \""@, escape_json_spec(r.arch@), "\",\n"@);
    reveal_strlit("  \"arch\": \"");
    reveal_strlit("  \"arch\": ");
    assert("  \"arch\": \""@ =~= "  \"arch\": "@ + seq!['"']);
    lemma_string_line("  \"arch\": "@, "  \"arch\": \""@, r.arch@);
    let sj = scenarios_json(r.scenarios@, r.scenarios@.len() as int);
    let p5 = p4 + "  \"scenarios\": [\n"@ + sj + "  ],\n"@;
    lemma_assoc3(p4, "  \"scenarios\": [\n"@, sj, "  ],\n"@);
    assert("  \"scenarios\": [\n"@ + sj + "  ],\n"@ == l[4]) by {
        reveal_strlit("  \"scenarios\": [\n");
        reveal_strlit("  \"scenarios\": ");
        reveal_strlit("[\n");
        reveal_strlit("  ],\n");
        reveal_strlit("  ]");
        reveal_strlit(",\n");
        assert("  \"scenarios\": [\n"@ + sj + "  ],\n"@ =~= l[4]);
    }
    let p6 = p5 + "  \"all_passed\": "@ + bool_text(r.all_passed) + "\n"@;
    lemma_assoc3(p5, "  \"all_passed\": "@, bool_text(r.all_passed), "\n"@);
    assert(report_json(r) == p6 + "}\n"@);
}

#[verifier::spinoff_prover]
#[verifier::rlimit(40)]
proof fn lemma_doc_lines(r: HarnessReport)
    ensures
        ({
            let ms = report_doc(r);
            &&& ms.len() == 6
            &&& forall|k: int|
                0 <= k < 6 ==> member_line(2, ms[k].0, field_text(ms[k].1, 2), k == 5)
                    == #[trigger] report_lines(r)[k]
        }),
{
    let ms = report_doc(r);
    let objs = Seq::new(r.scenarios@.len(), |i: int| scenario_doc(r.scenarios@[i]));
    lemma_array_items(r.scenarios@, r.scenarios@.len() as int);
    reveal_strlit("schema");
    reveal_strlit("timestamp");
    reveal_strlit("os");
    reveal_strlit("arch");
    reveal_strlit("scenarios");
    reveal_strlit("all_passed");
    reveal_strlit("  \"schema\": ");
    reveal_strlit("  \"timestamp\": ");
    reveal_strlit("  \"os\": ");
    reveal_strlit("  \"arch\": ");
    reveal_strlit("  \"scenarios\": ");
    reveal_strlit("  \"all_passed\": ");
    reveal_strlit(",\n");
    reveal_strlit("\n");
    reveal_strlit("[\n");
    reveal_strlit("  ]");
    let q = seq![' ', ' ', '"'];
    let t = seq!['"', ':', ' '];
    assert("  \"schema\": "@ =~= q + "schema"@ + t);
    assert("  \"timestamp\": "@ =~= q + "timestamp"@ + t);
    assert("  \"os\": "@ =~= q + "os"@ + t);
    assert("  \"arch\": "@ =~= q + "arch"@ + t);
    assert("  \"scenarios\": "@ =~= q + "scenarios"@ + t);
    assert("  \"all_passed\": "@ =~= q + "all_passed"@ + t);
    assert(forall|i: int| 0 <= i < "schema"@.len() ==> "schema"@[i] != '\\' && "schema"@[i] != '"');
    assert(forall|i: int| 0 <= i < "timestamp"@.len() ==> "timestamp"@[i] != '\\' && "timestamp"@[i] != '"');
    assert(forall|i: int| 0 <= i < "os"@.len() ==> "os"@[i] != '\\' && "os"@[i] != '"');
    assert(forall|i: int| 0 <= i < "arch"@.len() ==> "arch"@[i] != '\\' && "arch"@[i] != '"');
    assert(forall|i: int| 0 <= i < "scenarios"@.len() ==> "scenarios"@[i] != '\\' && "scenarios"@[i] != '"');
    assert(forall|i: int| 0 <= i < "all_passed"@.len() ==> "all_passed"@[i] != '\\' && "all_passed"@[i] != '"');
    lemma_top_line("schema"@, "  \"schema\": "@, decimal(r.schema as nat), false);
    lemma_top_line("timestamp"@, "  \"timestamp\": "@, json_string(r.timestamp@), false);
    lemma_top_line("os"@, "  \"os\": "@, json_string(r.os@), false);
    lemma_top_line("arch"@, "  \"arch\": "@, json_string(r.arch@), false);
    let arr = seq!['[', '\n'] + array_items(objs, 4, objs.len() as int) + spaces(2) + seq![']'];
    lemma_top_line("scenarios"@, "  \"scenarios\": "@, arr, false);
    lemma_top_line("all_passed"@, "  \"all_passed\": "@, bool_text(r.all_passed), true);
    assert(spaces(2) =~= seq![' ', ' ']);
    assert(arr =~= "[\n"@ + scenarios_json(r.scenarios@, r.scenarios@.len() as int) + "  ]"@);
    assert(field_text(ms[4].1, 2) == arr);
    assert forall|k: int| 0 <= k < 6 implies member_line(
        2,
        ms[k].0,
        field_text(ms[k].1, 2),
        k == 5,
    ) == #[trigger] report_lines(r)[k] by {
        if k == 0 {
            assert(member_line(2, ms[k].0, field_text(ms[k].1, 2), false) =~= report_lines(r)[k]);
        } else if k == 1 {
            assert(member_line(2, ms[k].0, field_text(ms[k].1, 2), false) =~= report_lines(r)[k]);
        } else if k == 2 {
            assert(member_line(2, ms[k].0, field_text(ms[k].1, 2), false) =~= report_lines(r)[k]);
        } else if k == 3 {
            assert(member_line(2, ms[k].0, field_text(ms[k].1, 2), false) =~= report_lines(r)[k]);
        } else if k == 4 {
            assert(member_line(2, ms[k].0, field_text(ms[k].1, 2), false) =~= report_lines(r)[k]);
        } else {
            assert(member_line(2, ms[k].0, field_text(ms[k].1, 2), true) =~= report_lines(r)[k]);
        }
    }
}

/// The report is printed as a JSON document: `to_json` (whose text is
/// `report_json`) is one object holding `schema`, `timestamp`, `os`,
/// `arch`, `scenarios` (one object per scenario, in order, with its name,
/// relay URL, channel id, persona id, runtime, recovered marker or `null`,
/// expectation and verdict) and `all_passed`, each member the report's own
/// value; and every string in it is escaped into a well-formed JSON string
/// body that reads back as the original value and, when the value holds no
/// control character, holds none either (so the text is valid JSON).
pub proof fn lemma_report_json_is_document(r: HarnessReport)
    ensures
        report_json(r) == doc_text(report_doc(r)),
        forall|s: Seq<char>|
            json_string_body_ok(#[trigger] escape_json_spec(s)) && unescape_json(escape_json_spec(s))
                == s && (no_control_chars(s) ==> no_control_chars(escape_json_spec(s))),
{
    lemma_report_is_doc_text(r);
    lemma_strings_read_back();
}

#[verifier::spinoff_prover]
#[verifier::rlimit(40)]
proof fn lemma_report_is_doc_text(r: HarnessReport)
    ensures
        report_json(r) == doc_text(report_doc(r)),
{
    lemma_report_lines(r);
    lemma_doc_lines(r);
    let ms = report_doc(r);
    let l = report_lines(r);
    assert(doc_members(ms, 0) =~= Seq::<char>::empty());
    assert(member_line(2, ms[0].0, field_text(ms[0].1, 2), 0int == 5) == l[0]);
    assert(member_line(2, ms[1].0, field_text(ms[1].1, 2), 1int == 5) == l[1]);
    assert(member_line(2, ms[2].0, field_text(ms[2].1, 2), 2int == 5) == l[2]);
    assert(member_line(2, ms[3].0, field_text(ms[3].1, 2), 3int == 5) == l[3]);
    assert(member_line(2, ms[4].0, field_text(ms[4].1, 2), 4int == 5) == l[4]);
    assert(member_line(2, ms[5].0, field_text(ms[5].1, 2), 5int == 5) == l[5]);
    assert(ms.len() == 6);
    assert(doc_members(ms, 1) == doc_members(ms, 0) + l[0]);
    assert(Seq::<char>::empty() + l[0] =~= l[0]);
    assert(doc_members(ms, 2) == doc_members(ms, 1) + l[1]);
    assert(doc_members(ms, 3) == doc_members(ms, 2) + l[2]);
    assert(doc_members(ms, 4) == doc_members(ms, 3) + l[3]);
    assert(doc_members(ms, 5) == doc_members(ms, 4) + l[4]);
    assert(doc_members(ms, 6) == doc_members(ms, 5) + l[5]);
    assert(doc_members(ms, 6) == l[0] + l[1] + l[2] + l[3] + l[4] + l[5]);
    reveal_strlit("{\n");
    reveal_strlit("}\n");
    assert(report_json(r) =~= doc_text(ms));
}

proof fn lemma_strings_read_back()
    ensures
        forall|s: Seq<char>|
            json_string_body_ok(#[trigger] escape_json_spec(s)) && unescape_json(escape_json_spec(s))
                == s && (no_control_chars(s) ==> no_control_chars(escape_json_spec(s))),
{
    assert forall|s: Seq<char>|
        json_string_body_ok(#[trigger] escape_json_spec(s)) && unescape_json(escape_json_spec(s))
            == s && (no_control_chars(s) ==> no_control_chars(escape_json_spec(s))) by {
        lemma_escape_is_well_formed(s);
        lemma_unescape_escape(s);
        lemma_escape_no_control(s);
    }
}

/// No control character (below U+0020), which JSON strings may not hold
/// unescaped.
pub open spec fn no_control_chars(s: Seq<char>) -> bool {
    forall|i: int| 0 <= i < s.len() ==> (#[trigger] s[i] as u32) >= 0x20
}

proof fn lemma_escape_no_control(s: Seq<char>)
    ensures
        no_control_chars(s) ==> no_control_chars(escape_json_spec(s)),
    decreases s.len(),
{
    if s.len() > 0 {
        lemma_escape_no_control(s.drop_first());
        let e = escape_json_spec(s);
        let rest = escape_json_spec(s.drop_first());
        assert(e == escape_char(s[0]) + rest);
        if no_control_chars(s) {
            assert(no_control_chars(s.drop_first())) by {
                assert forall|i: int| 0 <= i < s.drop_first().len() implies (#[trigger] s.drop_first()[i] as u32) >= 0x20 by {
                    assert(s.drop_first()[i] == s[i + 1]);
                }
            }
            assert(s[0] as u32 >= 0x20);
            assert forall|i: int| 0 <= i < e.len() implies (#[trigger] e[i] as u32) >= 0x20 by {
                let h = escape_char(s[0]);
                if i >= h.len() {
                    assert(e[i] == rest[i - h.len()]);
                }
            }
        }
    }
}

/// Decoding a well-formed JSON string body: `\\` and `\"` stand for `\`
/// and `"`.
pub open spec fn unescape_json(t: Seq<char>) -> Seq<char>
    decreases t.len(),
{
    if t.len() == 0 {
        Seq::empty()
    } else if t[0] == '\\' && t.len() >= 2 {
        seq![t[1]] + unescape_json(t.skip(2))
    } else {
        seq![t[0]] + unescape_json(t.skip(1))
    }
}

proof fn lemma_unescape_escape(s: Seq<char>)
    ensures
        unescape_json(escape_json_spec(s)) == s,
    decreases s.len(),
{
    if s.len() > 0 {
        lemma_unescape_escape(s.drop_first());
        let e = escape_json_spec(s);
        let rest = escape_json_spec(s.drop_first());
        assert(e == escape_char(s[0]) + rest);
        if s[0] == '\\' || s[0] == '"' {
            assert(e.skip(2) =~= rest);
        } else {
            assert(e.skip(1) =~= rest);
        }
        assert(unescape_json(e) =~= s);
    }
}

} // verus!
