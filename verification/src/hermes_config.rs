//! Hermes configuration bridge: where Hermes keeps `config.yaml`, and the
//! non-secret model settings read from it.
//!
//! The Hermes home is `HERMES_HOME` when set (and not blank), else
//! `~/.hermes`. Reading the environment, the home directory and the file is
//! the caller's work; the choice of path and the reading of the parsed YAML
//! are made here. Only `model.provider` and `model.default` (or the legacy
//! `model.model`, or a scalar `model`) are read: credentials and other
//! settings are never surfaced.

use serde_yaml::Value;
use vstd::prelude::*;

use crate::memory_scope::main_separator;
use crate::text::{chars_of, join_spec, join_with, string_of, trim, trim_chars};

verus! {

/// Where `config.yaml` lives: under a non-blank `HERMES_HOME` (trimmed),
/// else under `<home>/.hermes`, else nowhere.
pub open spec fn config_path_spec(
    hermes_home: Option<Seq<char>>,
    home_dir: Option<Seq<char>>,
    sep: char,
) -> Option<Seq<char>> {
    if hermes_home is Some && trim(hermes_home->0).len() > 0 {
        Some(join_spec(trim(hermes_home->0), "config.yaml"@, sep))
    } else {
        match home_dir {
            Some(h) => Some(join_spec(join_spec(h, ".hermes"@, sep), "config.yaml"@, sep)),
            None => None,
        }
    }
}

pub open spec fn opt_str_view(o: Option<&str>) -> Option<Seq<char>> {
    match o {
        Some(s) => Some(s@),
        None => None,
    }
}

/// The path of Hermes' `config.yaml`, given the `HERMES_HOME` value, the
/// user's home directory and the path separator `sep`.
pub fn config_path_with(hermes_home: Option<&str>, home_dir: Option<&str>, sep: char) -> (res:
    Option<String>)
    ensures
        opt_string_view(res) == config_path_spec(opt_str_view(hermes_home), opt_str_view(home_dir), sep),
{
    if let Some(h) = hermes_home {
        let t = trim_chars(chars_of(h).as_slice());
        if t.len() > 0 {
            return Some(join_with(t.as_slice(), "config.yaml", sep));
        }
    }
    match home_dir {
        Some(home) => {
            let dir = join_with(chars_of(home).as_slice(), ".hermes", sep);
            Some(join_with(chars_of(dir.as_str()).as_slice(), "config.yaml", sep))
        },
        None => None,
    }
}

/// The path of Hermes' `config.yaml` with the platform's main separator
/// (`config_path_with` with `MAIN_SEPARATOR`).
pub fn config_path_for(hermes_home: Option<&str>, home_dir: Option<&str>) -> (res: Option<String>)
    ensures
        opt_string_view(res) == config_path_spec(opt_str_view(hermes_home), opt_str_view(home_dir), '/')
            || opt_string_view(res) == config_path_spec(
            opt_str_view(hermes_home),
            opt_str_view(home_dir),
            '\\',
        ),
{
    config_path_with(hermes_home, home_dir, main_separator())
}

// ---------------------------------------------------------------------------
// Model settings from `config.yaml`
// ---------------------------------------------------------------------------

#[verifier::external_type_specification]
#[verifier::external_body]
pub struct ExYamlValue(serde_yaml::Value);

/// A YAML document tree.
#[derive(Debug, PartialEq)]
pub enum YamlValue {
    Null,
    Bool(bool),
    /// A number, in its textual form.
    Number(String),
    String(String),
    Sequence(Vec<YamlValue>),
    /// Key/value pairs in document order.
    Mapping(Vec<(YamlValue, YamlValue)>),
    /// A `!tag` and the tagged value.
    Tagged(String, Box<YamlValue>),
}

/// Names the document serde_yaml parses from a text (`None` when the text
/// is not valid YAML).
pub uninterp spec fn yaml_parse_spec(text: Seq<char>) -> Option<YamlValue>;

/// Turns serde_yaml's `Value` into the library's `YamlValue`, node for node.
#[verifier::external_body]
fn yaml_value_of(v: Value) -> YamlValue {
    match v {
        Value::Null => YamlValue::Null,
        Value::Bool(b) => YamlValue::Bool(b),
        Value::Number(n) => YamlValue::Number(n.to_string()),
        Value::String(s) => YamlValue::String(s),
        Value::Sequence(items) => YamlValue::Sequence(items.into_iter().map(yaml_value_of).collect()),
        Value::Mapping(m) => YamlValue::Mapping(m.into_iter().map(|(k, v)| (yaml_value_of(k), yaml_value_of(v))).collect()),
        Value::Tagged(t) => YamlValue::Tagged(t.tag.to_string(), Box::new(yaml_value_of(t.value))),
    }
}

/// serde_yaml's `from_str::<Value>`: the parsed document (named
/// `yaml_parse_spec`), or `None` when the text is not valid YAML.
#[verifier::external_body]
fn parse_yaml(text: &str) -> (res: Option<YamlValue>)
    ensures
        res == yaml_parse_spec(text@),
{
    serde_yaml::from_str::<serde_yaml::Value>(text).ok().map(yaml_value_of)
}

/// A value with its tags removed.
pub open spec fn untag(v: YamlValue) -> YamlValue
    decreases v,
{
    match v {
        YamlValue::Tagged(_, inner) => untag(*inner),
        _ => v,
    }
}

/// The value of the first entry whose key is the string `key`.
pub open spec fn lookup_from(entries: Seq<(YamlValue, YamlValue)>, key: Seq<char>, i: int) -> Option<
    YamlValue,
>
    decreases entries.len() - i,
{
    if i < 0 || i >= entries.len() {
        None
    } else if entries[i].0 matches YamlValue::String(k) && k@ == key {
        Some(entries[i].1)
    } else {
        lookup_from(entries, key, i + 1)
    }
}

/// `Value::get(key)`: look `key` up in a (possibly tagged) mapping.
pub open spec fn value_get(v: YamlValue, key: Seq<char>) -> Option<YamlValue> {
    match untag(v) {
        YamlValue::Mapping(m) => lookup_from(m@, key, 0),
        _ => None,
    }
}

/// A string value, trimmed, when not blank.
pub open spec fn yaml_string_spec(v: YamlValue) -> Option<Seq<char>> {
    match untag(v) {
        YamlValue::String(s) => if trim(s@).len() > 0 {
            Some(trim(s@))
        } else {
            None
        },
        _ => None,
    }
}

/// The blank-filtered string under `key` in a mapping.
pub open spec fn mapping_string_spec(entries: Seq<(YamlValue, YamlValue)>, key: Seq<char>) -> Option<
    Seq<char>,
> {
    match lookup_from(entries, key, 0) {
        Some(v) => yaml_string_spec(v),
        None => None,
    }
}

/// `(provider, model)` read from the `model` entry: a mapping gives its
/// `provider` and its `default` (else `model`); any other value gives only a
/// model, when it is a string.
pub open spec fn model_fields(model: Option<YamlValue>) -> (Option<Seq<char>>, Option<Seq<char>>) {
    match model {
        Some(YamlValue::Mapping(m)) => (
            mapping_string_spec(m@, "provider"@),
            match mapping_string_spec(m@, "default"@) {
                Some(d) => Some(d),
                None => mapping_string_spec(m@, "model"@),
            },
        ),
        Some(v) => (None, yaml_string_spec(v)),
        None => (None, None),
    }
}

/// The model settings of a Hermes config.
#[derive(Debug, Clone, PartialEq, Eq)]
pub struct RuntimeFileConfig {
    /// The model name.
    pub model: Option<String>,
    /// The provider name.
    pub provider: Option<String>,
    /// Further settings; never filled from Hermes' config, which may hold
    /// credentials.
    pub extra: Vec<(String, String)>,
}

pub open spec fn opt_string_view(o: Option<String>) -> Option<Seq<char>> {
    match o {
        Some(s) => Some(s@),
        None => None,
    }
}

fn untag_ref(v: &YamlValue) -> (res: &YamlValue)
    ensures
        *res == untag(*v),
    decreases v,
{
    match v {
        YamlValue::Tagged(_, inner) => untag_ref(inner),
        _ => v,
    }
}

/// The trimmed string of a value, when it is a non-blank string.
pub fn yaml_string(v: &YamlValue) -> (res: Option<String>)
    ensures
        opt_string_view(res) == yaml_string_spec(*v),
{
    match untag_ref(v) {
        YamlValue::String(s) => {
            let t = trim_chars(chars_of(s.as_str()).as_slice());
            if t.len() > 0 {
                Some(string_of(t.as_slice()))
            } else {
                None
            }
        },
        _ => None,
    }
}

/// The non-blank string under `key` in a mapping's entries.
pub fn mapping_string(entries: &Vec<(YamlValue, YamlValue)>, key: &str) -> (res: Option<String>)
    ensures
        opt_string_view(res) == mapping_string_spec(entries@, key@),
{
    let mut i: usize = 0;
    while i < entries.len()
        invariant
            i <= entries.len(),
            lookup_from(entries@, key@, 0) == lookup_from(entries@, key@, i as int),
        decreases entries.len() - i,
    {
        let matched = match &entries[i].0 {
            YamlValue::String(k) => crate::text::chars_eq(
                chars_of(k.as_str()).as_slice(),
                chars_of(key).as_slice(),
            ),
            _ => false,
        };
        if matched {
            return yaml_string(&entries[i].1);
        }
        i = i + 1;
    }
    None
}

fn value_get_model(root: &YamlValue) -> (res: Option<&YamlValue>)
    ensures
        match res {
            Some(v) => value_get(*root, "model"@) == Some(*v),
            None => value_get(*root, "model"@) is None,
        },
{
    match untag_ref(root) {
        YamlValue::Mapping(m) => {
            let mut i: usize = 0;
            while i < m.len()
                invariant
                    i <= m.len(),
                    untag(*root) == YamlValue::Mapping(*m),
                    lookup_from(m@, "model"@, 0) == lookup_from(m@, "model"@, i as int),
                decreases m.len() - i,
            {
                let matched = match &m[i].0 {
                    YamlValue::String(k) => crate::text::chars_eq(
                        chars_of(k.as_str()).as_slice(),
                        chars_of("model").as_slice(),
                    ),
                    _ => false,
                };
                if matched {
                    return Some(&m[i].1);
                }
                i = i + 1;
            }
            None
        },
        _ => None,
    }
}

/// The model settings read from a parsed Hermes config document: only the
/// `model` entry's provider and model, never anything else.
pub fn config_from_yaml(root: &YamlValue) -> (cfg: RuntimeFileConfig)
    ensures
        (opt_string_view(cfg.provider), opt_string_view(cfg.model)) == model_fields(
            value_get(*root, "model"@),
        ),
        cfg.extra@.len() == 0,
{
    let (provider, model) = match value_get_model(root) {
        Some(YamlValue::Mapping(model_map)) => {
            let provider = mapping_string(model_map, "provider");
            let model = match mapping_string(model_map, "default") {
                Some(d) => Some(d),
                None => mapping_string(model_map, "model"),
            };
            (provider, model)
        },
        Some(value) => (None, yaml_string(value)),
        None => (None, None),
    };
    RuntimeFileConfig { model, provider, extra: Vec::new() }
}

/// The model settings of a Hermes `config.yaml`, or `None` when the text is
/// not valid YAML. Nothing but the model and provider is read.
pub fn parse_hermes_config(yaml_str: &str) -> (res: Option<RuntimeFileConfig>)
    ensures
        match yaml_parse_spec(yaml_str@) {
            None => res is None,
            Some(root) => res matches Some(cfg) && (opt_string_view(cfg.provider), opt_string_view(
                cfg.model,
            )) == model_fields(value_get(root, "model"@)) && cfg.extra@.len() == 0,
        },
{
    let root = parse_yaml(yaml_str)?;
    Some(config_from_yaml(&root))
}


/// Which keys of a `model` mapping give the settings: `provider` gives the
/// provider; a non-blank string under `default` gives the model, whatever
/// the legacy `model` key holds; the legacy `model` key gives the model only
/// when there is no `default` key. Values are trimmed.
pub proof fn lemma_model_default_wins(root: YamlValue, cfg: RuntimeFileConfig, m: Vec<(YamlValue, YamlValue)>)
    requires
        (opt_string_view(cfg.provider), opt_string_view(cfg.model)) == model_fields(
            value_get(root, "model"@),
        ),
        value_get(root, "model"@) == Some(YamlValue::Mapping(m)),
    ensures
        lookup_from(m@, "provider"@, 0) matches Some(YamlValue::String(p)) ==> (trim(p@).len() > 0
            ==> opt_string_view(cfg.provider) == Some(trim(p@))),
        lookup_from(m@, "default"@, 0) matches Some(YamlValue::String(d)) ==> (trim(d@).len() > 0
            ==> opt_string_view(cfg.model) == Some(trim(d@))),
        lookup_from(m@, "default"@, 0) is None ==> (lookup_from(m@, "model"@, 0) matches Some(
            YamlValue::String(t),
        ) ==> (trim(t@).len() > 0 ==> opt_string_view(cfg.model) == Some(trim(t@)))),
        lookup_from(m@, "default"@, 0) is None && lookup_from(m@, "model"@, 0) is None
            ==> cfg.model is None,
{
}

} // verus!
