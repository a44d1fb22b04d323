# hermes_scope

Scoped identity and memory isolation for Hermes agent runtimes, with the
provider catalog contract they share, written in Verus.

- `src/` is the verified library:
  - `runtime_scope`: relay URL normalization, stable id validation, the
    `RuntimeScopeContext` identity and its path hash;
  - `memory_scope`: the versioned canonical string, its SHA-256 and the
    confined profile path `hermes/profiles/v1/<hash>`;
  - `profile_bootstrap`: the fail-closed bootstrap decisions as a state
    machine (the caller performs the filesystem actions it asks for);
  - `hermes_home_inject`: the `HERMES_HOME` overlay and how it is merged
    into a child environment;
  - `persistence_harness`: scenario verdicts, marker redaction and the
    JSON report;
  - `provider_contract`, `provider_discovery`: the provider catalog, its
    secret-field guard, and the read-only discovery logic;
  - `hermes_config`: where Hermes keeps `config.yaml` and which model
    settings are read from it;
  - `text`: character-level helpers specified over `Seq<char>`.
- `app/` holds the filesystem, environment and serde work around it.
- `tests/` runs the library on concrete values.
