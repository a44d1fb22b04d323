//! Scoped Hermes runtime identity, memory-scope derivation and provider contracts.

pub mod text;
pub mod runtime_scope;
pub mod memory_scope;
pub mod profile_bootstrap;
pub mod hermes_home_inject;
pub mod persistence_harness;
pub mod provider_contract;
pub mod provider_discovery;
pub mod hermes_config;
