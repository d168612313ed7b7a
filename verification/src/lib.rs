//! Verified state machines for two on-chain registries: a GDPR consent
//! ledger and a contract version registry.
//!
//! Each contract is a plain value whose messages take the call context
//! (caller and block timestamp) as an argument and record the events they
//! emit, so that a host can read the environment, run a message and publish
//! its events.

pub mod env;
pub mod gdpr_types;
pub mod gdpr;
pub mod gdpr_laws;
pub mod registry_types;
pub mod version_registry;
pub mod registry_laws;
