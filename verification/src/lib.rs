//! Deployment reconciliation engine for a single-host container
//! orchestrator: dependency-aware rollout, two-tier network topology,
//! container lifecycle reconciliation, readiness probing, and
//! certificate/proxy-configuration coordination over a durable
//! project/app state store.
//!
//! Everything here is pure decision logic over plain values. The
//! engine-facing glue (the container engine API, the state file, the
//! proxy's configuration volume) lives outside the library and drives
//! these decisions through commands and observations.

use vstd::prelude::*;

pub mod certs;
pub mod commands;
pub mod dirs;
pub mod errors;
pub mod images;
pub mod models;
pub mod names;
pub mod proxy;
pub mod reconcile;
pub mod resolve;
pub mod rollout;
pub mod state;
pub mod status;
pub mod topology;
pub mod validate;
pub mod vecs;
pub mod version;

verus! {

/// Default naming prefix for containers, images and networks.
pub const DEFAULT_PREFIX: &'static str = "nbot_";

} // verus!
