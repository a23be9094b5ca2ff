//! Secret injection controller core: annotation-driven configuration,
//! secret resolution, change-aware patching and deduplicated restarts of
//! the workloads that consume a changed secret.

pub mod config;
pub mod env;
pub mod injector;
pub mod restart;
pub mod selector;
pub mod version;
pub mod workload;
