//! Configuration propagation engine for a host that runs installed,
//! inter-dependent packaged services.
//!
//! Packages declare typed configuration schemas, declare dependencies on one
//! another, and may embed pointers whose value is computed by projecting
//! another package's configuration or host state.  The engine validates a
//! configuration change, re-resolves every pointer, and cascades the change
//! to every dependent whose pointer projection actually changed, recording
//! non-fatal breakages of dependents along the way.

pub mod deps;
pub mod engine;
pub mod error;
pub mod mount;
pub mod pointer;
pub mod progress;
pub mod rng;
pub mod schema;
pub mod store;
pub mod value;
pub mod version;
