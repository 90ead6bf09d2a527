//! Server-side coordination core for a fleet of remote worker nodes.
//!
//! The crate verifies the two protocols that carry genuine concurrency and
//! consistency risk: an aggregate store with atomic get-or-create semantics
//! keyed by `(user, metric name)`, and a nonce-bound authentication protocol
//! that binds each issued session to a per-user rotating secret, so that
//! rotating the secret revokes every outstanding session at once.

pub mod aggregate;
pub mod clock;
pub mod entropy;
pub mod coordinator;
pub mod errors;
pub mod nonce;
pub mod session;
pub mod startup;
