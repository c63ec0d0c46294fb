//! A credential-pool and retry-and-failover engine for a chat-completion
//! gateway that spreads load over a shared pool of API credentials.
//!
//! The library holds the verified core of the gateway:
//!
//! - [`token`]: one credential with its availability predicate and penalty
//!   arithmetic, including the proved penalty round-trip;
//! - [`store`]: the shared pool, dispensing FIFO-by-oldest-claim with proofs
//!   that it never dispenses an unavailable or filtered-out credential and
//!   never dispenses a cooled-down credential twice;
//! - [`retry`]: the per-request coordinator that counts failures, penalizes
//!   and rotates credentials — switching vendors when the replacement
//!   demands it — and provably gives up on exactly the attempt cap;
//! - [`client`]: the dispatch decision from a vendor kind to its adapter
//!   configuration;
//! - [`errors`]: the typed terminal-error taxonomy with verified message
//!   rendering;
//! - [`filter`]: the verified parser of the comma-separated vendor filter.
//!
//! Network calls, persistence, sleeping and the HTTP front-end are
//! collaborators outside this crate: they hand the core plain values and
//! carry out the steps it decides on.

pub mod client;
pub mod errors;
pub mod filter;
pub mod retry;
pub mod store;
pub mod token;
