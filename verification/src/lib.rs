//! Evaluation fabric for an admission-time policy server.
//!
//! The crate models the layer between an HTTP front door and a fleet of
//! sandboxed policy evaluators: a worker pool that fans admission requests
//! out by round-robin, and an asynchronous callback handler that services
//! host-capability requests coming from inside the sandbox, with caching,
//! request routing and response correlation.

pub mod cache;
pub mod callback;
pub mod codec;
pub mod errors;
pub mod fetcher;
pub mod group;
pub mod policies;
pub mod pool;
pub mod reply;
pub mod verdict;
pub mod worker;
