//! Rate limiting.
//!
//! [`limiter::GcraRateLimiter`] decides by the Generic Cell Rate Algorithm over
//! one or more stacked windows, with its per-key state in a bounded store
//! ([`shard`]). [`engine::RateLimitEngine`] resolves the rules that apply to
//! a request and combines their decisions. [`fixed::InMemoryRateLimiter`] is
//! the simple fixed-window limiter.

pub mod dry_run;
pub mod engine;
pub mod fixed;
pub mod gcra;
pub mod key_rate;
pub mod laws;
pub mod limiter;
pub mod resolution;
pub mod shard;

pub use engine::{
    AttachedPolicies, RateLimitEngine, RateLimitEvaluation, RateLimitKeyContext, RateLimitOutcome,
};
pub use fixed::InMemoryRateLimiter;
pub use gcra::{
    denied_outcome, GcraOutcome, GcraWindowSpec, RateDecision, GCRA_STORE_SHARDS,
};
pub use limiter::GcraRateLimiter;
