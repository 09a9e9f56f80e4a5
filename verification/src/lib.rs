//! A reliable invocation engine for chat-completion providers.
//!
//! The engine wraps an ordered list of providers and adds, on every
//! request: a bounded, expiring response cache; coalescing of concurrent
//! requests with the same fingerprint; a circuit breaker per provider;
//! bounded retries with exponential backoff; fallback down the list;
//! optional hedging of the first attempt; and counters of all of it.
//!
//! The engine itself performs no call and no wait. It is a state machine:
//! [`engine::ReliableProvider`] takes the reading of a clock with each
//! event and answers with the [`engine::Step`] to carry out. What each
//! operation does is stated over the mathematical model in [`model`], and
//! what follows from that is proved in [`guarantees`].

pub mod cache;
pub mod circuit;
pub mod classify;
pub mod clock;
pub mod engine;
pub mod fingerprint;
pub mod guarantees;
pub mod inflight;
pub mod model;
pub mod settings;
pub mod stats;
pub mod text;

pub use crate::classify::{is_non_retryable, is_timeout_error, ProviderError};
pub use crate::engine::{Invocation, ReliableProvider, Step};
pub use crate::fingerprint::{ChatMessage, Role};
pub use crate::settings::EngineSettings;
pub use crate::stats::ReliableProviderStats;
