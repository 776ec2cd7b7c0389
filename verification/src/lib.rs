//! Correlation of allocation-call entries with their returns, and the
//! life cycle of the call stacks captured for them.
//!
//! The producer half ([`probe`]) pairs the entry and the return of each
//! allocation call through a bounded table ([`correlation`]) and snapshots
//! the caller's stack into a second bounded table ([`stacks`]). The consumer
//! half ([`consumer`]) decodes the emitted records ([`event`]) and resolves
//! each record's stack against its own copies of the stacks it has seen
//! ([`cache`]). [`attach`] and [`image`] name what is instrumented and with what.
pub mod attach;
pub mod cache;
pub mod consumer;
pub mod correlation;
pub mod event;
pub mod image;
pub mod probe;
pub mod stacks;
