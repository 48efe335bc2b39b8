//! Observability instrumentation core: distributed-tracing context
//! propagation over a textual carrier, span lifecycle management for
//! inbound and outbound HTTP calls, baggage enrichment of started spans,
//! correlation of structured log events with the active span, and the
//! self-contained one-time-password check.
//!
//! Strings on the wire (header values, JSON log lines, attribute text)
//! are handled as UTF-8 byte vectors.

pub mod bytes;
pub mod propagate;
pub mod attr;
pub mod logcor;
pub mod span;
pub mod totp;
pub mod env;
