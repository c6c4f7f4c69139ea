//! Session negotiation orchestrator for a camera/viewer peer-to-peer link.
//!
//! The library owns the per-peer negotiation state machine: it drives the
//! offer/answer and ICE-candidate exchange, enforces the session-replacement
//! policy, buffers candidates that arrive before an offer, and discards stale
//! asynchronous completions by generation tagging.  The surrounding process
//! performs the actual I/O (signaling transport, media engine) and feeds
//! events into the orchestrator, executing the actions it returns.

pub mod messages;
pub mod orchestrator;
pub mod laws;
