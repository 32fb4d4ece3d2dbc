//! A streaming protocol translator between two chat-completion wire formats.
//!
//! The library consumes an arbitrarily chunked byte stream of Server-Sent-Events
//! frames from a backend that reports flat text deltas, reassembles complete
//! lines from it, classifies each line, and synthesizes the structured,
//! multi-phase event sequence (message start, content block start, deltas,
//! close sequence) that the downstream client protocol requires. Process-wide
//! request and token counters are modelled by [`AppState`].

pub mod events;
pub mod frame_reader;
pub mod metrics;
pub mod parser;
pub mod render;
pub mod session;
pub mod translator;

pub use metrics::AppState;
