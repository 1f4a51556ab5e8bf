//! Voice-session engine for a conversational agent that joins live group
//! voice calls: allowlist configuration, per-room session state, the
//! turn-capture algorithm, authorization of voice actions, idle eviction,
//! and the PCM-to-WAV encoder, together with the small pure text helpers
//! the surrounding chat pipeline uses.

pub mod args;
pub mod chat;
pub mod config;
pub mod errors;
pub mod manager;
pub mod pipeline;
pub mod session;
pub mod text;
pub mod turn;
pub mod wav;

pub use errors::VoiceError;
