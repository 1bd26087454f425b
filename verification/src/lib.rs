//! Verified core of a voice-channel chat bot.
//!
//! The crate holds the guild-scoped session state machine, the track
//! resolver that turns free text into a playable source, the metadata
//! extractor that reads track descriptors out of raw page markup, and
//! the small decision procedures (volume validation, occupancy watchdog,
//! elapsed-time formatting) that the bot's commands rely on.
//! All I/O — the chat gateway, HTTP fetches, the voice transport —
//! lives outside this crate; the functions here compute decisions and
//! new states from plain values handed in by the caller.

pub mod commands;
pub mod metadata;
pub mod resolver;
pub mod session;
pub mod text;
pub mod volume;
