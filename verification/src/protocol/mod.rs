//! The Soulseek protocol.

pub mod client;
pub mod file_selection;
pub mod messages;
pub mod obfuscation;
pub mod peer;
pub mod router;
pub mod searches;
pub mod downloads;
pub mod connection;
pub mod exchange;
