//! A Soulseek client and music library server: wire protocol, peer negotiation, file
//! selection and the rules of the HTTP service, with machine-checked contracts.

pub mod api;
pub mod db;
pub mod models;
pub mod protocol;
pub mod settings;
pub mod text;
pub mod wire;
