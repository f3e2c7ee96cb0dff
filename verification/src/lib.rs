//! An RFB proxy that enables WebSockets and audio.
//!
//! Nothing here does any I/O. The functions take what has arrived and say what to send, to whom,
//! and what to wait for; the caller does the rest.

pub mod audio;
pub mod auth;
pub mod data;
pub mod messages;
pub mod outside;
pub mod proxy;
pub mod rfb;
pub mod session;
pub mod text;
pub mod wording;
