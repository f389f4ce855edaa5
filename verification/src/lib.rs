//! Request handling, message routing and text framing of a small
//! peer-to-peer chat: a registry server maps user names to listening
//! addresses, and peers exchange `;`-separated text frames.
pub mod error;
pub mod handlers;
pub mod laws;
pub mod names;
pub mod peer;
pub mod server;
pub mod text;
pub mod wire;
