//! Chat protocol framing, session bookkeeping and chat-name registry.

pub mod buf;
pub mod protocol;
pub mod text;
pub mod ids;
pub mod input;
pub mod client;
pub mod peer;
pub mod names;
pub mod server;
pub mod sessions;
