//! The BitTorrent peer wire protocol: handshake and framed messages.

pub mod handshake;
pub mod message;
pub mod wire;

pub use handshake::Handshake;
pub use message::{Message, MessageId};
