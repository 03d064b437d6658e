//! Peers: per-connection state bits, the peer population, and peer scoring.

pub mod manager;
pub mod state;

pub use manager::PeerManager;
pub use state::{Peer, PeerInfo, PeerSource, PeerState, PeerStats};
