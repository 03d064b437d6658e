//! The Kademlia DHT: node identities, the 160-bucket routing table, wire
//! messages, compact encodings, and transaction bookkeeping.

pub mod message;
pub mod node;
pub mod routing;
pub mod service;

pub use message::{DHTMessage, QueryType, ResponseType, Transaction, TransactionTable};
pub use node::{Endpoint, Node, NodeId};
pub use routing::{KBucket, RoutingTable};
pub use service::DhtCore;
