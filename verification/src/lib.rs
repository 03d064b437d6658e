//! Core of a BitTorrent client: bencode codec, metainfo and magnet parsing,
//! peer wire protocol, piece store, download scheduling, and Kademlia DHT
//! primitives, with machine-checked contracts.

pub mod bencode;
pub mod bits;
pub mod cli;
pub mod dht;
pub mod error;
pub mod peer;
pub mod protocol;
pub mod sha;
pub mod storage;
pub mod torrent;
pub mod util;

use vstd::prelude::*;

verus! {

/// Relies on rand 0.8's `random`, which draws a value from the thread-local
/// generator; nothing is promised of the value drawn.
pub assume_specification<T>[ rand::random::<T> ]() -> (r: T)
    where
        rand::distributions::Standard: rand::distributions::Distribution<T>,
;

} // verus!
