//! Metainfo: parsed torrent files and magnet links.

pub mod info;
pub mod magnet;
pub mod parser;

pub use info::{TorrentFile, TorrentInfo};
pub use magnet::{MagnetInfo, MagnetParser};
pub use parser::TorrentParser;
