//! Piece-level storage: block bookkeeping, hash verification, bitfields,
//! resume snapshots, and the file layout of a torrent's byte stream.

pub mod backend;
pub mod download;
pub mod file;
pub mod piece;
pub mod resume;

pub use piece::{Block, Piece, PieceStatus, PieceStorage};
pub use download::{DownloadManager, PieceDownload};
pub use file::FileStorage;
pub use resume::{PieceState, ResumeData, ResumeManager};
