//! Identity and metadata of a storage backend.
//!
//! The backend operations themselves (initialise, write a verified piece,
//! read a piece back, complete) run over sockets and files, so their trait
//! lives with the I/O glue outside the library; the scheduler here only
//! produces the values handed to them.

use vstd::prelude::*;

verus! {

/// Which kind of backend stores the torrent's bytes.
#[derive(Debug, Clone, Copy, PartialEq, Eq, Structural)]
pub enum StorageType {
    /// Local filesystem storage.
    File,
    /// Remote drive storage reached over HTTP.
    Drive,
}

/// Backend-specific metadata, as reported by a backend.
#[derive(Debug, Clone)]
pub struct StorageMetadata {
    pub storage_type: StorageType,
    pub base_path: Option<String>,
    pub drive_folder_id: Option<String>,
    pub total_size: u64,
    pub piece_count: usize,
}

} // verus!
