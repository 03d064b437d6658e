use torrent_core::storage::piece::{Block, FinalizeOutcome, Piece, PieceStatus, PieceStorage};

#[test]
fn test_block_new() {
    let block = Block::new(0, 0, 1024, vec![1u8; 1024]);
    assert_eq!(block.piece_index, 0);
    assert_eq!(block.offset, 0);
    assert_eq!(block.length, 1024);
    assert_eq!(block.data.len(), 1024);
}

#[test]
fn test_block_data() {
    let data = vec![1, 2, 3, 4];
    let block = Block::new(0, 0, 4, data.clone());
    assert_eq!(block.data(), data.as_slice());
}

#[test]
fn test_piece_status_default() {
    assert_eq!(PieceStatus::default(), PieceStatus::Missing);
}

#[test]
fn test_piece_new() {
    let hash = vec![1u8; 20];
    let piece = Piece::new(0, 1024, hash.clone());
    assert_eq!(piece.index, 0);
    assert_eq!(piece.hash, hash);
    assert!(!piece.verified);
    assert_eq!(piece.block_count(), 1);
}

#[test]
fn test_piece_new_multiple_blocks() {
    let hash = vec![1u8; 20];
    let piece = Piece::new(0, 32 * 1024, hash);
    assert_eq!(piece.block_count(), 2);
}

#[test]
fn test_piece_add_block() {
    let hash = vec![1u8; 20];
    let mut piece = Piece::new(0, 32 * 1024, hash);
    let data = vec![1u8; 16 * 1024];

    assert!(piece.add_block(0, data.clone()).is_ok());
    assert_eq!(piece.downloaded_blocks(), 1);
}

#[test]
fn test_piece_add_block_out_of_range() {
    let hash = vec![1u8; 20];
    let mut piece = Piece::new(0, 16 * 1024, hash);
    let data = vec![1u8; 16 * 1024];

    assert!(piece.add_block(32 * 1024, data).is_err());
}

#[test]
fn test_piece_is_complete() {
    let hash = vec![1u8; 20];
    let mut piece = Piece::new(0, 16 * 1024, hash);
    assert!(!piece.is_complete());

    piece.blocks[0] = Some(vec![1u8; 16 * 1024]);
    assert!(piece.is_complete());
}

#[test]
fn test_piece_verify_valid() {
    let hash = vec![1u8; 20];
    let mut piece = Piece::new(0, 16 * 1024, hash);
    piece.blocks[0] = Some(vec![1u8; 16 * 1024]);

    // The hash of ones is not twenty ones, so verification must fail.
    assert!(!piece.verify());
    assert!(!piece.verified);
}

#[test]
fn test_piece_get_missing_blocks() {
    let hash = vec![1u8; 20];
    let piece = Piece::new(0, 32 * 1024, hash);
    let missing = piece.get_missing_blocks();
    assert_eq!(missing.len(), 2);
}

#[test]
fn test_piece_clear() {
    let hash = vec![1u8; 20];
    let mut piece = Piece::new(0, 16 * 1024, hash);
    piece.blocks[0] = Some(vec![1u8; 16 * 1024]);
    piece.verified = true;

    piece.clear();
    assert!(!piece.verified);
    assert!(piece.data.is_empty());
    assert!(!piece.is_complete());
}

#[test]
fn test_piece_downloaded_blocks() {
    let hash = vec![1u8; 20];
    let mut piece = Piece::new(0, 32 * 1024, hash);
    assert_eq!(piece.downloaded_blocks(), 0);

    piece.blocks[0] = Some(vec![1u8; 16 * 1024]);
    assert_eq!(piece.downloaded_blocks(), 1);
}

#[test]
fn test_piece_storage_new() {
    let hashes = vec![vec![1u8; 20], vec![2u8; 20]];
    let storage = PieceStorage::new(hashes, 1024, 2048);
    assert_eq!(storage.piece_count(), 2);
    assert_eq!(storage.piece_length(), 1024);
    assert_eq!(storage.completed_count(), 0);
}

#[test]
fn test_piece_storage_get_piece() {
    let hashes = vec![vec![1u8; 20], vec![2u8; 20]];
    let storage = PieceStorage::new(hashes, 1024, 2048);

    assert!(storage.get_piece(0).is_some());
    assert!(storage.get_piece(1).is_some());
    assert!(storage.get_piece(2).is_none());
}

#[test]
fn test_piece_storage_get_piece_mut() {
    let hashes = vec![vec![1u8; 20], vec![2u8; 20]];
    let mut storage = PieceStorage::new(hashes, 1024, 2048);

    if let Some(piece) = storage.get_piece_mut(0) {
        piece.blocks[0] = Some(vec![1u8; 1024]);
        assert!(piece.is_complete());
    }
}

#[test]
fn test_piece_storage_bitfield() {
    let hashes = vec![vec![1u8; 20], vec![2u8; 20], vec![3u8; 20]];
    let mut storage = PieceStorage::new(hashes, 1024, 3072);

    let bitfield = storage.bitfield();
    // All pieces incomplete, bitfield should be all zeros.
    assert_eq!(bitfield, vec![0u8; 1]);

    // Mark the first piece as complete.
    if let Some(piece) = storage.get_piece_mut(0) {
        piece.blocks[0] = Some(vec![1u8; 1024]);
        piece.verified = true;
    }

    let bitfield = storage.bitfield();
    // The first piece uses the MSB position (bit 7).
    assert_eq!(bitfield[0], 0b10000000);

    // Mark the second piece as complete.
    if let Some(piece) = storage.get_piece_mut(1) {
        piece.blocks[0] = Some(vec![1u8; 1024]);
        piece.verified = true;
    }

    let bitfield = storage.bitfield();
    assert_eq!(bitfield[0], 0b11000000);
}

#[test]
fn test_piece_storage_is_complete() {
    let hashes = vec![vec![1u8; 20], vec![2u8; 20]];
    let mut storage = PieceStorage::new(hashes, 1024, 2048);

    assert!(!storage.is_complete());

    for i in 0..2 {
        if let Some(piece) = storage.get_piece_mut(i) {
            piece.blocks[0] = Some(vec![1u8; 1024]);
            piece.verified = true;
        }
    }

    assert!(storage.is_complete());
}

#[test]
fn test_piece_storage_empty() {
    let storage = PieceStorage::new(vec![], 1024, 0);
    assert_eq!(storage.piece_count(), 0);
    // A torrent of size zero yields zero pieces and is trivially complete.
    assert!(storage.is_complete());
}

#[test]
fn test_finalize_verifies_correct_piece() {
    let data = vec![7u8; 1000];
    let hash = torrent_core::torrent::info::TorrentInfo::generate_info_hash(&data);
    let mut storage = PieceStorage::new(vec![hash.clone()], 1000, 1000);
    storage.add_block(0, 0, data.clone()).unwrap();
    match storage.finalize(0).unwrap() {
        FinalizeOutcome::Verified(bytes) => assert_eq!(bytes, data),
        _ => panic!("piece should verify"),
    }
    assert!(storage.is_complete());
}

#[test]
fn test_finalize_rejects_corrupt_piece() {
    let data = vec![7u8; 1000];
    let hash = torrent_core::torrent::info::TorrentInfo::generate_info_hash(&data);
    let mut storage = PieceStorage::new(vec![hash], 1000, 1000);
    storage.add_block(0, 0, vec![8u8; 1000]).unwrap();
    match storage.finalize(0).unwrap() {
        FinalizeOutcome::HashMismatch => {}
        _ => panic!("corrupt piece must not verify"),
    }
    // The slots were cleared so the piece can be fetched again.
    assert_eq!(storage.get_piece(0).unwrap().downloaded_blocks(), 0);
}

#[test]
fn test_last_piece_shorter_verifies() {
    // Two pieces of 1024 bytes each configured, but only 1500 bytes total:
    // the last piece holds 476 bytes and must verify over exactly those.
    let first = vec![1u8; 1024];
    let last = vec![2u8; 476];
    let hashes = vec![
        torrent_core::torrent::info::TorrentInfo::generate_info_hash(&first),
        torrent_core::torrent::info::TorrentInfo::generate_info_hash(&last),
    ];
    let mut storage = PieceStorage::new(hashes, 1024, 1500);
    storage.add_block(0, 0, first).unwrap();
    storage.add_block(1, 0, last).unwrap();
    assert!(matches!(storage.finalize(0).unwrap(), FinalizeOutcome::Verified(_)));
    assert!(matches!(storage.finalize(1).unwrap(), FinalizeOutcome::Verified(_)));
    assert!(storage.is_complete());
}

#[test]
fn test_bitfield_trailing_bits_zero() {
    // Nine pieces use two bytes; the seven trailing bits stay zero even
    // when every piece is verified.
    let hashes: Vec<Vec<u8>> = (0..9).map(|i| vec![i as u8; 20]).collect();
    let mut storage = PieceStorage::new(hashes, 1024, 9 * 1024);
    for i in 0..9 {
        if let Some(piece) = storage.get_piece_mut(i) {
            piece.verified = true;
        }
    }
    let bitfield = storage.bitfield();
    assert_eq!(bitfield.len(), 2);
    assert_eq!(bitfield[0], 0b11111111);
    assert_eq!(bitfield[1], 0b10000000);
}

#[test]
fn test_piece_length_equal_to_total_yields_one_piece() {
    // A torrent whose piece length equals its total size has exactly one
    // piece.
    let data = vec![3u8; 4096];
    let hash = torrent_core::torrent::info::TorrentInfo::generate_info_hash(&data);
    let storage = PieceStorage::new(vec![hash], 4096, 4096);
    assert_eq!(storage.piece_count(), 1);
}

#[test]
fn test_file_totals_reconcile_with_piece_geometry() {
    // The files' total equals N times the piece length minus what the
    // last piece leaves unused.
    let total: u64 = 1500;
    let piece_length: u64 = 1024;
    let piece_count: u64 = (total + piece_length - 1) / piece_length;
    let last_piece_length = total - (piece_count - 1) * piece_length;
    assert_eq!(total, piece_count * piece_length - (piece_length - last_piece_length));

    let info = torrent_core::torrent::info::TorrentInfo {
        announce: String::new(),
        announce_list: vec![],
        info_hash: vec![0u8; 20],
        piece_length,
        pieces: vec![vec![1u8; 20], vec![2u8; 20]],
        name: "t".to_string(),
        length: None,
        files: Some(vec![
            torrent_core::torrent::info::TorrentFile {
                path: vec!["a".to_string()],
                length: 700,
            },
            torrent_core::torrent::info::TorrentFile {
                path: vec!["b".to_string()],
                length: 800,
            },
        ]),
    };
    assert_eq!(info.total_size(), total);
    assert_eq!(info.piece_count() as u64, piece_count);
}
