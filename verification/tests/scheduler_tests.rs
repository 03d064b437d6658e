use torrent_core::storage::download::{BlockOutcome, DownloadManager, PieceDownload,
    REQUEST_TIMEOUT_MS};
use torrent_core::storage::file::plan_write;
use torrent_core::storage::piece::PieceStorage;
use torrent_core::torrent::info::{TorrentFile, TorrentInfo};

#[test]
fn test_piece_download_bookkeeping() {
    let mut download = PieceDownload::new(3, 4, 0);
    assert_eq!(download.piece_index, 3);
    assert!(!download.is_complete());
    assert_eq!(download.downloaded_blocks(), 0);

    download.mark_block_downloaded(0);
    download.mark_block_downloaded(2);
    assert_eq!(download.downloaded_blocks(), 2);
    assert!(!download.is_complete());

    download.mark_block_downloaded(1);
    download.mark_block_downloaded(3);
    assert!(download.is_complete());
}

#[test]
fn test_no_duplicate_inflight_requests() {
    // Recording the same block twice refreshes the one entry instead of
    // adding a second with the same key.
    let mut manager = DownloadManager::new();
    manager.record_request(0, 0, 100);
    manager.record_request(0, 0, 200);
    manager.record_request(0, 1, 100);
    assert_eq!(manager.inflight_count(), 2);
    assert!(manager.has_request(0, 0));
    assert!(manager.has_request(0, 1));
}

#[test]
fn test_slow_request_cancellation() {
    // A request that never gets a reply: after the 30 s deadline the sweep
    // removes it and reports its key so a cancel can be sent, and the
    // block becomes requestable again.
    let mut manager = DownloadManager::new();
    manager.record_request(7, 2, 0);
    assert!(manager.has_request(7, 2));

    let cancelled = manager.cancel_slow_requests(REQUEST_TIMEOUT_MS + 1, REQUEST_TIMEOUT_MS);
    assert_eq!(cancelled, vec![(7, 2)]);
    assert!(!manager.has_request(7, 2));
    assert_eq!(manager.inflight_count(), 0);

    // A later round may issue the same block again, to any peer.
    manager.record_request(7, 2, REQUEST_TIMEOUT_MS + 5);
    assert!(manager.has_request(7, 2));
}

#[test]
fn test_fresh_requests_survive_sweep() {
    let mut manager = DownloadManager::new();
    manager.record_request(1, 0, 0);
    manager.record_request(1, 1, 25_000);
    let cancelled = manager.cancel_slow_requests(31_000, REQUEST_TIMEOUT_MS);
    assert_eq!(cancelled, vec![(1, 0)]);
    assert!(manager.has_request(1, 1));
}

#[test]
fn test_single_piece_download_verifies_and_completes() {
    // A torrent with one 16 KiB piece of known digest: after the block
    // arrives, the piece verifies, its bytes come back for the backend
    // write, and the store reports completion.
    let data = vec![0x5au8; 16 * 1024];
    let hash = TorrentInfo::generate_info_hash(&data);
    let mut storage = PieceStorage::new(vec![hash], 16 * 1024, 16 * 1024);
    let mut manager = DownloadManager::new();

    manager.start_piece(0, 1, 0);
    manager.record_request(0, 0, 0);

    match manager.on_block_arrival(&mut storage, 0, 0, data.clone()).unwrap() {
        BlockOutcome::Verified(bytes) => assert_eq!(bytes, data),
        _ => panic!("the piece must verify"),
    }
    assert!(!manager.has_request(0, 0));
    assert_eq!(manager.active_download_count(), 0);
    assert!(storage.is_complete());
    assert_eq!(storage.completed_count(), storage.piece_count());
}

#[test]
fn test_verify_failure_then_retry_succeeds() {
    // A peer serves corrupted bytes: finalisation reports the mismatch
    // and clears the slots; a second, correct serve verifies.
    let data = vec![0x5au8; 16 * 1024];
    let hash = TorrentInfo::generate_info_hash(&data);
    let mut storage = PieceStorage::new(vec![hash], 16 * 1024, 16 * 1024);
    let mut manager = DownloadManager::new();

    manager.start_piece(0, 1, 0);
    manager.record_request(0, 0, 0);
    let corrupted = vec![0xa5u8; 16 * 1024];
    match manager.on_block_arrival(&mut storage, 0, 0, corrupted).unwrap() {
        BlockOutcome::HashMismatch => {}
        _ => panic!("corrupted bytes must not verify"),
    }
    assert_eq!(storage.get_piece(0).unwrap().downloaded_blocks(), 0);
    assert!(!storage.is_complete());

    // The scheduler issues a new request; a correct peer serves the block.
    manager.record_request(0, 0, 10);
    match manager.on_block_arrival(&mut storage, 0, 0, data).unwrap() {
        BlockOutcome::Verified(_) => {}
        _ => panic!("the retried piece must verify"),
    }
    assert!(storage.is_complete());
}

#[test]
fn test_plan_write_spans_files() {
    // Two files of 500 and 524 bytes; a write of 100 bytes at offset 450
    // must place 50 bytes at the end of the first file and 50 at the
    // start of the second.
    let files = vec![
        TorrentFile { path: vec!["file1.txt".to_string()], length: 500 },
        TorrentFile { path: vec!["file2.txt".to_string()], length: 524 },
    ];
    let plan = plan_write(&files, 450, 100);
    assert_eq!(plan.len(), 2);
    assert_eq!((plan[0].file_index, plan[0].file_offset, plan[0].length), (0, 450, 50));
    assert_eq!((plan[1].file_index, plan[1].file_offset, plan[1].length), (1, 0, 50));
}

#[test]
fn test_plan_write_clips_past_the_end() {
    let files = vec![TorrentFile { path: vec!["only".to_string()], length: 64 }];
    let plan = plan_write(&files, 60, 100);
    assert_eq!(plan.len(), 1);
    assert_eq!((plan[0].file_offset, plan[0].length), (60, 4));
}

#[test]
fn test_stats_count_blocks_and_outcomes() {
    // Counters: bytes on every accepted block, a downloaded and verified
    // piece on success, a failed piece on a hash mismatch.
    let data = vec![0x5au8; 16 * 1024];
    let hash = TorrentInfo::generate_info_hash(&data);
    let mut storage = PieceStorage::new(vec![hash], 16 * 1024, 16 * 1024);
    let mut manager = DownloadManager::new();
    assert_eq!(manager.get_stats().downloaded_bytes, 0);

    let corrupted = vec![0xa5u8; 16 * 1024];
    manager.on_block_arrival(&mut storage, 0, 0, corrupted).unwrap();
    let after_bad = manager.get_stats();
    assert_eq!(after_bad.downloaded_bytes, 16 * 1024);
    assert_eq!(after_bad.pieces_failed, 1);
    assert_eq!(after_bad.pieces_downloaded, 0);
    assert_eq!(after_bad.pieces_verified, 0);

    manager.on_block_arrival(&mut storage, 0, 0, data).unwrap();
    let after_good = manager.get_stats();
    assert_eq!(after_good.downloaded_bytes, 2 * 16 * 1024);
    assert_eq!(after_good.pieces_downloaded, 1);
    assert_eq!(after_good.pieces_verified, 1);
    assert_eq!(after_good.pieces_failed, 1);
    assert_eq!(after_good.uploaded_bytes, 0);

    // A rejected block leaves every counter alone.
    assert!(manager.on_block_arrival(&mut storage, 5, 0, vec![0u8; 4]).is_err());
    assert_eq!(manager.get_stats().downloaded_bytes, 2 * 16 * 1024);
}
