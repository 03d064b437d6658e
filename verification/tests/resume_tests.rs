use torrent_core::storage::resume::{PieceState, ResumeData, ResumeManager};

#[test]
fn test_resume_data_new() {
    let resume = ResumeData::new("test_hash".to_string(), 10);
    assert_eq!(resume.info_hash, "test_hash");
    // 10 pieces need 2 bytes: (10 + 7) / 8 = 2.
    assert_eq!(resume.downloaded_pieces.len(), 2);
    assert!(resume.pieces.is_empty());
}

#[test]
fn test_resume_data_set_piece_downloaded() {
    let mut resume = ResumeData::new("test_hash".to_string(), 16);

    assert!(!resume.is_piece_downloaded(0));
    assert!(!resume.is_piece_downloaded(5));

    resume.set_piece_downloaded(5);
    assert!(!resume.is_piece_downloaded(0));
    assert!(resume.is_piece_downloaded(5));

    resume.set_piece_downloaded(0);
    assert!(resume.is_piece_downloaded(0));
}

#[test]
fn test_resume_data_is_piece_downloaded_out_of_range() {
    let resume = ResumeData::new("test_hash".to_string(), 8);
    // Piece index 8 is out of range; only 0 through 7 exist for 8 pieces.
    assert!(!resume.is_piece_downloaded(8));
    assert!(!resume.is_piece_downloaded(100));
}

#[test]
fn test_resume_data_downloaded_count() {
    let mut resume = ResumeData::new("test_hash".to_string(), 20);
    assert_eq!(resume.downloaded_count(), 0);

    resume.set_piece_downloaded(0);
    resume.set_piece_downloaded(5);
    resume.set_piece_downloaded(19);

    assert_eq!(resume.downloaded_count(), 3);
}

#[test]
fn test_resume_data_update_piece_state() {
    let mut resume = ResumeData::new("test_hash".to_string(), 10);
    let piece_state = PieceState::new(5, 4);

    resume.update_piece_state(piece_state.clone());
    assert_eq!(resume.pieces.len(), 1);

    // Updating the same piece replaces the entry.
    let mut updated = piece_state.clone();
    updated.set_block_downloaded(0);
    resume.update_piece_state(updated);
    assert_eq!(resume.pieces.len(), 1);
    assert!(resume.pieces[0].is_block_downloaded(0));
}

#[test]
fn test_resume_data_get_piece_state() {
    let mut resume = ResumeData::new("test_hash".to_string(), 10);
    let piece_state = PieceState::new(3, 4);
    resume.update_piece_state(piece_state);

    assert!(resume.get_piece_state(3).is_some());
    assert!(resume.get_piece_state(5).is_none());
}

#[test]
fn test_resume_data_remove_piece_state() {
    let mut resume = ResumeData::new("test_hash".to_string(), 10);
    let piece_state = PieceState::new(3, 4);
    resume.update_piece_state(piece_state);

    assert!(resume.get_piece_state(3).is_some());
    resume.remove_piece_state(3);
    assert!(resume.get_piece_state(3).is_none());
}

#[test]
fn test_piece_state_new() {
    let state = PieceState::new(5, 10);
    assert_eq!(state.index, 5);
    assert_eq!(state.blocks.len(), 10);
    assert!(!state.is_complete());
}

#[test]
fn test_piece_state_set_block_downloaded() {
    let mut state = PieceState::new(0, 5);
    assert!(!state.is_block_downloaded(0));
    assert!(!state.is_block_downloaded(4));

    state.set_block_downloaded(2);
    assert!(state.is_block_downloaded(2));
    assert!(!state.is_block_downloaded(0));
}

#[test]
fn test_piece_state_set_block_out_of_range() {
    let mut state = PieceState::new(0, 5);
    // Ignored, never a panic.
    state.set_block_downloaded(10);
    assert_eq!(state.downloaded_blocks(), 0);
}

#[test]
fn test_piece_state_is_block_downloaded_out_of_range() {
    let state = PieceState::new(0, 5);
    assert!(!state.is_block_downloaded(10));
    assert!(!state.is_block_downloaded(100));
}

#[test]
fn test_piece_state_downloaded_blocks() {
    let mut state = PieceState::new(0, 5);
    assert_eq!(state.downloaded_blocks(), 0);

    state.set_block_downloaded(0);
    state.set_block_downloaded(2);
    state.set_block_downloaded(4);

    assert_eq!(state.downloaded_blocks(), 3);
}

#[test]
fn test_piece_state_is_complete() {
    let mut state = PieceState::new(0, 3);
    assert!(!state.is_complete());

    state.set_block_downloaded(0);
    assert!(!state.is_complete());

    state.set_block_downloaded(1);
    state.set_block_downloaded(2);
    assert!(state.is_complete());
}

#[test]
fn test_piece_state_clear() {
    let mut state = PieceState::new(0, 3);
    state.set_block_downloaded(0);
    state.set_block_downloaded(1);

    assert_eq!(state.downloaded_blocks(), 2);
    state.clear();
    assert_eq!(state.downloaded_blocks(), 0);
    assert!(!state.is_block_downloaded(0));
}

#[test]
fn test_resume_manager_new() {
    let manager = ResumeManager::new("/tmp/resume".to_string());
    assert_eq!(manager.resume_dir, "/tmp/resume");
}

#[test]
fn test_resume_manager_default() {
    let manager = ResumeManager::default();
    assert_eq!(manager.resume_dir, ".resume");
}

#[test]
fn test_resume_manager_resume_file_path() {
    let manager = ResumeManager::new("/tmp/resume".to_string());
    let path = manager.resume_file_path("abc123");
    assert_eq!(path, "/tmp/resume/abc123.resume");
}
