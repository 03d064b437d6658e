use torrent_core::cli::progress::ProgressDisplay;

#[test]
fn test_progress_display_new() {
    let display = ProgressDisplay::new(false, 0);
    assert!(!display.is_quiet());
    assert_eq!(display.elapsed(0), 0);
}

#[test]
fn test_progress_display_quiet() {
    let display = ProgressDisplay::new(true, 0);
    assert!(display.is_quiet());
}

#[test]
fn test_progress_display_with_interval() {
    let display = ProgressDisplay::with_interval(false, 2000, 0);
    assert!(!display.is_quiet());
    assert_eq!(display.update_interval_ms, 2000);
}

#[test]
fn test_progress_display_update_timing() {
    let mut display = ProgressDisplay::new(false, 0);
    assert!(!display.due_for_update(100));
    assert!(display.due_for_update(500));
    display.mark_updated(500);
    assert!(!display.due_for_update(600));
    assert!(display.due_for_update(1000));
}

#[test]
fn test_progress_display_quiet_never_updates() {
    let display = ProgressDisplay::new(true, 0);
    assert!(!display.due_for_update(10_000));
}
