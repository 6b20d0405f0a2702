use photo_dupe_resolver::shared_state::{AppState, Control, DuplicateGroup};

#[test]
fn new_state_is_idle() {
    let s = AppState::new();
    assert!(!s.scanner_running && !s.hasher_running && !s.grouper_running);
    assert_eq!(s.total_images_discovered, 0);
    assert!(s.duplicate_groups.is_empty());
    let d = AppState::default();
    assert_eq!(d.total_images_hashed, 0);
}

#[test]
fn controls_set_running_flags() {
    let mut s = AppState::new();
    s.apply_control(Control::StartScanner);
    assert!(s.scanner_running);
    assert!(!s.hasher_running);
    s.apply_control(Control::StartHasher);
    s.apply_control(Control::StopScanner);
    assert!(!s.scanner_running);
    assert!(s.hasher_running);
    s.apply_control(Control::StartGrouper);
    s.apply_control(Control::StartGrouper);
    assert!(s.grouper_running);
    s.apply_control(Control::StopGrouper);
    s.apply_control(Control::StopHasher);
    assert!(!s.grouper_running && !s.hasher_running);
}

#[test]
fn counters_and_groups_are_recorded() {
    let mut s = AppState::new();
    s.record_discovered(12);
    s.record_discovered(3);
    assert_eq!(s.total_images_discovered, 15);
    s.record_hashed(7);
    assert_eq!(s.total_images_hashed, 7);
    s.apply_control(Control::StartGrouper);
    let groups = vec![DuplicateGroup { hash: "h".to_string(), perceptual_hash: String::new(), images: Vec::new() }];
    s.record_duplicate_groups(groups, 1);
    assert_eq!(s.total_duplicate_groups, 1);
    assert_eq!(s.duplicate_groups.len(), 1);
    assert!(!s.grouper_running);
}

#[test]
fn scanner_runs_only_with_paths() {
    let mut s = AppState::new();
    assert!(!s.scanner_should_run(&vec!["/p".to_string()]));
    s.apply_control(Control::StartScanner);
    assert!(s.scanner_should_run(&vec!["/p".to_string()]));
    assert!(!s.scanner_should_run(&Vec::new()));
}
