use blend_file_reader::wherego::MoveDetector;

#[test]
fn test_move_detector_basic() {
    let mut detector = MoveDetector::new(2000);

    let old_path = "/test/old.txt".to_string();
    let new_path = "/test/new.txt".to_string();

    detector.record_delete(old_path.clone(), false);
    let move_event = detector.match_create(new_path.clone(), false);

    assert!(move_event.is_some());
    assert_eq!(move_event.unwrap().from, old_path);
    assert_eq!(detector.get_new_path(&old_path), Some(new_path));
}

#[test]
fn test_move_detector_directory() {
    let mut detector = MoveDetector::new(2000);

    let old_dir = "/old/dir".to_string();
    let new_dir = "/new/dir".to_string();

    detector.record_delete(old_dir.clone(), true);
    let move_event = detector.match_create(new_dir.clone(), true);

    assert!(move_event.is_some());
    assert!(move_event.unwrap().is_directory);
}

#[test]
fn test_move_detector_no_match() {
    let mut detector = MoveDetector::new(2000);

    let new_path = "/different/new.txt".to_string();

    // No delete was recorded
    let move_event = detector.match_create(new_path, false);
    assert!(move_event.is_none());
}

#[test]
fn test_same_name_across_directories_matches() {
    let mut detector = MoveDetector::new(2000);

    detector.record_delete("/a/x.txt".to_string(), false);
    let mv = detector.match_create("/b/x.txt".to_string(), false);

    // shared file name, extension and root component clear the floor
    assert!(mv.is_some());
    assert_eq!(mv.unwrap().from, "/a/x.txt");
}

#[test]
fn test_dissimilar_paths_do_not_match() {
    let mut detector = MoveDetector::new(2000);

    detector.record_delete("/a/x.bin".to_string(), false);
    let mv = detector.match_create("/b/y.txt".to_string(), false);
    assert!(mv.is_none());
}

#[test]
fn test_type_mismatch_never_matches() {
    let mut detector = MoveDetector::new(2000);

    // a directory delete cannot pair with a file create
    detector.record_delete("/test/thing".to_string(), true);
    let mv = detector.match_create("/test/thing2".to_string(), false);
    assert!(mv.is_none());
}
