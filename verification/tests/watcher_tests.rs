use blend_file_reader::wherego::MoveDetector;

#[test]
fn test_move_detector_basic_functionality() {
    let mut detector = MoveDetector::new(2000);

    let old_path = "/test/old.txt".to_string();
    let new_path = "/test/new.txt".to_string();

    detector.record_delete(old_path.clone(), false);
    let move_event = detector.match_create(new_path.clone(), false);

    assert!(move_event.is_some());
    let mv = move_event.unwrap();
    assert_eq!(mv.from, old_path);
    assert_eq!(mv.to, new_path);
    assert!(!mv.is_directory);
}

#[test]
fn test_move_detector_directory_moves() {
    let mut detector = MoveDetector::new(2000);

    let old_dir = "/old/folder".to_string();
    let new_dir = "/new/folder".to_string();

    detector.record_delete(old_dir.clone(), true);
    let move_event = detector.match_create(new_dir.clone(), true);

    assert!(move_event.is_some());
    let mv = move_event.unwrap();
    assert_eq!(mv.from, old_dir);
    assert_eq!(mv.to, new_dir);
    assert!(mv.is_directory);
}

#[test]
fn test_move_map_updates() {
    let mut detector = MoveDetector::new(2000);

    let old_path = "/test/file.txt".to_string();
    let new_path = "/test/renamed.txt".to_string();

    detector.record_delete(old_path.clone(), false);
    detector.match_create(new_path.clone(), false);

    assert_eq!(detector.get_new_path(&old_path), Some(new_path));
}

#[test]
fn watcher_tests_test_multiple_moves() {
    let mut detector = MoveDetector::new(2000);

    let moves = vec![
        ("/test/file1.txt".to_string(), "/test/renamed1.txt".to_string()),
        ("/test/file2.txt".to_string(), "/test/renamed2.txt".to_string()),
        ("/test/dir1".to_string(), "/test/dir1_renamed".to_string()),
    ];

    for (old, new) in &moves {
        detector.record_delete(old.clone(), old.ends_with("dir1"));
        detector.match_create(new.clone(), new.ends_with("dir1_renamed"));
    }

    for (old, expected_new) in &moves {
        assert_eq!(detector.get_new_path(old), Some(expected_new.clone()));
    }
}

#[test]
fn test_handle_directory_move_repoints_entries() {
    let mut detector = MoveDetector::new(2000);

    detector.record_delete("/old/dir/file.txt".to_string(), false);
    detector.match_create("/staging/dir/file.txt".to_string(), false);

    detector.handle_directory_move("/old/dir", "/new/dir");

    assert_eq!(
        detector.get_new_path("/old/dir/file.txt"),
        Some("/new/dir/file.txt".to_string())
    );
}

#[test]
fn test_moves_in_directory_filter() {
    let mut detector = MoveDetector::new(2000);

    detector.record_delete("/watched/a.txt".to_string(), false);
    detector.match_create("/watched/b.txt".to_string(), false);
    detector.record_delete("/elsewhere/c.txt".to_string(), false);
    detector.match_create("/elsewhere/d.txt".to_string(), false);

    let inside = detector.get_moves_in_directory("/watched");
    assert_eq!(inside.len(), 1);
    assert_eq!(inside[0].from, "/watched/a.txt");

    assert_eq!(detector.get_recent_moves().len(), 2);
    assert_eq!(detector.get_move_map().len(), 2);
}
