use transcription_uploader::paths::{extract_file_info, should_process_file};

#[test]
fn test_extract_file_info_builds_the_pair() {
    let (mp3, txt) = extract_file_info("watch/site/20240101_000000__TO_5.txt").unwrap();
    assert_eq!(mp3, "watch/site/20240101_000000__TO_5.mp3");
    assert_eq!(txt, "watch/site/20240101_000000__TO_5.txt");

    // Starting from the recording gives the same pair.
    let (mp3, txt) = extract_file_info("watch/site/20240101_000000__TO_5.mp3").unwrap();
    assert_eq!(mp3, "watch/site/20240101_000000__TO_5.mp3");
    assert_eq!(txt, "watch/site/20240101_000000__TO_5.txt");
}

#[test]
fn test_extract_file_info_without_directory_or_extension() {
    let (mp3, txt) = extract_file_info("capture").unwrap();
    assert_eq!(mp3, "capture.mp3");
    assert_eq!(txt, "capture.txt");

    // A leading dot alone is not an extension separator.
    let (mp3, _) = extract_file_info("dir/.hidden").unwrap();
    assert_eq!(mp3, "dir/.hidden.mp3");

    // No file-name part at all.
    assert!(extract_file_info("dir/").is_none());
    assert!(extract_file_info("").is_none());
}

#[test]
fn test_dot_entries_name_no_file() {
    assert!(extract_file_info("a/.").is_none());
    assert!(extract_file_info("a/..").is_none());
    assert!(extract_file_info(".").is_none());
    assert!(extract_file_info("..").is_none());
    // Three dots, by contrast, are an ordinary (odd) file name.
    assert!(extract_file_info("a/...").is_some());
}

#[test]
fn test_root_level_entries_are_refused() {
    assert!(!should_process_file("watch/stray.mp3", "watch"));
    assert!(should_process_file("watch/site/pair.mp3", "watch"));
    assert!(should_process_file("elsewhere/pair.mp3", "watch"));
}
