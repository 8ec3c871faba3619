use local_transport::stream::{file_destination, has_path};

#[test]
fn has_path_matches_absolute_paths() {
    assert!(has_path("/tmp"));
    assert!(!has_path("tmp"));
    assert!(!has_path(""));
}

#[test]
fn destination_puts_one_slash_between() {
    assert_eq!(file_destination(b"/tmp/in", b"f.txt"), b"/tmp/in/f.txt".to_vec());
    assert_eq!(file_destination(b"/tmp/in/", b"f.txt"), b"/tmp/in/f.txt".to_vec());
    assert_eq!(file_destination(b"", b"f.txt"), b"/f.txt".to_vec());
}
