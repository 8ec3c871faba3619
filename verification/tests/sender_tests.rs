use local_transport::sender::{classify_entry, file_name, itfile, plan_directory, send_file, send_quantity, wire_name, EntryKind};

#[test]
fn kind_byte_tells_a_file_from_a_directory() {
    assert_eq!(itfile(true), vec![1u8]);
    assert_eq!(itfile(false), vec![0u8]);
}

#[test]
fn quantity_is_eight_big_endian_bytes() {
    assert_eq!(send_quantity(3), vec![0, 0, 0, 0, 0, 0, 0, 3]);
    assert_eq!(send_quantity(0x0102), vec![0, 0, 0, 0, 0, 0, 1, 2]);
}

#[test]
fn file_header_is_name_length_name_and_size() {
    let header = send_file(b"a.txt", 5);
    let mut expected = vec![0u8, 0, 0, 5];
    expected.extend_from_slice(b"a.txt");
    expected.extend_from_slice(&[0, 0, 0, 0, 0, 0, 0, 5]);
    assert_eq!(header, expected);
}

#[test]
fn file_header_of_an_empty_name_and_a_large_file() {
    assert_eq!(
        send_file(b"", 0x0100_0000_0000),
        vec![0, 0, 0, 0, 0, 0, 1, 0, 0, 0, 0, 0]
    );
}

#[test]
fn wire_name_turns_backslashes_into_slashes() {
    assert_eq!(wire_name(b"sub\\dir\\f.txt"), b"sub/dir/f.txt".to_vec());
    assert_eq!(wire_name(b"plain/name"), b"plain/name".to_vec());
    assert_eq!(wire_name(b""), Vec::<u8>::new());
}

#[test]
fn walk_skips_links_descends_into_directories_and_sends_files() {
    assert_eq!(classify_entry(true, true), EntryKind::Skip);
    assert_eq!(classify_entry(true, false), EntryKind::Skip);
    assert_eq!(classify_entry(false, true), EntryKind::Descend);
    assert_eq!(classify_entry(false, false), EntryKind::Send);
}

#[test]
fn plan_counts_the_listed_files_and_names_each() {
    let plan = plan_directory(&vec![b"x\\y".to_vec(), b"z".to_vec(), b"w/v".to_vec()]);
    assert_eq!(plan.count, vec![0, 0, 0, 0, 0, 0, 0, 3]);
    assert_eq!(plan.names, vec![b"x/y".to_vec(), b"z".to_vec(), b"w/v".to_vec()]);
    let empty = plan_directory(&Vec::new());
    assert_eq!(empty.count, vec![0; 8]);
    assert!(empty.names.is_empty());
}

#[test]
fn file_name_is_the_last_component() {
    assert_eq!(file_name(b"/tmp/a.txt"), Some(b"a.txt".to_vec()));
    assert_eq!(file_name(b"a/b/"), Some(b"b".to_vec()));
    assert_eq!(file_name(b"a/."), Some(b"a".to_vec()));
    assert_eq!(file_name(b"./x"), Some(b"x".to_vec()));
    assert_eq!(file_name(b"x"), Some(b"x".to_vec()));
    assert_eq!(file_name(b"a//b//"), Some(b"b".to_vec()));
    assert_eq!(file_name(b"a/.."), None);
    assert_eq!(file_name(b"/"), None);
    assert_eq!(file_name(b""), None);
    assert_eq!(file_name(b"."), None);
    assert_eq!(file_name(b"./."), None);
}

#[test]
fn file_name_agrees_with_the_standard_library() {
    for p in ["/tmp/a.txt", "a/b/", "a/.", "./x", "a/..", "/", "", ".", "..", "a/./b/.", "//x//"] {
        let expected = std::path::Path::new(p).file_name().map(|n| n.to_string_lossy().into_owned().into_bytes());
        assert_eq!(file_name(p.as_bytes()), expected, "path {:?}", p);
    }
}
