use local_transport::receiver::{join_destination, Action, ReceiveError, Receiver};
use local_transport::sender::{itfile, plan_directory, send_file, send_quantity};

/// Drives a receiver over `input`, copying at most `size` bytes per file as
/// a connection would; returns the stored files or the failure.
fn receive(base: &[u8], input: &[u8]) -> Result<Vec<(Vec<u8>, Vec<u8>)>, ReceiveError> {
    let (mut rx, mut action) = Receiver::new(base);
    let mut pos = 0usize;
    let mut stored = Vec::new();
    loop {
        match action {
            Action::Read(n) => {
                assert_eq!(rx.expected_read(), Some(n));
                assert!(pos + n <= input.len(), "the stream ended early");
                let chunk = input[pos..pos + n].to_vec();
                pos += n;
                action = rx.on_bytes(&chunk);
            }
            Action::Store { path, size } => {
                assert_eq!(rx.expected_read(), None);
                let end = std::cmp::min(input.len(), pos + size as usize);
                let content = input[pos..end].to_vec();
                pos = end;
                let written = content.len() as u64;
                stored.push((path, content));
                action = rx.on_copied(written);
            }
            Action::Finish => return Ok(stored),
            Action::Fail(e) => return Err(e),
        }
    }
}

fn record(name: &[u8], content: &[u8]) -> Vec<u8> {
    let mut out = send_file(name, content.len() as u64);
    out.extend_from_slice(content);
    out
}

#[test]
fn single_file_arrives_under_its_name() {
    let mut stream = itfile(true);
    stream.extend(record(b"notes.txt", b"Hello world!!!!!!!!!!!!"));
    let files = receive(b"/tmp/in", &stream).unwrap();
    assert_eq!(files, vec![(b"/tmp/in/notes.txt".to_vec(), b"Hello world!!!!!!!!!!!!".to_vec())]);
}

#[test]
fn directory_arrives_file_by_file_in_order() {
    let mut stream = itfile(false);
    stream.extend(send_quantity(3));
    stream.extend(record(b"a.txt", b"first"));
    stream.extend(record(b"sub/b.bin", &[0, 1, 2, 255]));
    stream.extend(record(b"c", b""));
    let files = receive(b"/dest/", &stream).unwrap();
    assert_eq!(
        files,
        vec![
            (b"/dest/a.txt".to_vec(), b"first".to_vec()),
            (b"/dest/sub/b.bin".to_vec(), vec![0, 1, 2, 255]),
            (b"/dest/c".to_vec(), Vec::new()),
        ]
    );
}

#[test]
fn any_kind_byte_but_one_announces_a_directory() {
    let mut stream = vec![7u8];
    stream.extend(send_quantity(1));
    stream.extend(record(b"x", b"y"));
    assert_eq!(receive(b"d", &stream).unwrap(), vec![(b"d/x".to_vec(), b"y".to_vec())]);
}

#[test]
fn an_empty_directory_finishes_after_its_count() {
    let mut stream = itfile(false);
    stream.extend(send_quantity(0));
    assert_eq!(receive(b"d", &stream).unwrap(), Vec::<(Vec<u8>, Vec<u8>)>::new());
}

#[test]
fn an_empty_directory_reads_nothing_after_its_count() {
    let (mut rx, action) = Receiver::new(b"/d");
    assert!(matches!(action, Action::Read(1)));
    assert!(matches!(rx.on_bytes(&itfile(false)), Action::Read(8)));
    assert!(matches!(rx.on_bytes(&send_quantity(0)), Action::Finish));
    assert_eq!(rx.expected_read(), None);
    assert!(!rx.awaiting_copy());
}

#[test]
fn a_short_file_fails_the_transfer() {
    let mut stream = itfile(true);
    stream.extend(send_file(b"big", 10));
    stream.extend_from_slice(b"abc");
    assert_eq!(
        receive(b"d", &stream),
        Err(ReceiveError::Incomplete { expected: 10, written: 3 })
    );
}

#[test]
fn the_first_request_is_one_byte() {
    let (rx, action) = Receiver::new(b"/x");
    assert!(matches!(action, Action::Read(1)));
    assert_eq!(rx.expected_read(), Some(1));
}

#[test]
fn joining_follows_unix_path_rules() {
    assert_eq!(join_destination(b"/a/b", b"c.txt"), b"/a/b/c.txt".to_vec());
    assert_eq!(join_destination(b"/a/b/", b"c.txt"), b"/a/b/c.txt".to_vec());
    assert_eq!(join_destination(b"", b"c.txt"), b"c.txt".to_vec());
    assert_eq!(join_destination(b"/a", b"/etc/x"), b"/a/etc/x".to_vec());
    assert_eq!(join_destination(b"/a/", b"//etc/x"), b"/a/etc/x".to_vec());
    assert_eq!(join_destination(b"", b"/x"), b"x".to_vec());
    assert_eq!(join_destination(b"/a", b""), b"/a/".to_vec());
}

/// End to end in memory: a file of
/// "Hello world!!!!!!!!!!!!" sent by name arrives as `{destination}/{name}`
/// with the same bytes.
#[test]
fn sender_test() {
    let content = b"Hello world!!!!!!!!!!!!".to_vec();
    let mut stream = itfile(true);
    stream.extend(record(b".tmpAbC123", &content));
    let files = receive(b"/tmp/.tmpGet", &stream).unwrap();
    assert_eq!(files.len(), 1);
    assert_eq!(files[0].0, b"/tmp/.tmpGet/.tmpAbC123".to_vec());
    assert_eq!(files[0].1, content);
}

#[test]
fn an_absolute_name_stays_under_the_destination() {
    let mut stream = itfile(true);
    stream.extend(record(b"/etc/x", b"hi"));
    assert_eq!(receive(b"/d", &stream).unwrap(), vec![(b"/d/etc/x".to_vec(), b"hi".to_vec())]);
}

#[test]
fn a_planned_directory_arrives_whole() {
    let relatives = vec![b"a.txt".to_vec(), b"sub\\b.txt".to_vec()];
    let contents = vec![b"one".to_vec(), b"two!".to_vec()];
    let plan = plan_directory(&relatives);
    let mut stream = itfile(false);
    stream.extend(plan.count.clone());
    for (name, content) in plan.names.iter().zip(contents.iter()) {
        stream.extend(record(name, content));
    }
    assert_eq!(
        receive(b"/out", &stream).unwrap(),
        vec![
            (b"/out/a.txt".to_vec(), b"one".to_vec()),
            (b"/out/sub/b.txt".to_vec(), b"two!".to_vec()),
        ]
    );
}
