use ipmsg::ipmsg_core::folder::{FolderError, FolderReceiver, FolderStep};
use ipmsg::ipmsg_core::folder_sender::{
    back_header, entry_name, plan_entry, root_header, write_dir_header, EntryKind, EntryPlan,
};
use ipmsg::ipmsg_core::text::TextEncoding;
use ipmsg::ipmsg_core::transfer::{after_attempt, FileReceiver, FileSender, Incomplete, Next, Radix};

#[derive(Debug, PartialEq)]
enum Got {
    Dir(String),
    File(String, Vec<u8>),
}

fn receive(encoding: TextEncoding, stream: &[u8], chunk: usize) -> (Vec<Got>, u64, Result<(), FolderError>) {
    let mut receiver = FolderReceiver::new(encoding);
    let mut got = Vec::new();
    let mut at = 0;
    while at < stream.len() {
        let n = receiver.wanted().min(chunk).min(stream.len() - at);
        let bytes = &stream[at..at + n];
        assert!(!receiver.is_oversized_by(bytes[0]));
        match receiver.take(bytes) {
            Ok(FolderStep::Nothing) => {}
            Ok(FolderStep::NewFile { dirs, name }) => {
                assert_eq!(receiver.current(), name);
                let mut path = dirs;
                path.push(name);
                got.push(Got::File(path.join("/"), Vec::new()));
            }
            Ok(FolderStep::NewDir { dirs, name }) => {
                let mut path = dirs;
                path.push(name);
                got.push(Got::Dir(path.join("/")));
            }
            Ok(FolderStep::Data) => match got.last_mut() {
                Some(Got::File(_, content)) => content.extend_from_slice(bytes),
                _ => panic!("content without a file"),
            },
            Err(e) => return (got, receiver.received(), Err(e)),
        }
        at += n;
    }
    let end = receiver.end();
    (got, receiver.received(), end)
}

fn entry(encoding: TextEncoding, kind: EntryKind, name: &str, size: u64) -> Vec<u8> {
    match plan_entry(encoding, kind, name, size, 5, 9) {
        EntryPlan::Descend(b) | EntryPlan::SendFile(b) => b,
        EntryPlan::Skip => Vec::new(),
    }
}

#[test]
fn folder_survives_the_wire() {
    for encoding in [TextEncoding::Utf8, TextEncoding::Gb18030] {
        for chunk in [1, 3, 100_000] {
            let mut stream = root_header(encoding, "根", 0, 77);
            stream.extend(entry(encoding, EntryKind::File, "甲.txt", 5));
            stream.extend(b"hello");
            stream.extend(entry(encoding, EntryKind::Dir, "子", 0));
            stream.extend(entry(encoding, EntryKind::File, "empty", 0));
            stream.extend(back_header(encoding, 77));
            stream.extend(entry(encoding, EntryKind::File, "big", 10_000));
            stream.extend(vec![7u8; 10_000]);
            stream.extend(back_header(encoding, 77));
            let (got, received, end) = receive(encoding, &stream, chunk);
            assert_eq!(end, Ok(()));
            assert_eq!(received, 10_005);
            assert_eq!(
                got,
                vec![
                    Got::File("甲.txt".to_string(), b"hello".to_vec()),
                    Got::Dir("子".to_string()),
                    Got::File("子/empty".to_string(), vec![]),
                    Got::File("big".to_string(), vec![7u8; 10_000]),
                ]
            );
        }
    }
}

#[test]
fn header_is_written_byte_by_byte() {
    assert_eq!(
        write_dir_header(TextEncoding::Utf8, "a.txt", 1, 255, 16, 99),
        b"001c:a.txt:ff:1:16=10:14=10:".to_vec()
    );
    // The present stands for a time that is not known.
    assert_eq!(
        write_dir_header(TextEncoding::Utf8, "d", 2, 0, 0, 16),
        b"0017:d:0:2:16=10:14=10:".to_vec()
    );
}

#[test]
fn entries_with_unsafe_names_are_left_out() {
    for kind in [EntryKind::Dir, EntryKind::File] {
        assert!(matches!(
            plan_entry(TextEncoding::Utf8, kind, "f.txt:ads", 1, 1, 1),
            EntryPlan::Skip
        ));
    }
    assert!(matches!(
        plan_entry(TextEncoding::Utf8, EntryKind::Other, "fifo", 1, 1, 1),
        EntryPlan::Skip
    ));
    assert!(matches!(
        plan_entry(TextEncoding::Utf8, EntryKind::Dir, "sub", 1, 1, 1),
        EntryPlan::Descend(_)
    ));
    assert!(matches!(
        plan_entry(TextEncoding::Utf8, EntryKind::File, "f", 1, 1, 1),
        EntryPlan::SendFile(_)
    ));
}

fn header(name: &str, kind: u32, size: u64) -> Vec<u8> {
    write_dir_header(TextEncoding::Utf8, name, kind, size, 1, 1)
}

fn outcome(stream: &[u8]) -> Result<(), FolderError> {
    receive(TextEncoding::Utf8, stream, 4096).2
}

#[test]
fn unsafe_names_are_refused() {
    let mut stream = header("root", 2, 0);
    stream.extend(header("../evil", 1, 3));
    assert_eq!(outcome(&stream), Err(FolderError::UnsafeFile));
    let mut stream = header("root", 2, 0);
    stream.extend(header("..", 2, 0));
    assert_eq!(outcome(&stream), Err(FolderError::UnsafeDirectory));
    // The name of the root is not used.
    assert_eq!(outcome(&header("..", 2, 0)), Ok(()));
    assert_eq!(outcome(&header("NUL", 1, 0)), Err(FolderError::UnsafeFile));
}

#[test]
fn malformed_streams_are_refused() {
    assert_eq!(outcome(b""), Err(FolderError::NoData));
    assert_eq!(outcome(b"00"), Err(FolderError::NoData));
    assert_eq!(outcome(b"01234567890"), Err(FolderError::LengthTooLong));
    assert_eq!(outcome(b"00zz:"), Err(FolderError::BadLength));
    assert_eq!(outcome(b"00\xff1:"), Err(FolderError::BadLength));
    assert_eq!(outcome(b"0005:"), Err(FolderError::BadHeader));
    assert_eq!(outcome(b"0008:a:b"), Err(FolderError::BadHeader));
    assert_eq!(outcome(b"0009:a:0"), Err(FolderError::UnexpectedEnd));
    assert_eq!(outcome(b"0009:a:x:"), Err(FolderError::BadSize));
    assert_eq!(outcome(b"000a:a:0:x"), Err(FolderError::BadKind));
    assert_eq!(outcome(b"0008::0:"), Err(FolderError::BadHeader));
    assert_eq!(outcome(b"000a:a:5:1"), Err(FolderError::UnexpectedEnd));
    assert_eq!(outcome(b"000a:a:0:1"), Ok(()));
    assert_eq!(outcome(b"000b::a:0:1"), Ok(()));
}

#[test]
fn lengths_shorter_than_themselves_are_refused() {
    assert_eq!(outcome(b"0003:a:0:1"), Err(FolderError::BadLength));
    assert_eq!(outcome(b"0004:"), Err(FolderError::BadLength));
    assert_eq!(outcome(b"0:"), Err(FolderError::BadLength));
}

#[test]
fn other_kinds_are_skipped() {
    let mut stream = header("root", 2, 0);
    stream.extend(header("odd", 9, 4));
    stream.extend(b"skip");
    stream.extend(header("f", 1, 1));
    stream.extend(b"x");
    let (got, received, end) = receive(TextEncoding::Utf8, &stream, 4096);
    assert_eq!(end, Ok(()));
    assert_eq!(received, 1);
    assert_eq!(got, vec![Got::File("f".to_string(), b"x".to_vec())]);
    let mut short = header("root", 2, 0);
    short.extend(header("odd", 9, 4));
    assert_eq!(outcome(&short), Ok(()));
}

#[test]
fn nothing_is_received_outside_the_root() {
    let mut stream = header("root", 2, 0);
    stream.extend(header(".", 3, 0));
    stream.extend(header("late", 1, 0));
    stream.extend(header("latedir", 2, 0));
    stream.extend(header(".", 3, 0));
    let (got, _, end) = receive(TextEncoding::Utf8, &stream, 4096);
    assert_eq!(end, Ok(()));
    assert_eq!(got, vec![]);
}

#[test]
fn a_file_is_complete_or_not() {
    let mut r = FileReceiver::new(10);
    assert!(!r.take(4));
    assert_eq!(r.finish(), Err(Incomplete { expected: 10, got: 4 }));
    assert!(r.take(6));
    assert_eq!(r.finish(), Ok(10));
    let mut unknown = FileReceiver::new(0);
    assert!(!unknown.take(4));
    assert_eq!(unknown.finish(), Ok(4));
    let mut s = FileSender::new(5);
    assert!(!s.sent(4));
    assert!(s.sent(4));
}

#[test]
fn a_failed_attempt_is_made_again_in_decimal() {
    assert_eq!(after_attempt(Radix::Hex, true), Next::Done);
    assert_eq!(after_attempt(Radix::Hex, false), Next::Retry(Radix::Decimal));
    assert_eq!(after_attempt(Radix::Decimal, true), Next::Done);
    assert_eq!(after_attempt(Radix::Decimal, false), Next::GiveUp);
}

#[test]
fn entries_without_a_name_get_one() {
    assert_eq!(entry_name(Some("n".to_string()), EntryKind::Dir), "n");
    assert_eq!(entry_name(None, EntryKind::Dir), "dir");
    assert_eq!(entry_name(None, EntryKind::File), "file");
}
