use bytes::Bytes;
use sy::streaming::generator::SourceEntry;
use sy::streaming::paths::PathError;
use sy::streaming::protocol::{
    read_frame, BlockChecksum, Data, DataEnd, DataFlags, Delete, DeleteEnd, DestFileEnd,
    DestFileEntry, DestFileFlags, FileEnd, FileEntry, FileFlags, MessageType, Mkdir, Symlink,
};
use sy::streaming::receiver::{
    Action, Receiver, ReceiverConfig, ReceiverError, DEST_ENTRY_BATCH_SIZE,
};

fn receiver() -> Receiver {
    Receiver::new(ReceiverConfig { root: "/dest".to_string(), block_size: 4096 })
}

fn entry(path: &str) -> FileEntry {
    FileEntry {
        path: path.to_string(),
        size: 11,
        mtime: 1234567890,
        mode: 0o644,
        inode: 0,
        flags: FileFlags::empty(),
        symlink_target: None,
        link_target: None,
    }
}

fn data(path: &str, offset: u64, flags: DataFlags, bytes: &[u8]) -> Data {
    Data { path: path.to_string(), offset, flags, data: Bytes::copy_from_slice(bytes) }
}

#[test]
fn file_is_written_to_a_temp_file_and_moved_on_data_end() {
    let mut r = receiver();
    let action = r.handle_message(MessageType::FileEntry, entry("test.txt").encode().slice(5..));
    match action.unwrap() {
        Action::OpenTemp { path, temp_path } => {
            assert_eq!(path, "/dest/test.txt");
            assert_eq!(temp_path, "/dest/test.txt.sy.tmp");
        }
        other => panic!("unexpected {:?}", other),
    }
    let message = data("test.txt", 0, DataFlags::empty(), b"hello world");
    match r.handle_message(MessageType::Data, message.encode().slice(5..)).unwrap() {
        Action::WriteAt { temp_path, offset, data } => {
            assert_eq!(temp_path, "/dest/test.txt.sy.tmp");
            assert_eq!(offset, 0);
            assert_eq!(data.as_ref(), b"hello world");
        }
        other => panic!("unexpected {:?}", other),
    }
    let end = DataEnd { path: "test.txt".to_string(), status: DataEnd::STATUS_OK };
    match r.handle_message(MessageType::DataEnd, end.encode().slice(5..)).unwrap() {
        Action::Commit { temp_path, path, mode, mtime } => {
            assert_eq!(temp_path, "/dest/test.txt.sy.tmp");
            assert_eq!(path, "/dest/test.txt");
            assert_eq!(mode, 0o644);
            assert_eq!(mtime, 1234567890);
        }
        other => panic!("unexpected {:?}", other),
    }
    assert_eq!(r.stats().files_ok, 1);
    assert_eq!(r.stats().files_err, 0);
    assert_eq!(r.stats().bytes_transferred, 11);
    // The file is pending no longer.
    let end = DataEnd { path: "test.txt".to_string(), status: DataEnd::STATUS_OK };
    assert!(matches!(r.handle_data_end(end), Ok(Action::Nothing)));
    assert_eq!(r.stats().files_ok, 1);
}

#[test]
fn failed_file_is_discarded() {
    let mut r = receiver();
    r.handle_file_entry(entry("a/b.txt")).unwrap();
    r.handle_data(data("a/b.txt", 0, DataFlags::empty(), b"abc")).unwrap();
    let end = DataEnd { path: "a/b.txt".to_string(), status: DataEnd::STATUS_ERROR };
    match r.handle_data_end(end).unwrap() {
        Action::Discard { temp_path } => assert_eq!(temp_path, "/dest/a/b.txt.sy.tmp"),
        other => panic!("unexpected {:?}", other),
    }
    assert_eq!(r.stats().files_ok, 0);
    assert_eq!(r.stats().files_err, 1);
    assert_eq!(r.stats().bytes_transferred, 0);
}

#[test]
fn delta_data_is_applied_to_the_file_in_place() {
    let mut r = receiver();
    r.handle_file_entry(entry("f")).unwrap();
    match r.handle_data(data("f", 99, DataFlags::delta(), &[1, 0, 0, 0, 1, 7])).unwrap() {
        Action::ApplyDelta { original, temp_path, data } => {
            assert_eq!(original, "/dest/f");
            assert_eq!(temp_path, "/dest/f.sy.tmp");
            assert_eq!(data.as_ref(), &[1u8, 0, 0, 0, 1, 7][..]);
        }
        other => panic!("unexpected {:?}", other),
    }
    let end = DataEnd { path: "f".to_string(), status: DataEnd::STATUS_OK };
    r.handle_data_end(end).unwrap();
    assert_eq!(r.stats().bytes_transferred, 6);
}

#[test]
fn data_without_file_entry_is_a_protocol_error() {
    let mut r = receiver();
    assert!(matches!(
        r.handle_data(data("ghost", 0, DataFlags::empty(), b"x")),
        Err(ReceiverError::NoPendingFile)
    ));
}

#[test]
fn path_traversal_is_refused_and_changes_nothing() {
    let mut r = receiver();
    let result = r.handle_message(MessageType::FileEntry, entry("../evil").encode().slice(5..));
    assert!(matches!(result, Err(ReceiverError::Path(PathError::Traversal))));
    assert!(matches!(
        r.handle_data(data("../evil", 0, DataFlags::empty(), b"x")),
        Err(ReceiverError::NoPendingFile)
    ));
    assert!(matches!(
        r.handle_mkdir(Mkdir { path: "/abs".to_string(), mode: 0 }),
        Err(ReceiverError::Path(PathError::Absolute))
    ));
    assert!(matches!(
        r.handle_delete(Delete { path: "".to_string(), is_dir: false }),
        Err(ReceiverError::Path(PathError::Empty))
    ));
    assert!(matches!(
        r.handle_symlink(Symlink { path: "a/../../l".to_string(), target: "t".to_string() }),
        Err(ReceiverError::Path(PathError::Traversal))
    ));
    assert_eq!(r.stats().files_ok, 0);
    assert_eq!(r.stats().dirs_created, 0);
    assert_eq!(r.stats().deleted, 0);
    assert_eq!(r.stats().symlinks_created, 0);
}

#[test]
fn directories_links_and_deletions() {
    let mut r = receiver();
    match r.handle_mkdir(Mkdir { path: "d/e".to_string(), mode: 0o700 }).unwrap() {
        Action::Mkdir { path, mode } => {
            assert_eq!(path, "/dest/d/e");
            assert_eq!(mode, 0o700);
        }
        other => panic!("unexpected {:?}", other),
    }
    match r.handle_symlink(Symlink { path: "d/l".to_string(), target: "../t".to_string() }).unwrap() {
        Action::Symlink { path, target } => {
            assert_eq!(path, "/dest/d/l");
            assert_eq!(target, "../t");
        }
        other => panic!("unexpected {:?}", other),
    }
    assert!(matches!(
        r.handle_symlink(Symlink { path: "l".to_string(), target: "../out".to_string() }),
        Err(ReceiverError::Path(PathError::TargetEscapesRoot))
    ));
    assert!(matches!(
        r.handle_symlink(Symlink { path: "l".to_string(), target: "/etc".to_string() }),
        Err(ReceiverError::Path(PathError::AbsoluteTarget))
    ));
    match r.handle_delete(Delete { path: "old".to_string(), is_dir: true }).unwrap() {
        Action::Delete { path, is_dir } => {
            assert_eq!(path, "/dest/old");
            assert!(is_dir);
        }
        other => panic!("unexpected {:?}", other),
    }
    assert_eq!(r.stats().dirs_created, 1);
    assert_eq!(r.stats().symlinks_created, 1);
    assert_eq!(r.stats().deleted, 1);
}

#[test]
fn ends_and_foreign_messages_are_passed_over() {
    let mut r = receiver();
    let end = FileEnd { total_files: 1, total_bytes: 2 };
    assert!(matches!(
        r.handle_message(MessageType::FileEnd, end.encode().slice(5..)),
        Ok(Action::Nothing)
    ));
    assert!(matches!(
        r.handle_message(MessageType::DeleteEnd, DeleteEnd { count: 0 }.encode().slice(5..)),
        Ok(Action::Nothing)
    ));
    assert!(matches!(r.handle_message(MessageType::Progress, Bytes::new()), Ok(Action::Nothing)));
    assert!(matches!(r.handle_message(MessageType::Xattr, Bytes::new()), Ok(Action::Nothing)));
    assert!(matches!(
        r.handle_message(MessageType::FileEnd, Bytes::new()),
        Err(ReceiverError::Decode(_))
    ));
    assert!(matches!(
        r.handle_message(MessageType::Data, Bytes::from(vec![0u8])),
        Err(ReceiverError::Decode(_))
    ));
}

#[test]
fn destination_entries_and_checksums() {
    let r = receiver();
    let small = SourceEntry {
        relative_path: "small".to_string(),
        size: 100,
        mtime: 5,
        is_dir: false,
        is_symlink: false,
        symlink_target: None,
        inode: None,
        nlink: 1,
    };
    assert!(!Receiver::needs_checksums(&small));
    let e = r.dest_entry(&small, vec![BlockChecksum { offset: 0, weak: 1, strong: 2 }]);
    assert_eq!(e.path, "small");
    assert_eq!(e.mode, 0o644);
    assert!(e.flags.is_empty());
    assert_eq!(e.block_size, 0);
    assert!(e.checksums.is_empty());
    let mut big = small.clone();
    big.size = 64 * 1024;
    assert!(Receiver::needs_checksums(&big));
    let content = vec![9u8; 64 * 1024];
    let table = r.compute_checksums(&content);
    assert_eq!(table.len(), 16);
    assert_eq!(table[15].offset, 15 * 4096);
    assert_eq!(table[3].weak, table[4].weak);
    let e = r.dest_entry(&big, table);
    assert_eq!(e.flags, DestFileFlags::has_checksums());
    assert_eq!(e.block_size, 4096);
    assert_eq!(e.checksums.len(), 16);
    let mut dir = small.clone();
    dir.is_dir = true;
    dir.size = 1 << 20;
    let e = r.dest_entry(&dir, vec![]);
    assert_eq!(e.flags, DestFileFlags::dir());
    assert_eq!(e.mode, 0o755);
}

#[test]
fn initial_exchange_is_batched() {
    let r = receiver();
    let mut entries = Vec::new();
    for i in 0..3000u64 {
        entries.push(DestFileEntry {
            path: format!("dir/file-{:05}", i),
            size: i,
            mtime: 0,
            mode: 0o644,
            flags: DestFileFlags::empty(),
            block_size: 0,
            checksums: vec![],
        });
    }
    let out = r.scan_dest(&entries);
    assert_eq!(out.total_files, 3000);
    assert_eq!(out.total_bytes, 3000 * 2999 / 2);
    // Each frame takes 5 + 2 + 14 + 21 = 42 bytes.
    assert_eq!(out.buffers.len(), 3);
    let per_batch = (DEST_ENTRY_BATCH_SIZE + 41) / 42;
    assert_eq!(out.buffers[0].len(), per_batch * 42);
    assert_eq!(out.buffers[1].len(), (3000 - per_batch) * 42);
    let mut last = out.buffers[2].clone();
    let (t, payload) = read_frame(&mut last).unwrap();
    assert_eq!(t, MessageType::DestFileEnd);
    assert_eq!(
        DestFileEnd::decode(payload),
        Ok(DestFileEnd { total_files: 3000, total_bytes: 3000 * 2999 / 2 })
    );
    let mut first = out.buffers[0].clone();
    let (t, payload) = read_frame(&mut first).unwrap();
    assert_eq!(t, MessageType::DestFileEntry);
    assert_eq!(DestFileEntry::decode(payload).unwrap().path, "dir/file-00000");
    let empty = r.scan_dest(&vec![]);
    assert_eq!(empty.buffers.len(), 1);
    assert_eq!(empty.total_files, 0);
}
