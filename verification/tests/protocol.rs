use bytes::Bytes;
use sy::streaming::protocol::{
    is_legacy_protocol, is_streaming_protocol, negotiate_version, BlockChecksum, Data, DataFlags,
    DestFileEntry, DestFileFlags, Done, FileEntry, FileFlags, Hello, HelloFlags, MessageType,
    Progress, VersionNegotiationResult, Xattr, XattrEntry, PROTOCOL_VERSION,
    PROTOCOL_VERSION_MAX, PROTOCOL_VERSION_MIN,
};

#[test]
fn test_hello_roundtrip() {
    let hello = Hello::new(HelloFlags::pull() | HelloFlags::delete(), "/tmp/dest".to_string());
    let encoded = hello.encode();

    // Skip frame header (4 bytes len + 1 byte type)
    let payload = Bytes::copy_from_slice(&encoded[5..]);
    let decoded = Hello::decode(payload).unwrap();

    assert_eq!(decoded.version, PROTOCOL_VERSION);
    assert!(decoded.is_pull());
    assert!(decoded.flags.contains(HelloFlags::delete()));
    assert_eq!(decoded.root_path, "/tmp/dest");
}

#[test]
fn test_file_entry_roundtrip() {
    let entry = FileEntry {
        path: "test/file.txt".to_string(),
        size: 1024,
        mtime: 1234567890,
        mode: 0o644,
        inode: 12345,
        flags: FileFlags::empty(),
        symlink_target: None,
        link_target: None,
    };
    let encoded = entry.encode();
    let payload = Bytes::copy_from_slice(&encoded[5..]);
    let decoded = FileEntry::decode(payload).unwrap();

    assert_eq!(decoded.path, "test/file.txt");
    assert_eq!(decoded.size, 1024);
    assert_eq!(decoded.mtime, 1234567890);
    assert_eq!(decoded.mode, 0o644);
    assert_eq!(decoded.inode, 12345);
}

#[test]
fn test_file_entry_symlink() {
    let entry = FileEntry {
        path: "link".to_string(),
        size: 0,
        mtime: 1234567890,
        mode: 0o777,
        inode: 0,
        flags: FileFlags::symlink(),
        symlink_target: Some("target.txt".to_string()),
        link_target: None,
    };
    let encoded = entry.encode();
    let payload = Bytes::copy_from_slice(&encoded[5..]);
    let decoded = FileEntry::decode(payload).unwrap();

    assert!(decoded.is_symlink());
    assert_eq!(decoded.symlink_target, Some("target.txt".to_string()));
}

#[test]
fn test_file_entry_hardlink() {
    let entry = FileEntry {
        path: "hardlink".to_string(),
        size: 1024,
        mtime: 1234567890,
        mode: 0o644,
        inode: 12345,
        flags: FileFlags::hardlink(),
        symlink_target: None,
        link_target: Some("original.txt".to_string()),
    };
    let encoded = entry.encode();
    let payload = Bytes::copy_from_slice(&encoded[5..]);
    let decoded = FileEntry::decode(payload).unwrap();

    assert!(decoded.is_hardlink());
    assert_eq!(decoded.link_target, Some("original.txt".to_string()));
}

#[test]
fn test_dest_file_entry_with_checksums() {
    let entry = DestFileEntry {
        path: "large.bin".to_string(),
        size: 1024 * 1024,
        mtime: 1234567890,
        mode: 0o644,
        flags: DestFileFlags::has_checksums(),
        block_size: 4096,
        checksums: vec![
            BlockChecksum { offset: 0, weak: 0xDEADBEEF, strong: 0x123456789ABCDEF0 },
            BlockChecksum { offset: 4096, weak: 0xCAFEBABE, strong: 0x0FEDCBA987654321 },
        ],
    };
    let encoded = entry.encode();
    let payload = Bytes::copy_from_slice(&encoded[5..]);
    let decoded = DestFileEntry::decode(payload).unwrap();

    assert_eq!(decoded.path, "large.bin");
    assert!(decoded.flags.contains(DestFileFlags::has_checksums()));
    assert_eq!(decoded.block_size, 4096);
    assert_eq!(decoded.checksums.len(), 2);
    assert_eq!(decoded.checksums[0].weak, 0xDEADBEEF);
    assert_eq!(decoded.checksums[1].strong, 0x0FEDCBA987654321);
}

#[test]
fn test_data_roundtrip() {
    let data = Data {
        path: "file.txt".to_string(),
        offset: 1024,
        flags: DataFlags::compressed(),
        data: Bytes::from(vec![1, 2, 3, 4, 5]),
    };
    let encoded = data.encode();
    let payload = Bytes::copy_from_slice(&encoded[5..]);
    let decoded = Data::decode(payload).unwrap();

    assert_eq!(decoded.path, "file.txt");
    assert_eq!(decoded.offset, 1024);
    assert!(decoded.flags.contains(DataFlags::compressed()));
    assert_eq!(decoded.data.as_ref(), &[1, 2, 3, 4, 5]);
}

#[test]
fn test_progress_roundtrip() {
    let progress = Progress {
        files: 100,
        bytes: 1024 * 1024,
        files_total: 1000,
        bytes_total: 1024 * 1024 * 100,
    };
    let encoded = progress.encode();
    let payload = Bytes::copy_from_slice(&encoded[5..]);
    let decoded = Progress::decode(payload).unwrap();

    assert_eq!(decoded.files, 100);
    assert_eq!(decoded.bytes, 1024 * 1024);
    assert_eq!(decoded.files_total, 1000);
}

#[test]
fn test_xattr_roundtrip() {
    let xattr = Xattr {
        path: "file.txt".to_string(),
        entries: vec![
            XattrEntry { name: "user.comment".to_string(), value: Bytes::from("test comment") },
            XattrEntry { name: "user.author".to_string(), value: Bytes::from("test") },
        ],
    };
    let encoded = xattr.encode();
    let payload = Bytes::copy_from_slice(&encoded[5..]);
    let decoded = Xattr::decode(payload).unwrap();

    assert_eq!(decoded.path, "file.txt");
    assert_eq!(decoded.entries.len(), 2);
    assert_eq!(decoded.entries[0].name, "user.comment");
}

#[test]
fn test_done_roundtrip() {
    let done = Done { files_ok: 100, files_err: 2, bytes: 1024 * 1024 * 50, duration_ms: 5000 };
    let encoded = done.encode();
    let payload = Bytes::copy_from_slice(&encoded[5..]);
    let decoded = Done::decode(payload).unwrap();

    assert_eq!(decoded.files_ok, 100);
    assert_eq!(decoded.files_err, 2);
    assert_eq!(decoded.bytes, 1024 * 1024 * 50);
    assert_eq!(decoded.duration_ms, 5000);
}

#[test]
fn test_message_type_from_u8() {
    assert_eq!(MessageType::from_u8(0x01), Some(MessageType::Hello));
    assert_eq!(MessageType::from_u8(0x06), Some(MessageType::Data));
    assert_eq!(MessageType::from_u8(0x10), Some(MessageType::Done));
    assert_eq!(MessageType::from_u8(0xFF), None);
}

#[test]
fn test_version_negotiation_supported() {
    let result = negotiate_version(2);
    assert_eq!(result, VersionNegotiationResult::Supported(2));
}

#[test]
fn test_version_negotiation_too_old() {
    let result = negotiate_version(1);
    match result {
        VersionNegotiationResult::TooOld { client, min_supported } => {
            assert_eq!(client, 1);
            assert_eq!(min_supported, PROTOCOL_VERSION_MIN);
        }
        _ => panic!("Expected TooOld result"),
    }
}

#[test]
fn test_version_negotiation_too_new() {
    let result = negotiate_version(99);
    match result {
        VersionNegotiationResult::TooNew { client, max_supported } => {
            assert_eq!(client, 99);
            assert_eq!(max_supported, PROTOCOL_VERSION_MAX);
        }
        _ => panic!("Expected TooNew result"),
    }
}

#[test]
fn test_is_streaming_protocol() {
    assert!(!is_streaming_protocol(1));
    assert!(is_streaming_protocol(2));
    assert!(is_streaming_protocol(3));
}

#[test]
fn test_is_legacy_protocol() {
    assert!(is_legacy_protocol(1));
    assert!(!is_legacy_protocol(2));
    assert!(!is_legacy_protocol(0));
}
