use bytes::{Bytes, BytesMut};
use sy::streaming::protocol::{
    check_frame_length, read_frame, write_frame, Data, DataEnd, DataFlags, DecodeError, Delete,
    DeleteEnd, DestFileEnd, DestFileEntry, DestFileFlags, Done, Error, ErrorCode, Fatal, Fault,
    Field, FileEnd, FileEntry, FileFlags, FrameError, Hello, HelloFlags, MessageType, Mkdir,
    Progress, Symlink, Xattr, XattrEntry, MAX_FRAME_SIZE,
};

fn payload_of(frame: &Bytes) -> Bytes {
    frame.slice(5..)
}

fn failure(message: MessageType, field: Field, fault: Fault) -> DecodeError {
    DecodeError { message, field, fault }
}

#[test]
fn hello_frame_is_laid_out_byte_by_byte() {
    let hello = Hello::new(HelloFlags::pull() | HelloFlags::delete(), "ab".to_string());
    let frame = hello.encode();
    assert_eq!(
        frame.as_ref(),
        &[0, 0, 0, 10, 0x01, 0, 2, 0, 0, 0, 3, 0, 2, b'a', b'b'][..]
    );
}

#[test]
fn file_entry_frame_is_laid_out_byte_by_byte() {
    let entry = FileEntry {
        path: "a".to_string(),
        size: 0x0102030405060708,
        mtime: -2,
        mode: 0o644,
        inode: 9,
        flags: FileFlags::symlink(),
        symlink_target: Some("t".to_string()),
        link_target: None,
    };
    let frame = entry.encode();
    let expected: Vec<u8> = vec![
        0, 0, 0, 35, 0x02, // header
        0, 1, b'a', // path
        1, 2, 3, 4, 5, 6, 7, 8, // size
        0xff, 0xff, 0xff, 0xff, 0xff, 0xff, 0xff, 0xfe, // mtime
        0, 0, 0x01, 0xa4, // mode
        0, 0, 0, 0, 0, 0, 0, 9, // inode
        0x02, // flags
        0, 1, b't', // symlink target
    ];
    assert_eq!(frame.as_ref(), &expected[..]);
    let decoded = FileEntry::decode(payload_of(&frame)).unwrap();
    assert_eq!(decoded.mtime, -2);
    assert_eq!(decoded.size, 0x0102030405060708);
    assert_eq!(decoded.symlink_target, Some("t".to_string()));
    assert_eq!(decoded.link_target, None);
}

#[test]
fn every_message_type_has_its_code() {
    let codes: Vec<(MessageType, u8)> = vec![
        (MessageType::Hello, 0x01),
        (MessageType::FileEntry, 0x02),
        (MessageType::FileEnd, 0x03),
        (MessageType::DestFileEntry, 0x04),
        (MessageType::DestFileEnd, 0x05),
        (MessageType::Data, 0x06),
        (MessageType::DataEnd, 0x07),
        (MessageType::Delete, 0x08),
        (MessageType::DeleteEnd, 0x09),
        (MessageType::Mkdir, 0x0A),
        (MessageType::Symlink, 0x0B),
        (MessageType::Progress, 0x0C),
        (MessageType::Error, 0x0D),
        (MessageType::Fatal, 0x0E),
        (MessageType::Xattr, 0x0F),
        (MessageType::Done, 0x10),
    ];
    for (t, code) in codes {
        assert_eq!(t.to_u8(), code);
        assert_eq!(MessageType::from_u8(code), Some(t));
    }
    assert_eq!(MessageType::from_u8(0), None);
    assert_eq!(MessageType::from_u8(0x11), None);
}

#[test]
fn error_codes_round_trip() {
    assert_eq!(ErrorCode::from_u16(1), Some(ErrorCode::IoError));
    assert_eq!(ErrorCode::from_u16(2), Some(ErrorCode::PermissionDenied));
    assert_eq!(ErrorCode::from_u16(3), Some(ErrorCode::NotFound));
    assert_eq!(ErrorCode::from_u16(4), Some(ErrorCode::ChecksumMismatch));
    assert_eq!(ErrorCode::from_u16(5), Some(ErrorCode::DiskFull));
    assert_eq!(ErrorCode::from_u16(0), None);
    assert_eq!(ErrorCode::from_u16(6), None);
    assert_eq!(ErrorCode::DiskFull.to_u16(), 5);
}

#[test]
fn flags_drop_bits_without_meaning() {
    assert_eq!(HelloFlags::from_bits_truncate(0xffff_ffff).bits(), 0x3f);
    assert_eq!(FileFlags::from_bits_truncate(0xff).bits(), 0x1f);
    assert_eq!(DestFileFlags::from_bits_truncate(0xff).bits(), 0x03);
    assert_eq!(DataFlags::from_bits_truncate(0xff).bits(), 0x07);
    assert_eq!(HelloFlags::acls().bits(), 32);
    assert_eq!(HelloFlags::xattrs().bits(), 16);
    assert_eq!(HelloFlags::compression().bits(), 8);
    assert_eq!(HelloFlags::checksum().bits(), 4);
    assert_eq!(FileFlags::sparse().bits(), 16);
    assert_eq!(FileFlags::has_xattrs().bits(), 8);
    assert_eq!(DataFlags::final_chunk().bits(), 4);
    assert_eq!(DataFlags::delta().union(DataFlags::compressed()).bits(), 3);
    let mut flags = DestFileFlags::empty();
    assert!(flags.is_empty());
    flags.insert(DestFileFlags::dir());
    assert!(flags.contains(DestFileFlags::dir()));
    assert!(!flags.contains(DestFileFlags::has_checksums()));
}

#[test]
fn fixed_size_messages_round_trip() {
    let end = FileEnd { total_files: 3, total_bytes: u64::MAX };
    assert_eq!(FileEnd::decode(payload_of(&end.encode())), Ok(end));
    let dest_end = DestFileEnd { total_files: 7, total_bytes: 1 << 40 };
    assert_eq!(DestFileEnd::decode(payload_of(&dest_end.encode())), Ok(dest_end));
    let delete_end = DeleteEnd { count: 42 };
    assert_eq!(DeleteEnd::decode(payload_of(&delete_end.encode())), Ok(delete_end));
    let progress = Progress { files: 1, bytes: 2, files_total: 3, bytes_total: 4 };
    assert_eq!(Progress::decode(payload_of(&progress.encode())), Ok(progress));
    let done = Done { files_ok: 5, files_err: 6, bytes: 7, duration_ms: 8 };
    assert_eq!(Done::decode(payload_of(&done.encode())), Ok(done));
    assert_eq!(delete_end.encode().as_ref(), &[0, 0, 0, 8, 0x09, 0, 0, 0, 0, 0, 0, 0, 42][..]);
}

#[test]
fn path_messages_round_trip() {
    let end = DataEnd { path: "dir/file".to_string(), status: DataEnd::STATUS_ERROR };
    let decoded = DataEnd::decode(payload_of(&end.encode())).unwrap();
    assert_eq!(decoded.path, "dir/file");
    assert_eq!(decoded.status, 1);

    let delete = Delete { path: "gone".to_string(), is_dir: true };
    let decoded = Delete::decode(payload_of(&delete.encode())).unwrap();
    assert_eq!(decoded.path, "gone");
    assert!(decoded.is_dir);

    let mkdir = Mkdir { path: "d".to_string(), mode: 0o755 };
    let decoded = Mkdir::decode(payload_of(&mkdir.encode())).unwrap();
    assert_eq!(decoded.path, "d");
    assert_eq!(decoded.mode, 0o755);

    let symlink = Symlink { path: "l".to_string(), target: "../t".to_string() };
    let decoded = Symlink::decode(payload_of(&symlink.encode())).unwrap();
    assert_eq!(decoded.path, "l");
    assert_eq!(decoded.target, "../t");

    let error = Error { path: "p".to_string(), code: 3, message: "not found".to_string() };
    let decoded = Error::decode(payload_of(&error.encode())).unwrap();
    assert_eq!(decoded.path, "p");
    assert_eq!(decoded.code, 3);
    assert_eq!(decoded.message, "not found");

    let fatal = Fatal { code: 1, message: "bad version".to_string() };
    let decoded = Fatal::decode(payload_of(&fatal.encode())).unwrap();
    assert_eq!(decoded.code, 1);
    assert_eq!(decoded.message, "bad version");
}

#[test]
fn non_ascii_paths_round_trip() {
    let mkdir = Mkdir { path: "Überraschung/日本語".to_string(), mode: 1 };
    let frame = mkdir.encode();
    let decoded = Mkdir::decode(payload_of(&frame)).unwrap();
    assert_eq!(decoded.path, "Überraschung/日本語");
}

#[test]
fn dest_file_entry_without_flag_sends_no_table() {
    let entry = DestFileEntry {
        path: "f".to_string(),
        size: 1,
        mtime: 2,
        mode: 3,
        flags: DestFileFlags::dir(),
        block_size: 4096,
        checksums: vec![],
    };
    let frame = entry.encode();
    assert_eq!(frame.len(), 5 + 2 + 1 + 21);
    let decoded = DestFileEntry::decode(payload_of(&frame)).unwrap();
    assert_eq!(decoded.block_size, 0);
    assert!(decoded.checksums.is_empty());
    assert!(decoded.flags.contains(DestFileFlags::dir()));
}

#[test]
fn hello_decode_errors() {
    let short = Bytes::from(vec![0u8; 7]);
    assert_eq!(
        Hello::decode(short).unwrap_err(),
        failure(MessageType::Hello, Field::Payload, Fault::TooShort)
    );
    let truncated = Bytes::from(vec![0, 2, 0, 0, 0, 0, 0, 3, b'a', b'b']);
    assert_eq!(
        Hello::decode(truncated).unwrap_err(),
        failure(MessageType::Hello, Field::Path, Fault::Truncated)
    );
    let not_utf8 = Bytes::from(vec![0, 2, 0, 0, 0, 0, 0, 1, 0xff]);
    assert_eq!(
        Hello::decode(not_utf8).unwrap_err(),
        failure(MessageType::Hello, Field::Path, Fault::InvalidUtf8)
    );
}

#[test]
fn file_entry_decode_errors() {
    assert_eq!(
        FileEntry::decode(Bytes::from(vec![0u8])).unwrap_err(),
        failure(MessageType::FileEntry, Field::Payload, Fault::TooShort)
    );
    assert_eq!(
        FileEntry::decode(Bytes::from(vec![0u8, 1, b'a', 0, 0])).unwrap_err(),
        failure(MessageType::FileEntry, Field::Payload, Fault::Truncated)
    );
    let mut bad_path = vec![0u8, 1, 0x80];
    bad_path.extend(vec![0u8; 29]);
    assert_eq!(
        FileEntry::decode(Bytes::from(bad_path)).unwrap_err(),
        failure(MessageType::FileEntry, Field::Path, Fault::InvalidUtf8)
    );
    // A symlink flag without anything behind it.
    let mut no_length = vec![0u8, 1, b'a'];
    no_length.extend(vec![0u8; 28]);
    no_length.push(0x02);
    assert_eq!(
        FileEntry::decode(Bytes::from(no_length.clone())).unwrap_err(),
        failure(MessageType::FileEntry, Field::SymlinkTargetLength, Fault::Truncated)
    );
    let mut short_target = no_length.clone();
    short_target.extend(vec![0u8, 5, b'x']);
    assert_eq!(
        FileEntry::decode(Bytes::from(short_target)).unwrap_err(),
        failure(MessageType::FileEntry, Field::SymlinkTarget, Fault::Truncated)
    );
    let mut bad_target = no_length.clone();
    bad_target.extend(vec![0u8, 1, 0xc0]);
    assert_eq!(
        FileEntry::decode(Bytes::from(bad_target)).unwrap_err(),
        failure(MessageType::FileEntry, Field::SymlinkTarget, Fault::InvalidUtf8)
    );
    // A hard-link flag.
    let mut link = vec![0u8, 1, b'a'];
    link.extend(vec![0u8; 28]);
    link.push(0x04);
    assert_eq!(
        FileEntry::decode(Bytes::from(link.clone())).unwrap_err(),
        failure(MessageType::FileEntry, Field::LinkTargetLength, Fault::Truncated)
    );
    let mut short_link = link.clone();
    short_link.extend(vec![0u8, 2, b'x']);
    assert_eq!(
        FileEntry::decode(Bytes::from(short_link)).unwrap_err(),
        failure(MessageType::FileEntry, Field::LinkTarget, Fault::Truncated)
    );
    let mut bad_link = link.clone();
    bad_link.extend(vec![0u8, 1, 0xff]);
    assert_eq!(
        FileEntry::decode(Bytes::from(bad_link)).unwrap_err(),
        failure(MessageType::FileEntry, Field::LinkTarget, Fault::InvalidUtf8)
    );
}

#[test]
fn dest_file_entry_decode_errors() {
    let mut head = vec![0u8, 1, b'a'];
    head.extend(vec![0u8; 20]);
    head.push(0x02);
    assert_eq!(
        DestFileEntry::decode(Bytes::from(head.clone())).unwrap_err(),
        failure(MessageType::DestFileEntry, Field::ChecksumHeader, Fault::Truncated)
    );
    // Two blocks announced, one sent: refused before any block is read.
    let mut short_table = head.clone();
    short_table.extend(vec![0u8, 0, 0x10, 0, 0, 0, 0, 2]);
    short_table.extend(vec![0u8; 20]);
    assert_eq!(
        DestFileEntry::decode(Bytes::from(short_table)).unwrap_err(),
        failure(MessageType::DestFileEntry, Field::Checksums, Fault::Truncated)
    );
    // A count of 2^32 - 1 with nothing behind it.
    let mut huge = head.clone();
    huge.extend(vec![0u8, 0, 0x10, 0, 0xff, 0xff, 0xff, 0xff]);
    assert_eq!(
        DestFileEntry::decode(Bytes::from(huge)).unwrap_err(),
        failure(MessageType::DestFileEntry, Field::Checksums, Fault::Truncated)
    );
    assert_eq!(
        DestFileEntry::decode(Bytes::from(vec![0u8, 3, b'a'])).unwrap_err(),
        failure(MessageType::DestFileEntry, Field::Payload, Fault::Truncated)
    );
}

#[test]
fn data_and_text_decode_errors() {
    let mut data = vec![0u8, 1, b'a'];
    data.extend(vec![0u8; 9]);
    data.extend(vec![0u8, 0, 0, 4, 1, 2]);
    assert_eq!(
        Data::decode(Bytes::from(data)).unwrap_err(),
        failure(MessageType::Data, Field::Content, Fault::Truncated)
    );
    assert_eq!(
        Symlink::decode(Bytes::from(vec![0u8, 1, b'l', 0, 3, b't'])).unwrap_err(),
        failure(MessageType::Symlink, Field::Target, Fault::Truncated)
    );
    assert_eq!(
        Symlink::decode(Bytes::from(vec![0u8, 1, b'l', 0, 1, 0xff])).unwrap_err(),
        failure(MessageType::Symlink, Field::Target, Fault::InvalidUtf8)
    );
    assert_eq!(
        Error::decode(Bytes::from(vec![0u8, 1, b'p', 0, 1, 0, 9, b'm'])).unwrap_err(),
        failure(MessageType::Error, Field::Message, Fault::Truncated)
    );
    assert_eq!(
        Error::decode(Bytes::from(vec![0u8, 1, b'p', 0, 1, 0, 1, 0xfe])).unwrap_err(),
        failure(MessageType::Error, Field::Message, Fault::InvalidUtf8)
    );
    assert_eq!(
        Fatal::decode(Bytes::from(vec![0u8, 1, 0])).unwrap_err(),
        failure(MessageType::Fatal, Field::Payload, Fault::TooShort)
    );
    assert_eq!(
        Fatal::decode(Bytes::from(vec![0u8, 1, 0, 2, b'm'])).unwrap_err(),
        failure(MessageType::Fatal, Field::Message, Fault::Truncated)
    );
    assert_eq!(
        Done::decode(Bytes::from(vec![0u8; 31])).unwrap_err(),
        failure(MessageType::Done, Field::Payload, Fault::TooShort)
    );
    assert_eq!(
        Mkdir::decode(Bytes::from(vec![0u8, 1, b'd', 0, 0, 0])).unwrap_err(),
        failure(MessageType::Mkdir, Field::Payload, Fault::Truncated)
    );
}

#[test]
fn xattr_decode_errors() {
    let head = vec![0u8, 1, b'f', 0, 1];
    assert_eq!(
        Xattr::decode(Bytes::from(head.clone())).unwrap_err(),
        failure(MessageType::Xattr, Field::EntryNameLength, Fault::Truncated)
    );
    let mut short_name = head.clone();
    short_name.extend(vec![0u8, 2, b'n', 0, 0, 0]);
    assert_eq!(
        Xattr::decode(Bytes::from(short_name)).unwrap_err(),
        failure(MessageType::Xattr, Field::EntryName, Fault::Truncated)
    );
    let mut bad_name = head.clone();
    bad_name.extend(vec![0u8, 1, 0xff, 0, 0, 0, 0]);
    assert_eq!(
        Xattr::decode(Bytes::from(bad_name)).unwrap_err(),
        failure(MessageType::Xattr, Field::EntryName, Fault::InvalidUtf8)
    );
    let mut short_value = head.clone();
    short_value.extend(vec![0u8, 1, b'n', 0, 0, 0, 2, 1]);
    assert_eq!(
        Xattr::decode(Bytes::from(short_value)).unwrap_err(),
        failure(MessageType::Xattr, Field::EntryValue, Fault::Truncated)
    );
    let xattr = Xattr {
        path: "f".to_string(),
        entries: vec![XattrEntry { name: "n".to_string(), value: Bytes::from(vec![9u8, 8]) }],
    };
    let decoded = Xattr::decode(payload_of(&xattr.encode())).unwrap();
    assert_eq!(decoded.entries[0].value.as_ref(), &[9u8, 8][..]);
}

#[test]
fn decode_errors_in_words() {
    assert_eq!(
        failure(MessageType::Hello, Field::Path, Fault::Truncated).describe(),
        "Hello path truncated"
    );
    assert_eq!(
        failure(MessageType::FileEntry, Field::Payload, Fault::TooShort).describe(),
        "FileEntry payload too short"
    );
    assert_eq!(
        failure(MessageType::Xattr, Field::EntryName, Fault::InvalidUtf8).describe(),
        "Xattr entry name not valid UTF-8"
    );
    assert_eq!(Field::LinkTarget.as_str(), "hardlink target");
}

#[test]
fn cloned_data_holds_the_same_bytes() {
    let data = Data {
        path: "p".to_string(),
        offset: 3,
        flags: DataFlags::empty(),
        data: Bytes::from(vec![1u8, 2, 3]),
    };
    let copy = data.clone();
    assert_eq!(copy.data, data.data);
    assert_eq!(copy.encode(), data.encode());
}

#[test]
fn frame_length_guard() {
    assert_eq!(MAX_FRAME_SIZE, 64 * 1024 * 1024);
    assert_eq!(check_frame_length(MAX_FRAME_SIZE), Ok(MAX_FRAME_SIZE as usize));
    assert_eq!(
        check_frame_length(MAX_FRAME_SIZE + 1),
        Err(FrameError::TooLarge(MAX_FRAME_SIZE + 1))
    );
    // An oversized length is refused though nothing follows it.
    let mut crafted = Bytes::from(vec![0x04u8, 0, 0, 1]);
    assert_eq!(read_frame(&mut crafted).unwrap_err(), FrameError::TooLarge(0x0400_0001));
    assert_eq!(crafted.len(), 0);
}

#[test]
fn frames_are_read_back_from_a_stream() {
    let first = Done { files_ok: 1, files_err: 0, bytes: 5, duration_ms: 0 }.encode();
    let second = Mkdir { path: "d".to_string(), mode: 7 }.encode();
    let mut out = BytesMut::new();
    write_frame(&mut out, &first);
    write_frame(&mut out, &second);
    let mut stream = out.freeze();
    let (t, payload) = read_frame(&mut stream).unwrap();
    assert_eq!(t, MessageType::Done);
    assert_eq!(Done::decode(payload).unwrap().bytes, 5);
    let (t, payload) = read_frame(&mut stream).unwrap();
    assert_eq!(t, MessageType::Mkdir);
    assert_eq!(Mkdir::decode(payload).unwrap().path, "d");
    assert_eq!(read_frame(&mut stream).unwrap_err(), FrameError::LengthMissing);
}

#[test]
fn frame_read_errors() {
    let mut no_type = Bytes::from(vec![0u8, 0, 0, 1]);
    assert_eq!(read_frame(&mut no_type).unwrap_err(), FrameError::TypeMissing);
    let mut unknown = Bytes::from(vec![0u8, 0, 0, 0, 0x42]);
    assert_eq!(read_frame(&mut unknown).unwrap_err(), FrameError::UnknownType(0x42));
    let mut short = Bytes::from(vec![0u8, 0, 0, 3, 0x01, 1, 2]);
    assert_eq!(read_frame(&mut short).unwrap_err(), FrameError::PayloadMissing);
    assert_eq!(short.as_ref(), &[1u8, 2][..]);
}
