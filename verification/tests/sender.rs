use bytes::Bytes;
use sy::delta::apply::apply_delta;
use sy::delta::checksum::compute_checksums;
use sy::delta::DeltaOp;
use sy::streaming::channel::{
    DeltaInfo, FileJob, GeneratorMessage, DATA_CHUNK_SIZE, DELTA_CHUNK_SIZE,
};
use sy::streaming::protocol::{
    read_frame, BlockChecksum, Data, DataEnd, DataFlags, Delete, DeleteEnd, FileEnd, FileEntry,
    MessageType, Mkdir, Symlink,
};
use sy::streaming::sender::{chunk_ops, convert_checksums, Sender, SenderConfig};

fn sender(compress: bool) -> Sender {
    Sender::new(SenderConfig { root: "/src".to_string(), compress })
}

fn job(path: &str, size: u64, checksums: Option<DeltaInfo>) -> FileJob {
    FileJob {
        path: path.to_string(),
        size,
        mtime: 0,
        mode: 0o644,
        inode: 0,
        need_delta: checksums.is_some(),
        checksums,
    }
}

fn open(frame: &Bytes) -> (MessageType, Bytes) {
    let mut stream = frame.clone();
    let parsed = read_frame(&mut stream).unwrap();
    assert!(stream.is_empty());
    parsed
}

#[test]
fn simple_file_is_entry_data_end() {
    let frames = sender(false).run(&GeneratorMessage::File(job("test.txt", 11, None)), b"hello world");
    assert_eq!(frames.len(), 3);
    let (t, payload) = open(&frames[0]);
    assert_eq!(t, MessageType::FileEntry);
    let entry = FileEntry::decode(payload).unwrap();
    assert_eq!(entry.path, "test.txt");
    assert_eq!(entry.size, 11);
    assert!(entry.flags.is_empty());
    let (t, payload) = open(&frames[1]);
    assert_eq!(t, MessageType::Data);
    let data = Data::decode(payload).unwrap();
    assert_eq!(data.path, "test.txt");
    assert_eq!(data.offset, 0);
    assert!(data.flags.is_empty());
    assert_eq!(data.data.as_ref(), b"hello world");
    let (t, payload) = open(&frames[2]);
    assert_eq!(t, MessageType::DataEnd);
    let end = DataEnd::decode(payload).unwrap();
    assert_eq!(end.path, "test.txt");
    assert_eq!(end.status, DataEnd::STATUS_OK);
}

#[test]
fn full_transfer_is_cut_into_chunks_with_offsets() {
    let content = vec![3u8; 2 * DATA_CHUNK_SIZE + 10];
    let frames = sender(true).send_full("big", &content);
    assert_eq!(frames.len(), 3);
    let mut rebuilt = Vec::new();
    for (k, frame) in frames.iter().enumerate() {
        let (_, payload) = open(frame);
        let data = Data::decode(payload).unwrap();
        assert_eq!(data.offset, (k * DATA_CHUNK_SIZE) as u64);
        assert_eq!(data.flags, DataFlags::compressed());
        rebuilt.extend_from_slice(&data.data);
    }
    assert_eq!(rebuilt, content);
    assert_eq!(sender(false).send_full("empty", &[]).len(), 0);
    assert_eq!(sender(false).send_full("exact", &vec![1u8; DATA_CHUNK_SIZE]).len(), 1);
    let frame = sender(false).full_chunk("p", 77, &[1, 2]);
    let data = Data::decode(open(&frame).1).unwrap();
    assert_eq!(data.offset, 77);
    assert_eq!(data.data.as_ref(), &[1u8, 2][..]);
}

#[test]
fn delta_transfer_carries_the_delta_flag_and_offset_zero() {
    let content = b"new content that differs from original";
    let info = DeltaInfo {
        block_size: 16,
        file_size: 32,
        checksums: vec![
            BlockChecksum { offset: 0, weak: 0xDEADBEEF, strong: 0x0 },
            BlockChecksum { offset: 16, weak: 0xCAFEBABE, strong: 0x1 },
        ],
    };
    let frames = sender(false).process_file(&job("test.txt", content.len() as u64, Some(info)), content);
    assert!(frames.len() >= 3);
    assert_eq!(frames[1][4], 0x06);
    let data = Data::decode(open(&frames[1]).1).unwrap();
    assert!(data.flags.contains(DataFlags::delta()));
    assert!(!data.flags.contains(DataFlags::compressed()));
    assert_eq!(data.offset, 0);
    let mut out = Vec::new();
    apply_delta(&[0u8; 32], &data.data, &mut out).unwrap();
    assert_eq!(out, content.to_vec());
}

#[test]
fn delta_of_a_large_file_is_small_and_rebuilds_it() {
    let mut dest = Vec::new();
    for i in 0..(256 * 1024u32) {
        dest.push((i.wrapping_mul(2654435761) >> 13) as u8);
    }
    let mut source = dest.clone();
    for byte in &mut source[128 * 1024..132 * 1024] {
        *byte ^= 0x55;
    }
    let table: Vec<BlockChecksum> = compute_checksums(&dest, 4096)
        .iter()
        .map(|c| BlockChecksum { offset: c.offset, weak: c.weak, strong: c.strong })
        .collect();
    let info = DeltaInfo { block_size: 4096, file_size: dest.len() as u64, checksums: table };
    let frames = sender(false).send_delta("big.bin", &source, &info);
    assert_eq!(frames.len(), 1);
    let data = Data::decode(open(&frames[0]).1).unwrap();
    assert!(data.flags.contains(DataFlags::delta()));
    assert!(data.data.len() < 5000);
    let mut out = Vec::new();
    apply_delta(&dest, &data.data, &mut out).unwrap();
    assert_eq!(out, source);
}

#[test]
fn last_block_gets_what_is_left_of_the_file() {
    let info = DeltaInfo {
        block_size: 4096,
        file_size: 10000,
        checksums: vec![
            BlockChecksum { offset: 0, weak: 1, strong: 2 },
            BlockChecksum { offset: 4096, weak: 3, strong: 4 },
            BlockChecksum { offset: 8192, weak: 5, strong: 6 },
        ],
    };
    let table = convert_checksums(&info);
    assert_eq!(table.len(), 3);
    assert_eq!(table[0].size, 4096);
    assert_eq!(table[1].size, 4096);
    assert_eq!(table[2].size, 10000 - 8192);
    assert_eq!(table[2].index, 2);
    assert_eq!(table[2].offset, 8192);
    assert_eq!(table[2].weak, 5);
    assert_eq!(table[2].strong, 6);
    let short = DeltaInfo {
        block_size: 4096,
        file_size: 100,
        checksums: vec![BlockChecksum { offset: 4096, weak: 0, strong: 0 }],
    };
    assert_eq!(convert_checksums(&short)[0].size, 0);
    let whole = DeltaInfo {
        block_size: 4096,
        file_size: 8192,
        checksums: vec![BlockChecksum { offset: 0, weak: 0, strong: 0 }],
    };
    assert_eq!(convert_checksums(&whole)[0].size, 4096);
}

#[test]
fn operations_are_packed_up_to_the_limit() {
    let half = DELTA_CHUNK_SIZE / 2;
    let ops = vec![
        DeltaOp::Data(vec![1u8; half]),
        DeltaOp::Copy { offset: 0, size: 10 },
        DeltaOp::Data(vec![2u8; half]),
        DeltaOp::Data(vec![3u8; 4]),
    ];
    let chunks = chunk_ops(&ops);
    assert_eq!(chunks.len(), 2);
    assert_eq!(chunks[0].len(), 5 + half + 13);
    assert_eq!(chunks[1].len(), 5 + half + 5 + 4);
    assert_eq!(chunks[1][0], 0x01);
    assert_eq!(chunk_ops(&vec![]).len(), 0);
    // A single operation beyond the limit goes out by itself.
    let big = vec![DeltaOp::Copy { offset: 0, size: 1 }, DeltaOp::Data(vec![0u8; DELTA_CHUNK_SIZE])];
    let chunks = chunk_ops(&big);
    assert_eq!(chunks.len(), 2);
    assert_eq!(chunks[0].len(), 13);
    assert_eq!(chunks[1].len(), 5 + DELTA_CHUNK_SIZE);
}

#[test]
fn other_work_items_pass_through() {
    let s = sender(false);
    let frames = s.run(&GeneratorMessage::Mkdir { path: "d".to_string(), mode: 0o755 }, &[]);
    assert_eq!(frames.len(), 1);
    let (t, payload) = open(&frames[0]);
    assert_eq!(t, MessageType::Mkdir);
    assert_eq!(Mkdir::decode(payload).unwrap().mode, 0o755);
    let frames =
        s.run(&GeneratorMessage::Symlink { path: "l".to_string(), target: "t".to_string() }, &[]);
    let (t, payload) = open(&frames[0]);
    assert_eq!(t, MessageType::Symlink);
    assert_eq!(Symlink::decode(payload).unwrap().target, "t");
    let frames = s.run(&GeneratorMessage::Delete { path: "x".to_string(), is_dir: true }, &[]);
    let (t, payload) = open(&frames[0]);
    assert_eq!(t, MessageType::Delete);
    assert!(Delete::decode(payload).unwrap().is_dir);
    let frames = s.run(&GeneratorMessage::FileEnd { total_files: 1, total_bytes: 11 }, &[]);
    let (t, payload) = open(&frames[0]);
    assert_eq!(t, MessageType::FileEnd);
    assert_eq!(FileEnd::decode(payload), Ok(FileEnd { total_files: 1, total_bytes: 11 }));
    let frames = s.run(&GeneratorMessage::DeleteEnd { count: 4 }, &[]);
    let (t, payload) = open(&frames[0]);
    assert_eq!(t, MessageType::DeleteEnd);
    assert_eq!(DeleteEnd::decode(payload), Ok(DeleteEnd { count: 4 }));
    let frames = s.abandon_file(&job("broken", 3, None));
    assert_eq!(frames.len(), 2);
    let (t, payload) = open(&frames[0]);
    assert_eq!(t, MessageType::FileEntry);
    assert_eq!(FileEntry::decode(payload).unwrap().path, "broken");
    let (t, payload) = open(&frames[1]);
    assert_eq!(t, MessageType::DataEnd);
    let end = DataEnd::decode(payload).unwrap();
    assert_eq!(end.path, "broken");
    assert_eq!(end.status, DataEnd::STATUS_ERROR);
}
