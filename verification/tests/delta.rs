use sy::delta::apply::{
    apply_delta, decode_ops, encode_op, encoded_len, DeltaError,
};
use sy::delta::checksum::{compute_checksums, strong, weak, Rolling};
use sy::delta::generator::generate_delta;
use sy::delta::{BlockChecksum, DeltaOp, MAX_DELTA_COPY_SIZE};

fn pattern(len: usize, seed: u32) -> Vec<u8> {
    let mut state = seed;
    let mut out = Vec::with_capacity(len);
    for _ in 0..len {
        state = state.wrapping_mul(1664525).wrapping_add(1013904223);
        out.push((state >> 24) as u8);
    }
    out
}

fn rebuild(dest: &[u8], ops: &[DeltaOp]) -> Vec<u8> {
    let mut wire = Vec::new();
    for op in ops {
        encode_op(op, &mut wire);
    }
    let mut out = Vec::new();
    apply_delta(dest, &wire, &mut out).unwrap();
    out
}

#[test]
fn weak_checksum_of_known_bytes() {
    // a = 1 + 2 + 3 = 6, b = 1 + 3 + 6 = 10.
    assert_eq!(weak(&[1, 2, 3]), 6 + (10 << 16));
    assert_eq!(weak(&[]), 0);
    // Both sums wrap at 2^16.
    let big = vec![255u8; 300];
    let a = (255u32 * 300) % 65536;
    let b = (255u32 * (300 * 301 / 2)) % 65536;
    assert_eq!(weak(&big), a + (b << 16));
}

#[test]
fn strong_checksum_is_fnv1a() {
    assert_eq!(strong(b""), 0xcbf29ce484222325);
    assert_eq!(strong(b"a"), 0xaf63dc4c8601ec8c);
    assert_eq!(strong(b"foobar"), 0x85944171f73967e8);
}

#[test]
fn rolling_matches_recomputation() {
    let data = pattern(5000, 7);
    let len = 700;
    let mut rolling = Rolling::new(&data[0..len]);
    assert_eq!(rolling.value(), weak(&data[0..len]));
    for start in 0..(data.len() - len) {
        rolling.roll(len, data[start], data[start + len]);
        assert_eq!(rolling.value(), weak(&data[start + 1..start + 1 + len]));
    }
}

#[test]
fn checksums_cover_the_file_block_by_block() {
    let data = pattern(10, 1);
    let table = compute_checksums(&data, 4);
    assert_eq!(table.len(), 3);
    assert_eq!(
        table[0],
        BlockChecksum { index: 0, offset: 0, size: 4, weak: weak(&data[0..4]), strong: strong(&data[0..4]) }
    );
    assert_eq!(table[1].offset, 4);
    assert_eq!(table[1].size, 4);
    assert_eq!(table[2].index, 2);
    assert_eq!(table[2].offset, 8);
    assert_eq!(table[2].size, 2);
    assert_eq!(table[2].strong, strong(&data[8..10]));
    assert_eq!(compute_checksums(&data, 0).len(), 0);
    assert_eq!(compute_checksums(&[], 4).len(), 0);
    assert_eq!(compute_checksums(&data, 10).len(), 1);
    assert_eq!(compute_checksums(&data, 11)[0].size, 10);
}

#[test]
fn identical_files_become_one_copy() {
    let dest = pattern(64 * 1024, 3);
    let table = compute_checksums(&dest, 4096);
    let delta = generate_delta(&dest, &table, 4096);
    assert_eq!(delta.ops, vec![DeltaOp::Copy { offset: 0, size: 64 * 1024 }]);
    assert_eq!(rebuild(&dest, &delta.ops), dest);
}

#[test]
fn a_changed_block_in_the_middle_is_sent_alone() {
    let dest = pattern(256 * 1024, 11);
    let mut source = dest.clone();
    for byte in &mut source[128 * 1024..132 * 1024] {
        *byte = byte.wrapping_add(1);
    }
    let table = compute_checksums(&dest, 4096);
    let delta = generate_delta(&source, &table, 4096);
    assert_eq!(
        delta.ops,
        vec![
            DeltaOp::Copy { offset: 0, size: 128 * 1024 },
            DeltaOp::Data(source[128 * 1024..132 * 1024].to_vec()),
            DeltaOp::Copy { offset: 132 * 1024, size: 124 * 1024 },
        ]
    );
    let mut wire = Vec::new();
    for op in &delta.ops {
        encode_op(op, &mut wire);
    }
    assert_eq!(wire.len(), 13 + 5 + 4096 + 13);
    let mut out = Vec::new();
    assert_eq!(apply_delta(&dest, &wire, &mut out), Ok(()));
    assert_eq!(out, source);
}

#[test]
fn inserted_bytes_shift_the_blocks() {
    let dest = pattern(20000, 5);
    let mut source = b"prefix".to_vec();
    source.extend_from_slice(&dest[0..8192]);
    source.extend_from_slice(b"middle");
    source.extend_from_slice(&dest[8192..]);
    let table = compute_checksums(&dest, 4096);
    let delta = generate_delta(&source, &table, 4096);
    assert_eq!(
        delta.ops,
        vec![
            DeltaOp::Data(b"prefix".to_vec()),
            DeltaOp::Copy { offset: 0, size: 8192 },
            DeltaOp::Data(b"middle".to_vec()),
            DeltaOp::Copy { offset: 8192, size: 20000 - 8192 },
        ]
    );
    assert_eq!(rebuild(&dest, &delta.ops), source);
}

#[test]
fn blocks_out_of_order_are_not_joined() {
    let dest = pattern(8192, 9);
    let mut source = dest[4096..].to_vec();
    source.extend_from_slice(&dest[..4096]);
    let table = compute_checksums(&dest, 4096);
    let delta = generate_delta(&source, &table, 4096);
    assert_eq!(
        delta.ops,
        vec![DeltaOp::Copy { offset: 4096, size: 4096 }, DeltaOp::Copy { offset: 0, size: 4096 }]
    );
    assert_eq!(rebuild(&dest, &delta.ops), source);
}

#[test]
fn nothing_in_common_is_one_insertion() {
    let dest = pattern(10000, 1);
    let source = pattern(9000, 2);
    let table = compute_checksums(&dest, 1024);
    let delta = generate_delta(&source, &table, 1024);
    assert_eq!(delta.ops, vec![DeltaOp::Data(source.clone())]);
    assert_eq!(generate_delta(&[], &table, 1024).ops, vec![]);
    assert_eq!(generate_delta(&source, &[], 1024).ops, vec![DeltaOp::Data(source.clone())]);
    assert_eq!(generate_delta(&source, &table, 0).ops, vec![DeltaOp::Data(source.clone())]);
}

#[test]
fn false_checksums_never_match() {
    let source = pattern(100, 4);
    let table = vec![
        BlockChecksum { index: 0, offset: 0, size: 16, weak: 0xDEADBEEF, strong: 0 },
        BlockChecksum { index: 1, offset: 16, size: 16, weak: weak(&source[0..16]), strong: 1 },
    ];
    let delta = generate_delta(&source, &table, 16);
    assert_eq!(delta.ops, vec![DeltaOp::Data(source.clone())]);
}

#[test]
fn operations_stay_within_the_limit() {
    let dest = vec![7u8; MAX_DELTA_COPY_SIZE + 3 * 4096];
    let table = compute_checksums(&dest, 4096);
    let delta = generate_delta(&dest, &table, 4096);
    let mut total = 0usize;
    for op in &delta.ops {
        match op {
            DeltaOp::Copy { size, .. } => {
                assert!(*size > 0 && *size <= MAX_DELTA_COPY_SIZE);
                total += size;
            }
            DeltaOp::Data(data) => {
                assert!(!data.is_empty() && data.len() <= MAX_DELTA_COPY_SIZE);
                total += data.len();
            }
        }
    }
    assert_eq!(total, dest.len());
    assert!(delta.ops.len() >= 2);
    assert_eq!(rebuild(&dest, &delta.ops), dest);
}

#[test]
fn operations_on_the_wire() {
    let mut wire = Vec::new();
    encode_op(&DeltaOp::Copy { offset: 0x0102, size: 0x0304 }, &mut wire);
    assert_eq!(wire, vec![0x00, 0, 0, 0, 0, 0, 0, 1, 2, 0, 0, 3, 4]);
    encode_op(&DeltaOp::Data(vec![9, 8]), &mut wire);
    assert_eq!(&wire[13..], &[0x01, 0, 0, 0, 2, 9, 8][..]);
    assert_eq!(encoded_len(&DeltaOp::Copy { offset: 1, size: 2 }), 13);
    assert_eq!(encoded_len(&DeltaOp::Data(vec![1, 2, 3])), 8);
    assert_eq!(
        decode_ops(&wire, 0x1000),
        Ok(vec![DeltaOp::Copy { offset: 0x0102, size: 0x0304 }, DeltaOp::Data(vec![9, 8])])
    );
}

#[test]
fn malformed_operations_are_refused() {
    let file = vec![0u8; 100];
    let mut out = vec![1u8];
    assert_eq!(apply_delta(&file, &[0x00, 0, 0], &mut out), Err(DeltaError::CopyTruncated));
    assert_eq!(
        apply_delta(&file, &[0x00, 0, 0, 0, 0, 0, 0, 0, 0, 0x01, 0, 0, 1], &mut out),
        Err(DeltaError::CopyTooLarge { size: 0x0100_0001 })
    );
    assert_eq!(
        apply_delta(&file, &[0x00, 0, 0, 0, 0, 0, 0, 0, 101, 0, 0, 0, 0], &mut out),
        Err(DeltaError::CopyOffsetBeyondFile { offset: 101, file_size: 100 })
    );
    assert_eq!(
        apply_delta(&file, &[0x00, 0, 0, 0, 0, 0, 0, 0, 99, 0, 0, 0, 2], &mut out),
        Err(DeltaError::CopyRangeBeyondFile { offset: 99, size: 2, file_size: 100 })
    );
    assert_eq!(apply_delta(&file, &[0x01, 0, 0], &mut out), Err(DeltaError::InsertTruncated));
    assert_eq!(
        apply_delta(&file, &[0x01, 0x01, 0, 0, 1], &mut out),
        Err(DeltaError::InsertTooLarge { size: 0x0100_0001 })
    );
    assert_eq!(
        apply_delta(&file, &[0x01, 0, 0, 0, 3, 1, 2], &mut out),
        Err(DeltaError::InsertDataTruncated)
    );
    assert_eq!(apply_delta(&file, &[0x02], &mut out), Err(DeltaError::UnknownOp { op: 2 }));
    assert_eq!(out, vec![1u8]);
    // What comes before the refused operation is written all the same.
    let wire = [0x01, 0, 0, 0, 1, 5, 0x00, 0, 0, 0, 0, 0, 0, 0, 99, 0, 0, 0, 1, 0x07];
    assert_eq!(apply_delta(&file, &wire, &mut out), Err(DeltaError::UnknownOp { op: 7 }));
    assert_eq!(out, vec![1u8, 5, 0]);
    assert_eq!(decode_ops(&wire, 100), Err(DeltaError::UnknownOp { op: 7 }));
    // A copy that ends with the file is in order.
    assert_eq!(
        decode_ops(&[0x00, 0, 0, 0, 0, 0, 0, 0, 99, 0, 0, 0, 1], 100),
        Ok(vec![DeltaOp::Copy { offset: 99, size: 1 }])
    );
}
