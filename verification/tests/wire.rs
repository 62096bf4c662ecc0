use sy::delta::apply::decode_ops;
use sy::delta::DeltaOp;
use sy::wire::{push_u32, push_u64};

#[test]
fn integers_are_big_endian() {
    let mut out = vec![0xaau8];
    push_u32(&mut out, 0x01020304);
    push_u64(&mut out, 0x1112131415161718);
    assert_eq!(
        out,
        vec![0xaa, 1, 2, 3, 4, 0x11, 0x12, 0x13, 0x14, 0x15, 0x16, 0x17, 0x18]
    );
    let mut edge = Vec::new();
    push_u32(&mut edge, u32::MAX);
    push_u64(&mut edge, u64::MAX);
    push_u64(&mut edge, 0);
    assert_eq!(edge[..12], [0xffu8; 12]);
    assert_eq!(edge[12..], [0u8; 8]);
}

#[test]
fn integers_are_read_back() {
    // A copy of 0x00abcdef bytes from 0x1112131415161718, written by hand.
    let mut wire = vec![0x00u8];
    push_u64(&mut wire, 0x1112131415161718);
    push_u32(&mut wire, 0x00abcdef);
    assert_eq!(
        decode_ops(&wire, u64::MAX),
        Ok(vec![DeltaOp::Copy { offset: 0x1112131415161718, size: 0x00abcdef }])
    );
}
