//! Delta operations on the wire, and their application to a file.
//!
//! A copy is `0x00 | offset: u64 | size: u32`; an insertion is
//! `0x01 | size: u32 | bytes`. Integers are big-endian.

use crate::delta::{op_views, reconstruct, DeltaOp, OpView, MAX_DELTA_COPY_SIZE};
use crate::wire::{be32, be64, be8, push_u32, push_u64, read_u32, read_u64, u32_at, u64_at};
use vstd::prelude::*;
use vstd::slice::{slice_subrange, slice_to_vec};

verus! {

/// The byte that starts a copy.
pub const OP_COPY: u8 = 0x00;

/// The byte that starts an insertion.
pub const OP_INSERT: u8 = 0x01;

/// Why a run of delta operations was refused.
#[derive(Debug, Clone, Copy, PartialEq, Eq, Structural)]
pub enum DeltaError {
    /// A copy ends before its offset and size do.
    CopyTruncated,
    /// A copy of more than `MAX_DELTA_COPY_SIZE` bytes.
    CopyTooLarge { size: u32 },
    /// A copy that starts behind the end of the file.
    CopyOffsetBeyondFile { offset: u64, file_size: u64 },
    /// A copy that ends behind the end of the file.
    CopyRangeBeyondFile { offset: u64, size: u32, file_size: u64 },
    /// An insertion ends before its size does.
    InsertTruncated,
    /// An insertion of more than `MAX_DELTA_COPY_SIZE` bytes.
    InsertTooLarge { size: u32 },
    /// An insertion with fewer bytes than its size says.
    InsertDataTruncated,
    /// An operation of a kind that does not exist.
    UnknownOp { op: u8 },
}

/// One operation on the wire. A size that does not fit the `u32` is reduced
/// modulo 2^32.
pub open spec fn op_bytes(op: OpView) -> Seq<u8> {
    match op {
        OpView::Copy { offset, size } => be8(OP_COPY) + be64(offset) + be32(
            (size as int % 0x1_0000_0000) as u32,
        ),
        OpView::Data(data) => be8(OP_INSERT) + be32((data.len() % 0x1_0000_0000) as u32) + data,
    }
}

/// A list of operations on the wire: one after the other.
pub open spec fn ops_bytes(ops: Seq<OpView>) -> Seq<u8>
    decreases ops.len(),
{
    if ops.len() == 0 {
        Seq::empty()
    } else {
        ops_bytes(ops.drop_last()) + op_bytes(ops.last())
    }
}

/// Whether an operation goes on the wire unharmed and is accepted by a
/// receiver whose file has `file_size` bytes.
pub open spec fn sendable(op: OpView, file_size: nat) -> bool {
    op.len() <= MAX_DELTA_COPY_SIZE && op.fits(file_size)
}

/// The operation that the bytes `d` start with and how many bytes it takes,
/// for a file of `file_size` bytes; or what is wrong with it. `d` is not
/// empty.
pub open spec fn first_op(d: Seq<u8>, file_size: u64) -> Result<(OpView, nat), DeltaError> {
    if d[0] == OP_COPY {
        if d.len() - 1 < 12 {
            Err(DeltaError::CopyTruncated)
        } else if u32_at(d, 9) > MAX_DELTA_COPY_SIZE {
            Err(DeltaError::CopyTooLarge { size: u32_at(d, 9) })
        } else if u64_at(d, 1) > file_size {
            Err(DeltaError::CopyOffsetBeyondFile { offset: u64_at(d, 1), file_size })
        } else if u64_at(d, 1) + u32_at(d, 9) > file_size {
            Err(
                DeltaError::CopyRangeBeyondFile {
                    offset: u64_at(d, 1),
                    size: u32_at(d, 9),
                    file_size,
                },
            )
        } else {
            Ok((OpView::Copy { offset: u64_at(d, 1), size: u32_at(d, 9) as usize }, 13))
        }
    } else if d[0] == OP_INSERT {
        if d.len() - 1 < 4 {
            Err(DeltaError::InsertTruncated)
        } else if u32_at(d, 1) > MAX_DELTA_COPY_SIZE {
            Err(DeltaError::InsertTooLarge { size: u32_at(d, 1) })
        } else if d.len() - 5 < u32_at(d, 1) {
            Err(DeltaError::InsertDataTruncated)
        } else {
            Ok((OpView::Data(d.subrange(5, 5 + u32_at(d, 1))), (5 + u32_at(d, 1)) as nat))
        }
    } else {
        Err(DeltaError::UnknownOp { op: d[0] })
    }
}

/// The operations that the bytes `d` hold, up to the first one that is
/// refused, and why that one is refused.
pub open spec fn scan_ops(d: Seq<u8>, file_size: u64) -> (Seq<OpView>, Option<DeltaError>)
    decreases d.len(),
{
    if d.len() == 0 {
        (Seq::empty(), None)
    } else {
        match first_op(d, file_size) {
            Err(e) => (Seq::empty(), Some(e)),
            Ok((op, n)) => if 0 < n <= d.len() {
                let rest = scan_ops(d.skip(n as int), file_size);
                (seq![op] + rest.0, rest.1)
            } else {
                (Seq::empty(), None)
            },
        }
    }
}

/// Appends one operation as it goes on the wire.
pub fn encode_op(op: &DeltaOp, out: &mut Vec<u8>)
    ensures
        final(out)@ == old(out)@ + op_bytes(op@),
{
    match op {
        DeltaOp::Copy { offset, size } => {
            out.push(OP_COPY);
            push_u64(out, *offset);
            push_u32(out, (*size as u64 % 0x1_0000_0000) as u32);
            assert(out@ =~= old(out)@ + op_bytes(op@));
        },
        DeltaOp::Data(data) => {
            out.push(OP_INSERT);
            push_u32(out, (data.len() as u64 % 0x1_0000_0000) as u32);
            out.extend_from_slice(data.as_slice());
            assert(out@ =~= old(out)@ + op_bytes(op@));
        },
    }
}

/// How many bytes an operation takes on the wire.
pub fn encoded_len(op: &DeltaOp) -> (n: u128)
    ensures
        n == op_bytes(op@).len(),
        n <= usize::MAX + 13,
{
    proof {
        crate::wire::lemma_widths();
    }
    match op {
        DeltaOp::Copy { .. } => 13,
        DeltaOp::Data(data) => 5 + data.len() as u128,
    }
}

/// Reads the operation that starts at `pos`, and says how many bytes it
/// takes.
pub(crate) fn decode_op(delta: &[u8], pos: usize, file_size: u64) -> (r: Result<
    (DeltaOp, usize),
    DeltaError,
>)
    requires
        pos < delta.len(),
    ensures
        match r {
            Ok((op, n)) => first_op(delta@.skip(pos as int), file_size) == Ok::<_, DeltaError>(
                (op@, n as nat),
            ) && 0 < n <= delta.len() - pos,
            Err(e) => first_op(delta@.skip(pos as int), file_size) == Err::<(OpView, nat), _>(e),
        },
{
    let ghost d = delta@.skip(pos as int);
    let left = delta.len() - pos - 1;
    let op_type = delta[pos];
    if op_type == OP_COPY {
        if left < 12 {
            return Err(DeltaError::CopyTruncated);
        }
        let offset = read_u64(delta, pos + 1);
        let size = read_u32(delta, pos + 9);
        assert(u64_at(d, 1) == offset);
        assert(u32_at(d, 9) == size);
        if size as usize > MAX_DELTA_COPY_SIZE {
            return Err(DeltaError::CopyTooLarge { size });
        }
        if offset > file_size {
            return Err(DeltaError::CopyOffsetBeyondFile { offset, file_size });
        }
        if size as u64 > file_size - offset {
            return Err(DeltaError::CopyRangeBeyondFile { offset, size, file_size });
        }
        Ok((DeltaOp::Copy { offset, size: size as usize }, 13))
    } else if op_type == OP_INSERT {
        if left < 4 {
            return Err(DeltaError::InsertTruncated);
        }
        let len = read_u32(delta, pos + 1);
        assert(u32_at(d, 1) == len);
        if len as usize > MAX_DELTA_COPY_SIZE {
            return Err(DeltaError::InsertTooLarge { size: len });
        }
        if left - 4 < len as usize {
            return Err(DeltaError::InsertDataTruncated);
        }
        let data = slice_to_vec(slice_subrange(delta, pos + 5, pos + 5 + len as usize));
        assert(data@ =~= d.subrange(5, 5 + len));
        Ok((DeltaOp::Data(data), 5 + len as usize))
    } else {
        Err(DeltaError::UnknownOp { op: op_type })
    }
}

/// Reads a run of operations for a file of `file_size` bytes. Nothing is
/// handed out unless every operation is accepted.
pub fn decode_ops(delta: &[u8], file_size: u64) -> (r: Result<Vec<DeltaOp>, DeltaError>)
    ensures
        match r {
            Ok(ops) => scan_ops(delta@, file_size) == (op_views(ops@), None::<DeltaError>),
            Err(e) => scan_ops(delta@, file_size).1 == Some(e),
        },
{
    let mut ops: Vec<DeltaOp> = Vec::new();
    let mut pos: usize = 0;
    let ghost whole = scan_ops(delta@, file_size);
    assert(delta@.skip(0) =~= delta@);
    assert(op_views(ops@) + whole.0 =~= whole.0);
    while pos < delta.len()
        invariant
            pos <= delta.len(),
            whole == scan_ops(delta@, file_size),
            whole.0 == op_views(ops@) + scan_ops(delta@.skip(pos as int), file_size).0,
            whole.1 == scan_ops(delta@.skip(pos as int), file_size).1,
        decreases delta.len() - pos,
    {
        let ghost done = op_views(ops@);
        let ghost cur = delta@.skip(pos as int);
        let (op, n) = match decode_op(delta, pos, file_size) {
            Ok(found) => found,
            Err(e) => {
                return Err(e);
            },
        };
        let ghost view = op@;
        ops.push(op);
        proof {
            let rest = scan_ops(cur.skip(n as int), file_size);
            assert(cur.skip(n as int) =~= delta@.skip(pos + n));
            assert(op_views(ops@) =~= done.push(view));
            assert(done + (seq![view] + rest.0) =~= op_views(ops@) + rest.0);
        }
        pos = pos + n;
    }
    assert(op_views(ops@) + Seq::<OpView>::empty() =~= op_views(ops@));
    Ok(ops)
}

/// Applies a run of operations to `original`, the destination's file, and
/// appends what they yield to `out`. The output of every operation in front
/// of one that is refused is appended all the same.
pub fn apply_delta(original: &[u8], delta: &[u8], out: &mut Vec<u8>) -> (r: Result<
    (),
    DeltaError,
>)
    ensures
        final(out)@ == old(out)@ + reconstruct(
            original@,
            scan_ops(delta@, original.len() as u64).0,
        ),
        match r {
            Ok(_) => scan_ops(delta@, original.len() as u64).1 is None,
            Err(e) => scan_ops(delta@, original.len() as u64).1 == Some(e),
        },
{
    let file_size = original.len() as u64;
    let mut pos: usize = 0;
    let ghost whole = scan_ops(delta@, file_size);
    let ghost mut done: Seq<OpView> = Seq::empty();
    assert(delta@.skip(0) =~= delta@);
    assert(done + whole.0 =~= whole.0);
    assert(out@ + reconstruct(original@, done) =~= out@);
    while pos < delta.len()
        invariant
            pos <= delta.len(),
            file_size == original.len(),
            whole == scan_ops(delta@, file_size),
            whole.0 == done + scan_ops(delta@.skip(pos as int), file_size).0,
            whole.1 == scan_ops(delta@.skip(pos as int), file_size).1,
            out@ == old(out)@ + reconstruct(original@, done),
        decreases delta.len() - pos,
    {
        let ghost cur = delta@.skip(pos as int);
        let ghost before = out@;
        let (op, n) = match decode_op(delta, pos, file_size) {
            Ok(found) => found,
            Err(e) => {
                assert(done + Seq::<OpView>::empty() =~= done);
                return Err(e);
            },
        };
        match &op {
            DeltaOp::Copy { offset, size } => {
                let start = *offset as usize;
                out.extend_from_slice(slice_subrange(original, start, start + *size));
            },
            DeltaOp::Data(data) => {
                out.extend_from_slice(data.as_slice());
            },
        }
        proof {
            let rest = scan_ops(cur.skip(n as int), file_size);
            let next = done.push(op@);
            assert(cur.skip(n as int) =~= delta@.skip(pos + n));
            assert(next.drop_last() =~= done);
            assert(out@ =~= before + op@.output(original@));
            assert(out@ =~= old(out)@ + reconstruct(original@, next));
            assert(done + (seq![op@] + rest.0) =~= next + rest.0);
            done = next;
        }
        pos = pos + n;
    }
    assert(done + Seq::<OpView>::empty() =~= done);
    Ok(())
}

/// An operation that a receiver accepts, written in front of `rest`, is
/// read back.
pub proof fn lemma_first_op(op: OpView, rest: Seq<u8>, file_size: u64)
    requires
        sendable(op, file_size as nat),
    ensures
        op_bytes(op).len() > 0,
        first_op(op_bytes(op) + rest, file_size) == Ok::<_, DeltaError>((op, op_bytes(op).len())),
        (op_bytes(op) + rest).skip(op_bytes(op).len() as int) == rest,
{
    crate::wire::lemma_widths();
    let d = op_bytes(op) + rest;
    assert(d.skip(op_bytes(op).len() as int) =~= rest);
    match op {
        OpView::Copy { offset, size } => {
            let n = size as u32;
            crate::wire::lemma_u64_at(be8(OP_COPY), offset, be32(n) + rest);
            crate::wire::lemma_u32_at(be8(OP_COPY) + be64(offset), n, rest);
            assert(d =~= be8(OP_COPY) + be64(offset) + (be32(n) + rest));
            assert(d =~= be8(OP_COPY) + be64(offset) + be32(n) + rest);
        },
        OpView::Data(data) => {
            let n = data.len() as u32;
            crate::wire::lemma_u32_at(be8(OP_INSERT), n, data + rest);
            assert(d =~= be8(OP_INSERT) + be32(n) + (data + rest));
            assert(d.subrange(5, 5 + n) =~= data);
        },
    }
}

/// A list of operations written in front of `rest`, seen from its first
/// operation.
proof fn lemma_ops_head(ops: Seq<OpView>, rest: Seq<u8>)
    requires
        ops.len() > 0,
    ensures
        ops_bytes(ops) + rest == op_bytes(ops[0]) + (ops_bytes(ops.skip(1)) + rest),
    decreases ops.len(),
{
    let init = ops.drop_last();
    let last = ops.last();
    if init.len() == 0 {
        assert(ops.skip(1) =~= Seq::<OpView>::empty());
        assert(ops_bytes(ops) + rest =~= op_bytes(ops[0]) + (ops_bytes(ops.skip(1)) + rest));
    } else {
        lemma_ops_head(init, op_bytes(last) + rest);
        assert(ops.skip(1).drop_last() =~= init.skip(1));
        assert(ops.skip(1).last() == last);
        assert(ops_bytes(ops) + rest =~= ops_bytes(init) + (op_bytes(last) + rest));
        assert(ops_bytes(init.skip(1)) + (op_bytes(last) + rest) =~= ops_bytes(ops.skip(1)) + rest);
    }
}

/// Operations that a receiver accepts are read back from the wire as they
/// were written.
pub proof fn lemma_ops_round_trip(ops: Seq<OpView>, file_size: u64)
    requires
        forall|i: int| 0 <= i < ops.len() ==> sendable(#[trigger] ops[i], file_size as nat),
    ensures
        scan_ops(ops_bytes(ops), file_size) == (ops, None::<DeltaError>),
    decreases ops.len(),
{
    if ops.len() == 0 {
        assert(ops =~= Seq::<OpView>::empty());
    } else {
        let tail = ops.skip(1);
        let e = Seq::<u8>::empty();
        lemma_ops_head(ops, e);
        assert(ops_bytes(ops) + e =~= ops_bytes(ops));
        assert(ops_bytes(tail) + e =~= ops_bytes(tail));
        lemma_first_op(ops[0], ops_bytes(tail), file_size);
        assert forall|i: int| 0 <= i < tail.len() implies sendable(
            #[trigger] tail[i],
            file_size as nat,
        ) by {
            assert(tail[i] == ops[i + 1]);
        }
        lemma_ops_round_trip(tail, file_size);
        assert(seq![ops[0]] + tail =~= ops);
    }
}

/// Two runs of operations, one after the other, stand on the wire as the
/// two runs' bytes, one after the other.
pub proof fn lemma_ops_bytes_concat(a: Seq<OpView>, b: Seq<OpView>)
    ensures
        ops_bytes(a + b) == ops_bytes(a) + ops_bytes(b),
    decreases b.len(),
{
    if b.len() == 0 {
        assert(a + b =~= a);
        assert(ops_bytes(a) + ops_bytes(b) =~= ops_bytes(a));
    } else {
        lemma_ops_bytes_concat(a, b.drop_last());
        assert((a + b).drop_last() =~= a + b.drop_last());
        assert((a + b).last() == b.last());
        assert(ops_bytes(a + b) =~= ops_bytes(a) + ops_bytes(b));
    }
}

} // verus!
