//! Deltas: a file described as pieces of another file and literal bytes.
//!
//! The destination describes its file by the checksums of its blocks. The
//! source finds those blocks in its own file and sends, in place of them,
//! references to the destination's copy.

pub mod apply;
pub mod checksum;
pub mod generator;

use vstd::prelude::*;

verus! {

/// The most bytes that one operation may copy or insert: 16 MiB.
pub const MAX_DELTA_COPY_SIZE: usize = 0x100_0000;

/// One block of the destination's file, as the delta engine sees it.
#[derive(Debug, Clone, Copy, PartialEq, Eq, Structural)]
pub struct BlockChecksum {
    /// The number of the block in the file.
    pub index: u64,
    /// Where the block starts.
    pub offset: u64,
    /// How many bytes it holds; the last block may hold fewer than the
    /// others.
    pub size: usize,
    /// The rolling checksum of its bytes.
    pub weak: u32,
    /// The strong checksum of its bytes.
    pub strong: u64,
}

/// One operation of a delta.
#[derive(Debug, Clone, PartialEq, Eq)]
pub enum DeltaOp {
    /// Take `size` bytes of the destination's file from `offset`.
    Copy { offset: u64, size: usize },
    /// Take these bytes.
    Data(Vec<u8>),
}

/// A `DeltaOp` as a mathematical value.
pub ghost enum OpView {
    Copy { offset: u64, size: usize },
    Data(Seq<u8>),
}

impl View for DeltaOp {
    type V = OpView;

    open spec fn view(&self) -> OpView {
        match *self {
            DeltaOp::Copy { offset, size } => OpView::Copy { offset, size },
            DeltaOp::Data(data) => OpView::Data(data@),
        }
    }
}

impl OpView {
    /// How many bytes the operation yields.
    pub open spec fn len(self) -> nat {
        match self {
            OpView::Copy { size, .. } => size as nat,
            OpView::Data(data) => data.len(),
        }
    }

    /// Whether the operation can be applied to a file of `file_size` bytes:
    /// a copy must lie within the file.
    pub open spec fn fits(self, file_size: nat) -> bool {
        match self {
            OpView::Copy { offset, size } => offset + size <= file_size,
            OpView::Data(_) => true,
        }
    }

    /// The bytes that the operation yields when applied to `dest`.
    pub open spec fn output(self, dest: Seq<u8>) -> Seq<u8> {
        match self {
            OpView::Copy { offset, size } => dest.subrange(offset as int, offset + size),
            OpView::Data(data) => data,
        }
    }
}

/// The views of a list of operations.
pub open spec fn op_views(ops: Seq<DeltaOp>) -> Seq<OpView> {
    ops.map_values(|op: DeltaOp| op@)
}

/// Whether every operation can be applied to a file of `file_size` bytes.
pub open spec fn all_fit(ops: Seq<OpView>, file_size: nat) -> bool {
    forall|i: int| 0 <= i < ops.len() ==> (#[trigger] ops[i]).fits(file_size)
}

/// The file that the operations describe, given the destination's file:
/// the output of each operation, one after the other.
pub open spec fn reconstruct(dest: Seq<u8>, ops: Seq<OpView>) -> Seq<u8>
    decreases ops.len(),
{
    if ops.len() == 0 {
        Seq::empty()
    } else {
        reconstruct(dest, ops.drop_last()) + ops.last().output(dest)
    }
}

/// A delta: the operations that rebuild the source's file, in order.
#[derive(Debug, Clone)]
pub struct Delta {
    pub ops: Vec<DeltaOp>,
}

/// The operations of one list after those of another describe the two
/// pieces one after the other.
pub proof fn lemma_reconstruct_concat(dest: Seq<u8>, a: Seq<OpView>, b: Seq<OpView>)
    ensures
        reconstruct(dest, a + b) == reconstruct(dest, a) + reconstruct(dest, b),
    decreases b.len(),
{
    if b.len() == 0 {
        assert(a + b =~= a);
        assert(reconstruct(dest, a) + reconstruct(dest, b) =~= reconstruct(dest, a));
    } else {
        lemma_reconstruct_concat(dest, a, b.drop_last());
        assert((a + b).drop_last() =~= a + b.drop_last());
        assert((a + b).last() == b.last());
        assert(reconstruct(dest, a + b) =~= reconstruct(dest, a) + reconstruct(dest, b));
    }
}

} // verus!
