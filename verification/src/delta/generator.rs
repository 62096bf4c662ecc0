//! The delta engine: it finds the destination's blocks in the source's file.

use crate::delta::apply::{lemma_ops_round_trip, ops_bytes, scan_ops, sendable, DeltaError};
use crate::delta::checksum::{
    block_bytes, block_entry, is_table_of, strong, strong_checksum, weak_checksum, Rolling,
};
use crate::delta::{
    all_fit, op_views, reconstruct, BlockChecksum, Delta, DeltaOp, OpView, MAX_DELTA_COPY_SIZE,
};
use std::collections::HashMap;
use vstd::prelude::*;
use vstd::slice::{slice_subrange, slice_to_vec};

verus! {

broadcast use vstd::std_specs::hash::group_hash_axioms;

/// Whether what `entry` says is true of `dest`: the block lies within the
/// file, and the checksums are those of its bytes.
pub open spec fn describes(entry: BlockChecksum, dest: Seq<u8>) -> bool {
    let block = dest.subrange(entry.offset as int, entry.offset + entry.size);
    &&& entry.offset + entry.size <= dest.len()
    &&& entry.weak == weak_checksum(block)
    &&& entry.strong == strong_checksum(block)
}

/// Whether every entry of `table` is true of `dest`.
pub open spec fn table_describes(table: Seq<BlockChecksum>, dest: Seq<u8>) -> bool {
    forall|k: int| 0 <= k < table.len() ==> describes(#[trigger] table[k], dest)
}

/// Whether the checksums tell the pieces of `source` from the pieces of
/// `dest`: a piece of the one and a piece of the other that have the same
/// length and the same two checksums hold the same bytes.
pub open spec fn collision_free(source: Seq<u8>, dest: Seq<u8>) -> bool {
    forall|i: int, j: int, n: int|
        #![trigger source.subrange(i, i + n), dest.subrange(j, j + n)]
        0 <= i && 0 <= j && 0 < n && i + n <= source.len() && j + n <= dest.len() && weak_checksum(
            source.subrange(i, i + n),
        ) == weak_checksum(dest.subrange(j, j + n)) && strong_checksum(source.subrange(i, i + n))
            == strong_checksum(dest.subrange(j, j + n)) ==> source.subrange(i, i + n)
            == dest.subrange(j, j + n)
}

/// Whether `ops` rebuild the first `upto` bytes of `source` from every file
/// that `table` is true of, unless checksums collide.
#[verifier::opaque]
pub open spec fn rebuilds(
    ops: Seq<OpView>,
    source: Seq<u8>,
    upto: int,
    table: Seq<BlockChecksum>,
) -> bool {
    forall|dest: Seq<u8>|
        #![trigger reconstruct(dest, ops)]
        #![trigger all_fit(ops, dest.len())]
        table_describes(table, dest) && collision_free(source, dest) ==> all_fit(ops, dest.len())
            && reconstruct(dest, ops) == source.take(upto)
}

/// Whether each operation yields at least one byte and no more than
/// `MAX_DELTA_COPY_SIZE`.
pub open spec fn sized(ops: Seq<OpView>) -> bool {
    forall|i: int| 0 <= i < ops.len() ==> 0 < (#[trigger] ops[i]).len() <= MAX_DELTA_COPY_SIZE
}

/// The operations decided so far: those written down, and the copy that may
/// still grow.
pub open spec fn planned(ops: Seq<OpView>, pending: Option<(u64, usize)>) -> Seq<OpView> {
    match pending {
        Some((offset, size)) => ops.push(OpView::Copy { offset, size }),
        None => ops,
    }
}

/// Whether `entry` has the length and the two checksums of `window`.
pub open spec fn entry_matches(entry: BlockChecksum, window: Seq<u8>) -> bool {
    entry.size == window.len() && entry.weak == weak_checksum(window) && entry.strong
        == strong_checksum(window)
}

/// How long the window at `pos` is: a block, or what is left of the source.
pub open spec fn window_len(source_len: nat, pos: int, block_size: nat) -> int {
    if source_len - pos < block_size {
        source_len - pos
    } else {
        block_size as int
    }
}

/// Whether a block of the table is found at `pos`: the window there is not
/// empty, is no longer than an operation may be, and has the length and the
/// checksums of some entry.
pub open spec fn matched_at(
    source: Seq<u8>,
    table: Seq<BlockChecksum>,
    block_size: nat,
    pos: int,
) -> bool {
    let width = window_len(source.len(), pos, block_size);
    0 < width <= MAX_DELTA_COPY_SIZE && exists|k: int|
        0 <= k < table.len() && entry_matches(
            #[trigger] table[k],
            source.subrange(pos, pos + width),
        )
}

/// How many bytes the operations yield together.
pub open spec fn total_len(ops: Seq<OpView>) -> nat
    decreases ops.len(),
{
    if ops.len() == 0 {
        0
    } else {
        total_len(ops.drop_last()) + ops.last().len()
    }
}

/// Whether no block was passed over: every byte that is sent in an
/// insertion stands where no block of the table was found.
#[verifier::opaque]
pub open spec fn misses_nothing(
    ops: Seq<OpView>,
    source: Seq<u8>,
    table: Seq<BlockChecksum>,
    block_size: nat,
) -> bool {
    forall|i: int, p: int|
        #![trigger ops[i], matched_at(source, table, block_size, p)]
        0 <= i < ops.len() && ops[i] is Data && total_len(ops.take(i)) <= p < total_len(
            ops.take(i + 1),
        ) ==> !matched_at(source, table, block_size, p)
}

/// Whether the index lists every entry of the table under its weak
/// checksum.
pub open spec fn indexed(index: Map<u32, Vec<usize>>, table: Seq<BlockChecksum>) -> bool {
    forall|k: int|
        0 <= k < table.len() ==> index.contains_key((#[trigger] table[k]).weak)
            && index[table[k].weak]@.contains(k as usize)
}

/// One more operation behind the others: insertions that stood where no
/// block was found still do, and so does a new insertion that stands where
/// none was found.
proof fn lemma_misses_nothing_push(
    ops: Seq<OpView>,
    op: OpView,
    source: Seq<u8>,
    table: Seq<BlockChecksum>,
    block_size: nat,
)
    requires
        misses_nothing(ops, source, table, block_size),
        op is Data ==> forall|p: int|
            total_len(ops) <= p < total_len(ops) + op.len() ==> !#[trigger] matched_at(
                source,
                table,
                block_size,
                p,
            ),
    ensures
        misses_nothing(ops.push(op), source, table, block_size),
        total_len(ops.push(op)) == total_len(ops) + op.len(),
{
    reveal(misses_nothing);
    let after = ops.push(op);
    assert(after.drop_last() =~= ops);
    assert forall|i: int, p: int|
        #![trigger after[i], matched_at(source, table, block_size, p)]
        0 <= i < after.len() && after[i] is Data && total_len(after.take(i)) <= p < total_len(
            after.take(i + 1),
        ) implies !matched_at(source, table, block_size, p) by {
        if i < ops.len() {
            assert(after.take(i) =~= ops.take(i));
            assert(after.take(i + 1) =~= ops.take(i + 1));
            assert(after[i] == ops[i]);
        } else {
            assert(after.take(i) =~= ops);
            assert(after.take(i + 1) =~= after);
        }
    }
}

/// A copy that grows: insertions in front of it stay where they are.
proof fn lemma_misses_nothing_grow(
    ops: Seq<OpView>,
    offset: u64,
    size: usize,
    more: usize,
    source: Seq<u8>,
    table: Seq<BlockChecksum>,
    block_size: nat,
)
    requires
        misses_nothing(ops.push(OpView::Copy { offset, size }), source, table, block_size),
        size + more <= usize::MAX,
    ensures
        misses_nothing(
            ops.push(OpView::Copy { offset, size: (size + more) as usize }),
            source,
            table,
            block_size,
        ),
        total_len(ops.push(OpView::Copy { offset, size: (size + more) as usize })) == total_len(
            ops.push(OpView::Copy { offset, size }),
        ) + more,
{
    reveal(misses_nothing);
    let short = ops.push(OpView::Copy { offset, size });
    let long = ops.push(OpView::Copy { offset, size: (size + more) as usize });
    assert(short.drop_last() =~= ops);
    assert(long.drop_last() =~= ops);
    assert forall|i: int, p: int|
        #![trigger long[i], matched_at(source, table, block_size, p)]
        0 <= i < long.len() && long[i] is Data && total_len(long.take(i)) <= p < total_len(
            long.take(i + 1),
        ) implies !matched_at(source, table, block_size, p) by {
        assert(i < ops.len());
        assert(long.take(i) =~= short.take(i));
        assert(long.take(i + 1) =~= short.take(i + 1));
        assert(long[i] == short[i]);
    }
}

/// Whether two operations that follow each other could have been one: two
/// insertions of which the first is not full, or two copies of adjoining
/// bytes that together stay within `MAX_DELTA_COPY_SIZE`.
pub open spec fn joinable(first: OpView, second: OpView) -> bool {
    match (first, second) {
        (OpView::Data(a), OpView::Data(_)) => a.len() < MAX_DELTA_COPY_SIZE,
        (
            OpView::Copy { offset: o1, size: s1 },
            OpView::Copy { offset: o2, size: s2 },
        ) => o1 + s1 == o2 && s1 + s2 <= MAX_DELTA_COPY_SIZE,
        _ => false,
    }
}

/// Whether the operations are joined as far as they can be: no two that
/// follow each other could have been one.
#[verifier::opaque]
pub open spec fn coalesced(ops: Seq<OpView>) -> bool {
    forall|i: int| 0 <= i < ops.len() - 1 ==> !joinable(#[trigger] ops[i], ops[i + 1])
}

/// Whether an operation may come behind the others: it cannot be joined to
/// the last of them.
pub open spec fn follows(ops: Seq<OpView>, op: OpView) -> bool {
    ops.len() > 0 ==> !joinable(ops.last(), op)
}

/// One more operation that cannot be joined to the last keeps the
/// operations joined as far as they can be.
proof fn lemma_coalesced_push(ops: Seq<OpView>, op: OpView)
    requires
        coalesced(ops),
        follows(ops, op),
    ensures
        coalesced(ops.push(op)),
{
    reveal(coalesced);
    let after = ops.push(op);
    assert forall|i: int| 0 <= i < after.len() - 1 implies !joinable(
        #[trigger] after[i],
        after[i + 1],
    ) by {
        if i < ops.len() - 1 {
            assert(after[i] == ops[i]);
            assert(after[i + 1] == ops[i + 1]);
        }
    }
}

/// A copy that grows can still not be joined to what stands in front of
/// it.
proof fn lemma_coalesced_grow(ops: Seq<OpView>, offset: u64, size: usize, more: usize)
    requires
        coalesced(ops.push(OpView::Copy { offset, size })),
        size + more <= usize::MAX,
    ensures
        coalesced(ops.push(OpView::Copy { offset, size: (size + more) as usize })),
{
    reveal(coalesced);
    let short = ops.push(OpView::Copy { offset, size });
    let long = ops.push(OpView::Copy { offset, size: (size + more) as usize });
    assert forall|i: int| 0 <= i < long.len() - 1 implies !joinable(
        #[trigger] long[i],
        long[i + 1],
    ) by {
        assert(long[i] == short[i]);
        assert(!joinable(short[i], short[i + 1]));
        if i < ops.len() - 1 {
            assert(long[i + 1] == short[i + 1]);
        }
    }
}

/// What `commit` writes down is joined as far as it can be, if the
/// insertion comes behind a copy or a full insertion.
proof fn lemma_commit_coalesced(before: Seq<OpView>, source: Seq<u8>, from: int, to: int)
    requires
        0 <= from <= to <= source.len(),
        coalesced(before),
        before.len() > 0 && before.last() is Data ==> before.last().len() == MAX_DELTA_COPY_SIZE,
    ensures
        coalesced(
            before + if from < to {
                seq![OpView::Data(source.subrange(from, to))]
            } else {
                Seq::<OpView>::empty()
            },
        ),
{
    if from < to {
        let op = OpView::Data(source.subrange(from, to));
        assert(before + seq![op] =~= before.push(op));
        lemma_coalesced_push(before, op);
    } else {
        assert(before + Seq::<OpView>::empty() =~= before);
    }
}

/// One more operation: its output follows that of the others.
proof fn lemma_push(dest: Seq<u8>, ops: Seq<OpView>, op: OpView)
    requires
        all_fit(ops, dest.len()),
        op.fits(dest.len()),
    ensures
        all_fit(ops.push(op), dest.len()),
        reconstruct(dest, ops.push(op)) == reconstruct(dest, ops) + op.output(dest),
{
    assert(ops.push(op).drop_last() =~= ops);
}

/// A copy that goes on where the copy before it ends may be joined to it.
proof fn lemma_join(dest: Seq<u8>, ops: Seq<OpView>, offset: u64, size: usize, more: usize)
    requires
        all_fit(ops.push(OpView::Copy { offset, size }), dest.len()),
        offset + size + more <= dest.len(),
        size + more <= usize::MAX,
    ensures
        all_fit(ops.push(OpView::Copy { offset, size: (size + more) as usize }), dest.len()),
        reconstruct(dest, ops.push(OpView::Copy { offset, size: (size + more) as usize }))
            == reconstruct(dest, ops.push(OpView::Copy { offset, size })) + dest.subrange(
            offset + size,
            offset + size + more,
        ),
{
    let short = ops.push(OpView::Copy { offset, size });
    let long = ops.push(OpView::Copy { offset, size: (size + more) as usize });
    assert(short.drop_last() =~= ops);
    assert(long.drop_last() =~= ops);
    assert(dest.subrange(offset as int, offset + size + more) =~= dest.subrange(
        offset as int,
        offset + size,
    ) + dest.subrange(offset + size, offset + size + more));
    assert forall|i: int| 0 <= i < long.len() implies (#[trigger] long[i]).fits(dest.len()) by {
        if i < ops.len() {
            assert(short[i].fits(dest.len()));
        }
    }
    assert(reconstruct(dest, long) =~= reconstruct(dest, short) + dest.subrange(
        offset + size,
        offset + size + more,
    ));
}

/// A block whose entry has the checksums of a window of the source holds
/// the window's bytes, in every file that the entry is true of, unless
/// checksums collide.
proof fn lemma_match(source: Seq<u8>, dest: Seq<u8>, entry: BlockChecksum, pos: int)
    requires
        describes(entry, dest),
        collision_free(source, dest),
        0 <= pos,
        0 < entry.size,
        pos + entry.size <= source.len(),
        entry.weak == weak_checksum(source.subrange(pos, pos + entry.size)),
        entry.strong == strong_checksum(source.subrange(pos, pos + entry.size)),
    ensures
        dest.subrange(entry.offset as int, entry.offset + entry.size) == source.subrange(
            pos,
            pos + entry.size,
        ),
{
    let n = entry.size as int;
    let j = entry.offset as int;
    assert(source.subrange(pos, pos + n) == dest.subrange(j, j + n));
}

/// The table by weak checksum: for each weak checksum, the numbers of the
/// entries that have it, in the order of the table.
fn build_index(table: &[BlockChecksum]) -> (index: HashMap<u32, Vec<usize>>)
    ensures
        indexed(index@, table@),
{
    let mut index: HashMap<u32, Vec<usize>> = HashMap::new();
    let mut k: usize = 0;
    while k < table.len()
        invariant
            k <= table.len(),
            forall|j: int|
                0 <= j < k ==> index@.contains_key((#[trigger] table[j]).weak)
                    && index@[table[j].weak]@.contains(j as usize),
        decreases table.len() - k,
    {
        let key = table[k].weak;
        let ghost before = index@;
        let mut list = match index.remove(&key) {
            Some(list) => list,
            None => Vec::new(),
        };
        let ghost old_list = list@;
        list.push(k);
        let ghost new_list = list@;
        index.insert(key, list);
        proof {
            assert forall|j: int| 0 <= j < k + 1 implies index@.contains_key(
                (#[trigger] table[j]).weak,
            ) && index@[table[j].weak]@.contains(j as usize) by {
                if table[j].weak == key {
                    if j < k {
                        assert(before.contains_key(key));
                        assert(before[key]@.contains(j as usize));
                        let at = choose|at: int|
                            0 <= at < old_list.len() && old_list[at] == j as usize;
                        assert(new_list[at] == j as usize);
                    } else {
                        assert(new_list[new_list.len() - 1] == k);
                    }
                } else {
                    assert(before.contains_key(table[j].weak));
                }
            }
        }
        k = k + 1;
    }
    index
}

/// Looks for an entry with the length and the two checksums of `window`,
/// among those that the index lists under the window's weak checksum.
fn find_match(
    index: &HashMap<u32, Vec<usize>>,
    table: &[BlockChecksum],
    window: &[u8],
    weak: u32,
) -> (found: Option<BlockChecksum>)
    requires
        indexed(index@, table@),
        weak == weak_checksum(window@),
    ensures
        match found {
            Some(entry) => entry_matches(entry, window@) && exists|k: int|
                0 <= k < table.len() && table[k] == entry,
            None => forall|k: int|
                0 <= k < table.len() ==> !entry_matches(#[trigger] table[k], window@),
        },
{
    let list = match index.get(&weak) {
        Some(list) => list,
        None => {
            return None;
        },
    };
    let mut hash: Option<u64> = None;
    let mut i: usize = 0;
    while i < list.len()
        invariant
            i <= list.len(),
            weak == weak_checksum(window@),
            hash matches Some(h) ==> h == strong_checksum(window@),
            forall|j: int|
                0 <= j < i && (#[trigger] list[j]) < table.len() ==> !entry_matches(
                    table[list[j] as int],
                    window@,
                ),
        decreases list.len() - i,
    {
        let k = list[i];
        if k < table.len() {
            let entry = table[k];
            if entry.size == window.len() && entry.weak == weak {
                let h = match hash {
                    Some(h) => h,
                    None => strong(window),
                };
                hash = Some(h);
                if entry.strong == h {
                    assert(table[k as int] == entry);
                    return Some(entry);
                }
            }
        }
        i = i + 1;
    }
    proof {
        assert forall|k: int| 0 <= k < table.len() implies !entry_matches(
            #[trigger] table[k],
            window@,
        ) by {
            if entry_matches(table[k], window@) {
                assert(index@[table[k].weak]@.contains(k as usize));
                let at = choose|at: int| 0 <= at < list.len() && list[at] == k as usize;
                assert(list[at] < table.len());
            }
        }
    }
    None
}

/// Writes down the copy that was still growing, and then the bytes of the
/// source from `from` to `to` as an insertion, if there are any.
fn commit(
    ops: &mut Vec<DeltaOp>,
    pending: Option<(u64, usize)>,
    source: &[u8],
    from: usize,
    to: usize,
)
    requires
        from <= to <= source.len(),
    ensures
        op_views(final(ops)@) == planned(op_views(old(ops)@), pending) + if from < to {
            seq![OpView::Data(source@.subrange(from as int, to as int))]
        } else {
            Seq::<OpView>::empty()
        },
{
    if let Some((offset, size)) = pending {
        ops.push(DeltaOp::Copy { offset, size });
    }
    assert(op_views(ops@) =~= planned(op_views(old(ops)@), pending));
    if from < to {
        ops.push(DeltaOp::Data(slice_to_vec(slice_subrange(source, from, to))));
    }
    assert(op_views(ops@) =~= planned(op_views(old(ops)@), pending) + if from < to {
        seq![OpView::Data(source@.subrange(from as int, to as int))]
    } else {
        Seq::<OpView>::empty()
    });
}

/// What `commit` writes down keeps what was decided, and rebuilds the
/// source as far as the insertion goes.
proof fn lemma_commit(
    before: Seq<OpView>,
    source: Seq<u8>,
    from: int,
    to: int,
    table: Seq<BlockChecksum>,
)
    requires
        0 <= from <= to <= source.len(),
        to - from <= MAX_DELTA_COPY_SIZE,
        rebuilds(before, source, from, table),
        sized(before),
    ensures
        rebuilds(
            before + if from < to {
                seq![OpView::Data(source.subrange(from, to))]
            } else {
                Seq::<OpView>::empty()
            },
            source,
            to,
            table,
        ),
        sized(
            before + if from < to {
                seq![OpView::Data(source.subrange(from, to))]
            } else {
                Seq::<OpView>::empty()
            },
        ),
{
    reveal(rebuilds);
    if from < to {
        let op = OpView::Data(source.subrange(from, to));
        let after = before + seq![op];
        assert(after =~= before.push(op));
        assert forall|dest: Seq<u8>|
            #![trigger reconstruct(dest, after)]
            #![trigger all_fit(after, dest.len())]
            table_describes(table, dest) && collision_free(source, dest) implies all_fit(
            after,
            dest.len(),
        ) && reconstruct(dest, after) == source.take(to) by {
            assert(reconstruct(dest, before) == source.take(from));
            lemma_push(dest, before, op);
            assert(source.take(from) + source.subrange(from, to) =~= source.take(to));
        }
        assert(rebuilds(after, source, to, table));
        assert(sized(after));
    } else {
        assert(before + Seq::<OpView>::empty() =~= before);
        assert(rebuilds(before, source, to, table));
    }
}

/// What `commit` writes down passes over no block, if the bytes of the
/// insertion stand where none was found.
proof fn lemma_commit_misses_nothing(
    before: Seq<OpView>,
    source: Seq<u8>,
    from: int,
    to: int,
    table: Seq<BlockChecksum>,
    block_size: nat,
)
    requires
        0 <= from <= to <= source.len(),
        misses_nothing(before, source, table, block_size),
        total_len(before) == from,
        forall|p: int| from <= p < to ==> !#[trigger] matched_at(source, table, block_size, p),
    ensures
        misses_nothing(
            before + if from < to {
                seq![OpView::Data(source.subrange(from, to))]
            } else {
                Seq::<OpView>::empty()
            },
            source,
            table,
            block_size,
        ),
        total_len(
            before + if from < to {
                seq![OpView::Data(source.subrange(from, to))]
            } else {
                Seq::<OpView>::empty()
            },
        ) == to,
{
    if from < to {
        let op = OpView::Data(source.subrange(from, to));
        assert(before + seq![op] =~= before.push(op));
        lemma_misses_nothing_push(before, op, source, table, block_size);
    } else {
        assert(before + Seq::<OpView>::empty() =~= before);
    }
}

/// A copy of a block whose entry has the checksums of the window at `pos`
/// rebuilds the source as far as the window goes.
proof fn lemma_copy(
    before: Seq<OpView>,
    source: Seq<u8>,
    pos: int,
    entry: BlockChecksum,
    table: Seq<BlockChecksum>,
)
    requires
        rebuilds(before, source, pos, table),
        sized(before),
        exists|k: int| 0 <= k < table.len() && table[k] == entry,
        0 <= pos,
        0 < entry.size <= MAX_DELTA_COPY_SIZE,
        pos + entry.size <= source.len(),
        entry.weak == weak_checksum(source.subrange(pos, pos + entry.size)),
        entry.strong == strong_checksum(source.subrange(pos, pos + entry.size)),
    ensures
        rebuilds(
            before.push(OpView::Copy { offset: entry.offset, size: entry.size }),
            source,
            pos + entry.size,
            table,
        ),
        sized(before.push(OpView::Copy { offset: entry.offset, size: entry.size })),
{
    reveal(rebuilds);
    let op = OpView::Copy { offset: entry.offset, size: entry.size };
    let after = before.push(op);
    let k = choose|k: int| 0 <= k < table.len() && table[k] == entry;
    assert forall|dest: Seq<u8>|
        #![trigger reconstruct(dest, after)]
        #![trigger all_fit(after, dest.len())]
        table_describes(table, dest) && collision_free(source, dest) implies all_fit(
        after,
        dest.len(),
    ) && reconstruct(dest, after) == source.take(pos + entry.size) by {
        assert(describes(table[k], dest));
        assert(reconstruct(dest, before) == source.take(pos));
        lemma_match(source, dest, entry, pos);
        lemma_push(dest, before, op);
        assert(source.take(pos) + source.subrange(pos, pos + entry.size) =~= source.take(
            pos + entry.size,
        ));
    }
}

/// A copy that goes on where the copy before it ends is joined to it, and
/// the joined copy rebuilds the source as far as the window goes.
proof fn lemma_grow(
    before: Seq<OpView>,
    offset: u64,
    size: usize,
    source: Seq<u8>,
    pos: int,
    entry: BlockChecksum,
    table: Seq<BlockChecksum>,
)
    requires
        rebuilds(before.push(OpView::Copy { offset, size }), source, pos, table),
        sized(before.push(OpView::Copy { offset, size })),
        exists|k: int| 0 <= k < table.len() && table[k] == entry,
        0 <= pos,
        0 < entry.size,
        size + entry.size <= MAX_DELTA_COPY_SIZE,
        offset + size == entry.offset,
        pos + entry.size <= source.len(),
        entry.weak == weak_checksum(source.subrange(pos, pos + entry.size)),
        entry.strong == strong_checksum(source.subrange(pos, pos + entry.size)),
    ensures
        rebuilds(
            before.push(OpView::Copy { offset, size: (size + entry.size) as usize }),
            source,
            pos + entry.size,
            table,
        ),
        sized(before.push(OpView::Copy { offset, size: (size + entry.size) as usize })),
{
    reveal(rebuilds);
    let short = before.push(OpView::Copy { offset, size });
    let long = before.push(OpView::Copy { offset, size: (size + entry.size) as usize });
    let k = choose|k: int| 0 <= k < table.len() && table[k] == entry;
    assert forall|dest: Seq<u8>|
        #![trigger reconstruct(dest, long)]
        #![trigger all_fit(long, dest.len())]
        table_describes(table, dest) && collision_free(source, dest) implies all_fit(
        long,
        dest.len(),
    ) && reconstruct(dest, long) == source.take(pos + entry.size) by {
        assert(describes(table[k], dest));
        assert(reconstruct(dest, short) == source.take(pos));
        lemma_match(source, dest, entry, pos);
        lemma_join(dest, before, offset, size, entry.size);
        assert(source.take(pos) + source.subrange(pos, pos + entry.size) =~= source.take(
            pos + entry.size,
        ));
    }
    assert forall|i: int| 0 <= i < long.len() implies 0 < (#[trigger] long[i]).len()
        <= MAX_DELTA_COPY_SIZE by {
        if i < before.len() {
            assert(short[i] == before[i]);
        }
    }
}

/// Describes `source` as pieces of the destination's file and literal
/// bytes. The destination's file is known by the checksums of its blocks
/// alone: a window of the source whose length and two checksums are those
/// of a block is taken to be that block. Windows are `block_size` bytes
/// long, or as long as what is left of the source.
///
/// Consecutive copies of adjoining blocks are joined and consecutive
/// literal bytes go into one insertion, as long as the operation stays
/// within `MAX_DELTA_COPY_SIZE`.
///
/// The operations rebuild the source from every file that the table is true
/// of, unless checksums collide; each yields at least one byte and no more
/// than `MAX_DELTA_COPY_SIZE`; together they yield as many bytes as the
/// source has; no byte is sent in an insertion where a block was found; and
/// no two operations that follow each other could have been one. Which of
/// several entries with the same length and checksums is copied is left
/// open.
pub fn generate_delta(source: &[u8], dest_checksums: &[BlockChecksum], block_size: usize) -> (delta:
    Delta)
    ensures
        rebuilds(op_views(delta.ops@), source@, source@.len() as int, dest_checksums@),
        sized(op_views(delta.ops@)),
        total_len(op_views(delta.ops@)) == source@.len(),
        misses_nothing(op_views(delta.ops@), source@, dest_checksums@, block_size as nat),
        coalesced(op_views(delta.ops@)),
{
    let index = build_index(dest_checksums);
    let mut ops: Vec<DeltaOp> = Vec::new();
    let mut pending: Option<(u64, usize)> = None;
    let mut lit_start: usize = 0;
    let mut pos: usize = 0;
    let mut rolling = Rolling { a: 0, b: 0 };
    let mut rolled = false;
    proof {
        reveal(rebuilds);
        reveal(misses_nothing);
        reveal(coalesced);
        let none = op_views(ops@);
        assert(none =~= Seq::<OpView>::empty());
        assert forall|dest: Seq<u8>|
            #![trigger reconstruct(dest, none)]
            #![trigger all_fit(none, dest.len())]
            true implies all_fit(none, dest.len()) && reconstruct(dest, none) == source@.take(
            0,
        ) by {
            assert(source@.take(0) =~= Seq::<u8>::empty());
        }
    }
    while pos < source.len()
        invariant
            lit_start <= pos <= source.len(),
            pos - lit_start < MAX_DELTA_COPY_SIZE,
            rebuilds(
                planned(op_views(ops@), pending),
                source@,
                lit_start as int,
                dest_checksums@,
            ),
            sized(planned(op_views(ops@), pending)),
            indexed(index@, dest_checksums@),
            coalesced(planned(op_views(ops@), pending)),
            pending is None && ops.len() > 0 ==> op_views(ops@).last() is Data && op_views(
                ops@,
            ).last().len() == MAX_DELTA_COPY_SIZE,
            total_len(planned(op_views(ops@), pending)) == lit_start,
            misses_nothing(
                planned(op_views(ops@), pending),
                source@,
                dest_checksums@,
                block_size as nat,
            ),
            forall|p: int|
                lit_start <= p < pos ==> !#[trigger] matched_at(
                    source@,
                    dest_checksums@,
                    block_size as nat,
                    p,
                ),
            rolled ==> block_size > 0 && pos + block_size <= source.len() && rolling.holds(
                source@.subrange(pos as int, pos + block_size),
            ),
        decreases source.len() - pos,
    {
        let left = source.len() - pos;
        let width = if left < block_size {
            left
        } else {
            block_size
        };
        let mut found: Option<BlockChecksum> = None;
        let mut current = false;
        if 0 < width && width <= MAX_DELTA_COPY_SIZE {
            let window = slice_subrange(source, pos, pos + width);
            if !rolled {
                rolling = Rolling::new(window);
            }
            current = true;
            found = find_match(&index, dest_checksums, window, rolling.value());
        }
        assert(current ==> rolling.holds(source@.subrange(pos as int, pos + width)));
        match found {
            Some(entry) => {
                let grown = match pending {
                    Some((offset, size)) => lit_start == pos && entry.offset >= offset
                        && entry.offset - offset == size as u64 && size <= MAX_DELTA_COPY_SIZE
                        - width,
                    None => false,
                };
                if grown {
                    let (offset, size) = pending.unwrap();
                    proof {
                        lemma_grow(
                            op_views(ops@),
                            offset,
                            size,
                            source@,
                            pos as int,
                            entry,
                            dest_checksums@,
                        );
                        lemma_misses_nothing_grow(
                            op_views(ops@),
                            offset,
                            size,
                            width,
                            source@,
                            dest_checksums@,
                            block_size as nat,
                        );
                        lemma_coalesced_grow(op_views(ops@), offset, size, width);
                    }
                    pending = Some((offset, size + width));
                } else {
                    let ghost before = planned(op_views(ops@), pending);
                    commit(&mut ops, pending, source, lit_start, pos);
                    proof {
                        lemma_commit(
                            before,
                            source@,
                            lit_start as int,
                            pos as int,
                            dest_checksums@,
                        );
                        lemma_commit_misses_nothing(
                            before,
                            source@,
                            lit_start as int,
                            pos as int,
                            dest_checksums@,
                            block_size as nat,
                        );
                        lemma_commit_coalesced(before, source@, lit_start as int, pos as int);
                        lemma_copy(op_views(ops@), source@, pos as int, entry, dest_checksums@);
                        lemma_misses_nothing_push(
                            op_views(ops@),
                            OpView::Copy { offset: entry.offset, size: entry.size },
                            source@,
                            dest_checksums@,
                            block_size as nat,
                        );
                        lemma_coalesced_push(
                            op_views(ops@),
                            OpView::Copy { offset: entry.offset, size: entry.size },
                        );
                    }
                    pending = Some((entry.offset, width));
                }
                pos = pos + width;
                lit_start = pos;
                rolled = false;
            },
            None => {
                assert(!matched_at(source@, dest_checksums@, block_size as nat, pos as int));
                if current && block_size < left {
                    let ghost rest = source@.subrange(pos + 1, pos + block_size);
                    proof {
                        if current {
                            assert(source@.subrange(pos as int, pos + block_size) =~= seq![
                                source@[pos as int],
                            ] + rest);
                            assert(rest.push(source@[pos + block_size]) =~= source@.subrange(
                                pos + 1,
                                pos + 1 + block_size,
                            ));
                        }
                    }
                    rolling.roll(block_size, source[pos], source[pos + block_size]);
                    rolled = true;
                } else {
                    rolled = false;
                }
                pos = pos + 1;
                if pos - lit_start == MAX_DELTA_COPY_SIZE {
                    let ghost before = planned(op_views(ops@), pending);
                    commit(&mut ops, pending, source, lit_start, pos);
                    proof {
                        lemma_commit(
                            before,
                            source@,
                            lit_start as int,
                            pos as int,
                            dest_checksums@,
                        );
                        lemma_commit_misses_nothing(
                            before,
                            source@,
                            lit_start as int,
                            pos as int,
                            dest_checksums@,
                            block_size as nat,
                        );
                        lemma_commit_coalesced(before, source@, lit_start as int, pos as int);
                    }
                    pending = None;
                    lit_start = pos;
                }
            },
        }
    }
    let ghost before = planned(op_views(ops@), pending);
    commit(&mut ops, pending, source, lit_start, pos);
    proof {
        lemma_commit(before, source@, lit_start as int, pos as int, dest_checksums@);
        lemma_commit_misses_nothing(
            before,
            source@,
            lit_start as int,
            pos as int,
            dest_checksums@,
            block_size as nat,
        );
        lemma_commit_coalesced(before, source@, lit_start as int, pos as int);
    }
    Delta { ops }
}

/// The table of a file's blocks is true of the file.
pub proof fn lemma_own_table_describes(table: Seq<BlockChecksum>, dest: Seq<u8>, block_size: nat)
    requires
        block_size > 0,
        dest.len() <= usize::MAX,
        is_table_of(table, dest, block_size),
    ensures
        table_describes(table, dest),
{
    assert forall|k: int| 0 <= k < table.len() implies describes(#[trigger] table[k], dest) by {
        assert(table[k] == block_entry(dest, block_size, k as nat));
        assert(k * block_size <= (table.len() - 1) * block_size) by (nonlinear_arith)
            requires
                0 <= k <= table.len() - 1,
                block_size > 0,
        ;
        assert((k + 1) * block_size == k * block_size + block_size) by (nonlinear_arith);
        let block = block_bytes(dest, block_size, k as nat);
        assert(block =~= dest.subrange(
            table[k].offset as int,
            table[k].offset + table[k].size,
        ));
    }
}

/// Delta correctness: the operations that the engine yields for `source`
/// against the table of the blocks of `dest` rebuild `source` from `dest`,
/// byte for byte, unless two different pieces share both checksums.
pub proof fn lemma_delta_rebuilds_source(
    source: Seq<u8>,
    dest: Seq<u8>,
    table: Seq<BlockChecksum>,
    block_size: nat,
    ops: Seq<OpView>,
)
    requires
        block_size > 0,
        dest.len() <= usize::MAX,
        is_table_of(table, dest, block_size),
        collision_free(source, dest),
        rebuilds(ops, source, source.len() as int, table),
    ensures
        all_fit(ops, dest.len()),
        reconstruct(dest, ops) == source,
{
    reveal(rebuilds);
    lemma_own_table_describes(table, dest, block_size);
    assert(reconstruct(dest, ops) == source.take(source.len() as int));
    assert(source.take(source.len() as int) =~= source);
}

/// Delta correctness on the wire: the engine's operations, written as
/// bytes and read back by a receiver that holds `dest`, are accepted and
/// rebuild `source`.
pub proof fn lemma_wire_delta_rebuilds_source(
    source: Seq<u8>,
    dest: Seq<u8>,
    table: Seq<BlockChecksum>,
    block_size: nat,
    ops: Seq<OpView>,
)
    requires
        block_size > 0,
        dest.len() <= usize::MAX,
        is_table_of(table, dest, block_size),
        collision_free(source, dest),
        rebuilds(ops, source, source.len() as int, table),
        sized(ops),
    ensures
        scan_ops(ops_bytes(ops), dest.len() as u64) == (ops, None::<DeltaError>),
        reconstruct(dest, scan_ops(ops_bytes(ops), dest.len() as u64).0) == source,
{
    lemma_delta_rebuilds_source(source, dest, table, block_size, ops);
    assert forall|i: int| 0 <= i < ops.len() implies sendable(#[trigger] ops[i], dest.len()) by {
        assert(ops[i].fits(dest.len()));
        assert(0 < ops[i].len() <= MAX_DELTA_COPY_SIZE);
    }
    lemma_ops_round_trip(ops, dest.len() as u64);
}

} // verus!
