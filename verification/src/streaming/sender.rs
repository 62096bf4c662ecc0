//! The sender: it turns work items and file content into frames.

use crate::buffer::{bytes_from_vec, contents};
use crate::delta::apply::{
    encode_op, encoded_len, lemma_ops_round_trip, op_bytes, ops_bytes, scan_ops, sendable,
};
use crate::delta::checksum::{block_bytes, block_entry, is_table_of};
use crate::delta::generator::{
    coalesced, collision_free, generate_delta, lemma_delta_rebuilds_source, misses_nothing,
    rebuilds, sized, total_len,
};
use crate::delta::reconstruct;
use crate::streaming::receiver::is_checksum_table;
use crate::delta::{op_views, DeltaOp, OpView};
use crate::streaming::channel::{
    DeltaInfo, DeltaInfoView, FileJob, FileJobView, GeneratorMessage, WorkItem, DATA_CHUNK_SIZE,
    DELTA_CHUNK_SIZE,
};
use crate::streaming::protocol::{
    frame_bytes, Data, DataEnd, DataEndView, DataFlags, DataView, Delete, DeleteEnd, DeleteView,
    FileEnd, FileEntry, FileEntryView, FileFlags, MessageType, Mkdir, MkdirView, Symlink,
    SymlinkView,
};
use bytes::Bytes;
use vstd::prelude::*;
use vstd::slice::{slice_subrange, slice_to_vec};

verus! {

/// How the sender is to work.
pub struct SenderConfig {
    /// The root of the source.
    pub root: String,
    /// Whether data is marked as compressed.
    pub compress: bool,
}

/// The sender.
pub struct Sender {
    config: SenderConfig,
}

/// The table that the delta engine works on, made from the checksums that
/// the destination sent: each block has the block size but the last, which
/// has what is left of the file, and no more than the block size.
pub open spec fn engine_table(info: DeltaInfoView) -> Seq<crate::delta::BlockChecksum> {
    Seq::new(
        info.checksums.len(),
        |i: int|
            crate::delta::BlockChecksum {
                index: i as u64,
                offset: info.checksums[i].offset,
                size: if i == info.checksums.len() - 1 {
                    let left = if info.file_size >= info.checksums[i].offset {
                        info.file_size - info.checksums[i].offset
                    } else {
                        0
                    };
                    if left < info.block_size {
                        left as usize
                    } else {
                        info.block_size as usize
                    }
                } else {
                    info.block_size as usize
                },
                weak: info.checksums[i].weak,
                strong: info.checksums[i].strong,
            },
    )
}

/// The payloads that a run of operations is sent in: operations are put
/// together as long as the payload stays within `DELTA_CHUNK_SIZE`; an
/// operation that would go beyond it starts the next payload. `current` is
/// the payload being filled.
pub open spec fn pack(current: Seq<u8>, ops: Seq<OpView>) -> Seq<Seq<u8>>
    decreases ops.len(),
{
    if ops.len() == 0 {
        if current.len() > 0 {
            seq![current]
        } else {
            Seq::empty()
        }
    } else if current.len() > 0 && current.len() + op_bytes(ops[0]).len() > DELTA_CHUNK_SIZE {
        seq![current] + pack(op_bytes(ops[0]), ops.skip(1))
    } else {
        pack(current + op_bytes(ops[0]), ops.skip(1))
    }
}

/// The flags of the data that this sender sends.
pub open spec fn data_flags(delta: bool, compress: bool) -> DataFlags {
    DataFlags {
        bits: if delta {
            DataFlags::DELTA
        } else {
            0
        } | if compress {
            DataFlags::COMPRESSED
        } else {
            0
        },
    }
}

/// The views of a list of payloads.
pub open spec fn chunk_views(chunks: Seq<Vec<u8>>) -> Seq<Seq<u8>> {
    chunks.map_values(|c: Vec<u8>| c@)
}

/// The bytes of a list of frames.
pub open spec fn frame_views(frames: Seq<Bytes>) -> Seq<Seq<u8>> {
    frames.map_values(|f: Bytes| contents(f))
}

/// Makes the engine's table from the checksums that the destination sent.
pub fn convert_checksums(info: &DeltaInfo) -> (table: Vec<crate::delta::BlockChecksum>)
    ensures
        table@ == engine_table(info@),
{
    let block_size = info.block_size as usize;
    let count = info.checksums.len();
    let mut table: Vec<crate::delta::BlockChecksum> = Vec::with_capacity(count);
    let mut i: usize = 0;
    while i < count
        invariant
            i <= count,
            count == info.checksums.len(),
            block_size == info.block_size,
            table.len() == i,
            forall|k: int| 0 <= k < i ==> #[trigger] table[k] == engine_table(info@)[k],
        decreases count - i,
    {
        let c = info.checksums[i];
        let size = if i == count - 1 {
            let left = info.file_size.saturating_sub(c.offset);
            if left < info.block_size as u64 {
                left as usize
            } else {
                block_size
            }
        } else {
            block_size
        };
        table.push(
            crate::delta::BlockChecksum {
                index: i as u64,
                offset: c.offset,
                size,
                weak: c.weak,
                strong: c.strong,
            },
        );
        i = i + 1;
    }
    assert(table@ =~= engine_table(info@));
    table
}

/// Writes operations into payloads of at most `DELTA_CHUNK_SIZE` bytes; a
/// single operation longer than that gets a payload of its own.
pub fn chunk_ops(ops: &Vec<DeltaOp>) -> (chunks: Vec<Vec<u8>>)
    ensures
        chunk_views(chunks@) == pack(Seq::empty(), op_views(ops@)),
{
    let mut chunks: Vec<Vec<u8>> = Vec::new();
    let mut current: Vec<u8> = Vec::new();
    let mut i: usize = 0;
    let ghost all = op_views(ops@);
    assert(all.skip(0) =~= all);
    assert(chunk_views(chunks@) + pack(current@, all) =~= pack(current@, all));
    while i < ops.len()
        invariant
            i <= ops.len(),
            all == op_views(ops@),
            pack(Seq::empty(), all) == chunk_views(chunks@) + pack(current@, all.skip(i as int)),
        decreases ops.len() - i,
    {
        let ghost rest = all.skip(i as int);
        let ghost done = chunk_views(chunks@);
        let ghost filling = current@;
        proof {
            assert(rest[0] == ops[i as int]@);
            assert(rest.skip(1) =~= all.skip(i + 1));
        }
        let op = &ops[i];
        if current.len() > 0 && current.len() as u128 + encoded_len(op) > DELTA_CHUNK_SIZE as u128 {
            let mut full: Vec<u8> = Vec::new();
            std::mem::swap(&mut full, &mut current);
            chunks.push(full);
            proof {
                let next = pack(op_bytes(rest[0]), rest.skip(1));
                assert(chunk_views(chunks@) =~= done.push(filling));
                assert(done + (seq![filling] + next) =~= chunk_views(chunks@) + next);
                assert(Seq::<u8>::empty() + op_bytes(rest[0]) =~= op_bytes(rest[0]));
            }
        }
        encode_op(op, &mut current);
        i = i + 1;
    }
    proof {
        assert(all.skip(i as int) =~= Seq::<OpView>::empty());
    }
    let ghost done = chunk_views(chunks@);
    if current.len() > 0 {
        let ghost filling = current@;
        chunks.push(current);
        assert(chunk_views(chunks@) =~= done + seq![filling]);
    } else {
        assert(done + Seq::<Seq<u8>>::empty() =~= done);
    }
    chunks
}

/// The frame that announces a file: its `FileEntry`, without flags and
/// without targets.
pub open spec fn entry_frame(job: FileJobView) -> Seq<u8> {
    frame_bytes(
        MessageType::FileEntry,
        (FileEntryView {
            path: job.path,
            size: job.size,
            mtime: job.mtime,
            mode: job.mode,
            inode: job.inode,
            flags: FileFlags { bits: 0 },
            symlink_target: None,
            link_target: None,
        }).payload(),
    )
}

/// A frame of data for `path`.
pub open spec fn data_frame(path: Seq<char>, offset: u64, flags: DataFlags, data: Seq<u8>) -> Seq<
    u8,
> {
    frame_bytes(MessageType::Data, (DataView { path, offset, flags, data }).payload())
}

/// The frame that closes a file.
pub open spec fn end_frame(path: Seq<char>, status: u8) -> Seq<u8> {
    frame_bytes(MessageType::DataEnd, (DataEndView { path, status }).payload())
}

/// How many chunks of `DATA_CHUNK_SIZE` bytes a file of `len` bytes has.
pub open spec fn chunk_count(len: nat) -> nat {
    ((len + DATA_CHUNK_SIZE - 1) / DATA_CHUNK_SIZE as int) as nat
}

/// The frames of a file sent whole: one for each chunk of
/// `DATA_CHUNK_SIZE` bytes, with the offset of the chunk in the file.
pub open spec fn full_frames(path: Seq<char>, compress: bool, content: Seq<u8>) -> Seq<Seq<u8>> {
    Seq::new(
        chunk_count(content.len()),
        |k: int|
            data_frame(
                path,
                (k * DATA_CHUNK_SIZE) as u64,
                data_flags(false, compress),
                content.subrange(
                    k * DATA_CHUNK_SIZE,
                    if (k + 1) * DATA_CHUNK_SIZE <= content.len() {
                        (k + 1) * DATA_CHUNK_SIZE
                    } else {
                        content.len() as int
                    },
                ),
            ),
    )
}

/// The frames of a file sent as a delta: one for each payload, all with
/// offset zero, since the receiver applies the operations in order.
pub open spec fn delta_frames(path: Seq<char>, compress: bool, payloads: Seq<Seq<u8>>) -> Seq<
    Seq<u8>,
> {
    payloads.map_values(|p: Seq<u8>| data_frame(path, 0, data_flags(true, compress), p))
}

/// The frame of a work item that needs no file content; a file has none.
pub open spec fn item_frame(item: WorkItem) -> Option<Seq<u8>> {
    match item {
        WorkItem::File(_) => None,
        WorkItem::Mkdir { path, mode } => Some(
            frame_bytes(MessageType::Mkdir, (MkdirView { path, mode }).payload()),
        ),
        WorkItem::Symlink { path, target } => Some(
            frame_bytes(MessageType::Symlink, (SymlinkView { path, target }).payload()),
        ),
        WorkItem::Delete { path, is_dir } => Some(
            frame_bytes(MessageType::Delete, (DeleteView { path, is_dir }).payload()),
        ),
        WorkItem::FileEnd { total_files, total_bytes } => Some(
            frame_bytes(MessageType::FileEnd, (FileEnd { total_files, total_bytes }).payload()),
        ),
        WorkItem::DeleteEnd { count } => Some(
            frame_bytes(MessageType::DeleteEnd, (DeleteEnd { count }).payload()),
        ),
    }
}

impl Sender {
    /// Whether data is marked as compressed.
    pub closed spec fn compress(&self) -> bool {
        self.config.compress
    }

    /// A sender.
    pub fn new(config: SenderConfig) -> (r: Sender)
        ensures
            r.compress() == config.compress,
    {
        Sender { config }
    }

    /// The flags of the data that this sender sends.
    fn flags(&self, delta: bool) -> (r: DataFlags)
        ensures
            r == data_flags(delta, self.compress()),
    {
        let mut flags = if delta {
            DataFlags::delta()
        } else {
            DataFlags::empty()
        };
        if self.config.compress {
            flags.insert(DataFlags::compressed());
        }
        assert(1u8 | 0u8 == 1u8 && 0u8 | 1u8 == 1u8 && 2u8 | 0u8 == 2u8 && 0u8 | 0u8 == 0u8)
            by (bit_vector);
        flags
    }

    /// The frame of one chunk of a file that is sent whole: the chunk is to
    /// be written at `offset`.
    pub fn full_chunk(&self, path: &str, offset: u64, chunk: &[u8]) -> (frame: Bytes)
        ensures
            contents(frame) == data_frame(
                path@,
                offset,
                data_flags(false, self.compress()),
                chunk@,
            ),
    {
        let data = Data {
            path: path.to_owned(),
            offset,
            flags: self.flags(false),
            data: bytes_from_vec(slice_to_vec(chunk)),
        };
        data.encode()
    }

    /// The frames of a file that is sent whole.
    pub fn send_full(&self, path: &str, content: &[u8]) -> (frames: Vec<Bytes>)
        ensures
            frame_views(frames@) == full_frames(path@, self.compress(), content@),
    {
        let mut frames: Vec<Bytes> = Vec::new();
        let mut offset: usize = 0;
        while offset < content.len()
            invariant
                offset <= content.len(),
                offset < content.len() ==> offset == frames.len() * DATA_CHUNK_SIZE,
                offset == content.len() ==> frames.len() == chunk_count(content.len() as nat),
                frames.len() <= chunk_count(content.len() as nat),
                forall|k: int|
                    0 <= k < frames.len() ==> contents(#[trigger] frames[k]) == full_frames(
                        path@,
                        self.compress(),
                        content@,
                    )[k],
            decreases content.len() - offset,
        {
            let left = content.len() - offset;
            let n = if left < DATA_CHUNK_SIZE {
                left
            } else {
                DATA_CHUNK_SIZE
            };
            let chunk = slice_subrange(content, offset, offset + n);
            let frame = self.full_chunk(path, offset as u64, chunk);
            frames.push(frame);
            offset = offset + n;
        }
        assert(frame_views(frames@) =~= full_frames(path@, self.compress(), content@));
        frames
    }

    /// The frames of a delta whose operations are already in payloads.
    pub fn delta_data(&self, path: &str, payloads: Vec<Vec<u8>>) -> (frames: Vec<Bytes>)
        ensures
            frame_views(frames@) == delta_frames(path@, self.compress(), chunk_views(payloads@)),
    {
        let mut payloads = payloads;
        let mut frames: Vec<Bytes> = Vec::new();
        let ghost all = chunk_views(payloads@);
        let flags = self.flags(true);
        assert(all.skip(0) =~= all);
        while payloads.len() > 0
            invariant
                flags == data_flags(true, self.compress()),
                frames.len() + payloads.len() == all.len(),
                chunk_views(payloads@) == all.skip(frames.len() as int),
                forall|k: int|
                    0 <= k < frames.len() ==> contents(#[trigger] frames[k]) == data_frame(
                        path@,
                        0,
                        flags,
                        all[k],
                    ),
            decreases payloads.len(),
        {
            let ghost before = chunk_views(payloads@);
            let payload = payloads.remove(0);
            proof {
                assert(before[0] == payload@);
                assert(chunk_views(payloads@) =~= before.skip(1));
                assert(before.skip(1) =~= all.skip(frames.len() + 1));
            }
            let data = Data {
                path: path.to_owned(),
                offset: 0,
                flags,
                data: bytes_from_vec(payload),
            };
            frames.push(data.encode());
        }
        assert(frame_views(frames@) =~= delta_frames(path@, self.compress(), all));
        frames
    }
}

/// Whether `frames` carry a delta of `source` against the checksums of
/// `info`: the payloads of some operations that rebuild `source` from every
/// file that the checksums are true of, that yield as many bytes as
/// `source` has, that pass over no block, and that are joined as far as
/// they can be.
pub open spec fn is_delta_of(
    frames: Seq<Seq<u8>>,
    path: Seq<char>,
    compress: bool,
    source: Seq<u8>,
    info: DeltaInfoView,
) -> bool {
    exists|ops: Seq<OpView>|
        {
            &&& rebuilds(ops, source, source.len() as int, engine_table(info))
            &&& sized(ops)
            &&& total_len(ops) == source.len()
            &&& misses_nothing(ops, source, engine_table(info), info.block_size as nat)
            &&& coalesced(ops)
            &&& #[trigger] delta_frames(path, compress, pack(Seq::empty(), ops)) == frames
        }
}

/// Whether `frames` are those of the file of `job` with the content
/// `content`: its `FileEntry`, then its data, whole or as a delta, then a
/// `DataEnd` that says all is well.
pub open spec fn is_file_transfer(
    frames: Seq<Seq<u8>>,
    compress: bool,
    job: FileJobView,
    content: Seq<u8>,
) -> bool {
    let body = frames.subrange(1, frames.len() - 1);
    &&& frames.len() >= 2
    &&& frames[0] == entry_frame(job)
    &&& frames.last() == end_frame(job.path, DataEnd::STATUS_OK)
    &&& match job.checksums {
        Some(info) if job.need_delta => is_delta_of(body, job.path, compress, content, info),
        _ => body == full_frames(job.path, compress, content),
    }
}

impl Sender {
    /// The frames of a file that is sent as a delta against the checksums
    /// that the destination sent.
    pub fn send_delta(&self, path: &str, source: &[u8], info: &DeltaInfo) -> (frames: Vec<Bytes>)
        ensures
            is_delta_of(frame_views(frames@), path@, self.compress(), source@, info@),
    {
        let table = convert_checksums(info);
        let delta = generate_delta(source, table.as_slice(), info.block_size as usize);
        let payloads = chunk_ops(&delta.ops);
        let frames = self.delta_data(path, payloads);
        assert(delta_frames(path@, self.compress(), pack(Seq::empty(), op_views(delta.ops@)))
            == frame_views(frames@));
        frames
    }

    /// The frame that announces a file.
    pub fn file_entry(&self, job: &FileJob) -> (frame: Bytes)
        ensures
            contents(frame) == entry_frame(job@),
    {
        let entry = FileEntry {
            path: job.path.clone(),
            size: job.size,
            mtime: job.mtime,
            mode: job.mode,
            inode: job.inode,
            flags: FileFlags::empty(),
            symlink_target: None,
            link_target: None,
        };
        entry.encode()
    }

    /// The frames of one file: `FileEntry`, the data, `DataEnd`.
    pub fn process_file(&self, job: &FileJob, content: &[u8]) -> (frames: Vec<Bytes>)
        ensures
            is_file_transfer(frame_views(frames@), self.compress(), job@, content@),
    {
        let path = job.path.as_str();
        let mut frames: Vec<Bytes> = Vec::new();
        frames.push(self.file_entry(job));
        let mut body = match &job.checksums {
            Some(info) if job.need_delta => self.send_delta(path, content, info),
            _ => self.send_full(path, content),
        };
        let ghost body_views = frame_views(body@);
        frames.append(&mut body);
        let end = DataEnd { path: path.to_owned(), status: DataEnd::STATUS_OK };
        frames.push(end.encode());
        proof {
            let all = frame_views(frames@);
            assert(all.subrange(1, all.len() - 1) =~= body_views);
        }
        frames
    }

    /// The frames of a file that cannot be read: its `FileEntry`, and a
    /// `DataEnd` that gives it up. The receiver drops what it has of the
    /// file, counts the failure, and goes on.
    pub fn abandon_file(&self, job: &FileJob) -> (frames: Vec<Bytes>)
        ensures
            frame_views(frames@) == seq![
                entry_frame(job@),
                end_frame(job@.path, DataEnd::STATUS_ERROR),
            ],
    {
        let mut frames: Vec<Bytes> = Vec::new();
        frames.push(self.file_entry(job));
        let end = DataEnd { path: job.path.clone(), status: DataEnd::STATUS_ERROR };
        frames.push(end.encode());
        assert(frame_views(frames@) =~= seq![
            entry_frame(job@),
            end_frame(job@.path, DataEnd::STATUS_ERROR),
        ]);
        frames
    }

    /// The frames of one work item. A file's frames are those of
    /// `process_file`, for which `content` is what the file holds; every
    /// other work item is one frame, and `content` is not looked at.
    pub fn run(&self, message: &GeneratorMessage, content: &[u8]) -> (frames: Vec<Bytes>)
        ensures
            match message@ {
                WorkItem::File(job) => is_file_transfer(
                    frame_views(frames@),
                    self.compress(),
                    job,
                    content@,
                ),
                item => frame_views(frames@) == seq![item_frame(item)->0],
            },
    {
        let frame = match message {
            GeneratorMessage::File(job) => {
                return self.process_file(job, content);
            },
            GeneratorMessage::Mkdir { path, mode } => {
                let m = Mkdir { path: path.clone(), mode: *mode };
                m.encode()
            },
            GeneratorMessage::Symlink { path, target } => {
                let m = Symlink { path: path.clone(), target: target.clone() };
                m.encode()
            },
            GeneratorMessage::Delete { path, is_dir } => {
                let m = Delete { path: path.clone(), is_dir: *is_dir };
                m.encode()
            },
            GeneratorMessage::FileEnd { total_files, total_bytes } => {
                let m = FileEnd { total_files: *total_files, total_bytes: *total_bytes };
                m.encode()
            },
            GeneratorMessage::DeleteEnd { count } => {
                let m = DeleteEnd { count: *count };
                m.encode()
            },
        };
        let mut frames: Vec<Bytes> = Vec::new();
        frames.push(frame);
        assert(frame_views(frames@) =~= seq![contents(frame)]);
        frames
    }
}

/// The operations that a receiver reads from payloads that it gets one
/// after the other, for a file of `file_size` bytes; `None` where it
/// refuses one of them.
pub open spec fn unpacked(payloads: Seq<Seq<u8>>, file_size: u64) -> Option<Seq<OpView>>
    decreases payloads.len(),
{
    if payloads.len() == 0 {
        Some(Seq::empty())
    } else {
        match (scan_ops(payloads[0], file_size).1, unpacked(payloads.skip(1), file_size)) {
            (None, Some(rest)) => Some(scan_ops(payloads[0], file_size).0 + rest),
            _ => None,
        }
    }
}

/// Operations take at least one byte on the wire each.
proof fn lemma_ops_bytes_empty(ops: Seq<OpView>)
    requires
        ops_bytes(ops).len() == 0,
    ensures
        ops.len() == 0,
{
    if ops.len() > 0 {
        crate::wire::lemma_widths();
        assert(op_bytes(ops.last()).len() > 0);
    }
}

/// Packing loses nothing: a receiver that reads the payloads one after
/// the other reads the operations that were packed, in their order.
/// `before` are the operations of the payload being filled.
pub proof fn lemma_pack_unpack(before: Seq<OpView>, ops: Seq<OpView>, file_size: u64)
    requires
        forall|i: int| 0 <= i < before.len() ==> sendable(#[trigger] before[i], file_size as nat),
        forall|i: int| 0 <= i < ops.len() ==> sendable(#[trigger] ops[i], file_size as nat),
    ensures
        unpacked(pack(ops_bytes(before), ops), file_size) == Some(before + ops),
    decreases ops.len(),
{
    let current = ops_bytes(before);
    let e = Seq::<Seq<u8>>::empty();
    if ops.len() == 0 {
        assert(before + ops =~= before);
        if current.len() > 0 {
            lemma_ops_round_trip(before, file_size);
            let packed = seq![current];
            assert(pack(current, ops) == packed);
            assert(packed.skip(1) =~= e);
            assert(unpacked(packed.skip(1), file_size) == Some(Seq::<OpView>::empty()));
            assert(before + Seq::<OpView>::empty() =~= before);
            assert(unpacked(packed, file_size) == Some(before));
        } else {
            lemma_ops_bytes_empty(before);
            assert(pack(current, ops) =~= e);
            assert(before + ops =~= Seq::<OpView>::empty());
        }
    } else {
        let first = ops[0];
        let rest = ops.skip(1);
        let b = op_bytes(first);
        assert forall|i: int| 0 <= i < rest.len() implies sendable(
            #[trigger] rest[i],
            file_size as nat,
        ) by {
            assert(rest[i] == ops[i + 1]);
        }
        if current.len() > 0 && current.len() + b.len() > DELTA_CHUNK_SIZE {
            let alone = seq![first];
            assert(alone.drop_last() =~= Seq::<OpView>::empty());
            assert(alone.last() == first);
            assert(ops_bytes(alone.drop_last()) =~= Seq::<u8>::empty());
            assert(ops_bytes(alone) =~= b);
            lemma_pack_unpack(alone, rest, file_size);
            lemma_ops_round_trip(before, file_size);
            let packed = seq![current] + pack(b, rest);
            assert(pack(current, ops) == packed);
            assert(packed[0] == current);
            assert(packed.skip(1) =~= pack(b, rest));
            assert(alone + rest =~= ops);
            assert(unpacked(packed, file_size) == Some(before + (alone + rest)));
        } else {
            let more = before.push(first);
            assert(more.drop_last() =~= before);
            assert(more.last() == first);
            assert(ops_bytes(more) == current + b);
            assert forall|i: int| 0 <= i < more.len() implies sendable(
                #[trigger] more[i],
                file_size as nat,
            ) by {
                if i < before.len() {
                    assert(more[i] == before[i]);
                }
            }
            lemma_pack_unpack(more, rest, file_size);
            assert(pack(current, ops) == pack(current + b, rest));
            assert(more + rest =~= before + ops);
        }
    }
}

/// The table that the sender makes from the checksums that a receiver
/// computed of its file is the table of that file's blocks: the sizes that
/// were not sent are restored.
pub proof fn lemma_engine_table_is_restored(
    dest: Seq<u8>,
    block_size: u32,
    checksums: Seq<crate::streaming::protocol::BlockChecksum>,
)
    requires
        block_size > 0,
        dest.len() <= usize::MAX,
        is_checksum_table(checksums, dest, block_size as nat),
    ensures
        is_table_of(
            engine_table(
                DeltaInfoView { block_size, file_size: dest.len() as u64, checksums },
            ),
            dest,
            block_size as nat,
        ),
{
    let info = DeltaInfoView { block_size, file_size: dest.len() as u64, checksums };
    let table = engine_table(info);
    let n = checksums.len() as int;
    let bs = block_size as nat;
    assert forall|k: int| 0 <= k < table.len() implies #[trigger] table[k] == block_entry(
        dest,
        bs,
        k as nat,
    ) by {
        assert(checksums[k] == crate::streaming::receiver::wire_checksum(
            block_entry(dest, bs, k as nat),
        ));
        assert(k * bs <= (n - 1) * bs) by (nonlinear_arith)
            requires
                0 <= k <= n - 1,
                bs > 0,
        ;
        assert((k + 1) * bs == k * bs + bs) by (nonlinear_arith);
        if k < n - 1 {
            assert((k + 1) * bs <= (n - 1) * bs) by (nonlinear_arith)
                requires
                    0 <= k + 1 <= n - 1,
                    bs > 0,
            ;
        }
        let block = block_bytes(dest, bs, k as nat);
        assert(block.len() <= bs);
    }
}

/// A delta transfer restores the source's file: when the destination sent
/// the checksums of its file, and the sender sent a delta against them, the
/// receiver reads from the payloads operations that rebuild the source's
/// file from its own, unless two different pieces share both checksums.
pub proof fn lemma_delta_transfer_restores_source(
    source: Seq<u8>,
    dest: Seq<u8>,
    block_size: u32,
    checksums: Seq<crate::streaming::protocol::BlockChecksum>,
    path: Seq<char>,
    compress: bool,
    frames: Seq<Seq<u8>>,
)
    requires
        block_size > 0,
        dest.len() <= usize::MAX,
        is_checksum_table(checksums, dest, block_size as nat),
        collision_free(source, dest),
        is_delta_of(
            frames,
            path,
            compress,
            source,
            DeltaInfoView { block_size, file_size: dest.len() as u64, checksums },
        ),
    ensures
        exists|ops: Seq<OpView>|
            {
                &&& #[trigger] delta_frames(path, compress, pack(Seq::empty(), ops)) == frames
                &&& unpacked(pack(Seq::empty(), ops), dest.len() as u64) == Some(ops)
                &&& reconstruct(dest, ops) == source
            },
{
    let info = DeltaInfoView { block_size, file_size: dest.len() as u64, checksums };
    let ops = choose|ops: Seq<OpView>|
        {
            &&& rebuilds(ops, source, source.len() as int, engine_table(info))
            &&& sized(ops)
            &&& total_len(ops) == source.len()
            &&& misses_nothing(ops, source, engine_table(info), info.block_size as nat)
            &&& coalesced(ops)
            &&& #[trigger] delta_frames(path, compress, pack(Seq::empty(), ops)) == frames
        };
    lemma_engine_table_is_restored(dest, block_size, checksums);
    lemma_delta_rebuilds_source(source, dest, engine_table(info), block_size as nat, ops);
    assert forall|i: int| 0 <= i < ops.len() implies sendable(#[trigger] ops[i], dest.len()) by {
        assert(ops[i].fits(dest.len()));
        assert(0 < ops[i].len() <= crate::delta::MAX_DELTA_COPY_SIZE);
    }
    let none = Seq::<OpView>::empty();
    assert(ops_bytes(none) =~= Seq::<u8>::empty());
    lemma_pack_unpack(none, ops, dest.len() as u64);
    assert(none + ops =~= ops);
}

} // verus!
