//! What flows between the stages of the pipeline, and what the generator
//! knows of the destination.

use crate::streaming::protocol::BlockChecksum;
use bytes::Bytes;
use vstd::hash_map::StringHashMap;
use vstd::prelude::*;

verus! {

/// How many work items may wait between generator and sender.
pub const GENERATOR_CHANNEL_SIZE: usize = 1024;

/// How many data chunks may wait between sender and wire.
pub const SENDER_CHANNEL_SIZE: usize = 64;

/// The size of a chunk of file content: 256 KiB.
pub const DATA_CHUNK_SIZE: usize = 0x4_0000;

/// The most bytes of delta operations in one message: 16 MiB.
pub const DELTA_CHUNK_SIZE: usize = 0x100_0000;

/// Files shorter than this are always sent whole: 64 KiB.
pub const DELTA_MIN_SIZE: u64 = 0x1_0000;

/// The checksums that the destination sent of one of its files.
#[derive(Debug)]
pub struct DeltaInfo {
    /// The size of each block but the last.
    pub block_size: u32,
    /// The size of the destination's file; it gives the last block's size.
    pub file_size: u64,
    /// One entry for each block.
    pub checksums: Vec<BlockChecksum>,
}

/// A `DeltaInfo` as a mathematical value.
pub ghost struct DeltaInfoView {
    pub block_size: u32,
    pub file_size: u64,
    pub checksums: Seq<BlockChecksum>,
}

impl View for DeltaInfo {
    type V = DeltaInfoView;

    open spec fn view(&self) -> DeltaInfoView {
        DeltaInfoView {
            block_size: self.block_size,
            file_size: self.file_size,
            checksums: self.checksums@,
        }
    }
}

impl Clone for DeltaInfo {
    fn clone(&self) -> (r: DeltaInfo)
        ensures
            r@ == self@,
    {
        let checksums = self.checksums.clone();
        assert(checksums@ =~= self.checksums@);
        DeltaInfo { block_size: self.block_size, file_size: self.file_size, checksums }
    }
}

/// The view of an optional `DeltaInfo`.
pub open spec fn delta_view(info: Option<DeltaInfo>) -> Option<DeltaInfoView> {
    match info {
        Some(info) => Some(info@),
        None => None,
    }
}

/// A file that the sender is to transfer.
#[derive(Debug, Clone)]
pub struct FileJob {
    /// The path below the sync root.
    pub path: String,
    pub size: u64,
    /// Seconds since the Unix epoch.
    pub mtime: i64,
    pub mode: u32,
    pub inode: u64,
    /// Whether the file is to be sent as a delta against the destination's.
    pub need_delta: bool,
    /// The destination's checksums, where `need_delta` holds.
    pub checksums: Option<DeltaInfo>,
}

/// A `FileJob` as a mathematical value.
pub ghost struct FileJobView {
    pub path: Seq<char>,
    pub size: u64,
    pub mtime: i64,
    pub mode: u32,
    pub inode: u64,
    pub need_delta: bool,
    pub checksums: Option<DeltaInfoView>,
}

impl View for FileJob {
    type V = FileJobView;

    open spec fn view(&self) -> FileJobView {
        FileJobView {
            path: self.path@,
            size: self.size,
            mtime: self.mtime,
            mode: self.mode,
            inode: self.inode,
            need_delta: self.need_delta,
            checksums: delta_view(self.checksums),
        }
    }
}

/// A chunk of file content on its way to the wire.
#[derive(Debug)]
pub struct DataChunk {
    /// The path below the sync root.
    pub path: String,
    pub offset: u64,
    pub data: Bytes,
    /// Whether this is the file's last chunk.
    pub is_final: bool,
    /// Whether the data is delta operations.
    pub is_delta: bool,
    pub is_compressed: bool,
}

/// A work item: what the generator hands to the sender.
#[derive(Debug)]
pub enum GeneratorMessage {
    /// A file to transfer.
    File(FileJob),
    /// A directory to make.
    Mkdir { path: String, mode: u32 },
    /// A symbolic link to make.
    Symlink { path: String, target: String },
    /// A path to remove from the destination.
    Delete { path: String, is_dir: bool },
    /// No more files follow.
    FileEnd { total_files: u64, total_bytes: u64 },
    /// No more deletions follow.
    DeleteEnd { count: u64 },
}

/// A work item as a mathematical value.
pub ghost enum WorkItem {
    File(FileJobView),
    Mkdir { path: Seq<char>, mode: u32 },
    Symlink { path: Seq<char>, target: Seq<char> },
    Delete { path: Seq<char>, is_dir: bool },
    FileEnd { total_files: u64, total_bytes: u64 },
    DeleteEnd { count: u64 },
}

impl View for GeneratorMessage {
    type V = WorkItem;

    open spec fn view(&self) -> WorkItem {
        match *self {
            GeneratorMessage::File(job) => WorkItem::File(job@),
            GeneratorMessage::Mkdir { path, mode } => WorkItem::Mkdir { path: path@, mode },
            GeneratorMessage::Symlink { path, target } => WorkItem::Symlink {
                path: path@,
                target: target@,
            },
            GeneratorMessage::Delete { path, is_dir } => WorkItem::Delete { path: path@, is_dir },
            GeneratorMessage::FileEnd { total_files, total_bytes } => WorkItem::FileEnd {
                total_files,
                total_bytes,
            },
            GeneratorMessage::DeleteEnd { count } => WorkItem::DeleteEnd { count },
        }
    }
}

/// Which way a sync goes.
#[derive(Debug, Clone, Copy, PartialEq, Eq, Structural)]
pub enum SyncDirection {
    /// From here to the peer.
    Push,
    /// From the peer to here.
    Pull,
}

/// What the destination has at one path.
#[derive(Debug)]
pub struct DestFileState {
    pub size: u64,
    pub mtime: i64,
    pub mode: u32,
    pub is_dir: bool,
    /// The checksums of the file, where the destination sent them.
    pub delta_info: Option<DeltaInfo>,
}

/// A `DestFileState` as a mathematical value.
pub ghost struct DestFileStateView {
    pub size: u64,
    pub mtime: i64,
    pub mode: u32,
    pub is_dir: bool,
    pub delta_info: Option<DeltaInfoView>,
}

impl View for DestFileState {
    type V = DestFileStateView;

    open spec fn view(&self) -> DestFileStateView {
        DestFileStateView {
            size: self.size,
            mtime: self.mtime,
            mode: self.mode,
            is_dir: self.is_dir,
            delta_info: delta_view(self.delta_info),
        }
    }
}

impl Clone for DestFileState {
    fn clone(&self) -> (r: DestFileState)
        ensures
            r@ == self@,
    {
        let delta_info = match &self.delta_info {
            Some(info) => Some(info.clone()),
            None => None,
        };
        DestFileState {
            size: self.size,
            mtime: self.mtime,
            mode: self.mode,
            is_dir: self.is_dir,
            delta_info,
        }
    }
}

/// Whether `key` is one of the paths of `order`.
pub open spec fn listed(order: Seq<String>, key: Seq<char>) -> bool {
    exists|i: int| 0 <= i < order.len() && (#[trigger] order[i])@ == key
}

/// What the destination has, by path. Entries are taken out as the source's
/// entries are matched against them; what is left at the end is what only
/// the destination has.
pub struct DestIndex {
    /// The state of each path.
    files: StringHashMap<DestFileState>,
    /// Every path ever put in, in the order of arrival.
    order: Vec<String>,
}

impl View for DestIndex {
    type V = Map<Seq<char>, DestFileStateView>;

    closed spec fn view(&self) -> Map<Seq<char>, DestFileStateView> {
        Map::new(|k: Seq<char>| self.files@.contains_key(k), |k: Seq<char>| self.files@[k]@)
    }
}

impl DestIndex {
    /// Every path that has a state is in the list of paths.
    #[verifier::type_invariant]
    spec fn well_formed(&self) -> bool {
        forall|k: Seq<char>| #[trigger] self.files@.contains_key(k) ==> listed(self.order@, k)
    }

    /// An index without entries.
    pub fn new() -> (r: DestIndex)
        ensures
            r@ == Map::<Seq<char>, DestFileStateView>::empty(),
    {
        let r = DestIndex { files: StringHashMap::new(), order: Vec::new() };
        assert(r@ =~= Map::<Seq<char>, DestFileStateView>::empty());
        r
    }

    /// Puts in, or replaces, the state of `path`.
    pub fn insert(&mut self, path: String, state: DestFileState)
        ensures
            final(self)@ == old(self)@.insert(path@, state@),
    {
        proof {
            use_type_invariant(&*self);
        }
        let mut files = StringHashMap::new();
        std::mem::swap(&mut files, &mut self.files);
        let mut order = Vec::new();
        std::mem::swap(&mut order, &mut self.order);
        let ghost old_order = order@;
        if !files.contains_key(path.as_str()) {
            order.push(path.clone());
        }
        files.insert(path, state);
        proof {
            assert forall|k: Seq<char>| #[trigger] files@.contains_key(k) implies listed(
                order@,
                k,
            ) by {
                if k == path@ {
                    if old(self).files@.contains_key(k) {
                        let i = choose|i: int|
                            0 <= i < old_order.len() && (#[trigger] old_order[i])@ == k;
                        assert(order@[i]@ == k);
                    } else {
                        assert(order@[order.len() - 1]@ == k);
                    }
                } else {
                    let i = choose|i: int|
                        0 <= i < old_order.len() && (#[trigger] old_order[i])@ == k;
                    assert(order@[i]@ == k);
                }
            }
        }
        self.order = order;
        self.files = files;
        assert(self@ =~= old(self)@.insert(path@, state@));
    }

    /// The state of `path`, if it has one.
    pub fn get(&self, path: &str) -> (r: Option<&DestFileState>)
        ensures
            match r {
                Some(state) => self@.contains_key(path@) && state@ == self@[path@],
                None => !self@.contains_key(path@),
            },
    {
        self.files.get(path)
    }

    /// Takes out the state of `path`, if it has one, and hands it over.
    pub fn remove(&mut self, path: &str) -> (r: Option<DestFileState>)
        ensures
            final(self)@ == old(self)@.remove(path@),
            match r {
                Some(state) => old(self)@.contains_key(path@) && state@ == old(self)@[path@],
                None => !old(self)@.contains_key(path@),
            },
    {
        proof {
            use_type_invariant(&*self);
        }
        let r = match self.files.get(path) {
            Some(state) => Some(state.clone()),
            None => None,
        };
        let mut files = StringHashMap::new();
        std::mem::swap(&mut files, &mut self.files);
        files.remove(path);
        self.files = files;
        assert(self@ =~= old(self)@.remove(path@));
        r
    }

    /// Whether `path` has a state.
    pub fn contains(&self, path: &str) -> (r: bool)
        ensures
            r == self@.contains_key(path@),
    {
        self.files.contains_key(path)
    }

    /// Every path that still has a state, with that state: each path once,
    /// in no particular order.
    pub fn remaining_paths(&self) -> (r: Vec<(&String, &DestFileState)>)
        ensures
            forall|i: int|
                0 <= i < r.len() ==> self@.contains_key((#[trigger] r[i]).0@) && r[i].1@
                    == self@[r[i].0@],
            forall|i: int, j: int| 0 <= i < j < r.len() ==> r[i].0@ != r[j].0@,
            forall|k: Seq<char>|
                self@.contains_key(k) ==> exists|i: int|
                    0 <= i < r.len() && (#[trigger] r[i]).0@ == k,
    {
        proof {
            use_type_invariant(self);
        }
        let mut r: Vec<(&String, &DestFileState)> = Vec::new();
        let mut seen: StringHashMap<bool> = StringHashMap::new();
        let mut n: usize = 0;
        while n < self.order.len()
            invariant
                n <= self.order.len(),
                forall|i: int|
                    0 <= i < r.len() ==> self.files@.contains_key((#[trigger] r[i]).0@) && *r[i].1
                        == self.files@[r[i].0@],
                forall|i: int| 0 <= i < r.len() ==> seen@.contains_key((#[trigger] r[i]).0@),
                forall|k: Seq<char>|
                    seen@.contains_key(k) ==> exists|i: int|
                        0 <= i < r.len() && (#[trigger] r[i]).0@ == k,
                forall|i: int, j: int| 0 <= i < j < r.len() ==> r[i].0@ != r[j].0@,
                forall|m: int|
                    0 <= m < n && self.files@.contains_key((#[trigger] self.order[m])@)
                        ==> seen@.contains_key(self.order[m]@),
            decreases self.order.len() - n,
        {
            let key = &self.order[n];
            if !seen.contains_key(key.as_str()) {
                if let Some(state) = self.files.get(key.as_str()) {
                    let ghost before = r@;
                    let ghost seen_before = seen@;
                    r.push((key, state));
                    seen.insert(key.clone(), true);
                    proof {
                        assert forall|k: Seq<char>| seen@.contains_key(k) implies exists|i: int|
                            0 <= i < r.len() && (#[trigger] r[i]).0@ == k by {
                            if k == key@ {
                                assert(r[r.len() - 1].0@ == k);
                            } else {
                                assert(seen_before.contains_key(k));
                                let i = choose|i: int|
                                    0 <= i < before.len() && (#[trigger] before[i]).0@ == k;
                                assert(r[i].0@ == k);
                            }
                        }
                    }
                }
            }
            n = n + 1;
        }
        proof {
            assert forall|k: Seq<char>| self@.contains_key(k) implies exists|i: int|
                0 <= i < r.len() && (#[trigger] r[i]).0@ == k by {
                assert(self.files@.contains_key(k));
                let m = choose|m: int|
                    0 <= m < self.order.len() && (#[trigger] self.order[m])@ == k;
                assert(seen@.contains_key(self.order[m]@));
            }
        }
        r
    }

    /// How many paths have a state.
    pub fn len(&self) -> (r: usize)
        ensures
            r == self@.len(),
    {
        assert(self@.dom() =~= self.files@.dom());
        self.files.len()
    }

    /// Whether no path has a state.
    pub fn is_empty(&self) -> (r: bool)
        ensures
            r == (self@.len() == 0),
    {
        assert(self@.dom() =~= self.files@.dom());
        self.files.len() == 0
    }
}

impl Default for DestIndex {
    fn default() -> (r: DestIndex)
        ensures
            r@ == Map::<Seq<char>, DestFileStateView>::empty(),
    {
        DestIndex::new()
    }
}

/// The counts of a sync.
#[derive(Debug, Clone, Copy, PartialEq, Eq, Structural)]
pub struct SyncStats {
    pub files_ok: u64,
    pub files_err: u64,
    pub bytes_transferred: u64,
    pub delta_files: u64,
    pub delta_bytes_saved: u64,
    pub dirs_created: u64,
    pub symlinks_created: u64,
    pub deleted: u64,
    pub hardlinks_created: u64,
}

impl SyncStats {
    /// The counts before anything was done: all zero.
    pub open spec fn zero() -> SyncStats {
        SyncStats {
            files_ok: 0,
            files_err: 0,
            bytes_transferred: 0,
            delta_files: 0,
            delta_bytes_saved: 0,
            dirs_created: 0,
            symlinks_created: 0,
            deleted: 0,
            hardlinks_created: 0,
        }
    }

    /// The counts before anything was done: all zero.
    pub fn new() -> (r: SyncStats)
        ensures
            r == Self::zero(),
    {
        SyncStats {
            files_ok: 0,
            files_err: 0,
            bytes_transferred: 0,
            delta_files: 0,
            delta_bytes_saved: 0,
            dirs_created: 0,
            symlinks_created: 0,
            deleted: 0,
            hardlinks_created: 0,
        }
    }
}

impl Default for SyncStats {
    fn default() -> (r: SyncStats)
        ensures
            r == Self::zero(),
    {
        SyncStats::new()
    }
}

} // verus!
