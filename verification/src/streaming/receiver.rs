//! The receiver: it decides, message by message, what is to be done to the
//! destination. What it decides is carried out by its caller; the receiver
//! itself touches no file.
//!
//! A file is written to a temporary file beside its final place and moved
//! there only when the sender says that it is complete.

use crate::buffer::{
    as_slice, buf_len, buf_split, buf_with_capacity, bytes_len, contents, freeze, put_slice,
    written,
};
use crate::delta::checksum::block_entry;
use crate::streaming::channel::DELTA_MIN_SIZE;
use crate::streaming::generator::{SourceEntry, SourceEntryView, DIR_MODE, FILE_MODE};
use crate::streaming::protocol::{
    frame_bytes, BlockChecksum, DestFileEnd, DestFileEntry, DestFileEntryView, DestFileFlags,
};
use crate::streaming::channel::SyncStats;
use crate::streaming::paths::{
    confined, target_confined, validate_path, validate_symlink_target, PathError,
};
use crate::streaming::protocol::{
    Data, DataEnd, DataEndView, DataFlags, DataView, DecodeError, Delete, DeleteEnd, DeleteView,
    FileEnd, FileEntry, FileEntryView, MessageType, Mkdir, MkdirView, Symlink, SymlinkView,
};
use bytes::Bytes;
use vstd::hash_map::StringHashMap;
use vstd::prelude::*;
use vstd::string::StringExecFns;
use vstd::utf8::{decode_utf8, encode_utf8};

verus! {

/// How the receiver is to work.
pub struct ReceiverConfig {
    /// The root that everything is written under.
    pub root: String,
    /// The block size of the checksums that it sends.
    pub block_size: u32,
}

/// A file that is being received.
#[derive(Debug, Clone)]
pub struct PendingFile {
    /// Where the file goes in the end.
    pub path: String,
    /// Where it is written meanwhile.
    pub temp_path: String,
    pub mode: u32,
    /// Seconds since the Unix epoch.
    pub mtime: i64,
    /// How many bytes of data were received for it, modulo 2^64.
    pub bytes_written: u64,
}

/// A `PendingFile` as a mathematical value.
pub ghost struct PendingView {
    pub path: Seq<char>,
    pub temp_path: Seq<char>,
    pub mode: u32,
    pub mtime: i64,
    pub bytes_written: u64,
}

impl View for PendingFile {
    type V = PendingView;

    open spec fn view(&self) -> PendingView {
        PendingView {
            path: self.path@,
            temp_path: self.temp_path@,
            mode: self.mode,
            mtime: self.mtime,
            bytes_written: self.bytes_written,
        }
    }
}

/// What the caller is to do to the destination.
#[derive(Debug, Clone)]
pub enum Action {
    /// Nothing.
    Nothing,
    /// Make the directories above `path`, and open `temp_path` for writing,
    /// empty.
    OpenTemp { path: String, temp_path: String },
    /// Write `data` into `temp_path` at `offset`.
    WriteAt { temp_path: String, offset: u64, data: Bytes },
    /// Apply the delta operations of `data` to the file at `original`, and
    /// append what they yield to `temp_path`.
    ApplyDelta { original: String, temp_path: String, data: Bytes },
    /// Flush `temp_path` to disk, move it to `path`, and give it the mode
    /// and the modification time.
    Commit { temp_path: String, path: String, mode: u32, mtime: i64 },
    /// Remove `temp_path`.
    Discard { temp_path: String },
    /// Make the directory `path` and those above it, and give it the mode.
    Mkdir { path: String, mode: u32 },
    /// Remove what is at `path`, and make a symbolic link to `target`
    /// there.
    Symlink { path: String, target: String },
    /// Remove the file at `path`, or the directory with all that is in it.
    Delete { path: String, is_dir: bool },
}

/// An `Action` as a mathematical value.
pub ghost enum ActionView {
    Nothing,
    OpenTemp { path: Seq<char>, temp_path: Seq<char> },
    WriteAt { temp_path: Seq<char>, offset: u64, data: Seq<u8> },
    ApplyDelta { original: Seq<char>, temp_path: Seq<char>, data: Seq<u8> },
    Commit { temp_path: Seq<char>, path: Seq<char>, mode: u32, mtime: i64 },
    Discard { temp_path: Seq<char> },
    Mkdir { path: Seq<char>, mode: u32 },
    Symlink { path: Seq<char>, target: Seq<char> },
    Delete { path: Seq<char>, is_dir: bool },
}

impl View for Action {
    type V = ActionView;

    open spec fn view(&self) -> ActionView {
        match *self {
            Action::Nothing => ActionView::Nothing,
            Action::OpenTemp { path, temp_path } => ActionView::OpenTemp {
                path: path@,
                temp_path: temp_path@,
            },
            Action::WriteAt { temp_path, offset, data } => ActionView::WriteAt {
                temp_path: temp_path@,
                offset,
                data: contents(data),
            },
            Action::ApplyDelta { original, temp_path, data } => ActionView::ApplyDelta {
                original: original@,
                temp_path: temp_path@,
                data: contents(data),
            },
            Action::Commit { temp_path, path, mode, mtime } => ActionView::Commit {
                temp_path: temp_path@,
                path: path@,
                mode,
                mtime,
            },
            Action::Discard { temp_path } => ActionView::Discard { temp_path: temp_path@ },
            Action::Mkdir { path, mode } => ActionView::Mkdir { path: path@, mode },
            Action::Symlink { path, target } => ActionView::Symlink {
                path: path@,
                target: target@,
            },
            Action::Delete { path, is_dir } => ActionView::Delete { path: path@, is_dir },
        }
    }
}

/// Why the receiver gives the session up.
#[derive(Debug, Clone, Copy, PartialEq, Eq, Structural)]
pub enum ReceiverError {
    /// A payload is not a well-formed message.
    Decode(DecodeError),
    /// A path is not confined to the root.
    Path(PathError),
    /// Data for a file that was not announced.
    NoPendingFile,
}

/// What the receiver knows: the files being received, by the path they
/// were announced under, and the counts.
pub ghost struct ReceiverState {
    pub pending: Map<Seq<char>, PendingView>,
    pub stats: SyncStats,
}

/// What a message does: the state after it, and the action to take or the
/// error.
pub ghost struct Outcome {
    pub state: ReceiverState,
    pub result: Result<ActionView, ReceiverError>,
}

/// The text behind the temporary file's name.
pub open spec fn temp_suffix() -> Seq<char> {
    ".sy.tmp"@
}

/// A path from the wire, joined to the root, where it is confined to it.
pub open spec fn full_path(root: Seq<char>, relative: Seq<char>) -> Result<Seq<char>, PathError> {
    match confined(encode_utf8(root), encode_utf8(relative)) {
        Ok(bytes) => Ok(decode_utf8(bytes)),
        Err(e) => Err(e),
    }
}

/// A failure: the state stays as it is.
pub open spec fn refuse(s: ReceiverState, e: ReceiverError) -> Outcome {
    Outcome { state: s, result: Err(e) }
}

/// `FileEntry`: the path is confined, and the file becomes pending with a
/// temporary file beside its final place.
pub open spec fn on_file_entry(s: ReceiverState, root: Seq<char>, m: FileEntryView) -> Outcome {
    match full_path(root, m.path) {
        Err(e) => refuse(s, ReceiverError::Path(e)),
        Ok(path) => Outcome {
            state: ReceiverState {
                pending: s.pending.insert(
                    m.path,
                    PendingView {
                        path,
                        temp_path: path + temp_suffix(),
                        mode: m.mode,
                        mtime: m.mtime,
                        bytes_written: 0,
                    },
                ),
                ..s
            },
            result: Ok(ActionView::OpenTemp { path, temp_path: path + temp_suffix() }),
        },
    }
}

/// `Data`: for a pending file, raw data is written at its offset; delta
/// operations are applied to the file that is there now, whose path is
/// confined first.
pub open spec fn on_data(s: ReceiverState, root: Seq<char>, m: DataView) -> Outcome {
    if !s.pending.contains_key(m.path) {
        refuse(s, ReceiverError::NoPendingFile)
    } else {
        let file = s.pending[m.path];
        let counted = ReceiverState {
            pending: s.pending.insert(
                m.path,
                PendingView {
                    bytes_written: file.bytes_written.wrapping_add(
                        (m.data.len() % 0x1_0000_0000_0000_0000) as u64,
                    ),
                    ..file
                },
            ),
            ..s
        };
        if m.flags.has(DataFlags { bits: DataFlags::DELTA }) {
            match full_path(root, m.path) {
                Err(e) => refuse(s, ReceiverError::Path(e)),
                Ok(original) => Outcome {
                    state: counted,
                    result: Ok(
                        ActionView::ApplyDelta {
                            original,
                            temp_path: file.temp_path,
                            data: m.data,
                        },
                    ),
                },
            }
        } else {
            Outcome {
                state: counted,
                result: Ok(
                    ActionView::WriteAt {
                        temp_path: file.temp_path,
                        offset: m.offset,
                        data: m.data,
                    },
                ),
            }
        }
    }
}

/// `DataEnd`: a pending file is done with. Its path is confined once more;
/// then, if the sender says that all is well, the temporary file is moved to
/// its final place, and otherwise it is removed. A file that is not pending
/// is passed over.
pub open spec fn on_data_end(s: ReceiverState, root: Seq<char>, m: DataEndView) -> Outcome {
    if !s.pending.contains_key(m.path) {
        Outcome { state: s, result: Ok(ActionView::Nothing) }
    } else {
        let file = s.pending[m.path];
        match full_path(root, m.path) {
            Err(e) => refuse(s, ReceiverError::Path(e)),
            Ok(path) => if m.status == DataEnd::STATUS_OK {
                Outcome {
                    state: ReceiverState {
                        pending: s.pending.remove(m.path),
                        stats: SyncStats {
                            files_ok: s.stats.files_ok.wrapping_add(1),
                            bytes_transferred: s.stats.bytes_transferred.wrapping_add(
                                file.bytes_written,
                            ),
                            ..s.stats
                        },
                    },
                    result: Ok(
                        ActionView::Commit {
                            temp_path: file.temp_path,
                            path,
                            mode: file.mode,
                            mtime: file.mtime,
                        },
                    ),
                }
            } else {
                Outcome {
                    state: ReceiverState {
                        pending: s.pending.remove(m.path),
                        stats: SyncStats {
                            files_err: s.stats.files_err.wrapping_add(1),
                            ..s.stats
                        },
                    },
                    result: Ok(ActionView::Discard { temp_path: file.temp_path }),
                }
            },
        }
    }
}

/// `Mkdir`: the path is confined, and the directory is to be made.
pub open spec fn on_mkdir(s: ReceiverState, root: Seq<char>, m: MkdirView) -> Outcome {
    match full_path(root, m.path) {
        Err(e) => refuse(s, ReceiverError::Path(e)),
        Ok(path) => Outcome {
            state: ReceiverState {
                stats: SyncStats { dirs_created: s.stats.dirs_created.wrapping_add(1), ..s.stats },
                ..s
            },
            result: Ok(ActionView::Mkdir { path, mode: m.mode }),
        },
    }
}

/// `Symlink`: the path is confined, and so is the target, seen from the
/// link; then the link is to be made.
pub open spec fn on_symlink(s: ReceiverState, root: Seq<char>, m: SymlinkView) -> Outcome {
    match full_path(root, m.path) {
        Err(e) => refuse(s, ReceiverError::Path(e)),
        Ok(path) => match target_confined(
            encode_utf8(root),
            encode_utf8(path),
            encode_utf8(m.target),
        ) {
            Err(e) => refuse(s, ReceiverError::Path(e)),
            Ok(_) => Outcome {
                state: ReceiverState {
                    stats: SyncStats {
                        symlinks_created: s.stats.symlinks_created.wrapping_add(1),
                        ..s.stats
                    },
                    ..s
                },
                result: Ok(ActionView::Symlink { path, target: m.target }),
            },
        },
    }
}

/// `Delete`: the path is confined, and what is there is to be removed.
pub open spec fn on_delete(s: ReceiverState, root: Seq<char>, m: DeleteView) -> Outcome {
    match full_path(root, m.path) {
        Err(e) => refuse(s, ReceiverError::Path(e)),
        Ok(path) => Outcome {
            state: ReceiverState {
                stats: SyncStats { deleted: s.stats.deleted.wrapping_add(1), ..s.stats },
                ..s
            },
            result: Ok(ActionView::Delete { path, is_dir: m.is_dir }),
        },
    }
}

/// The receiver.
pub struct Receiver {
    config: ReceiverConfig,
    pending_files: StringHashMap<PendingFile>,
    stats: SyncStats,
}

impl View for Receiver {
    type V = ReceiverState;

    closed spec fn view(&self) -> ReceiverState {
        ReceiverState {
            pending: Map::new(
                |k: Seq<char>| self.pending_files@.contains_key(k),
                |k: Seq<char>| self.pending_files@[k]@,
            ),
            stats: self.stats,
        }
    }
}

impl Receiver {
    /// The root that everything is written under.
    pub closed spec fn root(&self) -> Seq<char> {
        self.config.root@
    }

    /// The block size of the checksums that the receiver sends.
    pub closed spec fn block_size(&self) -> u32 {
        self.config.block_size
    }

    /// A receiver that has received nothing yet.
    pub fn new(config: ReceiverConfig) -> (r: Receiver)
        ensures
            r.root() == config.root@,
            r.block_size() == config.block_size,
            r@ == (ReceiverState { pending: Map::empty(), stats: SyncStats::zero() }),
    {
        let r = Receiver { config, pending_files: StringHashMap::new(), stats: SyncStats::new() };
        assert(r@.pending =~= Map::<Seq<char>, PendingView>::empty());
        r
    }

    /// The counts so far.
    pub fn stats(&self) -> (r: &SyncStats)
        ensures
            *r == self@.stats,
    {
        &self.stats
    }

    /// Joins a path from the wire to the root, where it is confined to it.
    fn full(&self, relative: &str) -> (r: Result<String, PathError>)
        ensures
            match r {
                Ok(path) => full_path(self.root(), relative@) == Ok::<_, PathError>(path@),
                Err(e) => full_path(self.root(), relative@) == Err::<Seq<char>, _>(e),
            },
    {
        let r = validate_path(self.config.root.as_str(), relative);
        proof {
            if r is Ok {
                vstd::utf8::encode_utf8_decode_utf8(r->Ok_0@);
            }
        }
        r
    }

    /// Takes note of a file that the sender announces.
    pub fn handle_file_entry(&mut self, entry: FileEntry) -> (r: Result<Action, ReceiverError>)
        ensures
            final(self).root() == old(self).root(),
            final(self).block_size() == old(self).block_size(),
            final(self)@ == on_file_entry(old(self)@, old(self).root(), entry@).state,
            match r {
                Ok(action) => on_file_entry(old(self)@, old(self).root(), entry@).result == Ok::<
                    _,
                    ReceiverError,
                >(action@),
                Err(e) => on_file_entry(old(self)@, old(self).root(), entry@).result == Err::<
                    ActionView,
                    _,
                >(e),
            },
    {
        let path = match self.full(entry.path.as_str()) {
            Ok(path) => path,
            Err(e) => {
                return Err(ReceiverError::Path(e));
            },
        };
        let mut temp_path = path.clone();
        temp_path.append(".sy.tmp");
        self.pending_files.insert(
            entry.path,
            PendingFile {
                path: path.clone(),
                temp_path: temp_path.clone(),
                mode: entry.mode,
                mtime: entry.mtime,
                bytes_written: 0,
            },
        );
        assert(self@.pending =~= on_file_entry(old(self)@, old(self).root(), entry@).state.pending);
        Ok(Action::OpenTemp { path, temp_path })
    }

    /// Decides what is done with a piece of a file.
    pub fn handle_data(&mut self, data: Data) -> (r: Result<Action, ReceiverError>)
        ensures
            final(self).root() == old(self).root(),
            final(self).block_size() == old(self).block_size(),
            final(self)@ == on_data(old(self)@, old(self).root(), data@).state,
            match r {
                Ok(action) => on_data(old(self)@, old(self).root(), data@).result == Ok::<
                    _,
                    ReceiverError,
                >(action@),
                Err(e) => on_data(old(self)@, old(self).root(), data@).result == Err::<
                    ActionView,
                    _,
                >(e),
            },
    {
        let file = match self.pending_files.get(data.path.as_str()) {
            Some(file) => PendingFile {
                path: file.path.clone(),
                temp_path: file.temp_path.clone(),
                mode: file.mode,
                mtime: file.mtime,
                bytes_written: file.bytes_written.wrapping_add(bytes_len(&data.data) as u64),
            },
            None => {
                return Err(ReceiverError::NoPendingFile);
            },
        };
        let temp_path = file.temp_path.clone();
        let action = if data.flags.contains(DataFlags::delta()) {
            let original = match self.full(data.path.as_str()) {
                Ok(original) => original,
                Err(e) => {
                    return Err(ReceiverError::Path(e));
                },
            };
            Action::ApplyDelta { original, temp_path, data: data.data }
        } else {
            Action::WriteAt { temp_path, offset: data.offset, data: data.data }
        };
        self.pending_files.insert(data.path, file);
        assert(self@.pending =~= on_data(old(self)@, old(self).root(), data@).state.pending);
        Ok(action)
    }

    /// Decides what becomes of a file that the sender is done with.
    pub fn handle_data_end(&mut self, end: DataEnd) -> (r: Result<Action, ReceiverError>)
        ensures
            final(self).root() == old(self).root(),
            final(self).block_size() == old(self).block_size(),
            final(self)@ == on_data_end(old(self)@, old(self).root(), end@).state,
            match r {
                Ok(action) => on_data_end(old(self)@, old(self).root(), end@).result == Ok::<
                    _,
                    ReceiverError,
                >(action@),
                Err(e) => on_data_end(old(self)@, old(self).root(), end@).result == Err::<
                    ActionView,
                    _,
                >(e),
            },
    {
        let (temp_path, mode, mtime, bytes_written) = match self.pending_files.get(
            end.path.as_str(),
        ) {
            Some(file) => (file.temp_path.clone(), file.mode, file.mtime, file.bytes_written),
            None => {
                return Ok(Action::Nothing);
            },
        };
        let path = match self.full(end.path.as_str()) {
            Ok(path) => path,
            Err(e) => {
                return Err(ReceiverError::Path(e));
            },
        };
        self.pending_files.remove(end.path.as_str());
        assert(self@.pending =~= old(self)@.pending.remove(end@.path));
        if end.status == DataEnd::STATUS_OK {
            self.stats.files_ok = self.stats.files_ok.wrapping_add(1);
            self.stats.bytes_transferred = self.stats.bytes_transferred.wrapping_add(bytes_written);
            Ok(Action::Commit { temp_path, path, mode, mtime })
        } else {
            self.stats.files_err = self.stats.files_err.wrapping_add(1);
            Ok(Action::Discard { temp_path })
        }
    }

    /// Decides on a directory that is to be made.
    pub fn handle_mkdir(&mut self, mkdir: Mkdir) -> (r: Result<Action, ReceiverError>)
        ensures
            final(self).root() == old(self).root(),
            final(self).block_size() == old(self).block_size(),
            final(self)@ == on_mkdir(old(self)@, old(self).root(), mkdir@).state,
            match r {
                Ok(action) => on_mkdir(old(self)@, old(self).root(), mkdir@).result == Ok::<
                    _,
                    ReceiverError,
                >(action@),
                Err(e) => on_mkdir(old(self)@, old(self).root(), mkdir@).result == Err::<
                    ActionView,
                    _,
                >(e),
            },
    {
        let path = match self.full(mkdir.path.as_str()) {
            Ok(path) => path,
            Err(e) => {
                return Err(ReceiverError::Path(e));
            },
        };
        self.stats.dirs_created = self.stats.dirs_created.wrapping_add(1);
        Ok(Action::Mkdir { path, mode: mkdir.mode })
    }

    /// Decides on a symbolic link that is to be made.
    pub fn handle_symlink(&mut self, symlink: Symlink) -> (r: Result<Action, ReceiverError>)
        ensures
            final(self).root() == old(self).root(),
            final(self).block_size() == old(self).block_size(),
            final(self)@ == on_symlink(old(self)@, old(self).root(), symlink@).state,
            match r {
                Ok(action) => on_symlink(old(self)@, old(self).root(), symlink@).result == Ok::<
                    _,
                    ReceiverError,
                >(action@),
                Err(e) => on_symlink(old(self)@, old(self).root(), symlink@).result == Err::<
                    ActionView,
                    _,
                >(e),
            },
    {
        let path = match self.full(symlink.path.as_str()) {
            Ok(path) => path,
            Err(e) => {
                return Err(ReceiverError::Path(e));
            },
        };
        match validate_symlink_target(
            self.config.root.as_str(),
            path.as_str(),
            symlink.target.as_str(),
        ) {
            Ok(_) => {},
            Err(e) => {
                return Err(ReceiverError::Path(e));
            },
        }
        self.stats.symlinks_created = self.stats.symlinks_created.wrapping_add(1);
        Ok(Action::Symlink { path, target: symlink.target })
    }

    /// Decides on a path that is to be removed.
    pub fn handle_delete(&mut self, delete: Delete) -> (r: Result<Action, ReceiverError>)
        ensures
            final(self).root() == old(self).root(),
            final(self).block_size() == old(self).block_size(),
            final(self)@ == on_delete(old(self)@, old(self).root(), delete@).state,
            match r {
                Ok(action) => on_delete(old(self)@, old(self).root(), delete@).result == Ok::<
                    _,
                    ReceiverError,
                >(action@),
                Err(e) => on_delete(old(self)@, old(self).root(), delete@).result == Err::<
                    ActionView,
                    _,
                >(e),
            },
    {
        let path = match self.full(delete.path.as_str()) {
            Ok(path) => path,
            Err(e) => {
                return Err(ReceiverError::Path(e));
            },
        };
        self.stats.deleted = self.stats.deleted.wrapping_add(1);
        Ok(Action::Delete { path, is_dir: delete.is_dir })
    }
}

/// Nothing to do, and nothing changes.
pub open spec fn pass(s: ReceiverState) -> Outcome {
    Outcome { state: s, result: Ok(ActionView::Nothing) }
}

/// What a frame does: its payload is read as the kind of message that the
/// frame says, and the message is dealt with. `FileEnd` and `DeleteEnd` are
/// read and passed over; the kinds that are no part of a transfer are
/// passed over unread.
pub open spec fn on_message(s: ReceiverState, root: Seq<char>, t: MessageType, payload: Seq<u8>)
    -> Outcome {
    match t {
        MessageType::FileEntry => match FileEntryView::parse(payload) {
            Ok(m) => on_file_entry(s, root, m),
            Err(e) => refuse(s, ReceiverError::Decode(e)),
        },
        MessageType::Data => match DataView::parse(payload) {
            Ok(m) => on_data(s, root, m),
            Err(e) => refuse(s, ReceiverError::Decode(e)),
        },
        MessageType::DataEnd => match DataEndView::parse(payload) {
            Ok(m) => on_data_end(s, root, m),
            Err(e) => refuse(s, ReceiverError::Decode(e)),
        },
        MessageType::Mkdir => match MkdirView::parse(payload) {
            Ok(m) => on_mkdir(s, root, m),
            Err(e) => refuse(s, ReceiverError::Decode(e)),
        },
        MessageType::Symlink => match SymlinkView::parse(payload) {
            Ok(m) => on_symlink(s, root, m),
            Err(e) => refuse(s, ReceiverError::Decode(e)),
        },
        MessageType::Delete => match DeleteView::parse(payload) {
            Ok(m) => on_delete(s, root, m),
            Err(e) => refuse(s, ReceiverError::Decode(e)),
        },
        MessageType::FileEnd => match FileEnd::parse(payload) {
            Ok(_) => pass(s),
            Err(e) => refuse(s, ReceiverError::Decode(e)),
        },
        MessageType::DeleteEnd => match DeleteEnd::parse(payload) {
            Ok(_) => pass(s),
            Err(e) => refuse(s, ReceiverError::Decode(e)),
        },
        _ => pass(s),
    }
}

/// A file is moved to its final place only by a `DataEnd` that says all is
/// well, for a file that is pending; and that file is pending no longer.
pub proof fn lemma_commit_only_on_data_end(
    s: ReceiverState,
    root: Seq<char>,
    t: MessageType,
    payload: Seq<u8>,
)
    requires
        on_message(s, root, t, payload).result matches Ok(ActionView::Commit { .. }),
    ensures
        t == MessageType::DataEnd,
        DataEndView::parse(payload) matches Ok(m) && m.status == DataEnd::STATUS_OK
            && s.pending.contains_key(m.path) && !on_message(
            s,
            root,
            t,
            payload,
        ).state.pending.contains_key(m.path),
{
}

/// A message that is refused changes nothing: neither what is pending nor
/// the counts.
pub proof fn lemma_refusal_changes_nothing(
    s: ReceiverState,
    root: Seq<char>,
    t: MessageType,
    payload: Seq<u8>,
)
    requires
        on_message(s, root, t, payload).result is Err,
    ensures
        on_message(s, root, t, payload).state == s,
{
}

/// The temporary file of a pending file is opened when the file is
/// announced, and leaves the pending files only with a `Commit` or a
/// `Discard` of that very file.
pub proof fn lemma_temp_leaves_by_commit_or_discard(
    s: ReceiverState,
    root: Seq<char>,
    t: MessageType,
    payload: Seq<u8>,
    path: Seq<char>,
)
    requires
        s.pending.contains_key(path),
        !on_message(s, root, t, payload).state.pending.contains_key(path),
    ensures
        on_message(s, root, t, payload).result matches Ok(action) && (action
            == ActionView::Discard { temp_path: s.pending[path].temp_path } || (
        action matches ActionView::Commit { temp_path, .. } && temp_path
            == s.pending[path].temp_path)),
{
}

impl Receiver {
    /// Decides what a frame does to the destination: the action that the
    /// caller is to take, or the error that ends the session.
    pub fn handle_message(&mut self, msg_type: MessageType, payload: Bytes) -> (r: Result<
        Action,
        ReceiverError,
    >)
        ensures
            final(self).root() == old(self).root(),
            final(self).block_size() == old(self).block_size(),
            final(self)@ == on_message(
                old(self)@,
                old(self).root(),
                msg_type,
                contents(payload),
            ).state,
            match r {
                Ok(action) => on_message(
                    old(self)@,
                    old(self).root(),
                    msg_type,
                    contents(payload),
                ).result == Ok::<_, ReceiverError>(action@),
                Err(e) => on_message(
                    old(self)@,
                    old(self).root(),
                    msg_type,
                    contents(payload),
                ).result == Err::<ActionView, _>(e),
            },
    {
        match msg_type {
            MessageType::FileEntry => match FileEntry::decode(payload) {
                Ok(m) => self.handle_file_entry(m),
                Err(e) => Err(ReceiverError::Decode(e)),
            },
            MessageType::Data => match Data::decode(payload) {
                Ok(m) => self.handle_data(m),
                Err(e) => Err(ReceiverError::Decode(e)),
            },
            MessageType::DataEnd => match DataEnd::decode(payload) {
                Ok(m) => self.handle_data_end(m),
                Err(e) => Err(ReceiverError::Decode(e)),
            },
            MessageType::Mkdir => match Mkdir::decode(payload) {
                Ok(m) => self.handle_mkdir(m),
                Err(e) => Err(ReceiverError::Decode(e)),
            },
            MessageType::Symlink => match Symlink::decode(payload) {
                Ok(m) => self.handle_symlink(m),
                Err(e) => Err(ReceiverError::Decode(e)),
            },
            MessageType::Delete => match Delete::decode(payload) {
                Ok(m) => self.handle_delete(m),
                Err(e) => Err(ReceiverError::Decode(e)),
            },
            MessageType::FileEnd => match FileEnd::decode(payload) {
                Ok(_) => Ok(Action::Nothing),
                Err(e) => Err(ReceiverError::Decode(e)),
            },
            MessageType::DeleteEnd => match DeleteEnd::decode(payload) {
                Ok(_) => Ok(Action::Nothing),
                Err(e) => Err(ReceiverError::Decode(e)),
            },
            _ => Ok(Action::Nothing),
        }
    }
}

/// How many bytes of encoded entries are gathered before they are handed
/// on: 64 KiB.
pub const DEST_ENTRY_BATCH_SIZE: usize = 0x1_0000;

/// A block of the delta engine's table as it goes on the wire.
pub open spec fn wire_checksum(block: crate::delta::BlockChecksum) -> BlockChecksum {
    BlockChecksum { offset: block.offset, weak: block.weak, strong: block.strong }
}

/// Whether `table` holds the checksums of the blocks of `data`, as they go
/// on the wire: one entry for each block that starts within the file.
pub open spec fn is_checksum_table(table: Seq<BlockChecksum>, data: Seq<u8>, block_size: nat)
    -> bool {
    &&& table.len() * block_size >= data.len()
    &&& table.len() > 0 ==> (table.len() - 1) * block_size < data.len()
    &&& forall|k: int|
        0 <= k < table.len() ==> #[trigger] table[k] == wire_checksum(
            block_entry(data, block_size, k as nat),
        )
}

/// Whether an entry of the destination is sent with checksums: a file of
/// at least `DELTA_MIN_SIZE` bytes.
pub open spec fn wants_checksums(entry: SourceEntryView) -> bool {
    !entry.is_dir && entry.size >= DELTA_MIN_SIZE
}

/// What the destination says of one of its entries.
pub open spec fn dest_entry_of(
    entry: SourceEntryView,
    block_size: u32,
    checksums: Seq<BlockChecksum>,
) -> DestFileEntryView {
    DestFileEntryView {
        path: entry.relative_path,
        size: entry.size,
        mtime: entry.mtime,
        mode: if entry.is_dir {
            DIR_MODE
        } else {
            FILE_MODE
        },
        flags: DestFileFlags {
            bits: if entry.is_dir {
                DestFileFlags::DIR
            } else {
                0
            } | if wants_checksums(entry) {
                DestFileFlags::HAS_CHECKSUMS
            } else {
                0
            },
        },
        block_size: if wants_checksums(entry) {
            block_size
        } else {
            0
        },
        checksums: if wants_checksums(entry) {
            checksums
        } else {
            Seq::empty()
        },
    }
}

/// The buffers that encoded entries are handed on in: frames are gathered
/// until there are at least `DEST_ENTRY_BATCH_SIZE` bytes of them; what is
/// left at the end is handed on too. `current` is what is gathered so far.
pub open spec fn batches(current: Seq<u8>, frames: Seq<Seq<u8>>) -> Seq<Seq<u8>>
    decreases frames.len(),
{
    if frames.len() == 0 {
        if current.len() > 0 {
            seq![current]
        } else {
            Seq::empty()
        }
    } else if current.len() + frames[0].len() >= DEST_ENTRY_BATCH_SIZE {
        seq![current + frames[0]] + batches(Seq::empty(), frames.skip(1))
    } else {
        batches(current + frames[0], frames.skip(1))
    }
}

/// The frames of a list of entries.
pub open spec fn entry_frames(entries: Seq<DestFileEntry>) -> Seq<Seq<u8>> {
    entries.map_values(
        |e: DestFileEntry| frame_bytes(MessageType::DestFileEntry, e@.payload()),
    )
}

/// The sizes of a list of entries, added up.
pub open spec fn sizes(entries: Seq<DestFileEntry>) -> nat
    decreases entries.len(),
{
    if entries.len() == 0 {
        0
    } else {
        sizes(entries.drop_last()) + entries.last().size as nat
    }
}

/// What the destination sends in the initial exchange.
pub struct ScanOutput {
    /// The buffers to write, in order: the entries in batches, then
    /// `DestFileEnd` by itself.
    pub buffers: Vec<Bytes>,
    /// How many entries there are.
    pub total_files: u64,
    /// Their sizes added up, modulo 2^64.
    pub total_bytes: u64,
}

impl Receiver {
    /// Whether an entry of the destination is sent with checksums.
    pub fn needs_checksums(entry: &SourceEntry) -> (r: bool)
        ensures
            r == wants_checksums(entry@),
    {
        !entry.is_dir && entry.size >= DELTA_MIN_SIZE
    }

    /// The checksums of the blocks of a file, as they go on the wire.
    pub fn compute_checksums(&self, content: &[u8]) -> (r: Vec<BlockChecksum>)
        ensures
            self.block_size() > 0 ==> is_checksum_table(r@, content@, self.block_size() as nat),
            self.block_size() == 0 ==> r.len() == 0,
    {
        let table = crate::delta::checksum::compute_checksums(
            content,
            self.config.block_size as usize,
        );
        let mut r: Vec<BlockChecksum> = Vec::with_capacity(table.len());
        let mut i: usize = 0;
        while i < table.len()
            invariant
                i <= table.len(),
                r.len() == i,
                forall|k: int| 0 <= k < i ==> #[trigger] r[k] == wire_checksum(table[k]),
            decreases table.len() - i,
        {
            let c = table[i];
            r.push(BlockChecksum { offset: c.offset, weak: c.weak, strong: c.strong });
            i = i + 1;
        }
        r
    }

    /// What the destination says of one of its entries. `checksums` are
    /// those of the file's content; they are sent only for a file of at
    /// least `DELTA_MIN_SIZE` bytes.
    pub fn dest_entry(&self, entry: &SourceEntry, checksums: Vec<BlockChecksum>) -> (r:
        DestFileEntry)
        ensures
            r@ == dest_entry_of(entry@, self.block_size(), checksums@),
    {
        let mut flags = DestFileFlags::empty();
        if entry.is_dir {
            flags.insert(DestFileFlags::dir());
        }
        let with_checksums = Self::needs_checksums(entry);
        if with_checksums {
            flags.insert(DestFileFlags::has_checksums());
        }
        assert(0u8 | 0u8 == 0u8 && 0u8 | 1u8 == 1u8 && 1u8 | 0u8 == 1u8 && 0u8 | 2u8 == 2u8 && 1u8
            | 2u8 == 3u8) by (bit_vector);
        DestFileEntry {
            path: entry.relative_path.clone(),
            size: entry.size,
            mtime: entry.mtime,
            mode: if entry.is_dir {
                DIR_MODE
            } else {
                FILE_MODE
            },
            flags,
            block_size: if with_checksums {
                self.config.block_size
            } else {
                0
            },
            checksums: if with_checksums {
                checksums
            } else {
                Vec::new()
            },
        }
    }

    /// The initial exchange, as the destination sends it: every entry as a
    /// frame, gathered into buffers of at least `DEST_ENTRY_BATCH_SIZE`
    /// bytes, and `DestFileEnd` with the number of entries and their sizes.
    pub fn scan_dest(&self, entries: &Vec<DestFileEntry>) -> (out: ScanOutput)
        ensures
            out.total_files == entries.len(),
            out.total_bytes == sizes(entries@) % 0x1_0000_0000_0000_0000,
            out.buffers@.map_values(|b: Bytes| contents(b)) == batches(
                Seq::empty(),
                entry_frames(entries@),
            ).push(
                frame_bytes(
                    MessageType::DestFileEnd,
                    (DestFileEnd {
                        total_files: out.total_files,
                        total_bytes: out.total_bytes,
                    }).payload(),
                ),
            ),
    {
        let mut buffers: Vec<Bytes> = Vec::new();
        let mut batch = buf_with_capacity(DEST_ENTRY_BATCH_SIZE);
        let mut total_bytes: u64 = 0;
        let mut i: usize = 0;
        let ghost frames = entry_frames(entries@);
        proof {
            assert(frames.skip(0) =~= frames);
            assert(entries@.take(0) =~= Seq::<DestFileEntry>::empty());
            assert(buffers@.map_values(|b: Bytes| contents(b)) + batches(written(batch), frames)
                =~= batches(Seq::empty(), frames));
        }
        while i < entries.len()
            invariant
                i <= entries.len(),
                frames == entry_frames(entries@),
                total_bytes == sizes(entries@.take(i as int)) % 0x1_0000_0000_0000_0000,
                batches(Seq::empty(), frames) == buffers@.map_values(|b: Bytes| contents(b))
                    + batches(written(batch), frames.skip(i as int)),
            decreases entries.len() - i,
        {
            let ghost done = buffers@.map_values(|b: Bytes| contents(b));
            let ghost current = written(batch);
            let ghost rest = frames.skip(i as int);
            let encoded = entries[i].encode();
            proof {
                assert(rest[0] == contents(encoded));
                assert(rest.skip(1) =~= frames.skip(i + 1));
                assert(entries@.take(i + 1).drop_last() =~= entries@.take(i as int));
            }
            put_slice(&mut batch, as_slice(&encoded));
            if buf_len(&batch) >= DEST_ENTRY_BATCH_SIZE {
                let full = freeze(buf_split(&mut batch));
                buffers.push(full);
                proof {
                    let now = buffers@.map_values(|b: Bytes| contents(b));
                    let more = batches(Seq::empty(), rest.skip(1));
                    assert(now =~= done.push(current + rest[0]));
                    assert(done + (seq![current + rest[0]] + more) =~= now + more);
                }
            }
            total_bytes = total_bytes.wrapping_add(entries[i].size);
            i = i + 1;
        }
        let ghost done = buffers@.map_values(|b: Bytes| contents(b));
        let ghost current = written(batch);
        proof {
            assert(frames.skip(i as int) =~= Seq::<Seq<u8>>::empty());
            assert(entries@.take(i as int) =~= entries@);
        }
        if buf_len(&batch) > 0 {
            buffers.push(freeze(batch));
            assert(buffers@.map_values(|b: Bytes| contents(b)) =~= done + seq![current]);
        } else {
            assert(done + Seq::<Seq<u8>>::empty() =~= done);
        }
        let total_files = entries.len() as u64;
        let end = DestFileEnd { total_files, total_bytes };
        let ghost gathered = buffers@.map_values(|b: Bytes| contents(b));
        buffers.push(end.encode());
        assert(buffers@.map_values(|b: Bytes| contents(b)) =~= gathered.push(
            frame_bytes(MessageType::DestFileEnd, end.payload()),
        ));
        ScanOutput { buffers, total_files, total_bytes }
    }
}

/// Buffers written one after the other.
pub open spec fn joined(buffers: Seq<Seq<u8>>) -> Seq<u8>
    decreases buffers.len(),
{
    if buffers.len() == 0 {
        Seq::empty()
    } else {
        buffers[0] + joined(buffers.skip(1))
    }
}

/// Batching changes no byte: the buffers, written one after the other, are
/// the frames, written one after the other.
pub proof fn lemma_batches_keep_the_stream(current: Seq<u8>, frames: Seq<Seq<u8>>)
    ensures
        joined(batches(current, frames)) == current + joined(frames),
    decreases frames.len(),
{
    let e = Seq::<Seq<u8>>::empty();
    if frames.len() == 0 {
        if current.len() > 0 {
            let one = seq![current];
            assert(one.skip(1) =~= e);
            assert(joined(one.skip(1)) =~= Seq::<u8>::empty());
            assert(one[0] == current);
            assert(joined(one) =~= current);
        }
        assert(current + joined(frames) =~= current);
        assert(joined(batches(current, frames)) =~= current);
    } else {
        let rest = frames.skip(1);
        let filled = current + frames[0];
        if filled.len() >= DEST_ENTRY_BATCH_SIZE {
            lemma_batches_keep_the_stream(Seq::empty(), rest);
            let out = seq![filled] + batches(Seq::empty(), rest);
            assert(out.skip(1) =~= batches(Seq::empty(), rest));
            assert(joined(out) =~= filled + (Seq::<u8>::empty() + joined(rest)));
            assert(joined(out) =~= current + joined(frames));
        } else {
            lemma_batches_keep_the_stream(filled, rest);
            assert(filled + joined(rest) =~= current + joined(frames));
        }
    }
}

/// The checksums of a file's blocks stand one block size apart, as the
/// protocol asks of a table.
pub proof fn lemma_checksum_table_is_contiguous(
    entry: DestFileEntryView,
    data: Seq<u8>,
)
    requires
        entry.block_size > 0,
        data.len() <= usize::MAX,
        is_checksum_table(entry.checksums, data, entry.block_size as nat),
    ensures
        entry.contiguous(),
{
    let bs = entry.block_size as nat;
    let n = entry.checksums.len() as int;
    assert forall|i: int| 0 <= i < n - 1 implies (#[trigger] entry.checksums[i + 1]).offset
        == entry.checksums[i].offset + entry.block_size by {
        assert(entry.checksums[i] == wire_checksum(block_entry(data, bs, i as nat)));
        assert(entry.checksums[i + 1] == wire_checksum(block_entry(data, bs, (i + 1) as nat)));
        assert((i + 1) * bs == i * bs + bs) by (nonlinear_arith);
        assert((i + 1) * bs <= (n - 1) * bs) by (nonlinear_arith)
            requires
                0 <= i + 1 <= n - 1,
                bs > 0,
        ;
    }
}

} // verus!
