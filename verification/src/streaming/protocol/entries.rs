//! The messages that describe entries: what the source sends of each file
//! (`FileEntry`, `FileEnd`) and what the destination says it has
//! (`DestFileEntry`, `DestFileEnd`).

use crate::buffer::{
    contents, freeze, get_i64, get_u32, get_u64, get_u8, put_i64, put_u32, put_u64, put_u8,
    remaining, written,
};
use crate::streaming::flags::{DestFileFlags, FileFlags};
use crate::streaming::protocol::codec::{
    begin_frame, lemma_optional_text, lemma_path_prefix, optional_str, optional_text,
    optional_view, path_prefix, put_text, take_optional_text, take_path, too_short, truncated,
};
use crate::streaming::protocol::{frame_bytes, DecodeError, Field, MessageType};
use crate::wire::{
    be32, be64, be8, be_i64, fits_u16, i64_at, str_field, u32_at, u64_at,
};
use bytes::{Bytes, BytesMut};
use vstd::prelude::*;

verus! {

/// Closes the list of files: how many there were, and their bytes.
#[derive(Debug, Clone, Copy, PartialEq, Eq, Structural)]
pub struct FileEnd {
    pub total_files: u64,
    pub total_bytes: u64,
}

impl FileEnd {
    /// The payload: `total_files: u64 | total_bytes: u64`.
    pub open spec fn payload(self) -> Seq<u8> {
        be64(self.total_files) + be64(self.total_bytes)
    }

    /// The message that a payload holds, or what is wrong with it. Bytes
    /// behind the last number are ignored.
    pub open spec fn parse(b: Seq<u8>) -> Result<FileEnd, DecodeError> {
        if b.len() < 16 {
            Err(DecodeError::too_short(MessageType::FileEnd))
        } else {
            Ok(
                FileEnd {
                    total_files: u64_at(b, 0),
                    total_bytes: u64_at(b, 8),
                },
            )
        }
    }

    /// A payload is read back as the message it was written from.
    pub proof fn lemma_round_trip(self)
        ensures
            Self::parse(self.payload()) == Ok::<_, DecodeError>(self),
    {
        broadcast use crate::wire::group_heads;

        let b = self.payload();
        assert(b =~= be64(self.total_files) + (be64(self.total_bytes) + (Seq::<u8>::empty())));
        assert(u64_at(b.skip(8), 0) == self.total_bytes);
    }

    /// The message as a frame.
    pub fn encode(&self) -> (frame: Bytes)
        ensures
            contents(frame) == frame_bytes(MessageType::FileEnd, self.payload()),
    {
        let mut buf = begin_frame(MessageType::FileEnd, 16);
        put_u64(&mut buf, self.total_files);
        put_u64(&mut buf, self.total_bytes);
        proof {
            crate::wire::lemma_widths();
            assert(written(buf) =~= frame_bytes(MessageType::FileEnd, self.payload()));
        }
        freeze(buf)
    }

    /// Reads the message from a frame's payload.
    pub fn decode(payload: Bytes) -> (r: Result<FileEnd, DecodeError>)
        ensures
            r == Self::parse(contents(payload)),
    {
        let mut payload = payload;
        if remaining(&payload) < 16 {
            return Err(too_short(MessageType::FileEnd));
        }
        let total_files = get_u64(&mut payload);
        let total_bytes = get_u64(&mut payload);
        Ok(FileEnd { total_files, total_bytes })
    }
}

/// Closes the destination's inventory: how many entries, and their bytes.
#[derive(Debug, Clone, Copy, PartialEq, Eq, Structural)]
pub struct DestFileEnd {
    pub total_files: u64,
    pub total_bytes: u64,
}

impl DestFileEnd {
    /// The payload: `total_files: u64 | total_bytes: u64`.
    pub open spec fn payload(self) -> Seq<u8> {
        be64(self.total_files) + be64(self.total_bytes)
    }

    /// The message that a payload holds, or what is wrong with it. Bytes
    /// behind the last number are ignored.
    pub open spec fn parse(b: Seq<u8>) -> Result<DestFileEnd, DecodeError> {
        if b.len() < 16 {
            Err(DecodeError::too_short(MessageType::DestFileEnd))
        } else {
            Ok(
                DestFileEnd {
                    total_files: u64_at(b, 0),
                    total_bytes: u64_at(b, 8),
                },
            )
        }
    }

    /// A payload is read back as the message it was written from.
    pub proof fn lemma_round_trip(self)
        ensures
            Self::parse(self.payload()) == Ok::<_, DecodeError>(self),
    {
        broadcast use crate::wire::group_heads;

        let b = self.payload();
        assert(b =~= be64(self.total_files) + (be64(self.total_bytes) + (Seq::<u8>::empty())));
        assert(u64_at(b.skip(8), 0) == self.total_bytes);
    }

    /// The message as a frame.
    pub fn encode(&self) -> (frame: Bytes)
        ensures
            contents(frame) == frame_bytes(MessageType::DestFileEnd, self.payload()),
    {
        let mut buf = begin_frame(MessageType::DestFileEnd, 16);
        put_u64(&mut buf, self.total_files);
        put_u64(&mut buf, self.total_bytes);
        proof {
            crate::wire::lemma_widths();
            assert(written(buf) =~= frame_bytes(MessageType::DestFileEnd, self.payload()));
        }
        freeze(buf)
    }

    /// Reads the message from a frame's payload.
    pub fn decode(payload: Bytes) -> (r: Result<DestFileEnd, DecodeError>)
        ensures
            r == Self::parse(contents(payload)),
    {
        let mut payload = payload;
        if remaining(&payload) < 16 {
            return Err(too_short(MessageType::DestFileEnd));
        }
        let total_files = get_u64(&mut payload);
        let total_bytes = get_u64(&mut payload);
        Ok(DestFileEnd { total_files, total_bytes })
    }
}

/// What the source says of one entry before it sends the entry's content.
#[derive(Debug, Clone)]
pub struct FileEntry {
    pub path: String,
    pub size: u64,
    pub mtime: i64,
    pub mode: u32,
    pub inode: u64,
    pub flags: FileFlags,
    pub symlink_target: Option<String>,
    pub link_target: Option<String>,
}

/// A `FileEntry` as a mathematical value.
pub ghost struct FileEntryView {
    pub path: Seq<char>,
    pub size: u64,
    pub mtime: i64,
    pub mode: u32,
    pub inode: u64,
    pub flags: FileFlags,
    pub symlink_target: Option<Seq<char>>,
    pub link_target: Option<Seq<char>>,
}

impl View for FileEntry {
    type V = FileEntryView;

    open spec fn view(&self) -> FileEntryView {
        FileEntryView {
            path: self.path@,
            size: self.size,
            mtime: self.mtime,
            mode: self.mode,
            inode: self.inode,
            flags: self.flags,
            symlink_target: optional_view(self.symlink_target),
            link_target: optional_view(self.link_target),
        }
    }
}

impl FileEntryView {
    /// The payload: `path | size: u64 | mtime: i64 | mode: u32 | inode: u64 |
    /// flags: u8`, then the symlink target and the hard-link target, each a
    /// length-prefixed string, where the entry has one.
    pub open spec fn payload(self) -> Seq<u8> {
        str_field(self.path) + be64(self.size) + be_i64(self.mtime) + be32(self.mode) + be64(
            self.inode,
        ) + be8(self.flags.bits) + optional_str(self.symlink_target) + optional_str(
            self.link_target,
        )
    }

    /// Whether the payload holds all of this message: the strings fit their
    /// length prefixes, no flag without a meaning is set, and the entry has a
    /// symlink target or a hard-link target exactly where its flags say so.
    pub open spec fn encodable(self) -> bool {
        &&& fits_u16(self.path)
        &&& self.flags.valid()
        &&& self.flags.has(FileFlags { bits: FileFlags::SYMLINK }) == (self.symlink_target is Some)
        &&& self.flags.has(FileFlags { bits: FileFlags::HARDLINK }) == (self.link_target is Some)
        &&& (self.symlink_target matches Some(s) ==> fits_u16(s))
        &&& (self.link_target matches Some(s) ==> fits_u16(s))
    }

    /// The message that a payload holds, or the first thing wrong with it.
    /// The flags say which targets follow; bytes behind them are ignored.
    pub open spec fn parse(b: Seq<u8>) -> Result<FileEntryView, DecodeError> {
        match path_prefix(MessageType::FileEntry, b, 29) {
            Err(e) => Err(e),
            Ok((path, rest)) => {
                let flags = FileFlags::truncated(rest.skip(28)[0]);
                match optional_text(
                    MessageType::FileEntry,
                    flags.has(FileFlags { bits: FileFlags::SYMLINK }),
                    Field::SymlinkTargetLength,
                    Field::SymlinkTarget,
                    rest.skip(29),
                ) {
                    Err(e) => Err(e),
                    Ok((symlink_target, rest2)) => match optional_text(
                        MessageType::FileEntry,
                        flags.has(FileFlags { bits: FileFlags::HARDLINK }),
                        Field::LinkTargetLength,
                        Field::LinkTarget,
                        rest2,
                    ) {
                        Err(e) => Err(e),
                        Ok((link_target, _)) => Ok(
                            FileEntryView {
                                path,
                                size: u64_at(rest, 0),
                                mtime: i64_at(rest.skip(8), 0),
                                mode: u32_at(rest.skip(16), 0),
                                inode: u64_at(rest.skip(20), 0),
                                flags,
                                symlink_target,
                                link_target,
                            },
                        ),
                    },
                }
            },
        }
    }

    /// The payload, grouped as a decoder walks it: the path, then the rest.
    proof fn lemma_layout(self)
        ensures
            self.payload() == str_field(self.path) + (be64(self.size) + (be_i64(self.mtime) + (be32(
                self.mode,
            ) + (be64(self.inode) + (be8(self.flags.bits) + (optional_str(self.symlink_target) + (
                optional_str(self.link_target) + Seq::<u8>::empty()))))))),
    {
        let f1 = str_field(self.path);
        let f2 = be64(self.size);
        let f3 = be_i64(self.mtime);
        let f4 = be32(self.mode);
        let f5 = be64(self.inode);
        let f6 = be8(self.flags.bits);
        let f7 = optional_str(self.symlink_target);
        let f8 = optional_str(self.link_target);
        assert(f1 + f2 + f3 + f4 + f5 + f6 + f7 + f8 =~= f1 + (f2 + (f3 + (f4 + (f5 + (f6 + (f7 + (f8
            + Seq::<u8>::empty()))))))));
    }

    /// A payload is read back as the message it was written from.
    pub proof fn lemma_round_trip(self)
        requires
            self.encodable(),
        ensures
            Self::parse(self.payload()) == Ok::<_, DecodeError>(self),
    {
        let t = MessageType::FileEntry;
        let e = Seq::<u8>::empty();
        let tail2 = optional_str(self.link_target) + e;
        let tail = optional_str(self.symlink_target) + tail2;
        let r28 = be8(self.flags.bits) + tail;
        let r20 = be64(self.inode) + r28;
        let r16 = be32(self.mode) + r20;
        let r8 = be_i64(self.mtime) + r16;
        let rest = be64(self.size) + r8;
        self.lemma_layout();
        crate::wire::lemma_u64_head(self.size, r8);
        crate::wire::lemma_i64_head(self.mtime, r16);
        crate::wire::lemma_u64_head(crate::wire::twos64(self.mtime), r16);
        crate::wire::lemma_u32_head(self.mode, r20);
        crate::wire::lemma_u64_head(self.inode, r28);
        crate::wire::lemma_u8_head(self.flags.bits, tail);
        crate::wire::lemma_skip_skip(rest, 8, 8);
        crate::wire::lemma_skip_skip(rest, 16, 4);
        crate::wire::lemma_skip_skip(rest, 20, 8);
        crate::wire::lemma_skip_skip(rest, 28, 1);
        assert(rest.skip(29) == tail);
        lemma_path_prefix(t, self.path, rest, 29);
        let flags = FileFlags::truncated(self.flags.bits);
        assert(flags == self.flags);
        lemma_optional_text(
            t,
            flags.has(FileFlags { bits: FileFlags::SYMLINK }),
            Field::SymlinkTargetLength,
            Field::SymlinkTarget,
            self.symlink_target,
            tail2,
        );
        lemma_optional_text(
            t,
            flags.has(FileFlags { bits: FileFlags::HARDLINK }),
            Field::LinkTargetLength,
            Field::LinkTarget,
            self.link_target,
            e,
        );
    }
}

impl FileEntry {
    /// Whether the entry is a directory.
    pub fn is_dir(&self) -> (r: bool)
        ensures
            r == self.flags.has(FileFlags { bits: FileFlags::DIR }),
    {
        self.flags.contains(FileFlags::dir())
    }

    /// Whether the entry is a symbolic link.
    pub fn is_symlink(&self) -> (r: bool)
        ensures
            r == self.flags.has(FileFlags { bits: FileFlags::SYMLINK }),
    {
        self.flags.contains(FileFlags::symlink())
    }

    /// Whether the entry is a hard link to an earlier entry.
    pub fn is_hardlink(&self) -> (r: bool)
        ensures
            r == self.flags.has(FileFlags { bits: FileFlags::HARDLINK }),
    {
        self.flags.contains(FileFlags::hardlink())
    }

    /// The message as a frame. A target is written where the entry has one,
    /// whatever the flags say.
    pub fn encode(&self) -> (frame: Bytes)
        ensures
            contents(frame) == frame_bytes(MessageType::FileEntry, self@.payload()),
    {
        let path = self.path.as_str();
        let mut payload_len: u128 = 2 + path.as_bytes().len() as u128 + 29;
        if let Some(s) = &self.symlink_target {
            payload_len = payload_len + 2 + s.as_str().as_bytes().len() as u128;
        }
        if let Some(s) = &self.link_target {
            payload_len = payload_len + 2 + s.as_str().as_bytes().len() as u128;
        }
        proof {
            crate::wire::lemma_widths();
            assert(payload_len == self@.payload().len());
        }
        let mut buf = begin_frame(MessageType::FileEntry, payload_len);
        put_text(&mut buf, path);
        put_u64(&mut buf, self.size);
        put_i64(&mut buf, self.mtime);
        put_u32(&mut buf, self.mode);
        put_u64(&mut buf, self.inode);
        put_u8(&mut buf, self.flags.bits());
        let ghost fixed = written(buf);
        if let Some(s) = &self.symlink_target {
            put_text(&mut buf, s.as_str());
        }
        assert(written(buf) == fixed + optional_str(self@.symlink_target)) by {
            assert(fixed + Seq::<u8>::empty() =~= fixed);
        }
        let ghost with_symlink = written(buf);
        if let Some(s) = &self.link_target {
            put_text(&mut buf, s.as_str());
        }
        assert(written(buf) == with_symlink + optional_str(self@.link_target)) by {
            assert(with_symlink + Seq::<u8>::empty() =~= with_symlink);
        }
        assert(written(buf) =~= frame_bytes(MessageType::FileEntry, self@.payload()));
        freeze(buf)
    }

    /// Reads the message from a frame's payload.
    pub fn decode(payload: Bytes) -> (r: Result<FileEntry, DecodeError>)
        ensures
            match r {
                Ok(m) => FileEntryView::parse(contents(payload)) == Ok::<_, DecodeError>(m@),
                Err(e) => FileEntryView::parse(contents(payload)) == Err::<FileEntryView, _>(e),
            },
    {
        let mut payload = payload;
        let path = match take_path(MessageType::FileEntry, &mut payload, 29) {
            Ok(path) => path,
            Err(e) => {
                return Err(e);
            },
        };
        let ghost rest = contents(payload);
        let size = get_u64(&mut payload);
        let mtime = get_i64(&mut payload);
        proof {
            crate::wire::lemma_skip_skip(rest, 8, 8);
        }
        let mode = get_u32(&mut payload);
        proof {
            crate::wire::lemma_skip_skip(rest, 16, 4);
        }
        let inode = get_u64(&mut payload);
        proof {
            crate::wire::lemma_skip_skip(rest, 20, 8);
        }
        let flags = FileFlags::from_bits_truncate(get_u8(&mut payload));
        proof {
            crate::wire::lemma_skip_skip(rest, 28, 1);
        }
        let symlink_target = match take_optional_text(
            MessageType::FileEntry,
            flags.contains(FileFlags::symlink()),
            Field::SymlinkTargetLength,
            Field::SymlinkTarget,
            &mut payload,
        ) {
            Ok(s) => s,
            Err(e) => {
                return Err(e);
            },
        };
        let link_target = match take_optional_text(
            MessageType::FileEntry,
            flags.contains(FileFlags::hardlink()),
            Field::LinkTargetLength,
            Field::LinkTarget,
            &mut payload,
        ) {
            Ok(s) => s,
            Err(e) => {
                return Err(e);
            },
        };
        Ok(FileEntry { path, size, mtime, mode, inode, flags, symlink_target, link_target })
    }
}

/// The checksums of one block of a destination file.
#[derive(Debug, Clone, Copy, PartialEq, Eq, Structural)]
pub struct BlockChecksum {
    /// Where the block starts in the file.
    pub offset: u64,
    /// The rolling checksum of the block.
    pub weak: u32,
    /// The strong checksum of the block.
    pub strong: u64,
}

impl BlockChecksum {
    /// The bytes that one block's checksums take on the wire.
    pub const SIZE: usize = 20;

    /// On the wire: `offset: u64 | weak: u32 | strong: u64`.
    pub open spec fn bytes(self) -> Seq<u8> {
        be64(self.offset) + be32(self.weak) + be64(self.strong)
    }

    /// The checksums held in the first twenty bytes of `b`.
    pub open spec fn first(b: Seq<u8>) -> BlockChecksum {
        BlockChecksum {
            offset: u64_at(b, 0),
            weak: u32_at(b.skip(8), 0),
            strong: u64_at(b.skip(12), 0),
        }
    }

    /// Checksums written in front of `rest` are read back, and `rest`
    /// follows them.
    pub proof fn lemma_first(self, rest: Seq<u8>)
        ensures
            self.bytes().len() == 20,
            Self::first(self.bytes() + rest) == self,
            (self.bytes() + rest).skip(20) == rest,
    {
        crate::wire::lemma_widths();
        let r12 = be64(self.strong) + rest;
        let r8 = be32(self.weak) + r12;
        let all = be64(self.offset) + r8;
        assert(self.bytes() + rest =~= all);
        crate::wire::lemma_u64_head(self.offset, r8);
        crate::wire::lemma_u32_head(self.weak, r12);
        crate::wire::lemma_u64_head(self.strong, rest);
        crate::wire::lemma_skip_skip(all, 8, 4);
        crate::wire::lemma_skip_skip(all, 12, 8);
    }
}

/// A table of block checksums on the wire: one block after the other.
pub open spec fn table_bytes(table: Seq<BlockChecksum>) -> Seq<u8>
    decreases table.len(),
{
    if table.len() == 0 {
        Seq::empty()
    } else {
        table_bytes(table.drop_last()) + table.last().bytes()
    }
}

/// The table of `count` blocks that `b` starts with: block `k` is held in
/// the twenty bytes from `20 * k`.
pub open spec fn table_at(b: Seq<u8>, count: nat) -> Seq<BlockChecksum> {
    Seq::new(count, |k: int| BlockChecksum::first(b.skip(20 * k)))
}

/// Each block of a table takes twenty bytes.
pub proof fn lemma_table_len(table: Seq<BlockChecksum>)
    ensures
        table_bytes(table).len() == 20 * table.len(),
    decreases table.len(),
{
    if table.len() > 0 {
        lemma_table_len(table.drop_last());
        table.last().lemma_first(Seq::empty());
    }
}

/// In a table written in front of `rest`, block `k` stands at `20 * k`.
proof fn lemma_table_entry(table: Seq<BlockChecksum>, rest: Seq<u8>, k: int)
    requires
        0 <= k < table.len(),
    ensures
        (table_bytes(table) + rest).skip(20 * k) == table[k].bytes() + (table_bytes(table)
            + rest).skip(20 * k + 20),
        20 * k + 20 <= (table_bytes(table) + rest).len(),
    decreases table.len(),
{
    let b = table_bytes(table) + rest;
    let init = table.drop_last();
    let last = table.last();
    let rest2 = last.bytes() + rest;
    lemma_table_len(table);
    lemma_table_len(init);
    last.lemma_first(rest);
    assert(b =~= table_bytes(init) + rest2);
    if k < init.len() {
        lemma_table_entry(init, rest2, k);
    } else {
        assert(b.skip(20 * k) =~= rest2);
        assert(b.skip(20 * k + 20) =~= rest);
    }
}

/// A table written in front of `rest` is read back, and `rest` follows it.
pub proof fn lemma_table_round_trip(table: Seq<BlockChecksum>, rest: Seq<u8>)
    ensures
        table_at(table_bytes(table) + rest, table.len()) == table,
        (table_bytes(table) + rest).skip(20 * table.len() as int) == rest,
{
    let b = table_bytes(table) + rest;
    lemma_table_len(table);
    assert(b.skip(20 * table.len() as int) =~= rest);
    assert forall|k: int| 0 <= k < table.len() implies #[trigger] table_at(b, table.len())[k]
        == table[k] by {
        lemma_table_entry(table, rest, k);
        table[k].lemma_first(b.skip(20 * k + 20));
    }
    assert(table_at(b, table.len()) =~= table);
}

/// What the destination says of one of its entries during the initial
/// exchange.
#[derive(Debug, Clone)]
pub struct DestFileEntry {
    pub path: String,
    pub size: u64,
    pub mtime: i64,
    pub mode: u32,
    pub flags: DestFileFlags,
    pub block_size: u32,
    pub checksums: Vec<BlockChecksum>,
}

/// A `DestFileEntry` as a mathematical value.
pub ghost struct DestFileEntryView {
    pub path: Seq<char>,
    pub size: u64,
    pub mtime: i64,
    pub mode: u32,
    pub flags: DestFileFlags,
    pub block_size: u32,
    pub checksums: Seq<BlockChecksum>,
}

impl View for DestFileEntry {
    type V = DestFileEntryView;

    open spec fn view(&self) -> DestFileEntryView {
        DestFileEntryView {
            path: self.path@,
            size: self.size,
            mtime: self.mtime,
            mode: self.mode,
            flags: self.flags,
            block_size: self.block_size,
            checksums: self.checksums@,
        }
    }
}

impl DestFileEntryView {
    /// Whether the entry comes with a table of checksums.
    pub open spec fn has_checksums(self) -> bool {
        self.flags.has(DestFileFlags { bits: DestFileFlags::HAS_CHECKSUMS })
    }

    /// The checksum part of the payload: `block_size: u32 | count: u32`, then
    /// `count` blocks; nothing at all without the `has_checksums` flag. A
    /// count that does not fit the `u32` is reduced modulo 2^32.
    pub open spec fn checksum_part(self) -> Seq<u8> {
        if self.has_checksums() {
            be32(self.block_size) + be32((self.checksums.len() % 0x1_0000_0000) as u32)
                + table_bytes(self.checksums)
        } else {
            Seq::empty()
        }
    }

    /// The payload: `path | size: u64 | mtime: i64 | mode: u32 | flags: u8`,
    /// then the checksum part.
    pub open spec fn payload(self) -> Seq<u8> {
        str_field(self.path) + be64(self.size) + be_i64(self.mtime) + be32(self.mode) + be8(
            self.flags.bits,
        ) + self.checksum_part()
    }

    /// Whether the payload holds all of this message: the path fits its
    /// length prefix, no flag without a meaning is set, the number of blocks
    /// fits its count, and without the `has_checksums` flag there is neither
    /// a block size nor a block.
    pub open spec fn encodable(self) -> bool {
        &&& fits_u16(self.path)
        &&& self.flags.valid()
        &&& self.checksums.len() <= 0xffff_ffff
        &&& (!self.has_checksums() ==> self.block_size == 0 && self.checksums.len() == 0)
    }

    /// What the destination promises of a table: the block size is not zero,
    /// and each block starts where the one before it ends.
    pub open spec fn contiguous(self) -> bool {
        self.has_checksums() ==> {
            &&& self.block_size > 0
            &&& forall|i: int|
                0 <= i < self.checksums.len() - 1 ==> (#[trigger] self.checksums[i + 1]).offset
                    == self.checksums[i].offset + self.block_size
        }
    }

    /// The message that a payload holds, or the first thing wrong with it.
    /// All the blocks that the count announces must be there before one is
    /// read. Bytes behind the last field are ignored.
    pub open spec fn parse(b: Seq<u8>) -> Result<DestFileEntryView, DecodeError> {
        match path_prefix(MessageType::DestFileEntry, b, 21) {
            Err(e) => Err(e),
            Ok((path, rest)) => {
                let flags = DestFileFlags::truncated(rest.skip(20)[0]);
                let tail = rest.skip(21);
                let count = u32_at(tail.skip(4), 0);
                let fixed = DestFileEntryView {
                    path,
                    size: u64_at(rest, 0),
                    mtime: i64_at(rest.skip(8), 0),
                    mode: u32_at(rest.skip(16), 0),
                    flags,
                    block_size: 0,
                    checksums: Seq::empty(),
                };
                if !fixed.has_checksums() {
                    Ok(fixed)
                } else if tail.len() < 8 {
                    Err(DecodeError::truncated(MessageType::DestFileEntry, Field::ChecksumHeader))
                } else if tail.skip(8).len() < count * 20 {
                    Err(DecodeError::truncated(MessageType::DestFileEntry, Field::Checksums))
                } else {
                    Ok(
                        DestFileEntryView {
                            block_size: u32_at(tail, 0),
                            checksums: table_at(tail.skip(8), count as nat),
                            ..fixed
                        },
                    )
                }
            },
        }
    }

    /// The payload, grouped as a decoder walks it: the path, then the rest.
    proof fn lemma_layout(self)
        ensures
            self.payload() == str_field(self.path) + (be64(self.size) + (be_i64(self.mtime) + (be32(
                self.mode,
            ) + (be8(self.flags.bits) + self.checksum_part())))),
    {
        let f1 = str_field(self.path);
        let f2 = be64(self.size);
        let f3 = be_i64(self.mtime);
        let f4 = be32(self.mode);
        let f5 = be8(self.flags.bits);
        let f6 = self.checksum_part();
        assert(f1 + f2 + f3 + f4 + f5 + f6 =~= f1 + (f2 + (f3 + (f4 + (f5 + f6)))));
    }

    /// The checksum part is read back as it was written.
    proof fn lemma_checksum_part(self)
        requires
            self.has_checksums(),
            self.checksums.len() <= 0xffff_ffff,
        ensures
            self.checksum_part().len() == 8 + 20 * self.checksums.len(),
            u32_at(self.checksum_part(), 0) == self.block_size,
            u32_at(self.checksum_part().skip(4), 0) == self.checksums.len(),
            table_at(self.checksum_part().skip(8), self.checksums.len()) == self.checksums,
    {
        let n = self.checksums.len() as u32;
        let t = table_bytes(self.checksums) + Seq::<u8>::empty();
        let c4 = be32(n) + t;
        crate::wire::lemma_widths();
        lemma_table_len(self.checksums);
        assert(self.checksum_part() =~= be32(self.block_size) + c4);
        crate::wire::lemma_u32_head(self.block_size, c4);
        crate::wire::lemma_u32_head(n, t);
        crate::wire::lemma_skip_skip(self.checksum_part(), 4, 4);
        lemma_table_round_trip(self.checksums, Seq::<u8>::empty());
    }

    /// A payload is read back as the message it was written from.
    pub proof fn lemma_round_trip(self)
        requires
            self.encodable(),
        ensures
            Self::parse(self.payload()) == Ok::<_, DecodeError>(self),
    {
        let t = MessageType::DestFileEntry;
        let tail = self.checksum_part();
        let r20 = be8(self.flags.bits) + tail;
        let r16 = be32(self.mode) + r20;
        let r8 = be_i64(self.mtime) + r16;
        let rest = be64(self.size) + r8;
        self.lemma_layout();
        crate::wire::lemma_u64_head(self.size, r8);
        crate::wire::lemma_i64_head(self.mtime, r16);
        crate::wire::lemma_u64_head(crate::wire::twos64(self.mtime), r16);
        crate::wire::lemma_u32_head(self.mode, r20);
        crate::wire::lemma_u8_head(self.flags.bits, tail);
        crate::wire::lemma_skip_skip(rest, 8, 8);
        crate::wire::lemma_skip_skip(rest, 16, 4);
        crate::wire::lemma_skip_skip(rest, 20, 1);
        assert(rest.skip(21) == tail);
        lemma_path_prefix(t, self.path, rest, 21);
        assert(DestFileFlags::truncated(self.flags.bits) == self.flags);
        if self.has_checksums() {
            self.lemma_checksum_part();
        } else {
            assert(self.checksums =~= Seq::<BlockChecksum>::empty());
        }
    }
}

impl DestFileEntry {
    /// The message as a frame. The table is written only with the
    /// `has_checksums` flag.
    pub fn encode(&self) -> (frame: Bytes)
        ensures
            contents(frame) == frame_bytes(MessageType::DestFileEntry, self@.payload()),
    {
        let path = self.path.as_str();
        let has_checksums = self.flags.contains(DestFileFlags::has_checksums());
        let mut payload_len: u128 = 2 + path.as_bytes().len() as u128 + 21;
        if has_checksums {
            payload_len = payload_len + 8 + self.checksums.len() as u128 * 20;
        }
        proof {
            crate::wire::lemma_widths();
            lemma_table_len(self.checksums@);
            assert(payload_len == self@.payload().len());
        }
        let mut buf = begin_frame(MessageType::DestFileEntry, payload_len);
        put_text(&mut buf, path);
        put_u64(&mut buf, self.size);
        put_i64(&mut buf, self.mtime);
        put_u32(&mut buf, self.mode);
        put_u8(&mut buf, self.flags.bits());
        let ghost fixed = written(buf);
        if has_checksums {
            put_u32(&mut buf, self.block_size);
            put_u32(&mut buf, (self.checksums.len() as u64 % 0x1_0000_0000) as u32);
            put_table(&mut buf, &self.checksums);
        }
        proof {
            assert(written(buf) =~= fixed + self@.checksum_part());
            assert(written(buf) =~= frame_bytes(MessageType::DestFileEntry, self@.payload()));
        }
        freeze(buf)
    }

    /// Reads the message from a frame's payload.
    pub fn decode(payload: Bytes) -> (r: Result<DestFileEntry, DecodeError>)
        ensures
            match r {
                Ok(m) => DestFileEntryView::parse(contents(payload)) == Ok::<_, DecodeError>(m@),
                Err(e) => DestFileEntryView::parse(contents(payload)) == Err::<
                    DestFileEntryView,
                    _,
                >(e),
            },
    {
        let mut payload = payload;
        let path = match take_path(MessageType::DestFileEntry, &mut payload, 21) {
            Ok(path) => path,
            Err(e) => {
                return Err(e);
            },
        };
        let ghost rest = contents(payload);
        let size = get_u64(&mut payload);
        let mtime = get_i64(&mut payload);
        proof {
            crate::wire::lemma_skip_skip(rest, 8, 8);
        }
        let mode = get_u32(&mut payload);
        proof {
            crate::wire::lemma_skip_skip(rest, 16, 4);
        }
        let flags = DestFileFlags::from_bits_truncate(get_u8(&mut payload));
        proof {
            crate::wire::lemma_skip_skip(rest, 20, 1);
        }
        if !flags.contains(DestFileFlags::has_checksums()) {
            return Ok(
                DestFileEntry {
                    path,
                    size,
                    mtime,
                    mode,
                    flags,
                    block_size: 0,
                    checksums: Vec::new(),
                },
            );
        }
        if remaining(&payload) < 8 {
            return Err(truncated(MessageType::DestFileEntry, Field::ChecksumHeader));
        }
        let block_size = get_u32(&mut payload);
        let count = get_u32(&mut payload);
        proof {
            crate::wire::lemma_skip_skip(rest.skip(21), 4, 4);
        }
        if (remaining(&payload) as u64) < count as u64 * 20 {
            return Err(truncated(MessageType::DestFileEntry, Field::Checksums));
        }
        let checksums = take_table(&mut payload, count);
        Ok(DestFileEntry { path, size, mtime, mode, flags, block_size, checksums })
    }
}

/// Appends a table of checksums, block after block.
fn put_table(buf: &mut BytesMut, table: &Vec<BlockChecksum>)
    ensures
        written(*final(buf)) == written(*old(buf)) + table_bytes(table@),
{
    let mut i: usize = 0;
    assert(table@.take(0) =~= Seq::<BlockChecksum>::empty());
    assert(written(*buf) =~= written(*old(buf)) + table_bytes(table@.take(0)));
    while i < table.len()
        invariant
            i <= table.len(),
            written(*buf) == written(*old(buf)) + table_bytes(table@.take(i as int)),
        decreases table.len() - i,
    {
        let ghost before = written(*buf);
        let block = &table[i];
        put_u64(buf, block.offset);
        put_u32(buf, block.weak);
        put_u64(buf, block.strong);
        proof {
            let done = table@.take(i as int);
            let next = table@.take(i + 1);
            assert(next.drop_last() =~= done);
            assert(next.last() == table@[i as int]);
            assert(written(*buf) =~= before + table@[i as int].bytes());
            assert(written(*buf) =~= written(*old(buf)) + table_bytes(next));
        }
        i = i + 1;
    }
    assert(table@.take(i as int) =~= table@);
}

/// Takes a table of `count` blocks, all of which are known to be there.
fn take_table(payload: &mut Bytes, count: u32) -> (table: Vec<BlockChecksum>)
    requires
        contents(*old(payload)).len() >= count * 20,
    ensures
        table@ == table_at(contents(*old(payload)), count as nat),
{
    let ghost b = contents(*payload);
    let mut table: Vec<BlockChecksum> = Vec::with_capacity(count as usize);
    let mut i: u32 = 0;
    assert(b.skip(0) =~= b);
    while i < count
        invariant
            i <= count,
            b.len() >= count * 20,
            contents(*payload) == b.skip(20 * i),
            table@ == table_at(b, i as nat),
        decreases count - i,
    {
        let ghost cur = contents(*payload);
        let offset = get_u64(payload);
        let weak = get_u32(payload);
        proof {
            crate::wire::lemma_skip_skip(cur, 8, 4);
        }
        let strong = get_u64(payload);
        proof {
            crate::wire::lemma_skip_skip(cur, 12, 8);
            crate::wire::lemma_skip_skip(b, 20 * i, 20);
        }
        table.push(BlockChecksum { offset, weak, strong });
        assert(table@ =~= table_at(b, (i + 1) as nat));
        i = i + 1;
    }
    table
}

} // verus!
