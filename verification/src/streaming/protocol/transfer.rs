//! The messages that carry the transfer itself: file content (`Data`,
//! `DataEnd`) and the changes that need none (`Mkdir`, `Symlink`, `Delete`,
//! `DeleteEnd`).

use crate::buffer::{
    as_slice, bytes_len, contents, copy_to_bytes, freeze, get_u32, get_u64, get_u8, put_slice,
    put_u32, put_u64, put_u8, remaining, written,
};
use crate::streaming::flags::DataFlags;
use crate::streaming::protocol::codec::{
    begin_frame, lemma_path_prefix, lemma_text_field, path_prefix, put_text, take_path,
    take_text_field, text_field, too_short, truncated,
};
use crate::streaming::protocol::{frame_bytes, DecodeError, Field, MessageType};
use crate::wire::{be32, be64, be8, fits_u16, str_field, u32_at, u64_at};
use bytes::Bytes;
use vstd::prelude::*;

verus! {

/// Closes the list of deletions: how many there were.
#[derive(Debug, Clone, Copy, PartialEq, Eq, Structural)]
pub struct DeleteEnd {
    pub count: u64,
}

impl DeleteEnd {
    /// The payload: `count: u64`.
    pub open spec fn payload(self) -> Seq<u8> {
        be64(self.count)
    }

    /// The message that a payload holds, or what is wrong with it. Bytes
    /// behind the last number are ignored.
    pub open spec fn parse(b: Seq<u8>) -> Result<DeleteEnd, DecodeError> {
        if b.len() < 8 {
            Err(DecodeError::too_short(MessageType::DeleteEnd))
        } else {
            Ok(
                DeleteEnd {
                    count: u64_at(b, 0),
                },
            )
        }
    }

    /// A payload is read back as the message it was written from.
    pub proof fn lemma_round_trip(self)
        ensures
            Self::parse(self.payload()) == Ok::<_, DecodeError>(self),
    {
        broadcast use crate::wire::group_heads;

        let b = self.payload();
        assert(b =~= be64(self.count) + (Seq::<u8>::empty()));
    }

    /// The message as a frame.
    pub fn encode(&self) -> (frame: Bytes)
        ensures
            contents(frame) == frame_bytes(MessageType::DeleteEnd, self.payload()),
    {
        let mut buf = begin_frame(MessageType::DeleteEnd, 8);
        put_u64(&mut buf, self.count);
        proof {
            crate::wire::lemma_widths();
            assert(written(buf) =~= frame_bytes(MessageType::DeleteEnd, self.payload()));
        }
        freeze(buf)
    }

    /// Reads the message from a frame's payload.
    pub fn decode(payload: Bytes) -> (r: Result<DeleteEnd, DecodeError>)
        ensures
            r == Self::parse(contents(payload)),
    {
        let mut payload = payload;
        if remaining(&payload) < 8 {
            return Err(too_short(MessageType::DeleteEnd));
        }
        let count = get_u64(&mut payload);
        Ok(DeleteEnd { count })
    }
}

/// Closes a file: whether all of it was sent.
#[derive(Debug, Clone)]
pub struct DataEnd {
    pub path: String,
    pub status: u8,
}

/// A `DataEnd` as a mathematical value.
pub ghost struct DataEndView {
    pub path: Seq<char>,
    pub status: u8,
}

impl View for DataEnd {
    type V = DataEndView;

    open spec fn view(&self) -> DataEndView {
        DataEndView { path: self.path@, status: self.status }
    }
}

impl DataEndView {
    /// The payload: `path | status: u8`.
    pub open spec fn payload(self) -> Seq<u8> {
        str_field(self.path) + be8(self.status)
    }

    /// Whether the payload holds all of this message: the path fits its
    /// length prefix.
    pub open spec fn encodable(self) -> bool {
        fits_u16(self.path)
    }

    /// The message that a payload holds, or the first thing wrong with it.
    /// Bytes behind the last field are ignored.
    pub open spec fn parse(b: Seq<u8>) -> Result<DataEndView, DecodeError> {
        match path_prefix(MessageType::DataEnd, b, 1) {
            Err(e) => Err(e),
            Ok((path, rest)) => Ok(DataEndView { path, status: rest[0] }),
        }
    }

    /// A payload is read back as the message it was written from.
    pub proof fn lemma_round_trip(self)
        requires
            self.encodable(),
        ensures
            Self::parse(self.payload()) == Ok::<_, DecodeError>(self),
    {
        broadcast use crate::wire::group_heads;

        crate::wire::lemma_widths();
        let rest = be8(self.status) + Seq::<u8>::empty();
        assert(self.payload() =~= str_field(self.path) + rest);
        lemma_path_prefix(MessageType::DataEnd, self.path, rest, 1);
    }
}

impl DataEnd {
    /// The file arrived whole.
    pub const STATUS_OK: u8 = 0;

    /// The sender gave the file up.
    pub const STATUS_ERROR: u8 = 1;

    /// The message as a frame.
    pub fn encode(&self) -> (frame: Bytes)
        ensures
            contents(frame) == frame_bytes(MessageType::DataEnd, self@.payload()),
    {
        let path = self.path.as_str();
        let mut buf = begin_frame(MessageType::DataEnd, 2 + path.as_bytes().len() as u128 + 1);
        put_text(&mut buf, path);
        put_u8(&mut buf, self.status);
        proof {
            crate::wire::lemma_widths();
            assert(written(buf) =~= frame_bytes(MessageType::DataEnd, self@.payload()));
        }
        freeze(buf)
    }

    /// Reads the message from a frame's payload.
    pub fn decode(payload: Bytes) -> (r: Result<DataEnd, DecodeError>)
        ensures
            match r {
                Ok(m) => DataEndView::parse(contents(payload)) == Ok::<_, DecodeError>(m@),
                Err(e) => DataEndView::parse(contents(payload)) == Err::<DataEndView, _>(e),
            },
    {
        let mut payload = payload;
        let path = match take_path(MessageType::DataEnd, &mut payload, 1) {
            Ok(path) => path,
            Err(e) => {
                return Err(e);
            },
        };
        let status = get_u8(&mut payload);
        Ok(DataEnd { path, status })
    }
}

/// A path that the destination is to remove.
#[derive(Debug, Clone)]
pub struct Delete {
    pub path: String,
    pub is_dir: bool,
}

/// A `Delete` as a mathematical value.
pub ghost struct DeleteView {
    pub path: Seq<char>,
    pub is_dir: bool,
}

impl View for Delete {
    type V = DeleteView;

    open spec fn view(&self) -> DeleteView {
        DeleteView { path: self.path@, is_dir: self.is_dir }
    }
}

impl DeleteView {
    /// The payload: `path | is_dir: u8`.
    pub open spec fn payload(self) -> Seq<u8> {
        str_field(self.path) + be8(if self.is_dir { 1u8 } else { 0u8 })
    }

    /// Whether the payload holds all of this message: the path fits its
    /// length prefix.
    pub open spec fn encodable(self) -> bool {
        fits_u16(self.path)
    }

    /// The message that a payload holds, or the first thing wrong with it.
    /// Bytes behind the last field are ignored.
    pub open spec fn parse(b: Seq<u8>) -> Result<DeleteView, DecodeError> {
        match path_prefix(MessageType::Delete, b, 1) {
            Err(e) => Err(e),
            Ok((path, rest)) => Ok(DeleteView { path, is_dir: rest[0] != 0 }),
        }
    }

    /// A payload is read back as the message it was written from.
    pub proof fn lemma_round_trip(self)
        requires
            self.encodable(),
        ensures
            Self::parse(self.payload()) == Ok::<_, DecodeError>(self),
    {
        broadcast use crate::wire::group_heads;

        crate::wire::lemma_widths();
        let rest = be8(if self.is_dir { 1u8 } else { 0u8 }) + Seq::<u8>::empty();
        assert(self.payload() =~= str_field(self.path) + rest);
        lemma_path_prefix(MessageType::Delete, self.path, rest, 1);
    }
}

impl Delete {
    /// The message as a frame.
    pub fn encode(&self) -> (frame: Bytes)
        ensures
            contents(frame) == frame_bytes(MessageType::Delete, self@.payload()),
    {
        let path = self.path.as_str();
        let mut buf = begin_frame(MessageType::Delete, 2 + path.as_bytes().len() as u128 + 1);
        put_text(&mut buf, path);
        put_u8(&mut buf, if self.is_dir { 1 } else { 0 });
        proof {
            crate::wire::lemma_widths();
            assert(written(buf) =~= frame_bytes(MessageType::Delete, self@.payload()));
        }
        freeze(buf)
    }

    /// Reads the message from a frame's payload.
    pub fn decode(payload: Bytes) -> (r: Result<Delete, DecodeError>)
        ensures
            match r {
                Ok(m) => DeleteView::parse(contents(payload)) == Ok::<_, DecodeError>(m@),
                Err(e) => DeleteView::parse(contents(payload)) == Err::<DeleteView, _>(e),
            },
    {
        let mut payload = payload;
        let path = match take_path(MessageType::Delete, &mut payload, 1) {
            Ok(path) => path,
            Err(e) => {
                return Err(e);
            },
        };
        let is_dir = get_u8(&mut payload) != 0;
        Ok(Delete { path, is_dir })
    }
}

/// A directory that the destination is to make.
#[derive(Debug, Clone)]
pub struct Mkdir {
    pub path: String,
    pub mode: u32,
}

/// A `Mkdir` as a mathematical value.
pub ghost struct MkdirView {
    pub path: Seq<char>,
    pub mode: u32,
}

impl View for Mkdir {
    type V = MkdirView;

    open spec fn view(&self) -> MkdirView {
        MkdirView { path: self.path@, mode: self.mode }
    }
}

impl MkdirView {
    /// The payload: `path | mode: u32`.
    pub open spec fn payload(self) -> Seq<u8> {
        str_field(self.path) + be32(self.mode)
    }

    /// Whether the payload holds all of this message: the path fits its
    /// length prefix.
    pub open spec fn encodable(self) -> bool {
        fits_u16(self.path)
    }

    /// The message that a payload holds, or the first thing wrong with it.
    /// Bytes behind the last field are ignored.
    pub open spec fn parse(b: Seq<u8>) -> Result<MkdirView, DecodeError> {
        match path_prefix(MessageType::Mkdir, b, 4) {
            Err(e) => Err(e),
            Ok((path, rest)) => Ok(MkdirView { path, mode: u32_at(rest, 0) }),
        }
    }

    /// A payload is read back as the message it was written from.
    pub proof fn lemma_round_trip(self)
        requires
            self.encodable(),
        ensures
            Self::parse(self.payload()) == Ok::<_, DecodeError>(self),
    {
        broadcast use crate::wire::group_heads;

        crate::wire::lemma_widths();
        let rest = be32(self.mode) + Seq::<u8>::empty();
        assert(self.payload() =~= str_field(self.path) + rest);
        lemma_path_prefix(MessageType::Mkdir, self.path, rest, 4);
    }
}

impl Mkdir {
    /// The message as a frame.
    pub fn encode(&self) -> (frame: Bytes)
        ensures
            contents(frame) == frame_bytes(MessageType::Mkdir, self@.payload()),
    {
        let path = self.path.as_str();
        let mut buf = begin_frame(MessageType::Mkdir, 2 + path.as_bytes().len() as u128 + 4);
        put_text(&mut buf, path);
        put_u32(&mut buf, self.mode);
        proof {
            crate::wire::lemma_widths();
            assert(written(buf) =~= frame_bytes(MessageType::Mkdir, self@.payload()));
        }
        freeze(buf)
    }

    /// Reads the message from a frame's payload.
    pub fn decode(payload: Bytes) -> (r: Result<Mkdir, DecodeError>)
        ensures
            match r {
                Ok(m) => MkdirView::parse(contents(payload)) == Ok::<_, DecodeError>(m@),
                Err(e) => MkdirView::parse(contents(payload)) == Err::<MkdirView, _>(e),
            },
    {
        let mut payload = payload;
        let path = match take_path(MessageType::Mkdir, &mut payload, 4) {
            Ok(path) => path,
            Err(e) => {
                return Err(e);
            },
        };
        let mode = get_u32(&mut payload);
        Ok(Mkdir { path, mode })
    }
}

/// A symbolic link that the destination is to make.
#[derive(Debug, Clone)]
pub struct Symlink {
    pub path: String,
    pub target: String,
}

/// A `Symlink` as a mathematical value.
pub ghost struct SymlinkView {
    pub path: Seq<char>,
    pub target: Seq<char>,
}

impl View for Symlink {
    type V = SymlinkView;

    open spec fn view(&self) -> SymlinkView {
        SymlinkView { path: self.path@, target: self.target@ }
    }
}

impl SymlinkView {
    /// The payload: `path | target`, each a length-prefixed string.
    pub open spec fn payload(self) -> Seq<u8> {
        str_field(self.path) + str_field(self.target)
    }

    /// Whether the payload holds all of this message: each string fits its
    /// length prefix.
    pub open spec fn encodable(self) -> bool {
        fits_u16(self.path) && fits_u16(self.target)
    }

    /// The message that a payload holds, or the first thing wrong with it.
    /// Bytes behind the target are ignored.
    pub open spec fn parse(b: Seq<u8>) -> Result<SymlinkView, DecodeError> {
        match path_prefix(MessageType::Symlink, b, 2) {
            Err(e) => Err(e),
            Ok((path, rest)) => match text_field(MessageType::Symlink, Field::Target, rest) {
                Err(e) => Err(e),
                Ok((target, _)) => Ok(SymlinkView { path, target }),
            },
        }
    }

    /// A payload is read back as the message it was written from.
    pub proof fn lemma_round_trip(self)
        requires
            self.encodable(),
        ensures
            Self::parse(self.payload()) == Ok::<_, DecodeError>(self),
    {
        crate::wire::lemma_widths();
        let rest = str_field(self.target) + Seq::<u8>::empty();
        assert(self.payload() =~= str_field(self.path) + rest);
        lemma_text_field(MessageType::Symlink, Field::Target, self.target, Seq::<u8>::empty());
        lemma_path_prefix(MessageType::Symlink, self.path, rest, 2);
    }
}

impl Symlink {
    /// The message as a frame.
    pub fn encode(&self) -> (frame: Bytes)
        ensures
            contents(frame) == frame_bytes(MessageType::Symlink, self@.payload()),
    {
        let path = self.path.as_str();
        let target = self.target.as_str();
        let mut buf = begin_frame(
            MessageType::Symlink,
            2 + path.as_bytes().len() as u128 + 2 + target.as_bytes().len() as u128,
        );
        put_text(&mut buf, path);
        put_text(&mut buf, target);
        proof {
            crate::wire::lemma_widths();
            assert(written(buf) =~= frame_bytes(MessageType::Symlink, self@.payload()));
        }
        freeze(buf)
    }

    /// Reads the message from a frame's payload.
    pub fn decode(payload: Bytes) -> (r: Result<Symlink, DecodeError>)
        ensures
            match r {
                Ok(m) => SymlinkView::parse(contents(payload)) == Ok::<_, DecodeError>(m@),
                Err(e) => SymlinkView::parse(contents(payload)) == Err::<SymlinkView, _>(e),
            },
    {
        let mut payload = payload;
        let path = match take_path(MessageType::Symlink, &mut payload, 2) {
            Ok(path) => path,
            Err(e) => {
                return Err(e);
            },
        };
        let target = match take_text_field(MessageType::Symlink, Field::Target, &mut payload) {
            Ok(target) => target,
            Err(e) => {
                return Err(e);
            },
        };
        Ok(Symlink { path, target })
    }
}

/// A piece of a file: raw content to be written at `offset`, or, with the
/// `delta` flag, a run of delta operations to be applied in order.
#[derive(Debug, Clone)]
pub struct Data {
    pub path: String,
    pub offset: u64,
    pub flags: DataFlags,
    pub data: Bytes,
}

/// A `Data` as a mathematical value.
pub ghost struct DataView {
    pub path: Seq<char>,
    pub offset: u64,
    pub flags: DataFlags,
    pub data: Seq<u8>,
}

impl View for Data {
    type V = DataView;

    open spec fn view(&self) -> DataView {
        DataView {
            path: self.path@,
            offset: self.offset,
            flags: self.flags,
            data: contents(self.data),
        }
    }
}

impl DataView {
    /// The payload: `path | offset: u64 | flags: u8 | data_len: u32 | data`.
    /// A length that does not fit the `u32` is reduced modulo 2^32.
    pub open spec fn payload(self) -> Seq<u8> {
        str_field(self.path) + be64(self.offset) + be8(self.flags.bits) + be32(
            (self.data.len() % 0x1_0000_0000) as u32,
        ) + self.data
    }

    /// Whether the payload holds all of this message: path and data fit
    /// their length prefixes and no flag without a meaning is set.
    pub open spec fn encodable(self) -> bool {
        fits_u16(self.path) && self.flags.valid() && self.data.len() <= 0xffff_ffff
    }

    /// The message that a payload holds, or the first thing wrong with it.
    /// Bytes behind the data are ignored.
    pub open spec fn parse(b: Seq<u8>) -> Result<DataView, DecodeError> {
        match path_prefix(MessageType::Data, b, 13) {
            Err(e) => Err(e),
            Ok((path, rest)) => if rest.skip(13).len() < u32_at(rest.skip(9), 0) {
                Err(DecodeError::truncated(MessageType::Data, Field::Content))
            } else {
                Ok(
                    DataView {
                        path,
                        offset: u64_at(rest, 0),
                        flags: DataFlags::truncated(rest.skip(8)[0]),
                        data: rest.skip(13).take(u32_at(rest.skip(9), 0) as int),
                    },
                )
            },
        }
    }

    /// A payload is read back as the message it was written from.
    pub proof fn lemma_round_trip(self)
        requires
            self.encodable(),
        ensures
            Self::parse(self.payload()) == Ok::<_, DecodeError>(self),
    {
        broadcast use crate::wire::group_heads;

        crate::wire::lemma_widths();
        let n = self.data.len() as u32;
        let tail = self.data + Seq::<u8>::empty();
        let rest = be64(self.offset) + (be8(self.flags.bits) + (be32(n) + tail));
        assert(self.payload() =~= str_field(self.path) + rest);
        lemma_path_prefix(MessageType::Data, self.path, rest, 13);
        assert(rest.skip(8).skip(1) == be32(n) + tail);
        assert(rest.skip(9).skip(4) == tail);
        assert(tail.take(n as int) =~= self.data);
    }
}

impl Data {
    /// The message as a frame.
    pub fn encode(&self) -> (frame: Bytes)
        ensures
            contents(frame) == frame_bytes(MessageType::Data, self@.payload()),
    {
        let path = self.path.as_str();
        let data_len = bytes_len(&self.data);
        let mut buf = begin_frame(
            MessageType::Data,
            2 + path.as_bytes().len() as u128 + 13 + data_len as u128,
        );
        put_text(&mut buf, path);
        put_u64(&mut buf, self.offset);
        put_u8(&mut buf, self.flags.bits());
        put_u32(&mut buf, (data_len as u64 % 0x1_0000_0000) as u32);
        put_slice(&mut buf, as_slice(&self.data));
        proof {
            crate::wire::lemma_widths();
            assert(written(buf) =~= frame_bytes(MessageType::Data, self@.payload()));
        }
        freeze(buf)
    }

    /// Reads the message from a frame's payload.
    pub fn decode(payload: Bytes) -> (r: Result<Data, DecodeError>)
        ensures
            match r {
                Ok(m) => DataView::parse(contents(payload)) == Ok::<_, DecodeError>(m@),
                Err(e) => DataView::parse(contents(payload)) == Err::<DataView, _>(e),
            },
    {
        let mut payload = payload;
        let path = match take_path(MessageType::Data, &mut payload, 13) {
            Ok(path) => path,
            Err(e) => {
                return Err(e);
            },
        };
        let ghost rest = contents(payload);
        let offset = get_u64(&mut payload);
        let flags = DataFlags::from_bits_truncate(get_u8(&mut payload));
        let data_len = get_u32(&mut payload) as usize;
        proof {
            broadcast use crate::wire::lemma_skip_skip;

            assert(contents(payload) == rest.skip(13));
        }
        if remaining(&payload) < data_len {
            return Err(truncated(MessageType::Data, Field::Content));
        }
        let data = copy_to_bytes(&mut payload, data_len);
        Ok(Data { path, offset, flags, data })
    }
}

} // verus!
