//! The messages of protocol version 2 and their framing.
//!
//! A frame is `length: u32 | type: u8 | payload`, where `length` counts the
//! payload alone. Integers are big-endian; a string is a `u16` length and
//! that many bytes of UTF-8.

pub mod codec;
pub mod control;
pub mod entries;
pub mod transfer;
pub mod xattr;

pub use crate::streaming::flags::{DataFlags, DestFileFlags, FileFlags, HelloFlags};
pub use control::{Done, Error, ErrorView, Fatal, FatalView, Hello, HelloView, Progress};
pub use entries::{
    table_at, table_bytes, BlockChecksum, DestFileEnd, DestFileEntry, DestFileEntryView, FileEnd,
    FileEntry, FileEntryView,
};
pub use xattr::{Xattr, XattrEntry, XattrEntryView, XattrView};
pub use transfer::{
    Data, DataEnd, DataEndView, DataView, Delete, DeleteEnd, DeleteView, Mkdir, MkdirView, Symlink,
    SymlinkView,
};

use crate::buffer::{
    as_slice, contents, copy_to_bytes, get_u32, get_u8, put_slice, remaining, written,
};
use crate::wire::{be32, u32_at};
use bytes::{Bytes, BytesMut};
use vstd::prelude::*;
use vstd::string::StringExecFns;

verus! {

/// The version this library speaks.
pub const PROTOCOL_VERSION: u16 = 2;

/// The request-response protocol that came before; no longer spoken.
pub const PROTOCOL_VERSION_V1: u16 = 1;

/// The oldest version a peer may offer.
pub const PROTOCOL_VERSION_MIN: u16 = 2;

/// The newest version a peer may offer.
pub const PROTOCOL_VERSION_MAX: u16 = 2;

/// The code of a `Fatal` that answers a breach of the protocol.
pub const FATAL_PROTOCOL: u16 = 1;

/// The longest payload a frame may announce: 64 MiB.
pub const MAX_FRAME_SIZE: u32 = 0x400_0000;

/// The kinds of message, each with its code on the wire.
#[derive(Clone, Copy, Debug, PartialEq, Eq, Structural)]
pub enum MessageType {
    Hello,
    FileEntry,
    FileEnd,
    DestFileEntry,
    DestFileEnd,
    Data,
    DataEnd,
    Delete,
    DeleteEnd,
    Mkdir,
    Symlink,
    Progress,
    Error,
    Fatal,
    Xattr,
    Done,
}

impl MessageType {
    /// The byte that stands for this kind of message in a frame.
    pub open spec fn code(self) -> u8 {
        match self {
            MessageType::Hello => 0x01,
            MessageType::FileEntry => 0x02,
            MessageType::FileEnd => 0x03,
            MessageType::DestFileEntry => 0x04,
            MessageType::DestFileEnd => 0x05,
            MessageType::Data => 0x06,
            MessageType::DataEnd => 0x07,
            MessageType::Delete => 0x08,
            MessageType::DeleteEnd => 0x09,
            MessageType::Mkdir => 0x0A,
            MessageType::Symlink => 0x0B,
            MessageType::Progress => 0x0C,
            MessageType::Error => 0x0D,
            MessageType::Fatal => 0x0E,
            MessageType::Xattr => 0x0F,
            MessageType::Done => 0x10,
        }
    }

    /// Whether some kind of message has the code `b`.
    pub open spec fn known(b: u8) -> bool {
        1 <= b <= 0x10
    }

    /// The kind of message that the byte `b` stands for, if any.
    pub fn from_u8(b: u8) -> (r: Option<MessageType>)
        ensures
            r is Some <==> Self::known(b),
            r matches Some(t) ==> t.code() == b,
    {
        match b {
            0x01 => Some(MessageType::Hello),
            0x02 => Some(MessageType::FileEntry),
            0x03 => Some(MessageType::FileEnd),
            0x04 => Some(MessageType::DestFileEntry),
            0x05 => Some(MessageType::DestFileEnd),
            0x06 => Some(MessageType::Data),
            0x07 => Some(MessageType::DataEnd),
            0x08 => Some(MessageType::Delete),
            0x09 => Some(MessageType::DeleteEnd),
            0x0A => Some(MessageType::Mkdir),
            0x0B => Some(MessageType::Symlink),
            0x0C => Some(MessageType::Progress),
            0x0D => Some(MessageType::Error),
            0x0E => Some(MessageType::Fatal),
            0x0F => Some(MessageType::Xattr),
            0x10 => Some(MessageType::Done),
            _ => None,
        }
    }

    /// The byte that stands for this kind of message in a frame.
    pub fn to_u8(self) -> (b: u8)
        ensures
            b == self.code(),
    {
        match self {
            MessageType::Hello => 0x01,
            MessageType::FileEntry => 0x02,
            MessageType::FileEnd => 0x03,
            MessageType::DestFileEntry => 0x04,
            MessageType::DestFileEnd => 0x05,
            MessageType::Data => 0x06,
            MessageType::DataEnd => 0x07,
            MessageType::Delete => 0x08,
            MessageType::DeleteEnd => 0x09,
            MessageType::Mkdir => 0x0A,
            MessageType::Symlink => 0x0B,
            MessageType::Progress => 0x0C,
            MessageType::Error => 0x0D,
            MessageType::Fatal => 0x0E,
            MessageType::Xattr => 0x0F,
            MessageType::Done => 0x10,
        }
    }

    /// Every kind of message has a known code, and no two kinds share one.
    pub proof fn lemma_codes_distinct(a: MessageType, b: MessageType)
        ensures
            Self::known(a.code()),
            a.code() == b.code() ==> a == b,
    {
    }
}

/// Why a single file could not be transferred.
#[derive(Clone, Copy, Debug, PartialEq, Eq, Structural)]
pub enum ErrorCode {
    IoError,
    PermissionDenied,
    NotFound,
    ChecksumMismatch,
    DiskFull,
}

impl ErrorCode {
    /// The number that stands for this error on the wire.
    pub open spec fn code(self) -> u16 {
        match self {
            ErrorCode::IoError => 1,
            ErrorCode::PermissionDenied => 2,
            ErrorCode::NotFound => 3,
            ErrorCode::ChecksumMismatch => 4,
            ErrorCode::DiskFull => 5,
        }
    }

    /// The error that the number `v` stands for, if any.
    pub fn from_u16(v: u16) -> (r: Option<ErrorCode>)
        ensures
            r is Some <==> 1 <= v <= 5,
            r matches Some(e) ==> e.code() == v,
    {
        match v {
            1 => Some(ErrorCode::IoError),
            2 => Some(ErrorCode::PermissionDenied),
            3 => Some(ErrorCode::NotFound),
            4 => Some(ErrorCode::ChecksumMismatch),
            5 => Some(ErrorCode::DiskFull),
            _ => None,
        }
    }

    /// The number that stands for this error on the wire.
    pub fn to_u16(self) -> (v: u16)
        ensures
            v == self.code(),
    {
        match self {
            ErrorCode::IoError => 1,
            ErrorCode::PermissionDenied => 2,
            ErrorCode::NotFound => 3,
            ErrorCode::ChecksumMismatch => 4,
            ErrorCode::DiskFull => 5,
        }
    }
}

/// The part of a payload that a decoder was reading when it gave up.
#[derive(Clone, Copy, Debug, PartialEq, Eq, Structural)]
pub enum Field {
    /// The payload as a whole: its fixed-size fields.
    Payload,
    Path,
    SymlinkTargetLength,
    SymlinkTarget,
    LinkTargetLength,
    LinkTarget,
    ChecksumHeader,
    Checksums,
    Content,
    Target,
    Message,
    EntryNameLength,
    EntryName,
    EntryValue,
}

/// What was wrong with the bytes of a field.
#[derive(Clone, Copy, Debug, PartialEq, Eq, Structural)]
pub enum Fault {
    /// The payload ends before the first length could be read.
    TooShort,
    /// The payload ends before the field does.
    Truncated,
    /// The bytes of a string are not UTF-8.
    InvalidUtf8,
}

/// A payload that is not a well-formed message: which message, which field,
/// and what was wrong with it.
#[derive(Clone, Copy, Debug, PartialEq, Eq, Structural)]
pub struct DecodeError {
    pub message: MessageType,
    pub field: Field,
    pub fault: Fault,
}

impl DecodeError {
    /// The error of a payload too short for its first length.
    pub open spec fn too_short(message: MessageType) -> DecodeError {
        DecodeError { message, field: Field::Payload, fault: Fault::TooShort }
    }

    /// The error of a payload that ends inside `field`.
    pub open spec fn truncated(message: MessageType, field: Field) -> DecodeError {
        DecodeError { message, field, fault: Fault::Truncated }
    }

    /// The error of a string field that is not UTF-8.
    pub open spec fn invalid_utf8(message: MessageType, field: Field) -> DecodeError {
        DecodeError { message, field, fault: Fault::InvalidUtf8 }
    }
}

impl MessageType {
    /// The name of this kind of message, as it is written for people.
    pub open spec fn name(self) -> Seq<char> {
        match self {
            MessageType::Hello => "Hello"@,
            MessageType::FileEntry => "FileEntry"@,
            MessageType::FileEnd => "FileEnd"@,
            MessageType::DestFileEntry => "DestFileEntry"@,
            MessageType::DestFileEnd => "DestFileEnd"@,
            MessageType::Data => "Data"@,
            MessageType::DataEnd => "DataEnd"@,
            MessageType::Delete => "Delete"@,
            MessageType::DeleteEnd => "DeleteEnd"@,
            MessageType::Mkdir => "Mkdir"@,
            MessageType::Symlink => "Symlink"@,
            MessageType::Progress => "Progress"@,
            MessageType::Error => "Error"@,
            MessageType::Fatal => "Fatal"@,
            MessageType::Xattr => "Xattr"@,
            MessageType::Done => "Done"@,
        }
    }

    /// The name of this kind of message.
    pub fn as_str(self) -> (r: &'static str)
        ensures
            r@ == self.name(),
    {
        match self {
            MessageType::Hello => "Hello",
            MessageType::FileEntry => "FileEntry",
            MessageType::FileEnd => "FileEnd",
            MessageType::DestFileEntry => "DestFileEntry",
            MessageType::DestFileEnd => "DestFileEnd",
            MessageType::Data => "Data",
            MessageType::DataEnd => "DataEnd",
            MessageType::Delete => "Delete",
            MessageType::DeleteEnd => "DeleteEnd",
            MessageType::Mkdir => "Mkdir",
            MessageType::Symlink => "Symlink",
            MessageType::Progress => "Progress",
            MessageType::Error => "Error",
            MessageType::Fatal => "Fatal",
            MessageType::Xattr => "Xattr",
            MessageType::Done => "Done",
        }
    }
}

impl Field {
    /// The name of the field, as it is written for people.
    pub open spec fn name(self) -> Seq<char> {
        match self {
            Field::Payload => "payload"@,
            Field::Path => "path"@,
            Field::SymlinkTargetLength => "symlink target length"@,
            Field::SymlinkTarget => "symlink target"@,
            Field::LinkTargetLength => "hardlink target length"@,
            Field::LinkTarget => "hardlink target"@,
            Field::ChecksumHeader => "checksum header"@,
            Field::Checksums => "checksums"@,
            Field::Content => "content"@,
            Field::Target => "target"@,
            Field::Message => "message"@,
            Field::EntryNameLength => "entry name length"@,
            Field::EntryName => "entry name"@,
            Field::EntryValue => "entry value"@,
        }
    }

    /// The name of the field.
    pub fn as_str(self) -> (r: &'static str)
        ensures
            r@ == self.name(),
    {
        match self {
            Field::Payload => "payload",
            Field::Path => "path",
            Field::SymlinkTargetLength => "symlink target length",
            Field::SymlinkTarget => "symlink target",
            Field::LinkTargetLength => "hardlink target length",
            Field::LinkTarget => "hardlink target",
            Field::ChecksumHeader => "checksum header",
            Field::Checksums => "checksums",
            Field::Content => "content",
            Field::Target => "target",
            Field::Message => "message",
            Field::EntryNameLength => "entry name length",
            Field::EntryName => "entry name",
            Field::EntryValue => "entry value",
        }
    }
}

impl Fault {
    /// What was wrong, as it is written for people.
    pub open spec fn name(self) -> Seq<char> {
        match self {
            Fault::TooShort => "too short"@,
            Fault::Truncated => "truncated"@,
            Fault::InvalidUtf8 => "not valid UTF-8"@,
        }
    }

    /// What was wrong.
    pub fn as_str(self) -> (r: &'static str)
        ensures
            r@ == self.name(),
    {
        match self {
            Fault::TooShort => "too short",
            Fault::Truncated => "truncated",
            Fault::InvalidUtf8 => "not valid UTF-8",
        }
    }
}

impl DecodeError {
    /// The error in words: the message, the field, and what was wrong with
    /// it.
    pub open spec fn text(self) -> Seq<char> {
        self.message.name() + " "@ + self.field.name() + " "@ + self.fault.name()
    }

    /// The error in words, such as `Hello path truncated`.
    pub fn describe(&self) -> (r: String)
        ensures
            r@ == self.text(),
    {
        let mut r = String::from_str(self.message.as_str());
        r.append(" ");
        r.append(self.field.as_str());
        r.append(" ");
        r.append(self.fault.as_str());
        r
    }
}

/// What became of a peer's protocol version.
#[derive(Clone, Copy, Debug, PartialEq, Eq, Structural)]
pub enum VersionNegotiationResult {
    /// The version is spoken here.
    Supported(u16),
    /// The peer is too old.
    TooOld { client: u16, min_supported: u16 },
    /// The peer is too new.
    TooNew { client: u16, max_supported: u16 },
}

/// Decides whether a peer's protocol version is spoken here.
pub fn negotiate_version(client_version: u16) -> (r: VersionNegotiationResult)
    ensures
        r == if client_version < PROTOCOL_VERSION_MIN {
            VersionNegotiationResult::TooOld {
                client: client_version,
                min_supported: PROTOCOL_VERSION_MIN,
            }
        } else if client_version > PROTOCOL_VERSION_MAX {
            VersionNegotiationResult::TooNew {
                client: client_version,
                max_supported: PROTOCOL_VERSION_MAX,
            }
        } else {
            VersionNegotiationResult::Supported(client_version)
        },
{
    if client_version < PROTOCOL_VERSION_MIN {
        VersionNegotiationResult::TooOld {
            client: client_version,
            min_supported: PROTOCOL_VERSION_MIN,
        }
    } else if client_version > PROTOCOL_VERSION_MAX {
        VersionNegotiationResult::TooNew {
            client: client_version,
            max_supported: PROTOCOL_VERSION_MAX,
        }
    } else {
        VersionNegotiationResult::Supported(client_version)
    }
}

/// Only version 2 is supported: every other version is too old or too new.
pub proof fn lemma_only_version_two(v: u16)
    ensures
        (v == 2) <==> !(v < PROTOCOL_VERSION_MIN) && !(v > PROTOCOL_VERSION_MAX),
{
}

/// Whether `version` belongs to the streaming protocol.
pub fn is_streaming_protocol(version: u16) -> (r: bool)
    ensures
        r == (version >= 2),
{
    version >= 2
}

/// Whether `version` belongs to the request-response protocol.
pub fn is_legacy_protocol(version: u16) -> (r: bool)
    ensures
        r == (version == 1),
{
    version == 1
}

/// A frame: the payload's length, the message's code, the payload. A length
/// that does not fit the `u32` is reduced modulo 2^32.
pub open spec fn frame_bytes(t: MessageType, payload: Seq<u8>) -> Seq<u8> {
    codec::frame_head(t, payload.len() as int) + payload
}

/// Why no frame could be taken from a buffer.
#[derive(Clone, Copy, Debug, PartialEq, Eq, Structural)]
pub enum FrameError {
    /// Fewer than four bytes: no length.
    LengthMissing,
    /// The length announced is above `MAX_FRAME_SIZE`.
    TooLarge(u32),
    /// No byte after the length: no message type.
    TypeMissing,
    /// No kind of message has this code.
    UnknownType(u8),
    /// Fewer bytes than the length announced.
    PayloadMissing,
}

impl FrameError {
    /// The error in words.
    pub open spec fn text(self) -> Seq<char> {
        match self {
            FrameError::LengthMissing => "frame length missing"@,
            FrameError::TooLarge(_) => "frame exceeds maximum allowed size"@,
            FrameError::TypeMissing => "message type missing"@,
            FrameError::UnknownType(_) => "unknown message type"@,
            FrameError::PayloadMissing => "frame payload missing"@,
        }
    }

    /// The error in words.
    pub fn describe(&self) -> (r: &'static str)
        ensures
            r@ == self.text(),
    {
        match self {
            FrameError::LengthMissing => "frame length missing",
            FrameError::TooLarge(_) => "frame exceeds maximum allowed size",
            FrameError::TypeMissing => "message type missing",
            FrameError::UnknownType(_) => "unknown message type",
            FrameError::PayloadMissing => "frame payload missing",
        }
    }
}

/// The first frame of `b`: its kind and its payload; or why there is none.
/// The length is judged before anything behind it is looked at.
pub open spec fn first_frame(b: Seq<u8>) -> Result<(MessageType, Seq<u8>), FrameError> {
    if b.len() < 4 {
        Err(FrameError::LengthMissing)
    } else if u32_at(b, 0) > MAX_FRAME_SIZE {
        Err(FrameError::TooLarge(u32_at(b, 0)))
    } else if b.len() < 5 {
        Err(FrameError::TypeMissing)
    } else if !MessageType::known(b[4]) {
        Err(FrameError::UnknownType(b[4]))
    } else if b.len() - 5 < u32_at(b, 0) {
        Err(FrameError::PayloadMissing)
    } else {
        Ok((choose|t: MessageType| t.code() == b[4], b.subrange(5, 5 + u32_at(b, 0))))
    }
}

/// How many bytes of `b` have been read when `first_frame(b)` is decided.
pub open spec fn frame_read(b: Seq<u8>) -> int {
    match first_frame(b) {
        Ok((_, payload)) => 5 + payload.len() as int,
        Err(FrameError::LengthMissing) => 0,
        Err(FrameError::TooLarge(_)) => 4,
        Err(FrameError::TypeMissing) => 4,
        Err(FrameError::UnknownType(_)) => 5,
        Err(FrameError::PayloadMissing) => 5,
    }
}

/// Judges the length that a frame announces, before any payload is read or
/// room for it is made: a length above `MAX_FRAME_SIZE` is refused.
pub fn check_frame_length(len: u32) -> (r: Result<usize, FrameError>)
    ensures
        len > MAX_FRAME_SIZE <==> r is Err,
        r matches Err(e) ==> e == FrameError::TooLarge(len),
        r matches Ok(n) ==> n == len,
{
    if len > MAX_FRAME_SIZE {
        Err(FrameError::TooLarge(len))
    } else {
        Ok(len as usize)
    }
}

/// Takes one frame from the front of `src`: its kind and its payload. The
/// length is checked against `MAX_FRAME_SIZE` before the rest is touched. On
/// failure `src` is left where reading stopped.
pub fn read_frame(src: &mut Bytes) -> (r: Result<(MessageType, Bytes), FrameError>)
    ensures
        match r {
            Ok((t, payload)) => first_frame(contents(*old(src))) == Ok::<_, FrameError>(
                (t, contents(payload)),
            ),
            Err(e) => first_frame(contents(*old(src))) == Err::<(MessageType, Seq<u8>), _>(e),
        },
        contents(*final(src)) == contents(*old(src)).skip(frame_read(contents(*old(src)))),
{
    let ghost b = contents(*src);
    if remaining(src) < 4 {
        assert(b.skip(0) =~= b);
        return Err(FrameError::LengthMissing);
    }
    let len = get_u32(src);
    let n = match check_frame_length(len) {
        Ok(n) => n,
        Err(e) => {
            return Err(e);
        },
    };
    if remaining(src) < 1 {
        return Err(FrameError::TypeMissing);
    }
    let code = get_u8(src);
    assert(contents(*src) =~= b.skip(5));
    let t = match MessageType::from_u8(code) {
        Some(t) => t,
        None => {
            return Err(FrameError::UnknownType(code));
        },
    };
    if remaining(src) < n {
        return Err(FrameError::PayloadMissing);
    }
    let payload = copy_to_bytes(src, n);
    proof {
        let t2 = choose|t2: MessageType| t2.code() == b[4];
        MessageType::lemma_codes_distinct(t, t2);
        assert(contents(payload) =~= b.subrange(5, 5 + len));
        assert(contents(*src) =~= b.skip(5 + len));
    }
    Ok((t, payload))
}

/// Appends a finished frame to an outgoing buffer, whole and unchanged.
pub fn write_frame(out: &mut BytesMut, frame: &Bytes)
    ensures
        written(*final(out)) == written(*old(out)) + contents(*frame),
{
    put_slice(out, as_slice(frame));
}

/// A frame of at most `MAX_FRAME_SIZE` bytes of payload is read back as it
/// was written, whatever follows it.
pub proof fn lemma_frame_round_trip(t: MessageType, payload: Seq<u8>, rest: Seq<u8>)
    requires
        payload.len() <= MAX_FRAME_SIZE,
    ensures
        first_frame(frame_bytes(t, payload) + rest) == Ok::<_, FrameError>((t, payload)),
        frame_read(frame_bytes(t, payload) + rest) == frame_bytes(t, payload).len(),
{
    let n = (payload.len() % 0x1_0000_0000) as u32;
    let b = frame_bytes(t, payload) + rest;
    crate::wire::lemma_u32_at(Seq::<u8>::empty(), n, seq![t.code()] + payload + rest);
    crate::wire::lemma_widths();
    assert(b =~= Seq::<u8>::empty() + be32(n) + (seq![t.code()] + payload + rest));
    assert(b[4] == t.code());
    let t2 = choose|t2: MessageType| t2.code() == b[4];
    MessageType::lemma_codes_distinct(t, t2);
    assert(b.subrange(5, 5 + n) =~= payload);
}

/// An announced length above `MAX_FRAME_SIZE` is refused, whatever else the
/// buffer holds.
pub proof fn lemma_oversized_frame_refused(b: Seq<u8>)
    requires
        b.len() >= 4,
        u32_at(b, 0) > MAX_FRAME_SIZE,
    ensures
        first_frame(b) == Err::<(MessageType, Seq<u8>), _>(FrameError::TooLarge(u32_at(b, 0))),
        frame_read(b) == 4,
{
}

} // verus!
