//! The messages that open and close a session and report on it: `Hello`,
//! `Progress`, `Error`, `Fatal` and `Done`.

use crate::buffer::{
    contents, freeze, get_u16, get_u32, get_u64, put_u16, put_u32, put_u64, remaining, written,
};
use crate::streaming::flags::HelloFlags;
use crate::streaming::protocol::codec::{
    begin_frame, invalid_utf8, lemma_path_prefix, lemma_text_field, path_prefix, put_text,
    take_path, take_text, take_text_field, text_field, too_short, truncated,
};
use crate::streaming::protocol::{
    frame_bytes, DecodeError, Fault, Field, MessageType, PROTOCOL_VERSION,
};
use crate::wire::{be16, be32, be64, fits_u16, str_field, u16_at, u32_at, u64_at, utf8_text};
use bytes::Bytes;
use vstd::prelude::*;

verus! {

/// The first message of each side: the version spoken, what the session
/// asks for, and the root it is about.
#[derive(Debug, Clone)]
pub struct Hello {
    pub version: u16,
    pub flags: HelloFlags,
    pub root_path: String,
}

/// A `Hello` as a mathematical value.
pub ghost struct HelloView {
    pub version: u16,
    pub flags: HelloFlags,
    pub root_path: Seq<char>,
}

impl View for Hello {
    type V = HelloView;

    open spec fn view(&self) -> HelloView {
        HelloView { version: self.version, flags: self.flags, root_path: self.root_path@ }
    }
}

impl HelloView {
    /// The payload: `version: u16 | flags: u32 | path_len: u16 | path`.
    pub open spec fn payload(self) -> Seq<u8> {
        be16(self.version) + be32(self.flags.bits) + str_field(self.root_path)
    }

    /// Whether the payload holds all of this message: the path fits its
    /// length prefix and no flag without a meaning is set.
    pub open spec fn encodable(self) -> bool {
        fits_u16(self.root_path) && self.flags.valid()
    }

    /// The message that a payload holds, or the first thing wrong with it.
    /// Bytes behind the path are ignored.
    pub open spec fn parse(b: Seq<u8>) -> Result<HelloView, DecodeError> {
        if b.len() < 8 {
            Err(DecodeError::too_short(MessageType::Hello))
        } else if b.len() - 8 < u16_at(b, 6) {
            Err(DecodeError::truncated(MessageType::Hello, Field::Path))
        } else {
            match utf8_text(b.subrange(8, 8 + u16_at(b, 6))) {
                None => Err(DecodeError::invalid_utf8(MessageType::Hello, Field::Path)),
                Some(root_path) => Ok(
                    HelloView {
                        version: u16_at(b, 0),
                        flags: HelloFlags::truncated(u32_at(b, 2)),
                        root_path,
                    },
                ),
            }
        }
    }

    /// A payload is read back as the message it was written from.
    pub proof fn lemma_round_trip(self)
        requires
            self.encodable(),
        ensures
            Self::parse(self.payload()) == Ok::<_, DecodeError>(self),
    {
        let text = vstd::utf8::encode_utf8(self.root_path);
        let n = text.len() as u16;
        let b = self.payload();
        let e = Seq::<u8>::empty();
        crate::wire::lemma_widths();
        crate::wire::lemma_u16_at(
            e,
            self.version,
            be32(self.flags.bits) + str_field(self.root_path),
        );
        crate::wire::lemma_u32_at(be16(self.version), self.flags.bits, str_field(self.root_path));
        crate::wire::lemma_u16_at(be16(self.version) + be32(self.flags.bits), n, text);
        crate::wire::lemma_text_round_trip(self.root_path);
        assert(b =~= e + be16(self.version) + (be32(self.flags.bits) + str_field(self.root_path)));
        assert(b =~= be16(self.version) + be32(self.flags.bits) + be16(n) + text);
        assert(b.subrange(8, 8 + n) =~= text);
    }
}

impl Hello {
    /// A `Hello` of this library's protocol version.
    pub fn new(flags: HelloFlags, root_path: String) -> (r: Hello)
        ensures
            r@ == (HelloView { version: PROTOCOL_VERSION, flags, root_path: root_path@ }),
    {
        Hello { version: PROTOCOL_VERSION, flags, root_path }
    }

    /// Whether the client asks to pull.
    pub fn is_pull(&self) -> (r: bool)
        ensures
            r == self.flags.has(HelloFlags { bits: HelloFlags::PULL }),
    {
        self.flags.contains(HelloFlags::pull())
    }

    /// The message as a frame.
    pub fn encode(&self) -> (frame: Bytes)
        ensures
            contents(frame) == frame_bytes(MessageType::Hello, self@.payload()),
    {
        let path = self.root_path.as_str();
        let mut buf = begin_frame(MessageType::Hello, 8 + path.as_bytes().len() as u128);
        put_u16(&mut buf, self.version);
        put_u32(&mut buf, self.flags.bits());
        put_text(&mut buf, path);
        proof {
            crate::wire::lemma_widths();
            assert(self@.payload().len() == 8 + vstd::utf8::encode_utf8(path@).len());
            assert(written(buf) =~= frame_bytes(MessageType::Hello, self@.payload()));
        }
        freeze(buf)
    }

    /// Reads the message from a frame's payload.
    pub fn decode(payload: Bytes) -> (r: Result<Hello, DecodeError>)
        ensures
            match r {
                Ok(m) => HelloView::parse(contents(payload)) == Ok::<_, DecodeError>(m@),
                Err(e) => HelloView::parse(contents(payload)) == Err::<HelloView, _>(e),
            },
    {
        let ghost b = contents(payload);
        let mut payload = payload;
        if remaining(&payload) < 8 {
            return Err(
                DecodeError {
                    message: MessageType::Hello,
                    field: Field::Payload,
                    fault: Fault::TooShort,
                },
            );
        }
        let version = get_u16(&mut payload);
        let flags = HelloFlags::from_bits_truncate(get_u32(&mut payload));
        let path_len = get_u16(&mut payload) as usize;
        assert(contents(payload) =~= b.skip(8));
        if remaining(&payload) < path_len {
            return Err(
                DecodeError {
                    message: MessageType::Hello,
                    field: Field::Path,
                    fault: Fault::Truncated,
                },
            );
        }
        assert(b.skip(8).take(path_len as int) =~= b.subrange(8, 8 + path_len));
        let root_path = match take_text(&mut payload, path_len) {
            Some(s) => s,
            None => {
                return Err(
                    DecodeError {
                        message: MessageType::Hello,
                        field: Field::Path,
                        fault: Fault::InvalidUtf8,
                    },
                );
            },
        };
        Ok(Hello { version, flags, root_path })
    }
}

/// The last message of a session: what was done.
#[derive(Debug, Clone, Copy, PartialEq, Eq, Structural)]
pub struct Done {
    pub files_ok: u64,
    pub files_err: u64,
    pub bytes: u64,
    pub duration_ms: u64,
}

impl Done {
    /// The payload: `files_ok: u64 | files_err: u64 | bytes: u64 |
    /// duration_ms: u64`.
    pub open spec fn payload(self) -> Seq<u8> {
        be64(self.files_ok) + be64(self.files_err) + be64(self.bytes) + be64(self.duration_ms)
    }

    /// The message that a payload holds, or what is wrong with it. Bytes
    /// behind the fourth number are ignored.
    pub open spec fn parse(b: Seq<u8>) -> Result<Done, DecodeError> {
        if b.len() < 32 {
            Err(DecodeError::too_short(MessageType::Done))
        } else {
            Ok(
                Done {
                    files_ok: u64_at(b, 0),
                    files_err: u64_at(b, 8),
                    bytes: u64_at(b, 16),
                    duration_ms: u64_at(b, 24),
                },
            )
        }
    }

    /// A payload is read back as the message it was written from.
    pub proof fn lemma_round_trip(self)
        ensures
            Self::parse(self.payload()) == Ok::<_, DecodeError>(self),
    {
        broadcast use crate::wire::group_heads;

        let b = self.payload();
        assert(b =~= be64(self.files_ok) + (be64(self.files_err) + (be64(self.bytes) + (be64(
            self.duration_ms,
        ) + Seq::<u8>::empty()))));
        assert(u64_at(b.skip(8), 0) == self.files_err);
        assert(u64_at(b.skip(8).skip(8), 0) == self.bytes);
        assert(u64_at(b.skip(8).skip(8).skip(8), 0) == self.duration_ms);
    }

    /// The message as a frame.
    pub fn encode(&self) -> (frame: Bytes)
        ensures
            contents(frame) == frame_bytes(MessageType::Done, self.payload()),
    {
        let mut buf = begin_frame(MessageType::Done, 32);
        put_u64(&mut buf, self.files_ok);
        put_u64(&mut buf, self.files_err);
        put_u64(&mut buf, self.bytes);
        put_u64(&mut buf, self.duration_ms);
        proof {
            crate::wire::lemma_widths();
            assert(written(buf) =~= frame_bytes(MessageType::Done, self.payload()));
        }
        freeze(buf)
    }

    /// Reads the message from a frame's payload.
    pub fn decode(payload: Bytes) -> (r: Result<Done, DecodeError>)
        ensures
            r == Self::parse(contents(payload)),
    {
        let mut payload = payload;
        if remaining(&payload) < 32 {
            return Err(too_short(MessageType::Done));
        }
        let files_ok = get_u64(&mut payload);
        let files_err = get_u64(&mut payload);
        let bytes = get_u64(&mut payload);
        let duration_ms = get_u64(&mut payload);
        Ok(Done { files_ok, files_err, bytes, duration_ms })
    }
}

/// How far a transfer has come.
#[derive(Debug, Clone, Copy, PartialEq, Eq, Structural)]
pub struct Progress {
    pub files: u64,
    pub bytes: u64,
    pub files_total: u64,
    pub bytes_total: u64,
}

impl Progress {
    /// The payload: `files: u64 | bytes: u64 | files_total: u64 | bytes_total: u64`.
    pub open spec fn payload(self) -> Seq<u8> {
        be64(self.files) + be64(self.bytes) + be64(self.files_total) + be64(self.bytes_total)
    }

    /// The message that a payload holds, or what is wrong with it. Bytes
    /// behind the last number are ignored.
    pub open spec fn parse(b: Seq<u8>) -> Result<Progress, DecodeError> {
        if b.len() < 32 {
            Err(DecodeError::too_short(MessageType::Progress))
        } else {
            Ok(
                Progress {
                    files: u64_at(b, 0),
                    bytes: u64_at(b, 8),
                    files_total: u64_at(b, 16),
                    bytes_total: u64_at(b, 24),
                },
            )
        }
    }

    /// A payload is read back as the message it was written from.
    pub proof fn lemma_round_trip(self)
        ensures
            Self::parse(self.payload()) == Ok::<_, DecodeError>(self),
    {
        broadcast use crate::wire::group_heads;

        let b = self.payload();
        assert(b =~= be64(self.files) + (be64(self.bytes) + (be64(self.files_total) + (be64(
            self.bytes_total,
        ) + Seq::<u8>::empty()))));
        assert(u64_at(b.skip(8), 0) == self.bytes);
        assert(u64_at(b.skip(8).skip(8), 0) == self.files_total);
        assert(u64_at(b.skip(8).skip(8).skip(8), 0) == self.bytes_total);
    }

    /// The message as a frame.
    pub fn encode(&self) -> (frame: Bytes)
        ensures
            contents(frame) == frame_bytes(MessageType::Progress, self.payload()),
    {
        let mut buf = begin_frame(MessageType::Progress, 32);
        put_u64(&mut buf, self.files);
        put_u64(&mut buf, self.bytes);
        put_u64(&mut buf, self.files_total);
        put_u64(&mut buf, self.bytes_total);
        proof {
            crate::wire::lemma_widths();
            assert(written(buf) =~= frame_bytes(MessageType::Progress, self.payload()));
        }
        freeze(buf)
    }

    /// Reads the message from a frame's payload.
    pub fn decode(payload: Bytes) -> (r: Result<Progress, DecodeError>)
        ensures
            r == Self::parse(contents(payload)),
    {
        let mut payload = payload;
        if remaining(&payload) < 32 {
            return Err(too_short(MessageType::Progress));
        }
        let files = get_u64(&mut payload);
        let bytes = get_u64(&mut payload);
        let files_total = get_u64(&mut payload);
        let bytes_total = get_u64(&mut payload);
        Ok(Progress { files, bytes, files_total, bytes_total })
    }
}

/// A file that could not be transferred; the session goes on.
#[derive(Debug, Clone)]
pub struct Error {
    pub path: String,
    pub code: u16,
    pub message: String,
}

/// An `Error` as a mathematical value.
pub ghost struct ErrorView {
    pub path: Seq<char>,
    pub code: u16,
    pub message: Seq<char>,
}

impl View for Error {
    type V = ErrorView;

    open spec fn view(&self) -> ErrorView {
        ErrorView { path: self.path@, code: self.code, message: self.message@ }
    }
}

impl ErrorView {
    /// The payload: `path | code: u16 | message`, path and message each a
    /// length-prefixed string.
    pub open spec fn payload(self) -> Seq<u8> {
        str_field(self.path) + be16(self.code) + str_field(self.message)
    }

    /// Whether the payload holds all of this message: each string fits its
    /// length prefix.
    pub open spec fn encodable(self) -> bool {
        fits_u16(self.path) && fits_u16(self.message)
    }

    /// The message that a payload holds, or the first thing wrong with it.
    /// Bytes behind the message text are ignored.
    pub open spec fn parse(b: Seq<u8>) -> Result<ErrorView, DecodeError> {
        match path_prefix(MessageType::Error, b, 4) {
            Err(e) => Err(e),
            Ok((path, rest)) => match text_field(MessageType::Error, Field::Message, rest.skip(2)) {
                Err(e) => Err(e),
                Ok((message, _)) => Ok(ErrorView { path, code: u16_at(rest, 0), message }),
            },
        }
    }

    /// A payload is read back as the message it was written from.
    pub proof fn lemma_round_trip(self)
        requires
            self.encodable(),
        ensures
            Self::parse(self.payload()) == Ok::<_, DecodeError>(self),
    {
        broadcast use crate::wire::group_heads;

        crate::wire::lemma_widths();
        let tail = str_field(self.message) + Seq::<u8>::empty();
        let rest = be16(self.code) + tail;
        assert(self.payload() =~= str_field(self.path) + rest);
        lemma_text_field(MessageType::Error, Field::Message, self.message, Seq::<u8>::empty());
        lemma_path_prefix(MessageType::Error, self.path, rest, 4);
    }
}

impl Error {
    /// The message as a frame.
    pub fn encode(&self) -> (frame: Bytes)
        ensures
            contents(frame) == frame_bytes(MessageType::Error, self@.payload()),
    {
        let path = self.path.as_str();
        let message = self.message.as_str();
        let mut buf = begin_frame(
            MessageType::Error,
            2 + path.as_bytes().len() as u128 + 4 + message.as_bytes().len() as u128,
        );
        put_text(&mut buf, path);
        put_u16(&mut buf, self.code);
        put_text(&mut buf, message);
        proof {
            crate::wire::lemma_widths();
            assert(written(buf) =~= frame_bytes(MessageType::Error, self@.payload()));
        }
        freeze(buf)
    }

    /// Reads the message from a frame's payload.
    pub fn decode(payload: Bytes) -> (r: Result<Error, DecodeError>)
        ensures
            match r {
                Ok(m) => ErrorView::parse(contents(payload)) == Ok::<_, DecodeError>(m@),
                Err(e) => ErrorView::parse(contents(payload)) == Err::<ErrorView, _>(e),
            },
    {
        let mut payload = payload;
        let path = match take_path(MessageType::Error, &mut payload, 4) {
            Ok(path) => path,
            Err(e) => {
                return Err(e);
            },
        };
        let code = get_u16(&mut payload);
        let message = match take_text_field(MessageType::Error, Field::Message, &mut payload) {
            Ok(message) => message,
            Err(e) => {
                return Err(e);
            },
        };
        Ok(Error { path, code, message })
    }
}

/// A failure that ends the session.
#[derive(Debug, Clone)]
pub struct Fatal {
    pub code: u16,
    pub message: String,
}

/// A `Fatal` as a mathematical value.
pub ghost struct FatalView {
    pub code: u16,
    pub message: Seq<char>,
}

impl View for Fatal {
    type V = FatalView;

    open spec fn view(&self) -> FatalView {
        FatalView { code: self.code, message: self.message@ }
    }
}

impl FatalView {
    /// The payload: `code: u16 | message`, the message a length-prefixed
    /// string.
    pub open spec fn payload(self) -> Seq<u8> {
        be16(self.code) + str_field(self.message)
    }

    /// Whether the payload holds all of this message: the text fits its
    /// length prefix.
    pub open spec fn encodable(self) -> bool {
        fits_u16(self.message)
    }

    /// The message that a payload holds, or the first thing wrong with it.
    /// Bytes behind the message text are ignored.
    pub open spec fn parse(b: Seq<u8>) -> Result<FatalView, DecodeError> {
        if b.len() < 4 {
            Err(DecodeError::too_short(MessageType::Fatal))
        } else {
            match text_field(MessageType::Fatal, Field::Message, b.skip(2)) {
                Err(e) => Err(e),
                Ok((message, _)) => Ok(FatalView { code: u16_at(b, 0), message }),
            }
        }
    }

    /// A payload is read back as the message it was written from.
    pub proof fn lemma_round_trip(self)
        requires
            self.encodable(),
        ensures
            Self::parse(self.payload()) == Ok::<_, DecodeError>(self),
    {
        broadcast use crate::wire::group_heads;

        crate::wire::lemma_widths();
        let tail = str_field(self.message) + Seq::<u8>::empty();
        assert(self.payload() =~= be16(self.code) + tail);
        lemma_text_field(MessageType::Fatal, Field::Message, self.message, Seq::<u8>::empty());
    }
}

impl Fatal {
    /// The message as a frame.
    pub fn encode(&self) -> (frame: Bytes)
        ensures
            contents(frame) == frame_bytes(MessageType::Fatal, self@.payload()),
    {
        let message = self.message.as_str();
        let mut buf = begin_frame(MessageType::Fatal, 4 + message.as_bytes().len() as u128);
        put_u16(&mut buf, self.code);
        put_text(&mut buf, message);
        proof {
            crate::wire::lemma_widths();
            assert(written(buf) =~= frame_bytes(MessageType::Fatal, self@.payload()));
        }
        freeze(buf)
    }

    /// Reads the message from a frame's payload.
    pub fn decode(payload: Bytes) -> (r: Result<Fatal, DecodeError>)
        ensures
            match r {
                Ok(m) => FatalView::parse(contents(payload)) == Ok::<_, DecodeError>(m@),
                Err(e) => FatalView::parse(contents(payload)) == Err::<FatalView, _>(e),
            },
    {
        let mut payload = payload;
        if remaining(&payload) < 4 {
            return Err(too_short(MessageType::Fatal));
        }
        let code = get_u16(&mut payload);
        let message = match take_text_field(MessageType::Fatal, Field::Message, &mut payload) {
            Ok(message) => message,
            Err(e) => {
                return Err(e);
            },
        };
        Ok(Fatal { code, message })
    }
}

} // verus!
