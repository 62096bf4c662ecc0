//! What every encoder and decoder shares: the frame header and the
//! length-prefixed string.

use crate::buffer::{
    as_slice, buf_with_capacity, contents, copy_to_bytes, put_slice, put_u16, put_u32, put_u8,
    string_from_utf8, written,
};
use crate::buffer::{get_u16, remaining};
use crate::streaming::protocol::{DecodeError, Fault, Field, MessageType};
use crate::wire::{be32, fits_u16, str_field, u16_at, utf8_text};
use bytes::{Bytes, BytesMut};
use vstd::prelude::*;
use vstd::slice::slice_to_vec;

verus! {

/// The first five bytes of a frame whose payload will be `payload_len` long.
pub open spec fn frame_head(t: MessageType, payload_len: int) -> Seq<u8> {
    be32((payload_len % 0x1_0000_0000) as u32) + seq![t.code()]
}

/// Starts a frame: a buffer that holds the length and the message's code.
/// The length is written before the payload, so the buffer is sized once.
pub(crate) fn begin_frame(t: MessageType, payload_len: u128) -> (buf: BytesMut)
    ensures
        written(buf) == frame_head(t, payload_len as int),
{
    let capacity: usize = if payload_len <= 0x400_0000 {
        5 + payload_len as usize
    } else {
        0
    };
    let mut buf = buf_with_capacity(capacity);
    put_u32(&mut buf, (payload_len % 0x1_0000_0000) as u32);
    put_u8(&mut buf, t.to_u8());
    assert(written(buf) =~= frame_head(t, payload_len as int));
    buf
}

/// Appends a string: its length in bytes as a `u16`, then its UTF-8 bytes.
pub(crate) fn put_text(buf: &mut BytesMut, s: &str)
    ensures
        written(*final(buf)) == written(*old(buf)) + str_field(s@),
{
    let b = s.as_bytes();
    put_u16(buf, (b.len() % 0x1_0000) as u16);
    put_slice(buf, b);
    assert(written(*buf) =~= written(*old(buf)) + str_field(s@));
}

/// Takes the next `len` bytes as a string; `None` where they are not UTF-8.
/// The bytes are consumed either way.
pub(crate) fn take_text(payload: &mut Bytes, len: usize) -> (text: Option<String>)
    requires
        len <= contents(*old(payload)).len(),
    ensures
        contents(*final(payload)) == contents(*old(payload)).skip(len as int),
        match text {
            Some(s) => utf8_text(contents(*old(payload)).take(len as int)) == Some(s@),
            None => utf8_text(contents(*old(payload)).take(len as int)) is None,
        },
{
    let head = copy_to_bytes(payload, len);
    let v = slice_to_vec(as_slice(&head));
    let text = string_from_utf8(v);
    proof {
        if text is Some {
            vstd::utf8::encode_utf8_decode_utf8(text->0@);
        }
    }
    text
}

/// The error of a payload too short for its first length.
pub(crate) fn too_short(message: MessageType) -> (e: DecodeError)
    ensures
        e == DecodeError::too_short(message),
{
    DecodeError { message, field: Field::Payload, fault: Fault::TooShort }
}

/// The error of a payload that ends inside `field`.
pub(crate) fn truncated(message: MessageType, field: Field) -> (e: DecodeError)
    ensures
        e == DecodeError::truncated(message, field),
{
    DecodeError { message, field, fault: Fault::Truncated }
}

/// The error of a string field that is not UTF-8.
pub(crate) fn invalid_utf8(message: MessageType, field: Field) -> (e: DecodeError)
    ensures
        e == DecodeError::invalid_utf8(message, field),
{
    DecodeError { message, field, fault: Fault::InvalidUtf8 }
}

/// A payload that starts with a path: the path, and the bytes behind it.
/// The payload must hold the path's length, and then the path together with
/// the `fixed` bytes that the message has behind it.
pub open spec fn path_prefix(t: MessageType, b: Seq<u8>, fixed: int) -> Result<
    (Seq<char>, Seq<u8>),
    DecodeError,
> {
    if b.len() < 2 {
        Err(DecodeError::too_short(t))
    } else if b.skip(2).len() < u16_at(b, 0) + fixed {
        Err(DecodeError::truncated(t, Field::Payload))
    } else {
        match utf8_text(b.skip(2).take(u16_at(b, 0) as int)) {
            None => Err(DecodeError::invalid_utf8(t, Field::Path)),
            Some(path) => Ok((path, b.skip(2).skip(u16_at(b, 0) as int))),
        }
    }
}

/// A string whose length prefix is known to be there: the string, and the
/// bytes behind it.
pub open spec fn text_field(t: MessageType, field: Field, b: Seq<u8>) -> Result<
    (Seq<char>, Seq<u8>),
    DecodeError,
> {
    if b.skip(2).len() < u16_at(b, 0) {
        Err(DecodeError::truncated(t, field))
    } else {
        match utf8_text(b.skip(2).take(u16_at(b, 0) as int)) {
            None => Err(DecodeError::invalid_utf8(t, field)),
            Some(s) => Ok((s, b.skip(2).skip(u16_at(b, 0) as int))),
        }
    }
}

/// Takes the path that a payload starts with.
pub(crate) fn take_path(t: MessageType, payload: &mut Bytes, fixed: usize) -> (r: Result<
    String,
    DecodeError,
>)
    requires
        fixed <= 64,
    ensures
        match r {
            Ok(path) => path_prefix(t, contents(*old(payload)), fixed as int) == Ok::<
                _,
                DecodeError,
            >((path@, contents(*final(payload)))) && contents(*final(payload)).len() >= fixed,
            Err(e) => path_prefix(t, contents(*old(payload)), fixed as int) == Err::<
                (Seq<char>, Seq<u8>),
                _,
            >(e),
        },
{
    if remaining(payload) < 2 {
        return Err(too_short(t));
    }
    let path_len = get_u16(payload) as usize;
    if remaining(payload) < path_len + fixed {
        return Err(truncated(t, Field::Payload));
    }
    match take_text(payload, path_len) {
        Some(path) => Ok(path),
        None => Err(invalid_utf8(t, Field::Path)),
    }
}

/// Takes a string whose length prefix is known to be there.
pub(crate) fn take_text_field(t: MessageType, field: Field, payload: &mut Bytes) -> (r: Result<
    String,
    DecodeError,
>)
    requires
        contents(*old(payload)).len() >= 2,
    ensures
        match r {
            Ok(s) => text_field(t, field, contents(*old(payload))) == Ok::<_, DecodeError>(
                (s@, contents(*final(payload))),
            ),
            Err(e) => text_field(t, field, contents(*old(payload))) == Err::<
                (Seq<char>, Seq<u8>),
                _,
            >(e),
        },
{
    let len = get_u16(payload) as usize;
    if remaining(payload) < len {
        return Err(truncated(t, field));
    }
    match take_text(payload, len) {
        Some(s) => Ok(s),
        None => Err(invalid_utf8(t, field)),
    }
}

/// A path that fits its length prefix, written in front of at least `fixed`
/// bytes, is read back, and those bytes follow it.
pub proof fn lemma_path_prefix(t: MessageType, path: Seq<char>, rest: Seq<u8>, fixed: int)
    requires
        fits_u16(path),
        rest.len() >= fixed,
    ensures
        path_prefix(t, str_field(path) + rest, fixed) == Ok::<_, DecodeError>((path, rest)),
{
    broadcast use crate::wire::group_heads;

    let text = vstd::utf8::encode_utf8(path);
    let n = text.len() as u16;
    assert(str_field(path) + rest =~= crate::wire::be16(n) + (text + rest));
    crate::wire::lemma_text_round_trip(path);
}

/// A string that fits its length prefix, written in front of `rest`, is
/// read back, and `rest` follows it.
pub proof fn lemma_text_field(t: MessageType, field: Field, s: Seq<char>, rest: Seq<u8>)
    requires
        fits_u16(s),
    ensures
        text_field(t, field, str_field(s) + rest) == Ok::<_, DecodeError>((s, rest)),
        (str_field(s) + rest).len() >= 2,
{
    broadcast use crate::wire::group_heads;

    let text = vstd::utf8::encode_utf8(s);
    let n = text.len() as u16;
    assert(str_field(s) + rest =~= crate::wire::be16(n) + (text + rest));
    crate::wire::lemma_text_round_trip(s);
}

/// A string that is there only for some messages: nothing, or the string
/// with its length prefix.
pub open spec fn optional_str(s: Option<Seq<char>>) -> Seq<u8> {
    match s {
        Some(s) => str_field(s),
        None => Seq::empty(),
    }
}

/// A string that is there only where `present` says so: the string, if any,
/// and the bytes behind it. `length` names the length prefix and `field`
/// the string in the errors.
pub open spec fn optional_text(
    t: MessageType,
    present: bool,
    length: Field,
    field: Field,
    b: Seq<u8>,
) -> Result<(Option<Seq<char>>, Seq<u8>), DecodeError> {
    if !present {
        Ok((None, b))
    } else if b.len() < 2 {
        Err(DecodeError::truncated(t, length))
    } else {
        match text_field(t, field, b) {
            Err(e) => Err(e),
            Ok((s, rest)) => Ok((Some(s), rest)),
        }
    }
}

/// The text of an optional string.
pub open spec fn optional_view(s: Option<String>) -> Option<Seq<char>> {
    match s {
        Some(s) => Some(s@),
        None => None,
    }
}

/// Takes a string that is there only where `present` says so.
pub(crate) fn take_optional_text(
    t: MessageType,
    present: bool,
    length: Field,
    field: Field,
    payload: &mut Bytes,
) -> (r: Result<Option<String>, DecodeError>)
    ensures
        match r {
            Ok(s) => optional_text(t, present, length, field, contents(*old(payload))) == Ok::<
                _,
                DecodeError,
            >((optional_view(s), contents(*final(payload)))),
            Err(e) => optional_text(t, present, length, field, contents(*old(payload))) == Err::<
                (Option<Seq<char>>, Seq<u8>),
                _,
            >(e),
        },
{
    if !present {
        return Ok(None);
    }
    if remaining(payload) < 2 {
        return Err(truncated(t, length));
    }
    match take_text_field(t, field, payload) {
        Ok(s) => Ok(Some(s)),
        Err(e) => Err(e),
    }
}

/// An optional string that fits its length prefix and is there exactly
/// where `present` says so is read back, and `rest` follows it.
pub proof fn lemma_optional_text(
    t: MessageType,
    present: bool,
    length: Field,
    field: Field,
    s: Option<Seq<char>>,
    rest: Seq<u8>,
)
    requires
        present == (s is Some),
        s matches Some(text) ==> fits_u16(text),
    ensures
        optional_text(t, present, length, field, optional_str(s) + rest) == Ok::<_, DecodeError>(
            (s, rest),
        ),
{
    match s {
        Some(text) => {
            lemma_text_field(t, field, text, rest);
        },
        None => {
            assert(optional_str(s) + rest =~= rest);
        },
    }
}

} // verus!
