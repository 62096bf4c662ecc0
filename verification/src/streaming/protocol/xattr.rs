//! The `Xattr` message: the extended attributes of one path.

use crate::buffer::{
    as_slice, bytes_len, contents, copy_to_bytes, freeze, get_u16, get_u32, put_slice, put_u16,
    put_u32, remaining, written,
};
use crate::streaming::protocol::codec::{
    begin_frame, invalid_utf8, lemma_path_prefix, path_prefix, put_text, take_path, take_text,
    truncated,
};
use crate::streaming::protocol::{frame_bytes, DecodeError, Field, MessageType};
use crate::wire::{be16, be32, fits_u16, str_field, u16_at, u32_at, utf8_text};
use bytes::{Bytes, BytesMut};
use vstd::prelude::*;

verus! {

/// One extended attribute: its name and its value.
#[derive(Debug, Clone)]
pub struct XattrEntry {
    pub name: String,
    pub value: Bytes,
}

/// An `XattrEntry` as a mathematical value.
pub ghost struct XattrEntryView {
    pub name: Seq<char>,
    pub value: Seq<u8>,
}

impl View for XattrEntry {
    type V = XattrEntryView;

    open spec fn view(&self) -> XattrEntryView {
        XattrEntryView { name: self.name@, value: contents(self.value) }
    }
}

impl XattrEntryView {
    /// On the wire: `name | value_len: u32 | value`, the name a
    /// length-prefixed string. A length that does not fit the `u32` is
    /// reduced modulo 2^32.
    pub open spec fn bytes(self) -> Seq<u8> {
        str_field(self.name) + be32((self.value.len() % 0x1_0000_0000) as u32) + self.value
    }

    /// Whether name and value fit their length prefixes.
    pub open spec fn encodable(self) -> bool {
        fits_u16(self.name) && self.value.len() <= 0xffff_ffff
    }

    /// The attribute that `b` starts with and the bytes behind it, or the
    /// first thing wrong with it.
    #[verifier::opaque]
    pub open spec fn first(b: Seq<u8>) -> Result<(XattrEntryView, Seq<u8>), DecodeError> {
        let name_len = u16_at(b, 0) as int;
        let value_len = u32_at(b.skip(2).skip(name_len), 0) as int;
        let value = b.skip(2).skip(name_len).skip(4);
        if b.len() < 2 {
            Err(DecodeError::truncated(MessageType::Xattr, Field::EntryNameLength))
        } else if b.skip(2).len() < name_len + 4 {
            Err(DecodeError::truncated(MessageType::Xattr, Field::EntryName))
        } else {
            match utf8_text(b.skip(2).take(name_len)) {
                None => Err(DecodeError::invalid_utf8(MessageType::Xattr, Field::EntryName)),
                Some(name) => if value.len() < value_len {
                    Err(DecodeError::truncated(MessageType::Xattr, Field::EntryValue))
                } else {
                    Ok(
                        (
                            XattrEntryView { name, value: value.take(value_len) },
                            value.skip(value_len),
                        ),
                    )
                },
            }
        }
    }

    /// An attribute in front of `rest`, grouped as a decoder walks it.
    proof fn lemma_layout(self, rest: Seq<u8>)
        requires
            self.encodable(),
        ensures
            self.bytes() + rest == be16(vstd::utf8::encode_utf8(self.name).len() as u16) + (
            vstd::utf8::encode_utf8(self.name) + (be32(self.value.len() as u32) + (self.value
                + rest))),
    {
        let f1 = be16(vstd::utf8::encode_utf8(self.name).len() as u16);
        let f2 = vstd::utf8::encode_utf8(self.name);
        let f3 = be32(self.value.len() as u32);
        assert(f1 + f2 + f3 + self.value + rest =~= f1 + (f2 + (f3 + (self.value + rest))));
    }

    /// An attribute written in front of `rest` is read back, and `rest`
    /// follows it.
    pub proof fn lemma_first(self, rest: Seq<u8>)
        requires
            self.encodable(),
        ensures
            Self::first(self.bytes() + rest) == Ok::<_, DecodeError>((self, rest)),
    {
        reveal(XattrEntryView::first);
        let text = vstd::utf8::encode_utf8(self.name);
        let n = text.len() as u16;
        let m = self.value.len() as u32;
        let v = self.value + rest;
        let b3 = be32(m) + v;
        let b2 = text + b3;
        let b = be16(n) + b2;
        self.lemma_layout(rest);
        crate::wire::lemma_text_round_trip(self.name);
        crate::wire::lemma_u16_head(n, b2);
        crate::wire::lemma_bytes_head(text, b3, n as int);
        crate::wire::lemma_u32_head(m, v);
        crate::wire::lemma_bytes_head(self.value, rest, m as int);
    }
}

/// The attributes of a list, each as a mathematical value.
pub open spec fn entry_views(entries: Seq<XattrEntry>) -> Seq<XattrEntryView> {
    entries.map_values(|e: XattrEntry| e@)
}

/// A list of attributes on the wire: one after the other.
pub open spec fn entries_bytes(entries: Seq<XattrEntryView>) -> Seq<u8>
    decreases entries.len(),
{
    if entries.len() == 0 {
        Seq::empty()
    } else {
        entries_bytes(entries.drop_last()) + entries.last().bytes()
    }
}

/// A result with `done` put in front of the attributes it holds.
pub open spec fn after(done: Seq<XattrEntryView>, r: Result<Seq<XattrEntryView>, DecodeError>)
    -> Result<Seq<XattrEntryView>, DecodeError> {
    match r {
        Ok(more) => Ok(done + more),
        Err(e) => Err(e),
    }
}

/// The `count` attributes that `b` starts with, or the first thing wrong
/// with one of them.
pub open spec fn entries_at(b: Seq<u8>, count: nat) -> Result<Seq<XattrEntryView>, DecodeError>
    decreases count,
{
    if count == 0 {
        Ok(Seq::empty())
    } else {
        match XattrEntryView::first(b) {
            Err(e) => Err(e),
            Ok((entry, rest)) => after(seq![entry], entries_at(rest, (count - 1) as nat)),
        }
    }
}

/// A list written in front of `rest`, seen from its first attribute.
proof fn lemma_entries_head(entries: Seq<XattrEntryView>, rest: Seq<u8>)
    requires
        entries.len() > 0,
    ensures
        entries_bytes(entries) + rest == entries[0].bytes() + (entries_bytes(entries.skip(1))
            + rest),
    decreases entries.len(),
{
    let init = entries.drop_last();
    let last = entries.last();
    if init.len() == 0 {
        assert(entries.skip(1) =~= Seq::<XattrEntryView>::empty());
        assert(entries_bytes(entries) + rest =~= entries[0].bytes() + (entries_bytes(
            entries.skip(1),
        ) + rest));
    } else {
        lemma_entries_head(init, last.bytes() + rest);
        assert(entries.skip(1).drop_last() =~= init.skip(1));
        assert(entries.skip(1).last() == last);
        assert(entries_bytes(entries) + rest =~= entries_bytes(init) + (last.bytes() + rest));
        assert(entries_bytes(init.skip(1)) + (last.bytes() + rest) =~= entries_bytes(
            entries.skip(1),
        ) + rest);
    }
}

/// A list of attributes that fit their length prefixes, written in front of
/// `rest`, is read back.
pub proof fn lemma_entries_round_trip(entries: Seq<XattrEntryView>, rest: Seq<u8>)
    requires
        forall|i: int| 0 <= i < entries.len() ==> (#[trigger] entries[i]).encodable(),
    ensures
        entries_at(entries_bytes(entries) + rest, entries.len()) == Ok::<_, DecodeError>(entries),
    decreases entries.len(),
{
    if entries.len() == 0 {
        assert(entries =~= Seq::<XattrEntryView>::empty());
    } else {
        let tail = entries.skip(1);
        lemma_entries_head(entries, rest);
        entries[0].lemma_first(entries_bytes(tail) + rest);
        assert forall|i: int| 0 <= i < tail.len() implies (#[trigger] tail[i]).encodable() by {
            assert(tail[i] == entries[i + 1]);
        }
        lemma_entries_round_trip(tail, rest);
        assert(seq![entries[0]] + tail =~= entries);
    }
}

/// The extended attributes of one path.
#[derive(Debug, Clone)]
pub struct Xattr {
    pub path: String,
    pub entries: Vec<XattrEntry>,
}

/// An `Xattr` as a mathematical value.
pub ghost struct XattrView {
    pub path: Seq<char>,
    pub entries: Seq<XattrEntryView>,
}

impl View for Xattr {
    type V = XattrView;

    open spec fn view(&self) -> XattrView {
        XattrView { path: self.path@, entries: entry_views(self.entries@) }
    }
}

impl XattrView {
    /// The payload: `path | count: u16`, then `count` attributes. A count
    /// that does not fit the `u16` is reduced modulo 65536.
    pub open spec fn payload(self) -> Seq<u8> {
        str_field(self.path) + be16((self.entries.len() % 0x1_0000) as u16) + entries_bytes(
            self.entries,
        )
    }

    /// Whether the payload holds all of this message: the path, the number
    /// of attributes and each attribute fit their length prefixes.
    pub open spec fn encodable(self) -> bool {
        &&& fits_u16(self.path)
        &&& self.entries.len() <= 0xffff
        &&& forall|i: int| 0 <= i < self.entries.len() ==> (#[trigger] self.entries[i]).encodable()
    }

    /// The message that a payload holds, or the first thing wrong with it.
    /// Bytes behind the last attribute are ignored.
    pub open spec fn parse(b: Seq<u8>) -> Result<XattrView, DecodeError> {
        match path_prefix(MessageType::Xattr, b, 2) {
            Err(e) => Err(e),
            Ok((path, rest)) => match entries_at(rest.skip(2), u16_at(rest, 0) as nat) {
                Err(e) => Err(e),
                Ok(entries) => Ok(XattrView { path, entries }),
            },
        }
    }

    /// A payload is read back as the message it was written from.
    pub proof fn lemma_round_trip(self)
        requires
            self.encodable(),
        ensures
            Self::parse(self.payload()) == Ok::<_, DecodeError>(self),
    {
        let n = self.entries.len() as u16;
        let tail = entries_bytes(self.entries) + Seq::<u8>::empty();
        let rest = be16(n) + tail;
        assert(self.payload() =~= str_field(self.path) + rest);
        crate::wire::lemma_u16_head(n, tail);
        lemma_path_prefix(MessageType::Xattr, self.path, rest, 2);
        lemma_entries_round_trip(self.entries, Seq::<u8>::empty());
    }
}

/// Lengths may be reduced modulo 2^32 before they are added up.
proof fn lemma_sum_mod(a: int, x: int, y: int)
    requires
        0 <= a,
        0 <= x,
        0 <= y,
    ensures
        (a % 0x1_0000_0000 + 6 + x % 0x1_0000_0000 + y % 0x1_0000_0000) % 0x1_0000_0000 == (a + 6
            + x + y) % 0x1_0000_0000,
{
}

/// The length of a list of attributes on the wire, modulo 2^32.
fn entries_len(entries: &Vec<XattrEntry>) -> (n: u64)
    ensures
        n == entries_bytes(entry_views(entries@)).len() % 0x1_0000_0000,
{
    let mut n: u64 = 0;
    let mut i: usize = 0;
    assert(entry_views(entries@).take(0) =~= Seq::<XattrEntryView>::empty());
    while i < entries.len()
        invariant
            i <= entries.len(),
            n == entries_bytes(entry_views(entries@).take(i as int)).len() % 0x1_0000_0000,
        decreases entries.len() - i,
    {
        let name_len = entries[i].name.as_str().as_bytes().len() as u64 % 0x1_0000_0000;
        let value_len = bytes_len(&entries[i].value) as u64 % 0x1_0000_0000;
        proof {
            crate::wire::lemma_widths();
            let done = entry_views(entries@).take(i as int);
            let next = entry_views(entries@).take(i + 1);
            assert(next.drop_last() =~= done);
            assert(next.last() == entries@[i as int]@);
            let a = entries_bytes(done).len() as int;
            let x = vstd::utf8::encode_utf8(entries@[i as int].name@).len() as int;
            let y = contents(entries@[i as int].value).len() as int;
            assert(next.last().bytes().len() == 6 + x + y);
            assert(entries_bytes(next).len() == a + 6 + x + y);
            lemma_sum_mod(a, x, y);
        }
        n = (n + 6 + name_len + value_len) % 0x1_0000_0000;
        i = i + 1;
    }
    assert(entry_views(entries@).take(i as int) =~= entry_views(entries@));
    n
}

/// Appends a list of attributes, one after the other.
fn put_entries(buf: &mut BytesMut, entries: &Vec<XattrEntry>)
    ensures
        written(*final(buf)) == written(*old(buf)) + entries_bytes(entry_views(entries@)),
{
    let mut i: usize = 0;
    assert(entry_views(entries@).take(0) =~= Seq::<XattrEntryView>::empty());
    assert(written(*buf) =~= written(*old(buf)) + entries_bytes(entry_views(entries@).take(0)));
    while i < entries.len()
        invariant
            i <= entries.len(),
            written(*buf) == written(*old(buf)) + entries_bytes(
                entry_views(entries@).take(i as int),
            ),
        decreases entries.len() - i,
    {
        let ghost before = written(*buf);
        let entry = &entries[i];
        put_text(buf, entry.name.as_str());
        put_u32(buf, (bytes_len(&entry.value) as u64 % 0x1_0000_0000) as u32);
        put_slice(buf, as_slice(&entry.value));
        proof {
            let done = entry_views(entries@).take(i as int);
            let next = entry_views(entries@).take(i + 1);
            assert(next.drop_last() =~= done);
            assert(next.last() == entries@[i as int]@);
            assert(written(*buf) =~= before + entries@[i as int]@.bytes());
            assert(written(*buf) =~= written(*old(buf)) + entries_bytes(next));
        }
        i = i + 1;
    }
    assert(entry_views(entries@).take(i as int) =~= entry_views(entries@));
}

/// Takes one attribute.
fn take_entry(payload: &mut Bytes) -> (r: Result<XattrEntry, DecodeError>)
    ensures
        match r {
            Ok(entry) => XattrEntryView::first(contents(*old(payload))) == Ok::<_, DecodeError>(
                (entry@, contents(*final(payload))),
            ),
            Err(e) => XattrEntryView::first(contents(*old(payload))) == Err::<
                (XattrEntryView, Seq<u8>),
                _,
            >(e),
        },
{
    reveal(XattrEntryView::first);
    if remaining(payload) < 2 {
        return Err(truncated(MessageType::Xattr, Field::EntryNameLength));
    }
    let name_len = get_u16(payload) as usize;
    if remaining(payload) < name_len + 4 {
        return Err(truncated(MessageType::Xattr, Field::EntryName));
    }
    let name = match take_text(payload, name_len) {
        Some(name) => name,
        None => {
            return Err(invalid_utf8(MessageType::Xattr, Field::EntryName));
        },
    };
    let value_len = get_u32(payload) as usize;
    if remaining(payload) < value_len {
        return Err(truncated(MessageType::Xattr, Field::EntryValue));
    }
    let value = copy_to_bytes(payload, value_len);
    Ok(XattrEntry { name, value })
}

impl Xattr {
    /// The message as a frame.
    pub fn encode(&self) -> (frame: Bytes)
        ensures
            contents(frame) == frame_bytes(MessageType::Xattr, self@.payload()),
    {
        let path = self.path.as_str();
        let list_len = entries_len(&self.entries);
        let payload_len: u128 = 2 + path.as_bytes().len() as u128 + 2 + list_len as u128;
        proof {
            crate::wire::lemma_widths();
            assert(payload_len % 0x1_0000_0000 == self@.payload().len() % 0x1_0000_0000);
        }
        let mut buf = begin_frame(MessageType::Xattr, payload_len);
        put_text(&mut buf, path);
        put_u16(&mut buf, (self.entries.len() as u64 % 0x1_0000) as u16);
        put_entries(&mut buf, &self.entries);
        assert(written(buf) =~= frame_bytes(MessageType::Xattr, self@.payload()));
        freeze(buf)
    }

    /// Reads the message from a frame's payload.
    pub fn decode(payload: Bytes) -> (r: Result<Xattr, DecodeError>)
        ensures
            match r {
                Ok(m) => XattrView::parse(contents(payload)) == Ok::<_, DecodeError>(m@),
                Err(e) => XattrView::parse(contents(payload)) == Err::<XattrView, _>(e),
            },
    {
        let ghost b = contents(payload);
        let mut cursor = payload;
        let path = match take_path(MessageType::Xattr, &mut cursor, 2) {
            Ok(path) => path,
            Err(e) => {
                return Err(e);
            },
        };
        let ghost rest = contents(cursor);
        let count = get_u16(&mut cursor);
        let ghost list = contents(cursor);
        let mut entries: Vec<XattrEntry> = Vec::with_capacity(count as usize);
        let mut i: u16 = 0;
        assert(entry_views(entries@) =~= Seq::<XattrEntryView>::empty());
        assert(after(entry_views(entries@), entries_at(list, count as nat)) =~= entries_at(
            list,
            count as nat,
        )) by {
            match entries_at(list, count as nat) {
                Ok(more) => {
                    assert(Seq::<XattrEntryView>::empty() + more =~= more);
                },
                Err(_) => {},
            }
        }
        while i < count
            invariant
                i <= count,
                b == contents(payload),
                path_prefix(MessageType::Xattr, b, 2) == Ok::<_, DecodeError>((path@, rest)),
                list == rest.skip(2),
                count == u16_at(rest, 0),
                entries_at(list, count as nat) == after(
                    entry_views(entries@),
                    entries_at(contents(cursor), (count - i) as nat),
                ),
            decreases count - i,
        {
            let ghost cur = contents(cursor);
            let ghost done = entry_views(entries@);
            let entry = match take_entry(&mut cursor) {
                Ok(entry) => entry,
                Err(e) => {
                    assert(entries_at(cur, (count - i) as nat) == Err::<Seq<XattrEntryView>, _>(e));
                    return Err(e);
                },
            };
            entries.push(entry);
            proof {
                let next = entry_views(entries@);
                assert(entries_at(cur, (count - i) as nat) == after(
                    seq![entry@],
                    entries_at(contents(cursor), (count - i - 1) as nat),
                ));
                assert(next =~= done.push(entry@));
                match entries_at(contents(cursor), (count - i - 1) as nat) {
                    Ok(more) => {
                        assert(done + (seq![entry@] + more) =~= next + more);
                    },
                    Err(_) => {},
                }
            }
            i = i + 1;
        }
        assert(entry_views(entries@) + Seq::<XattrEntryView>::empty() =~= entry_views(entries@));
        Ok(Xattr { path, entries })
    }
}

} // verus!
