//! The byte-level vocabulary of the wire format: big-endian integers and
//! length-prefixed UTF-8 strings, as functions on sequences of bytes.

use vstd::prelude::*;
use vstd::utf8::{decode_utf8, encode_utf8, valid_utf8};

verus! {

/// A single byte.
pub open spec fn be8(v: u8) -> Seq<u8> {
    seq![v]
}

/// The two bytes of `v`, most significant first.
#[verifier::opaque]
pub open spec fn be16(v: u16) -> Seq<u8> {
    seq![(v / 0x100) as u8, (v % 0x100) as u8]
}

/// The four bytes of `v`, most significant first: those of its upper half,
/// then those of its lower half.
#[verifier::opaque]
pub open spec fn be32(v: u32) -> Seq<u8> {
    be16((v / 0x1_0000) as u16) + be16((v % 0x1_0000) as u16)
}

/// The eight bytes of `v`, most significant first: those of its upper half,
/// then those of its lower half.
#[verifier::opaque]
pub open spec fn be64(v: u64) -> Seq<u8> {
    be32((v / 0x1_0000_0000) as u32) + be32((v % 0x1_0000_0000) as u32)
}

/// The unsigned number with the same 64 bits as `v` in two's complement.
pub open spec fn twos64(v: i64) -> u64 {
    if v >= 0 {
        v as u64
    } else {
        (v + 0x1_0000_0000_0000_0000) as u64
    }
}

/// The signed number with the same 64 bits as `u` in two's complement.
pub open spec fn signed64(u: u64) -> i64 {
    if u < 0x8000_0000_0000_0000 {
        u as i64
    } else {
        (u - 0x1_0000_0000_0000_0000) as i64
    }
}

/// The eight bytes of `v` in two's complement, most significant first.
pub open spec fn be_i64(v: i64) -> Seq<u8> {
    be64(twos64(v))
}

/// The big-endian number held in the two bytes of `b` from index `i`.
pub open spec fn u16_at(b: Seq<u8>, i: int) -> u16 {
    (b[i] * 0x100 + b[i + 1]) as u16
}

/// The big-endian number held in the four bytes of `b` from index `i`.
pub open spec fn u32_at(b: Seq<u8>, i: int) -> u32 {
    (u16_at(b, i) * 0x1_0000 + u16_at(b, i + 2)) as u32
}

/// The big-endian number held in the eight bytes of `b` from index `i`.
pub open spec fn u64_at(b: Seq<u8>, i: int) -> u64 {
    (u32_at(b, i) * 0x1_0000_0000 + u32_at(b, i + 4)) as u64
}

/// The big-endian two's complement number held in the eight bytes of `b`
/// from index `i`.
pub open spec fn i64_at(b: Seq<u8>, i: int) -> i64 {
    signed64(u64_at(b, i))
}

/// A string on the wire: its UTF-8 length as a big-endian `u16`, reduced
/// modulo 65536, then its UTF-8 bytes.
pub open spec fn str_field(s: Seq<char>) -> Seq<u8> {
    be16((encode_utf8(s).len() % 0x1_0000) as u16) + encode_utf8(s)
}

/// Whether a string's UTF-8 form is short enough for its length prefix.
pub open spec fn fits_u16(s: Seq<char>) -> bool {
    encode_utf8(s).len() <= 0xffff
}

/// The text that `b` holds, if `b` is well-formed UTF-8.
pub open spec fn utf8_text(b: Seq<u8>) -> Option<Seq<char>> {
    if valid_utf8(b) {
        Some(decode_utf8(b))
    } else {
        None
    }
}

/// Every integer takes as many bytes as its width says.
pub proof fn lemma_widths()
    ensures
        forall|v: u16| #[trigger] be16(v).len() == 2,
        forall|v: u32| #[trigger] be32(v).len() == 4,
        forall|v: u64| #[trigger] be64(v).len() == 8,
        forall|v: i64| #[trigger] be_i64(v).len() == 8,
        forall|s: Seq<char>| #[trigger] str_field(s).len() == 2 + encode_utf8(s).len(),
{
    reveal(be16);
    reveal(be32);
    reveal(be64);
}

/// A big-endian `u16` written between `a` and `c` is read back unchanged.
pub proof fn lemma_u16_at(a: Seq<u8>, v: u16, c: Seq<u8>)
    ensures
        be16(v).len() == 2,
        u16_at(a + be16(v) + c, a.len() as int) == v,
{
    reveal(be16);
}

/// A big-endian `u32` written between `a` and `c` is read back unchanged.
pub proof fn lemma_u32_at(a: Seq<u8>, v: u32, c: Seq<u8>)
    ensures
        be32(v).len() == 4,
        u32_at(a + be32(v) + c, a.len() as int) == v,
{
    reveal(be32);
    let hi = (v / 0x1_0000) as u16;
    let lo = (v % 0x1_0000) as u16;
    let s = a + be32(v) + c;
    lemma_u16_at(a, hi, be16(lo) + c);
    lemma_u16_at(a + be16(hi), lo, c);
    assert(s =~= a + be16(hi) + (be16(lo) + c));
    assert(s =~= a + be16(hi) + be16(lo) + c);
}

/// A big-endian `u64` written between `a` and `c` is read back unchanged.
pub proof fn lemma_u64_at(a: Seq<u8>, v: u64, c: Seq<u8>)
    ensures
        be64(v).len() == 8,
        u64_at(a + be64(v) + c, a.len() as int) == v,
{
    reveal(be64);
    let hi = (v / 0x1_0000_0000) as u32;
    let lo = (v % 0x1_0000_0000) as u32;
    let s = a + be64(v) + c;
    lemma_u32_at(a, hi, be32(lo) + c);
    lemma_u32_at(a + be32(hi), lo, c);
    assert(s =~= a + be32(hi) + (be32(lo) + c));
    assert(s =~= a + be32(hi) + be32(lo) + c);
}

/// A byte written in front of `rest` is read back, and `rest` follows it.
pub broadcast proof fn lemma_u8_head(v: u8, rest: Seq<u8>)
    ensures
        #![trigger be8(v) + rest]
        (be8(v) + rest)[0] == v,
        (be8(v) + rest).len() == 1 + rest.len(),
        (be8(v) + rest).skip(1) == rest,
{
    assert((be8(v) + rest).skip(1) =~= rest);
}

/// A `u16` written in front of `rest` is read back, and `rest` follows it.
pub broadcast proof fn lemma_u16_head(v: u16, rest: Seq<u8>)
    ensures
        #![trigger be16(v) + rest]
        u16_at(be16(v) + rest, 0) == v,
        (be16(v) + rest).len() == 2 + rest.len(),
        (be16(v) + rest).skip(2) == rest,
{
    lemma_u16_at(Seq::empty(), v, rest);
    assert(Seq::<u8>::empty() + be16(v) + rest =~= be16(v) + rest);
    assert((be16(v) + rest).skip(2) =~= rest);
}

/// A `u32` written in front of `rest` is read back, and `rest` follows it.
pub broadcast proof fn lemma_u32_head(v: u32, rest: Seq<u8>)
    ensures
        #![trigger be32(v) + rest]
        u32_at(be32(v) + rest, 0) == v,
        (be32(v) + rest).len() == 4 + rest.len(),
        (be32(v) + rest).skip(4) == rest,
{
    lemma_u32_at(Seq::empty(), v, rest);
    assert(Seq::<u8>::empty() + be32(v) + rest =~= be32(v) + rest);
    assert((be32(v) + rest).skip(4) =~= rest);
}

/// A `u64` written in front of `rest` is read back, and `rest` follows it.
pub broadcast proof fn lemma_u64_head(v: u64, rest: Seq<u8>)
    ensures
        #![trigger be64(v) + rest]
        u64_at(be64(v) + rest, 0) == v,
        (be64(v) + rest).len() == 8 + rest.len(),
        (be64(v) + rest).skip(8) == rest,
{
    lemma_u64_at(Seq::empty(), v, rest);
    assert(Seq::<u8>::empty() + be64(v) + rest =~= be64(v) + rest);
    assert((be64(v) + rest).skip(8) =~= rest);
}

/// An `i64` written in front of `rest` is read back.
pub broadcast proof fn lemma_i64_head(v: i64, rest: Seq<u8>)
    ensures
        #![trigger be_i64(v) + rest]
        i64_at(be_i64(v) + rest, 0) == v,
{
    lemma_u64_head(twos64(v), rest);
}

/// Bytes written in front of `rest` are read back, and `rest` follows them.
pub broadcast proof fn lemma_bytes_head(a: Seq<u8>, rest: Seq<u8>, k: int)
    requires
        k == a.len(),
    ensures
        #![trigger (a + rest).take(k)]
        #![trigger (a + rest).skip(k)]
        (a + rest).take(k) == a,
        (a + rest).skip(k) == rest,
{
    assert((a + rest).take(k) =~= a);
    assert((a + rest).skip(k) =~= rest);
}

/// Skipping twice is skipping once by the sum.
pub broadcast proof fn lemma_skip_skip(b: Seq<u8>, i: int, j: int)
    requires
        0 <= i,
        0 <= j,
        i + j <= b.len(),
    ensures
        #[trigger] b.skip(i).skip(j) == b.skip(i + j),
{
    assert(b.skip(i).skip(j) =~= b.skip(i + j));
}

/// What is written in front of some bytes is read back, and those bytes
/// follow it.
pub broadcast group group_heads {
    lemma_skip_skip,
    lemma_u8_head,
    lemma_u16_head,
    lemma_u32_head,
    lemma_u64_head,
    lemma_i64_head,
    lemma_bytes_head,
}

/// Decoding the UTF-8 form of a text gives the text back.
pub proof fn lemma_text_round_trip(s: Seq<char>)
    ensures
        utf8_text(encode_utf8(s)) == Some(s),
{
    vstd::utf8::encode_utf8_valid_utf8(s);
    vstd::utf8::encode_utf8_decode_utf8(s);
}

/// Appends the four bytes of `v`, most significant first.
pub fn push_u32(out: &mut Vec<u8>, v: u32)
    ensures
        final(out)@ == old(out)@ + be32(v),
{
    reveal(be16);
    reveal(be32);
    let hi: u32 = v / 0x1_0000;
    let lo: u32 = v % 0x1_0000;
    out.push((hi / 0x100) as u8);
    out.push((hi % 0x100) as u8);
    out.push((lo / 0x100) as u8);
    out.push((lo % 0x100) as u8);
    assert(out@ =~= old(out)@ + be32(v));
}

/// Appends the eight bytes of `v`, most significant first.
pub fn push_u64(out: &mut Vec<u8>, v: u64)
    ensures
        final(out)@ == old(out)@ + be64(v),
{
    reveal(be64);
    push_u32(out, (v / 0x1_0000_0000) as u32);
    push_u32(out, (v % 0x1_0000_0000) as u32);
    assert(out@ =~= old(out)@ + be64(v));
}

/// Reads the big-endian number in the four bytes of `data` from `pos`.
pub(crate) fn read_u32(data: &[u8], pos: usize) -> (v: u32)
    requires
        pos + 4 <= data.len(),
    ensures
        v == u32_at(data@, pos as int),
{
    let b0 = data[pos] as u32;
    let b1 = data[pos + 1] as u32;
    let b2 = data[pos + 2] as u32;
    let b3 = data[pos + 3] as u32;
    (b0 * 0x100 + b1) * 0x1_0000 + (b2 * 0x100 + b3)
}

/// Reads the big-endian number in the eight bytes of `data` from `pos`.
pub(crate) fn read_u64(data: &[u8], pos: usize) -> (v: u64)
    requires
        pos + 8 <= data.len(),
    ensures
        v == u64_at(data@, pos as int),
{
    let hi = read_u32(data, pos) as u64;
    let lo = read_u32(data, pos + 4) as u64;
    hi * 0x1_0000_0000 + lo
}

} // verus!
