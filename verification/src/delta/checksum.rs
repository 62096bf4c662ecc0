//! The checksums of a block: a weak one that can be rolled along a file in
//! constant time per byte, and a strong one that tells blocks apart.

use crate::delta::BlockChecksum;
use vstd::prelude::*;
use vstd::slice::slice_subrange;

verus! {

/// The modulus of the two sums of the weak checksum: 2^16.
pub const MODULUS: u32 = 0x1_0000;

/// The first sum of the weak checksum: the bytes added up.
pub open spec fn sum_a(s: Seq<u8>) -> int
    decreases s.len(),
{
    if s.len() == 0 {
        0
    } else {
        sum_a(s.drop_last()) + s.last()
    }
}

/// The second sum of the weak checksum: the first sums of all the prefixes
/// added up, so that each byte counts as often as there are bytes from it
/// to the end.
pub open spec fn sum_b(s: Seq<u8>) -> int
    decreases s.len(),
{
    if s.len() == 0 {
        0
    } else {
        sum_b(s.drop_last()) + sum_a(s)
    }
}

/// The weak checksum of a block: the first sum in the lower sixteen bits,
/// the second sum in the upper, each modulo 2^16.
pub open spec fn weak_checksum(s: Seq<u8>) -> u32 {
    (sum_a(s) % 0x1_0000 + (sum_b(s) % 0x1_0000) * 0x1_0000) as u32
}

/// A step of the strong checksum: one more byte is mixed in.
pub open spec fn mix(h: u64, byte: u8) -> u64 {
    (h ^ (byte as u64)).wrapping_mul(0x100_0000_01b3)
}

/// The strong checksum of a block: the 64-bit FNV-1a hash of its bytes.
pub open spec fn strong_checksum(s: Seq<u8>) -> u64
    decreases s.len(),
{
    if s.len() == 0 {
        0xcbf2_9ce4_8422_2325
    } else {
        mix(strong_checksum(s.drop_last()), s.last())
    }
}

/// The sums of a block with one byte put in front.
pub proof fn lemma_sums_front(x: u8, t: Seq<u8>)
    ensures
        sum_a(seq![x] + t) == x + sum_a(t),
        sum_b(seq![x] + t) == (t.len() + 1) * x + sum_b(t),
    decreases t.len(),
{
    let s = seq![x] + t;
    if t.len() == 0 {
        assert(s.drop_last() =~= Seq::<u8>::empty());
        assert(sum_a(s.drop_last()) == 0);
        assert(sum_b(s.drop_last()) == 0);
    } else {
        lemma_sums_front(x, t.drop_last());
        assert(s.drop_last() =~= seq![x] + t.drop_last());
        assert(s.last() == t.last());
        assert((t.len() + 1) * x == t.len() * x + x) by (nonlinear_arith);
        assert((t.drop_last().len() + 1) * x == t.len() * x) by (nonlinear_arith)
            requires
                t.drop_last().len() + 1 == t.len(),
        ;
    }
}

/// The sums of a window that moves on by one byte: the first byte leaves,
/// a new byte comes in behind.
pub proof fn lemma_sums_roll(x: u8, t: Seq<u8>, y: u8)
    ensures
        sum_a(t.push(y)) == sum_a(seq![x] + t) - x + y,
        sum_b(t.push(y)) == sum_b(seq![x] + t) - (t.len() + 1) * x + sum_a(t.push(y)),
{
    lemma_sums_front(x, t);
    assert(t.push(y).drop_last() =~= t);
}

/// The two sums of the weak checksum of a window, each modulo 2^16.
#[derive(Debug, Clone, Copy, PartialEq, Eq, Structural)]
pub struct Rolling {
    pub a: u32,
    pub b: u32,
}

impl Rolling {
    /// Whether these are the sums of `window`.
    pub open spec fn holds(self, window: Seq<u8>) -> bool {
        self.a == sum_a(window) % 0x1_0000 && self.b == sum_b(window) % 0x1_0000
    }

    /// The sums of a window, computed from its bytes.
    pub fn new(window: &[u8]) -> (r: Rolling)
        ensures
            r.holds(window@),
    {
        let mut a: u32 = 0;
        let mut b: u32 = 0;
        let mut i: usize = 0;
        assert(window@.take(0) =~= Seq::<u8>::empty());
        while i < window.len()
            invariant
                i <= window.len(),
                a == sum_a(window@.take(i as int)) % 0x1_0000,
                b == sum_b(window@.take(i as int)) % 0x1_0000,
            decreases window.len() - i,
        {
            proof {
                assert(window@.take(i + 1).drop_last() =~= window@.take(i as int));
            }
            a = (a + window[i] as u32) % MODULUS;
            b = (b + a) % MODULUS;
            i = i + 1;
        }
        assert(window@.take(i as int) =~= window@);
        Rolling { a, b }
    }

    /// The checksum that the sums make.
    pub fn value(&self) -> (v: u32)
        ensures
            v == self.a % 0x1_0000 + (self.b % 0x1_0000) * 0x1_0000,
            forall|window: Seq<u8>| self.holds(window) ==> v == weak_checksum(window),
    {
        self.a % MODULUS + (self.b % MODULUS) * MODULUS
    }

    /// Moves the window on by one byte: `out` leaves in front, `inn` comes
    /// in behind. `len` is the length of the window, which stays as it is.
    pub fn roll(&mut self, len: usize, out: u8, inn: u8)
        ensures
            forall|rest: Seq<u8>|
                len == rest.len() + 1 && old(self).holds(seq![out] + rest) ==> final(self).holds(
                    #[trigger] rest.push(inn),
                ),
    {
        let n: u32 = (len % 0x1_0000) as u32;
        assert(n * (out as u32) <= 0xffff * 0xff) by (nonlinear_arith)
            requires
                n <= 0xffff,
                out <= 0xff,
        ;
        let leaving: u32 = (n * out as u32) % MODULUS;
        let a: u32 = (self.a % MODULUS + MODULUS - out as u32 + inn as u32) % MODULUS;
        let b: u32 = (self.b % MODULUS + MODULUS - leaving + a) % MODULUS;
        proof {
            assert forall|rest: Seq<u8>|
                len == rest.len() + 1 && self.holds(seq![out] + rest) implies (Rolling {
                a,
                b,
            }).holds(#[trigger] rest.push(inn)) by {
                lemma_sums_roll(out, rest, inn);
                vstd::arithmetic::div_mod::lemma_mul_mod_noop_left(
                    len as int,
                    out as int,
                    0x1_0000,
                );
                let sa = sum_a(seq![out] + rest);
                let sb = sum_b(seq![out] + rest);
                let p = len as int * out as int;
                assert(leaving == p % 0x1_0000);
                assert(a == (sa - out + inn) % 0x1_0000);
                assert(b == (sb - p + (sa - out + inn)) % 0x1_0000);
            }
        }
        self.a = a;
        self.b = b;
    }
}

/// The weak checksum of a block.
pub fn weak(block: &[u8]) -> (v: u32)
    ensures
        v == weak_checksum(block@),
{
    Rolling::new(block).value()
}

/// The strong checksum of a block.
pub fn strong(block: &[u8]) -> (h: u64)
    ensures
        h == strong_checksum(block@),
{
    let mut h: u64 = 0xcbf2_9ce4_8422_2325;
    let mut i: usize = 0;
    assert(block@.take(0) =~= Seq::<u8>::empty());
    while i < block.len()
        invariant
            i <= block.len(),
            h == strong_checksum(block@.take(i as int)),
        decreases block.len() - i,
    {
        proof {
            assert(block@.take(i + 1).drop_last() =~= block@.take(i as int));
        }
        h = (h ^ (block[i] as u64)).wrapping_mul(0x100_0000_01b3);
        i = i + 1;
    }
    assert(block@.take(i as int) =~= block@);
    h
}

/// Where block `k` of a file of `len` bytes ends, with blocks of
/// `block_size` bytes: the last block ends with the file.
pub open spec fn block_end(len: nat, block_size: nat, k: nat) -> nat {
    if (k + 1) * block_size <= len {
        (k + 1) * block_size
    } else {
        len
    }
}

/// The bytes of block `k` of `data`.
pub open spec fn block_bytes(data: Seq<u8>, block_size: nat, k: nat) -> Seq<u8> {
    data.subrange((k * block_size) as int, block_end(data.len(), block_size, k) as int)
}

/// What is to be said of block `k` of `data`.
pub open spec fn block_entry(data: Seq<u8>, block_size: nat, k: nat) -> BlockChecksum {
    BlockChecksum {
        index: k as u64,
        offset: (k * block_size) as u64,
        size: block_bytes(data, block_size, k).len() as usize,
        weak: weak_checksum(block_bytes(data, block_size, k)),
        strong: strong_checksum(block_bytes(data, block_size, k)),
    }
}

/// Whether `table` is the table of the blocks of `data`: one entry for each
/// block that starts within the file, in order.
pub open spec fn is_table_of(table: Seq<BlockChecksum>, data: Seq<u8>, block_size: nat) -> bool {
    &&& table.len() * block_size >= data.len()
    &&& table.len() > 0 ==> (table.len() - 1) * block_size < data.len()
    &&& forall|k: int|
        0 <= k < table.len() ==> #[trigger] table[k] == block_entry(data, block_size, k as nat)
}

/// The checksums of the blocks of a file: blocks of `block_size` bytes, the
/// last one as long as what is left. A block size of zero yields no block.
pub fn compute_checksums(data: &[u8], block_size: usize) -> (table: Vec<BlockChecksum>)
    ensures
        block_size > 0 ==> is_table_of(table@, data@, block_size as nat),
        block_size == 0 ==> table.len() == 0,
{
    let mut table: Vec<BlockChecksum> = Vec::new();
    if block_size == 0 {
        return table;
    }
    let mut offset: usize = 0;
    assert(0 * block_size == 0) by (nonlinear_arith);
    while offset < data.len()
        invariant
            block_size > 0,
            offset <= data.len(),
            offset < data.len() ==> offset == table.len() * block_size,
            offset == data.len() ==> table.len() * block_size >= data.len(),
            table.len() > 0 ==> (table.len() - 1) * block_size < data.len(),
            forall|k: int|
                0 <= k < table.len() ==> #[trigger] table[k] == block_entry(
                    data@,
                    block_size as nat,
                    k as nat,
                ),
        decreases data.len() - offset,
    {
        let ghost k = table.len() as nat;
        let ghost before = table@;
        let left = data.len() - offset;
        let size = if left < block_size {
            left
        } else {
            block_size
        };
        proof {
            assert((k + 1) * block_size == k * block_size + block_size) by (nonlinear_arith);
        }
        let block = slice_subrange(data, offset, offset + size);
        assert(block@ == block_bytes(data@, block_size as nat, k));
        let entry = BlockChecksum {
            index: table.len() as u64,
            offset: offset as u64,
            size,
            weak: weak(block),
            strong: strong(block),
        };
        assert(entry == block_entry(data@, block_size as nat, k));
        table.push(entry);
        offset = offset + size;
        proof {
            assert forall|j: int| 0 <= j < table.len() implies #[trigger] table[j] == block_entry(
                data@,
                block_size as nat,
                j as nat,
            ) by {
                if j < k {
                    assert(table[j] == before[j]);
                }
            }
        }
    }
    table
}

} // verus!
