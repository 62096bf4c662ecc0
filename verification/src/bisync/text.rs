//! Numbers as text: the decimal and hexadecimal forms that the state file
//! holds.

use vstd::prelude::*;
use vstd::slice::slice_subrange;
use vstd::string::StringExecFns;

verus! {

/// The character of a digit below sixteen: `0` to `9`, then `a` to `f`.
pub open spec fn digit_byte(d: nat) -> u8 {
    if d < 10 {
        (0x30 + d) as u8
    } else {
        (0x61 + d - 10) as u8
    }
}

/// The digit that a character stands for in the base `base`, if any.
/// Letters count in both cases.
pub open spec fn digit_of(b: u8, base: nat) -> Option<nat> {
    let d: int = if 0x30 <= b <= 0x39 {
        b - 0x30
    } else if 0x61 <= b <= 0x66 {
        b - 0x61 + 10
    } else if 0x41 <= b <= 0x46 {
        b - 0x41 + 10
    } else {
        16
    };
    if d < base {
        Some(d as nat)
    } else {
        None
    }
}

/// Whether every character is a digit of the base.
pub open spec fn all_digits(s: Seq<u8>, base: nat) -> bool {
    forall|i: int| 0 <= i < s.len() ==> digit_of(#[trigger] s[i], base) is Some
}

/// The number that a run of digits writes, most significant digit first.
pub open spec fn digits_value(s: Seq<u8>, base: nat) -> nat
    decreases s.len(),
{
    if s.len() == 0 {
        0
    } else {
        digits_value(s.drop_last(), base) * base + match digit_of(s.last(), base) {
            Some(d) => d,
            None => 0,
        }
    }
}

/// The digits of a number, most significant first, without leading zeros;
/// zero is a single `0`.
pub open spec fn digits(n: nat, base: nat) -> Seq<u8>
    decreases n,
{
    if n < base || base < 2 {
        seq![digit_byte(n)]
    } else {
        proof {
            assert(n / base < n) by (nonlinear_arith)
                requires
                    base >= 2,
                    n >= base,
            ;
        }
        digits(n / base, base).push(digit_byte(n % base))
    }
}

/// An unsigned number in text: digits of the base, with a `+` in front if
/// one likes; `None` for anything else and for a number above `max`.
pub open spec fn unsigned_text(s: Seq<u8>, base: nat, max: nat) -> Option<nat> {
    let body = if s.len() > 0 && s[0] == 0x2b {
        s.skip(1)
    } else {
        s
    };
    if body.len() > 0 && all_digits(body, base) && digits_value(body, base) <= max {
        Some(digits_value(body, base))
    } else {
        None
    }
}

/// A signed 64-bit number in decimal text: digits with `+` or `-` in front
/// if one likes; `None` for anything else and for a number out of range.
pub open spec fn signed_text(s: Seq<u8>) -> Option<int> {
    if s.len() > 0 && s[0] == 0x2d {
        let body = s.skip(1);
        if body.len() > 0 && all_digits(body, 10) && digits_value(body, 10)
            <= 0x8000_0000_0000_0000 {
            Some(-(digits_value(body, 10) as int))
        } else {
            None
        }
    } else {
        match unsigned_text(s, 10, 0x7fff_ffff_ffff_ffff) {
            Some(v) => Some(v as int),
            None => None,
        }
    }
}

/// A signed number as decimal text: a `-` in front of what is below zero.
pub open spec fn signed_digits(n: int) -> Seq<u8> {
    if n < 0 {
        seq![0x2du8] + digits((-n) as nat, 10)
    } else {
        digits(n as nat, 10)
    }
}

/// A longer run of digits writes no smaller a number.
pub proof fn lemma_value_grows(s: Seq<u8>, base: nat, i: int)
    requires
        0 <= i <= s.len(),
        base >= 1,
    ensures
        digits_value(s.take(i), base) <= digits_value(s, base),
    decreases s.len() - i,
{
    if i < s.len() {
        lemma_value_grows(s, base, i + 1);
        assert(s.take(i + 1).drop_last() =~= s.take(i));
        let v = digits_value(s.take(i), base);
        assert(v * base >= v) by (nonlinear_arith)
            requires
                base >= 1,
                v >= 0,
        ;
    } else {
        assert(s.take(i) =~= s);
    }
}

/// The digits of a number write that number.
pub proof fn lemma_digits_round_trip(n: nat, base: nat)
    requires
        2 <= base <= 16,
    ensures
        digits(n, base).len() > 0,
        all_digits(digits(n, base), base),
        digits_value(digits(n, base), base) == n,
        digits(n, base)[0] != 0x2b,
        digits(n, base)[0] != 0x2d,
    decreases n,
{
    let s = digits(n, base);
    if n < base {
        assert(s.drop_last() =~= Seq::<u8>::empty());
        assert(digits_value(s.drop_last(), base) == 0);
        assert(digits_value(s, base) == 0 * base + n);
    } else {
        lemma_digits_round_trip(n / base, base);
        let head = digits(n / base, base);
        assert(s.drop_last() =~= head);
        assert(s.last() == digit_byte(n % base));
        assert(digit_of(digit_byte(n % base), base) == Some(n % base));
        assert((n / base) * base + n % base == n) by (nonlinear_arith)
            requires
                base >= 2,
        ;
        assert forall|i: int| 0 <= i < s.len() implies digit_of(#[trigger] s[i], base) is Some by {
            if i < head.len() {
                assert(s[i] == head[i]);
            }
        }
        assert(s[0] == head[0]);
    }
}

/// The digit that a character stands for in the base, if any.
fn digit(b: u8, base: u8) -> (r: Option<u8>)
    ensures
        match r {
            Some(d) => digit_of(b, base as nat) == Some(d as nat),
            None => digit_of(b, base as nat) is None,
        },
{
    let d: u8 = if 0x30 <= b && b <= 0x39 {
        b - 0x30
    } else if 0x61 <= b && b <= 0x66 {
        b - 0x61 + 10
    } else if 0x41 <= b && b <= 0x46 {
        b - 0x41 + 10
    } else {
        16
    };
    if d < base {
        Some(d)
    } else {
        None
    }
}

/// Reads the digits of `s` from `start` on as a number of at most `max`.
fn parse_digits(s: &[u8], start: usize, base: u8, max: u64) -> (r: Option<u64>)
    requires
        2 <= base <= 16,
        start <= s.len(),
    ensures
        match r {
            Some(v) => {
                let body = s@.skip(start as int);
                body.len() > 0 && all_digits(body, base as nat) && digits_value(body, base as nat)
                    == v && v <= max
            },
            None => {
                let body = s@.skip(start as int);
                !(body.len() > 0 && all_digits(body, base as nat) && digits_value(
                    body,
                    base as nat,
                ) <= max)
            },
        },
{
    let ghost body = s@.skip(start as int);
    if start == s.len() {
        return None;
    }
    let mut acc: u64 = 0;
    let mut i: usize = start;
    assert(body.take(0) =~= Seq::<u8>::empty());
    while i < s.len()
        invariant
            2 <= base <= 16,
            start <= i <= s.len(),
            body == s@.skip(start as int),
            all_digits(body.take(i - start), base as nat),
            acc == digits_value(body.take(i - start), base as nat),
            acc <= max,
        decreases s.len() - i,
    {
        let ghost before = body.take(i - start);
        let ghost after = body.take(i - start + 1);
        proof {
            assert(after.drop_last() =~= before);
            assert(after.last() == s@[i as int]);
        }
        let d = match digit(s[i], base) {
            Some(d) => d,
            None => {
                assert(digit_of(body[i - start], base as nat) is None);
                return None;
            },
        };
        assert(acc as u128 * base as u128 <= 0xffff_ffff_ffff_ffff * 16) by (nonlinear_arith)
            requires
                acc <= 0xffff_ffff_ffff_ffff,
                base <= 16,
        ;
        let next: u128 = acc as u128 * base as u128 + d as u128;
        if next > max as u128 {
            proof {
                lemma_value_grows(body, base as nat, i - start + 1);
            }
            return None;
        }
        proof {
            assert forall|j: int| 0 <= j < after.len() implies digit_of(
                #[trigger] after[j],
                base as nat,
            ) is Some by {
                if j < before.len() {
                    assert(after[j] == before[j]);
                }
            }
        }
        acc = next as u64;
        i = i + 1;
    }
    assert(body.take(i - start) =~= body);
    Some(acc)
}

/// Reads an unsigned number in decimal text.
pub fn parse_u64(s: &[u8]) -> (r: Option<u64>)
    ensures
        match r {
            Some(v) => unsigned_text(s@, 10, u64::MAX as nat) == Some(v as nat),
            None => unsigned_text(s@, 10, u64::MAX as nat) is None,
        },
{
    let start: usize = if s.len() > 0 && s[0] == 0x2b {
        1
    } else {
        assert(s@.skip(0) =~= s@);
        0
    };
    parse_digits(s, start, 10, u64::MAX)
}

/// Reads an unsigned number in hexadecimal text.
pub fn parse_hex_u64(s: &[u8]) -> (r: Option<u64>)
    ensures
        match r {
            Some(v) => unsigned_text(s@, 16, u64::MAX as nat) == Some(v as nat),
            None => unsigned_text(s@, 16, u64::MAX as nat) is None,
        },
{
    let start: usize = if s.len() > 0 && s[0] == 0x2b {
        1
    } else {
        assert(s@.skip(0) =~= s@);
        0
    };
    parse_digits(s, start, 16, u64::MAX)
}

/// Reads a signed number in decimal text.
pub fn parse_i64(s: &[u8]) -> (r: Option<i64>)
    ensures
        match r {
            Some(v) => signed_text(s@) == Some(v as int),
            None => signed_text(s@) is None,
        },
{
    if s.len() > 0 && s[0] == 0x2d {
        match parse_digits(s, 1, 10, 0x8000_0000_0000_0000) {
            Some(v) => Some((0 - v as i128) as i64),
            None => None,
        }
    } else {
        let start: usize = if s.len() > 0 && s[0] == 0x2b {
            1
        } else {
            assert(s@.skip(0) =~= s@);
            0
        };
        match parse_digits(s, start, 10, 0x7fff_ffff_ffff_ffff) {
            Some(v) => Some(v as i64),
            None => None,
        }
    }
}

/// Appends the digits of a number.
fn push_digits(out: &mut Vec<u8>, n: u64, base: u64)
    requires
        2 <= base <= 16,
    ensures
        final(out)@ == old(out)@ + digits(n as nat, base as nat),
    decreases n,
{
    if n >= base {
        assert(n / base < n) by (nonlinear_arith)
            requires
                base >= 2,
                n >= base,
        ;
        push_digits(out, n / base, base);
    } else {
        assert(n % base == n) by (nonlinear_arith)
            requires
                n < base,
        ;
    }
    assert(n % base < base) by (nonlinear_arith)
        requires
            base >= 2,
    ;
    let d = n % base;
    let byte: u8 = if d < 10 {
        0x30 + d as u8
    } else {
        0x61 + (d - 10) as u8
    };
    out.push(byte);
    assert(out@ =~= old(out)@ + digits(n as nat, base as nat));
}

/// Appends a number in decimal text.
pub fn push_u64(out: &mut Vec<u8>, n: u64)
    ensures
        final(out)@ == old(out)@ + digits(n as nat, 10),
{
    push_digits(out, n, 10);
}

/// Appends a number in hexadecimal text, with small letters.
pub fn push_hex_u64(out: &mut Vec<u8>, n: u64)
    ensures
        final(out)@ == old(out)@ + digits(n as nat, 16),
{
    push_digits(out, n, 16);
}

/// Appends a signed number in decimal text.
pub fn push_i64(out: &mut Vec<u8>, n: i64)
    ensures
        final(out)@ == old(out)@ + signed_digits(n as int),
{
    if n < 0 {
        out.push(0x2d);
        push_digits(out, (0 - n as i128) as u64, 10);
        assert(out@ =~= old(out)@ + signed_digits(n as int));
    } else {
        push_digits(out, n as u64, 10);
    }
}

/// A number written as text is read back as the number.
pub proof fn lemma_number_round_trip(n: u64, m: i64)
    ensures
        unsigned_text(digits(n as nat, 10), 10, u64::MAX as nat) == Some(n as nat),
        unsigned_text(digits(n as nat, 16), 16, u64::MAX as nat) == Some(n as nat),
        signed_text(signed_digits(m as int)) == Some(m as int),
{
    lemma_digits_round_trip(n as nat, 10);
    lemma_digits_round_trip(n as nat, 16);
    if m < 0 {
        let mag = (-m) as nat;
        lemma_digits_round_trip(mag, 10);
        let s = signed_digits(m as int);
        assert(s.skip(1) =~= digits(mag, 10));
    } else {
        lemma_digits_round_trip(m as nat, 10);
    }
}

/// Where the first `b` of `s` stands; the length of `s` where it has none.
pub open spec fn first_index(s: Seq<u8>, b: u8) -> int
    decreases s.len(),
{
    if s.len() == 0 || s[0] == b {
        0
    } else {
        1 + first_index(s.skip(1), b)
    }
}

/// Where the first `b` stands, found by looking: no byte before `n` is
/// `b`, and `n` is the end or a `b`.
pub proof fn lemma_first_index(s: Seq<u8>, b: u8, n: int)
    requires
        0 <= n <= s.len(),
        forall|j: int| 0 <= j < n ==> s[j] != b,
        n == s.len() || s[n] == b,
    ensures
        first_index(s, b) == n,
    decreases n,
{
    if n > 0 {
        lemma_first_index(s.skip(1), b, n - 1);
    }
}

/// Finds the first `b` of `s`.
pub fn find(s: &[u8], b: u8) -> (n: usize)
    ensures
        n == first_index(s@, b),
        n <= s.len(),
{
    let mut n: usize = 0;
    while n < s.len() && s[n] != b
        invariant
            n <= s.len(),
            forall|j: int| 0 <= j < n ==> s[j] != b,
        decreases s.len() - n,
    {
        n = n + 1;
    }
    proof {
        lemma_first_index(s@, b, n as int);
    }
    n
}

/// Whether a byte is blank: a space, or one of the control characters from
/// tab to carriage return.
pub open spec fn is_blank(b: u8) -> bool {
    b == 0x20 || 0x09 <= b <= 0x0d
}

/// A line without the blanks in front of it.
pub open spec fn trim_start(s: Seq<u8>) -> Seq<u8>
    decreases s.len(),
{
    if s.len() > 0 && is_blank(s[0]) {
        trim_start(s.skip(1))
    } else {
        s
    }
}

/// A line without the blanks behind it.
pub open spec fn trim_end(s: Seq<u8>) -> Seq<u8>
    decreases s.len(),
{
    if s.len() > 0 && is_blank(s.last()) {
        trim_end(s.drop_last())
    } else {
        s
    }
}

/// A line without the blanks around it.
pub open spec fn trimmed(s: Seq<u8>) -> Seq<u8> {
    trim_end(trim_start(s))
}

/// Whether a byte is blank.
fn blank(b: u8) -> (r: bool)
    ensures
        r == is_blank(b),
{
    b == 0x20 || (0x09 <= b && b <= 0x0d)
}

/// Takes the blanks around a line away.
pub fn trim(s: &[u8]) -> (r: &[u8])
    ensures
        r@ == trimmed(s@),
{
    let mut start: usize = 0;
    assert(s@.skip(0) =~= s@);
    while start < s.len() && blank(s[start])
        invariant
            start <= s.len(),
            trim_start(s@) == trim_start(s@.skip(start as int)),
        decreases s.len() - start,
    {
        proof {
            assert(s@.skip(start as int).skip(1) =~= s@.skip(start + 1));
        }
        start = start + 1;
    }
    let ghost front = s@.skip(start as int);
    let mut end: usize = s.len();
    assert(front.take(end - start) =~= front);
    while end > start && blank(s[end - 1])
        invariant
            start <= end <= s.len(),
            front == s@.skip(start as int),
            trim_end(front) == trim_end(front.take(end - start)),
        decreases end,
    {
        proof {
            assert(front.take(end - start).drop_last() =~= front.take(end - start - 1));
        }
        end = end - 1;
    }
    let r = slice_subrange(s, start, end);
    assert(r@ =~= front.take(end - start));
    r
}

/// The digits of a number as text.
pub open spec fn digit_text(n: nat, base: nat) -> Seq<char> {
    digits(n, base).map_values(|b: u8| b as char)
}

/// The text of one hexadecimal digit.
fn hex_digit(d: u64) -> (r: &'static str)
    requires
        d < 16,
    ensures
        r@ == seq![digit_byte(d as nat) as char],
{
    proof {
        reveal_strlit("0");
        reveal_strlit("1");
        reveal_strlit("2");
        reveal_strlit("3");
        reveal_strlit("4");
        reveal_strlit("5");
        reveal_strlit("6");
        reveal_strlit("7");
        reveal_strlit("8");
        reveal_strlit("9");
        reveal_strlit("a");
        reveal_strlit("b");
        reveal_strlit("c");
        reveal_strlit("d");
        reveal_strlit("e");
        reveal_strlit("f");
    }
    let r = match d {
        0 => "0",
        1 => "1",
        2 => "2",
        3 => "3",
        4 => "4",
        5 => "5",
        6 => "6",
        7 => "7",
        8 => "8",
        9 => "9",
        10 => "a",
        11 => "b",
        12 => "c",
        13 => "d",
        14 => "e",
        _ => "f",
    };
    assert(r@ =~= seq![digit_byte(d as nat) as char]);
    r
}

/// Appends a number in hexadecimal text, with small letters.
pub fn append_hex(out: &mut String, n: u64)
    ensures
        final(out)@ == old(out)@ + digit_text(n as nat, 16),
    decreases n,
{
    if n >= 16 {
        append_hex(out, n / 16);
    }
    out.append(hex_digit(n % 16));
    assert(out@ =~= old(out)@ + digit_text(n as nat, 16));
}

} // verus!
