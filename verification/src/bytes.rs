//! Writing numbers and byte strings into a buffer.

use crate::common;
use vstd::prelude::*;

verus! {

/// `n` little-endian bytes of `v`.
pub open spec fn le_bytes(v: int, n: nat) -> Seq<u8>
    decreases n,
{
    if n == 0 {
        Seq::empty()
    } else {
        seq![(v % 256) as u8] + le_bytes(v / 256, (n - 1) as nat)
    }
}

/// `s` with `b` written over it at `off`.
pub open spec fn put(s: Seq<u8>, off: int, b: Seq<u8>) -> Seq<u8> {
    Seq::new(s.len(), |i: int| if off <= i < off + b.len() { b[i - off] } else { s[i] })
}

/// `n` bytes of zero.
pub open spec fn zeros(n: nat) -> Seq<u8> {
    Seq::new(n, |i: int| 0u8)
}

/// The little-endian bytes of a number.
pub fn le_vec(v: u64, n: usize) -> (r: Vec<u8>)
    requires
        n <= 8,
    ensures
        r@ == le_bytes(v as int, n as nat),
{
    let mut out: Vec<u8> = Vec::new();
    let mut rest: u64 = v;
    let mut i: usize = 0;
    while i < n
        invariant
            i <= n,
            out@ + le_bytes(rest as int, (n - i) as nat) =~= le_bytes(v as int, n as nat),
        decreases n - i,
    {
        let ghost before = out@;
        let ghost tail = le_bytes((rest / 256) as int, (n - i - 1) as nat);
        out.push((rest % 256) as u8);
        assert(out@ + tail =~= before + (seq![(rest % 256) as u8] + tail));
        rest = rest / 256;
        i += 1;
    }
    out
}

/// Add `n` bytes of zero.
pub fn push_zeros(out: &mut Vec<u8>, n: usize)
    ensures
        final(out)@ == old(out)@ + zeros(n as nat),
{
    let mut i: usize = 0;
    while i < n
        invariant
            i <= n,
            out@ =~= old(out)@ + zeros(i as nat),
        decreases n - i,
    {
        out.push(0);
        i += 1;
    }
}

/// Add a number of `n` little-endian bytes.
pub fn push_le(out: &mut Vec<u8>, v: u64, n: usize)
    requires
        n <= 8,
    ensures
        final(out)@ == old(out)@ + le_bytes(v as int, n as nat),
{
    let mut b: Vec<u8> = le_vec(v, n);
    out.append(&mut b);
}

/// Add the bytes `b`.
pub fn push_bytes(out: &mut Vec<u8>, b: &[u8])
    ensures
        final(out)@ == old(out)@ + b@,
{
    let mut i: usize = 0;
    while i < b.len()
        invariant
            i <= b@.len(),
            out@ =~= old(out)@ + b@.take(i as int),
        decreases b@.len() - i,
    {
        out.push(b[i]);
        i += 1;
    }
    assert(b@.take(i as int) =~= b@);
}

/// Write `b` over `img` at `off`.
pub fn write_at(img: &mut Vec<u8>, off: usize, b: &[u8])
    requires
        off + b@.len() <= old(img)@.len(),
    ensures
        final(img)@ == put(old(img)@, off as int, b@),
{
    let mut i: usize = 0;
    let end: usize = img.len();
    while i < b.len()
        invariant
            i <= b@.len(),
            off + b@.len() <= end,
            end == img@.len(),
            img@ =~= put(old(img)@, off as int, b@.take(i as int)),
            old(img)@.len() == end,
        decreases b@.len() - i,
    {
        img[off + i] = b[i];
        i += 1;
    }
    assert(b@.take(i as int) =~= b@);
}

/// Write one byte at `off`.
pub fn write_byte(img: &mut Vec<u8>, off: usize, b: u8)
    requires
        off < old(img)@.len(),
    ensures
        final(img)@ == put(old(img)@, off as int, seq![b]),
{
    img[off] = b;
    assert(img@ =~= put(old(img)@, off as int, seq![b]));
}

/// Write a number of `n` little-endian bytes at `off`.
pub fn write_le(img: &mut Vec<u8>, off: usize, v: u64, n: usize)
    requires
        n <= 8,
        off + n <= old(img)@.len(),
    ensures
        final(img)@ == put(old(img)@, off as int, le_bytes(v as int, n as nat)),
{
    let b: Vec<u8> = le_vec(v, n);
    proof {
        lemma_le_bytes_len(v as int, n as nat);
    }
    write_at(img, off, &b);
}

pub proof fn lemma_le_bytes_len(v: int, n: nat)
    ensures
        le_bytes(v, n).len() == n,
    decreases n,
{
    if n > 0 {
        lemma_le_bytes_len(v / 256, (n - 1) as nat);
    }
}

// --------------------------------------------------------------------- laws

/// The bytes of a 16-bit number, one by one.
pub proof fn lemma_le16_bytes(v: int)
    requires
        0 <= v <= u16::MAX,
    ensures
        le_bytes(v, 2) =~= seq![(v % 256) as u8, (v / 256) as u8],
{
    reveal_with_fuel(le_bytes, 3);
}

/// The bytes of a 32-bit number, one by one.
pub proof fn lemma_le32_bytes(v: int)
    requires
        0 <= v <= u32::MAX,
    ensures
        le_bytes(v, 4) =~= seq![
            (v % 256) as u8,
            (v / 256 % 256) as u8,
            (v / 0x1_0000 % 256) as u8,
            (v / 0x100_0000) as u8,
        ],
{
    reveal_with_fuel(le_bytes, 5);
}

/// The bytes of a 64-bit number, half by half.
pub proof fn lemma_le64_bytes(v: int)
    requires
        0 <= v <= u64::MAX,
    ensures
        le_bytes(v, 8) =~= le_bytes(v % 0x1_0000_0000, 4) + le_bytes(v / 0x1_0000_0000, 4),
{
    lemma_le_bytes_split(v, 4, 4);
    assert(vstd::arithmetic::power::pow(256, 4) == 0x1_0000_0000) by {
        reveal_with_fuel(vstd::arithmetic::power::pow, 5);
    }
}

proof fn lemma_le_bytes_split(v: int, m: nat, n: nat)
    requires
        v >= 0,
    ensures
        le_bytes(v, m + n) =~= le_bytes(v % vstd::arithmetic::power::pow(256, m), m) + le_bytes(
            v / vstd::arithmetic::power::pow(256, m),
            n,
        ),
    decreases m,
{
    let p = vstd::arithmetic::power::pow(256, m);
    vstd::arithmetic::power::lemma_pow_positive(256, m);
    if m == 0 {
        vstd::arithmetic::power::lemma_pow0(256);
        assert(v / 1 == v);
    } else {
        let q = vstd::arithmetic::power::pow(256, (m - 1) as nat);
        vstd::arithmetic::power::lemma_pow_positive(256, (m - 1) as nat);
        reveal_with_fuel(vstd::arithmetic::power::pow, 2);
        assert(p == 256 * q);
        lemma_le_bytes_split(v / 256, (m - 1) as nat, n);
        vstd::arithmetic::div_mod::lemma_div_denominator(v, 256, q);
        vstd::arithmetic::div_mod::lemma_mod_breakdown(v, 256, q);
        let w = v % p;
        assert(w == 256 * ((v / 256) % q) + v % 256);
        assert(w / 256 == (v / 256) % q && w % 256 == v % 256) by (nonlinear_arith)
            requires
                w == 256 * ((v / 256) % q) + v % 256,
                q > 0,
        ;
    }
}

/// What is written little-endian is read back: 16 bits.
pub proof fn lemma_u16_round_trip(s: Seq<u8>, off: int, v: u16)
    requires
        common::holds(s, off, 2),
    ensures
        common::le16(put(s, off, le_bytes(v as int, 2)), off) == v,
{
    lemma_le16_bytes(v as int);
}

/// What is written little-endian is read back: 32 bits.
pub proof fn lemma_u32_round_trip(s: Seq<u8>, off: int, v: u32)
    requires
        common::holds(s, off, 4),
    ensures
        common::le32(put(s, off, le_bytes(v as int, 4)), off) == v,
{
    lemma_le32_bytes(v as int);
}

/// What is written little-endian is read back: 64 bits.
pub proof fn lemma_u64_round_trip(s: Seq<u8>, off: int, v: u64)
    requires
        common::holds(s, off, 8),
    ensures
        common::le64(put(s, off, le_bytes(v as int, 8)), off) == v,
{
    let lo = v as int % 0x1_0000_0000;
    let hi = v as int / 0x1_0000_0000;
    lemma_le64_bytes(v as int);
    lemma_le32_bytes(lo);
    lemma_le32_bytes(hi);
    let t = put(s, off, le_bytes(v as int, 8));
    assert(common::le32(t, off) == lo);
    assert(common::le32(t, off + 4) == hi);
}

/// The number that `n` bytes at `off` spell, the lowest first.
pub open spec fn number(b: Seq<u8>, off: int, n: nat) -> int
    decreases n,
{
    if n == 0 {
        0
    } else {
        b[off] + 256 * number(b, off + 1, (n - 1) as nat)
    }
}

/// Two, four and eight bytes are read as the numbers they spell, the lowest byte first.
pub proof fn lemma_numbers_are_little_endian(b: Seq<u8>, off: int)
    ensures
        common::le16(b, off) == number(b, off, 2),
        common::le32(b, off) == number(b, off, 4),
        common::le64(b, off) == number(b, off, 8),
{
    reveal_with_fuel(number, 9);
}

} // verus!
