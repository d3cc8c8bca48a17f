//! Helpers shared by every format module.
//!
//! Arithmetic here is checked, not wrapping. On a corrupt header a wrapped offset
//! points at a real sector and gets displayed with full confidence.

use crate::source::{BlockSource, ReadOutcome};
use std::collections::HashSet;
use vstd::prelude::*;

verus! {

broadcast use vstd::std_specs::hash::group_hash_axioms;

// ------------------------------------------------------------ little-endian

/// The two-byte little-endian value at `off`.
pub open spec fn le16(s: Seq<u8>, off: int) -> u16 {
    (s[off] + 0x100 * s[off + 1]) as u16
}

/// The four-byte little-endian value at `off`.
pub open spec fn le32(s: Seq<u8>, off: int) -> u32 {
    (s[off] + 0x100 * s[off + 1] + 0x1_0000 * s[off + 2] + 0x100_0000 * s[off + 3]) as u32
}

/// The eight-byte little-endian value at `off`.
pub open spec fn le64(s: Seq<u8>, off: int) -> u64 {
    (le32(s, off) + 0x1_0000_0000 * le32(s, off + 4)) as u64
}

/// `n` bytes at `off` lie inside `s`.
pub open spec fn holds(s: Seq<u8>, off: int, n: int) -> bool {
    0 <= off && off + n <= s.len()
}

/// Read the two-byte little-endian value at `off` within `buf`, if present.
pub fn u16le(buf: &[u8], off: usize) -> (r: Option<u16>)
    ensures
        r == if holds(buf@, off as int, 2) { Some(le16(buf@, off as int)) } else { None },
{
    if buf.len() < 2 || off > buf.len() - 2 {
        return None;
    }
    Some(buf[off] as u16 + 0x100 * (buf[off + 1] as u16))
}

/// Read the four-byte little-endian value at `off` within `buf`, if present.
pub fn u32le(buf: &[u8], off: usize) -> (r: Option<u32>)
    ensures
        r == if holds(buf@, off as int, 4) { Some(le32(buf@, off as int)) } else { None },
{
    if buf.len() < 4 || off > buf.len() - 4 {
        return None;
    }
    Some(
        buf[off] as u32 + 0x100 * (buf[off + 1] as u32) + 0x1_0000 * (buf[off + 2] as u32)
            + 0x100_0000 * (buf[off + 3] as u32),
    )
}

/// Read the eight-byte little-endian value at `off` within `buf`, if present.
pub fn u64le(buf: &[u8], off: usize) -> (r: Option<u64>)
    ensures
        r == if holds(buf@, off as int, 8) { Some(le64(buf@, off as int)) } else { None },
{
    if buf.len() < 8 || off > buf.len() - 8 {
        return None;
    }
    let low: u64 = buf[off] as u64 + 0x100 * (buf[off + 1] as u64) + 0x1_0000 * (buf[off + 2] as u64)
        + 0x100_0000 * (buf[off + 3] as u64);
    let high: u64 = buf[off + 4] as u64 + 0x100 * (buf[off + 5] as u64) + 0x1_0000 * (buf[off
        + 6] as u64) + 0x100_0000 * (buf[off + 7] as u64);
    Some(low + 0x1_0000_0000 * high)
}

/// The byte at `off`, or zero where `s` is too short.
pub open spec fn byte_or_zero(s: Seq<u8>, off: int) -> u8 {
    if holds(s, off, 1) {
        s[off]
    } else {
        0
    }
}

/// The two-byte value at `off`, or zero where `s` is too short.
pub open spec fn le16_or_zero(s: Seq<u8>, off: int) -> u16 {
    if holds(s, off, 2) {
        le16(s, off)
    } else {
        0
    }
}

/// The four-byte value at `off`, or zero where `s` is too short.
pub open spec fn le32_or_zero(s: Seq<u8>, off: int) -> u32 {
    if holds(s, off, 4) {
        le32(s, off)
    } else {
        0
    }
}

/// The eight-byte value at `off`, or zero where `s` is too short.
pub open spec fn le64_or_zero(s: Seq<u8>, off: int) -> u64 {
    if holds(s, off, 8) {
        le64(s, off)
    } else {
        0
    }
}

/// The byte at `off`, or zero where `buf` is too short.
pub fn u8_or_zero(buf: &[u8], off: usize) -> (r: u8)
    ensures
        r == byte_or_zero(buf@, off as int),
{
    if off < buf.len() {
        buf[off]
    } else {
        0
    }
}

/// The two-byte value at `off`, or zero where `buf` is too short.
pub fn u16_or_zero(buf: &[u8], off: usize) -> (r: u16)
    ensures
        r == le16_or_zero(buf@, off as int),
{
    match u16le(buf, off) {
        Some(v) => v,
        None => 0,
    }
}

/// The four-byte value at `off`, or zero where `buf` is too short.
pub fn u32_or_zero(buf: &[u8], off: usize) -> (r: u32)
    ensures
        r == le32_or_zero(buf@, off as int),
{
    match u32le(buf, off) {
        Some(v) => v,
        None => 0,
    }
}

/// The eight-byte value at `off`, or zero where `buf` is too short.
pub fn u64_or_zero(buf: &[u8], off: usize) -> (r: u64)
    ensures
        r == le64_or_zero(buf@, off as int),
{
    match u64le(buf, off) {
        Some(v) => v,
        None => 0,
    }
}

// --------------------------------------------------------------- arithmetic

/// `x` as a 64-bit offset, where it is one.
pub open spec fn checked(x: int) -> Option<u64> {
    if 0 <= x <= u64::MAX {
        Some(x as u64)
    } else {
        None
    }
}

/// `x`, held at the top of the 64-bit range.
pub open spec fn saturated(x: int) -> u64 {
    if x <= u64::MAX {
        x as u64
    } else {
        u64::MAX
    }
}

/// `a / b`, rounded up.
pub open spec fn ceil_div(a: int, b: int) -> int {
    if a % b == 0 {
        a / b
    } else {
        a / b + 1
    }
}

/// `a * b + c`, refusing to wrap.
pub fn mul_add(a: u64, b: u64, c: u64) -> (r: Option<u64>)
    ensures
        r == checked(a * b + c),
{
    assert(a * b >= 0) by (nonlinear_arith)
        requires
            a >= 0,
            b >= 0,
    ;
    match a.checked_mul(b) {
        Some(product) => product.checked_add(c),
        None => None,
    }
}

/// `a * b`, held at the top of the range.
pub fn saturating_mul(a: u64, b: u64) -> (r: u64)
    ensures
        r == saturated(a * b),
{
    match a.checked_mul(b) {
        Some(v) => v,
        None => u64::MAX,
    }
}

/// `a / b`, rounded up.
pub fn div_ceil(a: u64, b: u64) -> (r: u64)
    requires
        b > 0,
    ensures
        r == ceil_div(a as int, b as int),
        r <= a,
{
    let q: u64 = a / b;
    proof {
        lemma_quotient_bound(a, b);
    }
    if a % b == 0 {
        q
    } else {
        q + 1
    }
}

proof fn lemma_quotient_bound(a: u64, b: u64)
    requires
        b > 0,
    ensures
        a / b <= a,
        a % b != 0 ==> a / b < a,
{
    assert(a / b <= a && (a % b != 0 ==> a / b < a)) by (nonlinear_arith)
        requires
            a >= 0,
            b > 0,
    ;
}

/// The smaller of two.
pub fn min_u64(a: u64, b: u64) -> (r: u64)
    ensures
        r == if a <= b { a } else { b },
{
    if a <= b {
        a
    } else {
        b
    }
}

// ------------------------------------------------------------------- ranges

/// LBA to byte offset, refusing to wrap.
pub fn lba_to_byte(lba: u64, sector_size: u32) -> (r: Option<u64>)
    ensures
        r == if lba * sector_size <= u64::MAX {
            Some((lba * sector_size) as u64)
        } else {
            None
        },
{
    lba.checked_mul(sector_size as u64)
}

/// Bytes available from `at` to the end of `src`, saturating at zero.
pub fn remaining<S: BlockSource>(src: &S, at: u64) -> (r: u64)
    ensures
        r == if at <= src.device().len { src.device().len - at } else { 0 },
{
    src.len().saturating_sub(at)
}

/// True when the whole range lies inside the device.
pub fn in_bounds<S: BlockSource>(src: &S, at: u64, len: u64) -> (r: bool)
    ensures
        r <==> at + len <= src.device().len,
{
    match at.checked_add(len) {
        Some(end) => end <= src.len(),
        None => false,
    }
}

/// Read `len` bytes, returning `None` for an unreadable range so callers can tell
/// "the device refused" from "the device holds zeros".
pub fn read_exact_opt<S: BlockSource>(src: &S, at: u64, len: u64) -> (r: Option<Vec<u8>>)
    ensures
        r is None <==> src.device().read(at, len).refused(),
        r matches Some(v) ==> v@ == src.device().read(at, len).data,
{
    let (v, outcome) = src.read_vec(at, len);
    match outcome {
        ReadOutcome::Unreadable => None,
        _ => Some(v),
    }
}

// -------------------------------------------------------------- chain guard

/// A cheap, bounded guard for the linked structures in these formats: EBR chains
/// and cluster chains. A corrupt disk will happily describe a cycle.
#[derive(Debug)]
pub struct ChainGuard {
    seen: HashSet<u64>,
    limit: usize,
}

/// What following one more link of a chain amounts to.
#[derive(Clone, Copy, Debug, PartialEq, Eq, Structural)]
pub enum Step {
    Continue,
    /// This value has already been visited: the chain loops.
    Loop,
    /// The chain is longer than any legitimate structure.
    TooLong,
}

/// The step that visiting `value` is, given what has been seen.
pub open spec fn step_of(seen: Set<u64>, limit: usize, value: u64) -> Step {
    if seen.len() >= limit {
        Step::TooLong
    } else if seen.contains(value) {
        Step::Loop
    } else {
        Step::Continue
    }
}

impl ChainGuard {
    /// The values visited so far.
    pub closed spec fn seen(&self) -> Set<u64> {
        self.seen@
    }

    /// How many values may be visited.
    pub closed spec fn limit(&self) -> usize {
        self.limit
    }

    pub fn new(limit: usize) -> (r: ChainGuard)
        ensures
            r.seen() == Set::<u64>::empty(),
            r.limit() == limit,
    {
        ChainGuard { seen: HashSet::new(), limit }
    }

    /// Visit one more value. Only a first visit inside the limit is recorded.
    pub fn visit(&mut self, value: u64) -> (r: Step)
        ensures
            r == step_of(old(self).seen(), old(self).limit(), value),
            final(self).limit() == old(self).limit(),
            final(self).seen() == if r == Step::Continue {
                old(self).seen().insert(value)
            } else {
                old(self).seen()
            },
    {
        if self.seen.len() >= self.limit {
            return Step::TooLong;
        }
        if !self.seen.insert(value) {
            assert(self.seen@ =~= old(self).seen@);
            return Step::Loop;
        }
        Step::Continue
    }

    pub fn len(&self) -> (r: usize)
        ensures
            r == self.seen().len(),
    {
        self.seen.len()
    }

    pub fn is_empty(&self) -> (r: bool)
        ensures
            r <==> self.seen() == Set::<u64>::empty(),
    {
        self.seen.is_empty()
    }
}

/// What a guard has seen after a run of visits.
pub open spec fn seen_after(limit: usize, values: Seq<u64>) -> Set<u64>
    decreases values.len(),
{
    if values.len() == 0 {
        Set::empty()
    } else {
        let before = seen_after(limit, values.drop_last());
        if step_of(before, limit, values.last()) == Step::Continue {
            before.insert(values.last())
        } else {
            before
        }
    }
}

/// What a guard answers to visit `i` of a run.
pub open spec fn answer(limit: usize, values: Seq<u64>, i: int) -> Step {
    step_of(seen_after(limit, values.take(i)), limit, values[i])
}

/// How many of the first `n` visits of a run a guard lets through.
pub open spec fn let_through(limit: usize, values: Seq<u64>, n: nat) -> nat
    decreases n,
{
    if n == 0 {
        0
    } else {
        let_through(limit, values, (n - 1) as nat) + if answer(limit, values, n - 1)
            == Step::Continue {
            1nat
        } else {
            0nat
        }
    }
}

proof fn lemma_seen_after(limit: usize, values: Seq<u64>, n: nat)
    requires
        n <= values.len(),
    ensures
        seen_after(limit, values.take(n as int)).finite(),
        seen_after(limit, values.take(n as int)).len() == let_through(limit, values, n),
        let_through(limit, values, n) <= limit,
        forall|i: int|
            #![trigger values[i]]
            0 <= i < n && answer(limit, values, i) == Step::Continue ==> seen_after(
                limit,
                values.take(n as int),
            ).contains(values[i]),
    decreases n,
{
    if n > 0 {
        lemma_seen_after(limit, values, (n - 1) as nat);
        assert(values.take(n as int).drop_last() =~= values.take(n - 1));
    }
}

/// However long a chain claims to be and wherever it leads, a guard lets no value
/// through twice and no more values through than its limit.
pub proof fn lemma_guard_ends_every_chain(limit: usize, values: Seq<u64>)
    ensures
        let_through(limit, values, values.len()) <= limit,
        forall|i: int, j: int|
            #![trigger values[i], values[j]]
            0 <= i < j < values.len() && answer(limit, values, i) == Step::Continue && answer(
                limit,
                values,
                j,
            ) == Step::Continue ==> values[i] != values[j],
{
    lemma_seen_after(limit, values, values.len());
    assert forall|i: int, j: int|
        #![trigger values[i], values[j]]
        0 <= i < j < values.len() && answer(limit, values, i) == Step::Continue && answer(
            limit,
            values,
            j,
        ) == Step::Continue implies values[i] != values[j] by {
        lemma_seen_after(limit, values, j as nat);
        assert(seen_after(limit, values.take(j)).contains(values[i]));
    }
}

} // verus!
