//! The checksums these formats store.

use vstd::prelude::*;

verus! {

/// Byte `i` lies in one of the `(offset, length)` ranges.
pub open spec fn excluded(ranges: Seq<(u64, u64)>, i: int) -> bool {
    exists|j: int| 0 <= j < ranges.len() && ranges[j].0 <= i < ranges[j].0 + #[trigger] ranges[j].1
}

fn is_excluded(ranges: &[(u64, u64)], i: u64) -> (r: bool)
    ensures
        r <==> excluded(ranges@, i as int),
{
    let mut j: usize = 0;
    while j < ranges.len()
        invariant
            j <= ranges@.len(),
            forall|m: int|
                0 <= m < j ==> !(ranges@[m].0 <= i < ranges@[m].0 + #[trigger] ranges@[m].1),
        decreases ranges@.len() - j,
    {
        let (off, len): (u64, u64) = ranges[j];
        if off <= i && i - off < len {
            assert(ranges@[j as int].0 <= i < ranges@[j as int].0 + ranges@[j as int].1);
            return true;
        }
        j += 1;
    }
    false
}

// ------------------------------------------------------- rotate-right-and-add

/// One step of a `width`-bit rotate-right-by-one-and-add, `top` being `2^(width-1)`.
pub open spec fn rotate_add_step(sum: int, byte: u8, top: int) -> int {
    (sum / 2 + (sum % 2) * top + byte) % (2 * top)
}

/// Rotate-right-and-add over `data`, **skipping** the excluded bytes.
pub open spec fn rotate_add(data: Seq<u8>, ranges: Seq<(u64, u64)>, top: int) -> int
    decreases data.len(),
{
    if data.len() == 0 {
        0
    } else {
        let before = rotate_add(data.drop_last(), ranges, top);
        if excluded(ranges, data.len() - 1) {
            before
        } else {
            rotate_add_step(before, data.last(), top)
        }
    }
}

proof fn lemma_step_tells_apart(s: int, t: int, x: u8, y: u8, top: int)
    requires
        top == 0x80 || top == 0x8000 || top == 0x8000_0000,
        0 <= s < 2 * top,
        0 <= t < 2 * top,
        (s == t) != (x == y),
    ensures
        rotate_add_step(s, x, top) != rotate_add_step(t, y, top),
{
    let p = (s % 2) * top;
    let q = (t % 2) * top;
    assert(p == if s % 2 == 1 { top } else { 0 }) by (nonlinear_arith)
        requires
            p == (s % 2) * top,
    ;
    assert(q == if t % 2 == 1 { top } else { 0 }) by (nonlinear_arith)
        requires
            q == (t % 2) * top,
    ;
    let u = s / 2 + p + x;
    let v = t / 2 + q + y;
    if top == 0x80 {
        assert(u % 0x100 != v % 0x100);
    } else if top == 0x8000 {
        assert(u % 0x1_0000 != v % 0x1_0000);
    } else {
        assert(u % 0x1_0000_0000 != v % 0x1_0000_0000);
    }
}

/// A rotate-right-and-add checksum fits its width.
pub proof fn lemma_rotate_add_bound(data: Seq<u8>, ranges: Seq<(u64, u64)>, top: int)
    requires
        top > 0,
    ensures
        0 <= rotate_add(data, ranges, top) < 2 * top,
    decreases data.len(),
{
    if data.len() > 0 {
        lemma_rotate_add_bound(data.drop_last(), ranges, top);
        let before = rotate_add(data.drop_last(), ranges, top);
        let all = before / 2 + (before % 2) * top + data.last();
        assert(0 <= all % (2 * top) < 2 * top) by (nonlinear_arith)
            requires
                top > 0,
        ;
    }
}

/// Changing a single byte changes a rotate-right-and-add checksum, unless the byte is
/// an excluded one.
pub proof fn lemma_rotate_add_notices_a_byte(
    a: Seq<u8>,
    b: Seq<u8>,
    ranges: Seq<(u64, u64)>,
    top: int,
    i: int,
)
    requires
        top == 0x80 || top == 0x8000 || top == 0x8000_0000,
        a.len() == b.len(),
        0 <= i < a.len(),
        a[i] != b[i],
        forall|j: int| 0 <= j < a.len() && j != i ==> #[trigger] a[j] == b[j],
    ensures
        rotate_add(a, ranges, top) == rotate_add(b, ranges, top) <==> excluded(ranges, i),
    decreases a.len(),
{
    let n = a.len() - 1;
    let s = rotate_add(a.drop_last(), ranges, top);
    let t = rotate_add(b.drop_last(), ranges, top);
    lemma_rotate_add_bound(a.drop_last(), ranges, top);
    lemma_rotate_add_bound(b.drop_last(), ranges, top);
    if i == n {
        assert(a.drop_last() =~= b.drop_last());
        if !excluded(ranges, n) {
            lemma_step_tells_apart(s, t, a[n], b[n], top);
        }
    } else {
        assert forall|j: int| 0 <= j < n && j != i implies #[trigger] a.drop_last()[j]
            == b.drop_last()[j] by {
            assert(a[j] == b[j]);
        }
        lemma_rotate_add_notices_a_byte(a.drop_last(), b.drop_last(), ranges, top, i);
        assert(a[n] == b[n]);
        if !excluded(ranges, n) && s != t {
            lemma_step_tells_apart(s, t, a[n], b[n], top);
        }
    }
}

fn rotate_add_of(data: &[u8], ranges: &[(u64, u64)], top: u64) -> (r: u64)
    requires
        top == 0x80 || top == 0x8000 || top == 0x8000_0000,
    ensures
        r == rotate_add(data@, ranges@, top as int),
        r < 2 * top,
{
    let mut sum: u64 = 0;
    let mut i: usize = 0;
    while i < data.len()
        invariant
            top == 0x80 || top == 0x8000 || top == 0x8000_0000,
            i <= data@.len(),
            sum < 2 * top,
            sum == rotate_add(data@.take(i as int), ranges@, top as int),
        decreases data@.len() - i,
    {
        assert(data@.take(i + 1).drop_last() =~= data@.take(i as int));
        if !is_excluded(ranges, i as u64) {
            let low: u64 = if sum % 2 == 1 { top } else { 0 };
            assert((sum % 2) * top == low) by (nonlinear_arith)
                requires
                    sum % 2 == 1 ==> low == top,
                    sum % 2 != 1 ==> low == 0,
            ;
            sum = (sum / 2 + low + data[i] as u64) % (2 * top);
        }
        i += 1;
    }
    assert(data@.take(i as int) =~= data@);
    sum
}

// --------------------------------------------------------------------- CRC-32

/// The reflected CRC-32 polynomial.
pub const CRC32_POLY: u32 = 0xEDB8_8320;

/// One bit of the CRC register shifted out.
pub open spec fn crc32_bit(c: u32) -> u32 {
    if c % 2 == 1 {
        (c / 2) ^ CRC32_POLY
    } else {
        c / 2
    }
}

/// `n` bits of the CRC register shifted out.
pub open spec fn crc32_bits(c: u32, n: nat) -> u32
    decreases n,
{
    if n == 0 {
        c
    } else {
        crc32_bit(crc32_bits(c, (n - 1) as nat))
    }
}

/// The CRC register after `data`, the excluded bytes read as zero.
pub open spec fn crc32_register(data: Seq<u8>, ranges: Seq<(u64, u64)>) -> u32
    decreases data.len(),
{
    if data.len() == 0 {
        0xFFFF_FFFF
    } else {
        let before = crc32_register(data.drop_last(), ranges);
        let byte: u8 = if excluded(ranges, data.len() - 1) { 0 } else { data.last() };
        crc32_bits(before ^ (byte as u32), 8)
    }
}

/// CRC-32 of `data`, the excluded bytes read as zero.
pub open spec fn crc32(data: Seq<u8>, ranges: Seq<(u64, u64)>) -> u32 {
    crc32_register(data, ranges) ^ 0xFFFF_FFFFu32
}

/// The excluded bytes make no difference to a CRC-32.
pub proof fn lemma_crc32_ignores_excluded(a: Seq<u8>, b: Seq<u8>, ranges: Seq<(u64, u64)>)
    requires
        a.len() == b.len(),
        forall|i: int| 0 <= i < a.len() && !excluded(ranges, i) ==> a[i] == b[i],
    ensures
        crc32(a, ranges) == crc32(b, ranges),
{
    lemma_register_ignores_excluded(a, b, ranges);
}

proof fn lemma_register_ignores_excluded(a: Seq<u8>, b: Seq<u8>, ranges: Seq<(u64, u64)>)
    requires
        a.len() == b.len(),
        forall|i: int| 0 <= i < a.len() && !excluded(ranges, i) ==> a[i] == b[i],
    ensures
        crc32_register(a, ranges) == crc32_register(b, ranges),
    decreases a.len(),
{
    if a.len() > 0 {
        lemma_register_ignores_excluded(a.drop_last(), b.drop_last(), ranges);
    }
}

fn crc32_of(data: &[u8], ranges: &[(u64, u64)]) -> (r: u32)
    ensures
        r == crc32(data@, ranges@),
{
    let mut c: u32 = 0xFFFF_FFFF;
    let mut i: usize = 0;
    while i < data.len()
        invariant
            i <= data@.len(),
            c == crc32_register(data@.take(i as int), ranges@),
        decreases data@.len() - i,
    {
        assert(data@.take(i + 1).drop_last() =~= data@.take(i as int));
        let byte: u8 = if is_excluded(ranges, i as u64) { 0 } else { data[i] };
        let start: u32 = c ^ (byte as u32);
        c = start;
        let mut k: u32 = 0;
        while k < 8
            invariant
                k <= 8,
                c == crc32_bits(start, k as nat),
            decreases 8 - k,
        {
            c = if c % 2 == 1 { (c / 2) ^ CRC32_POLY } else { c / 2 };
            k += 1;
        }
        i += 1;
    }
    assert(data@.take(i as int) =~= data@);
    c ^ 0xFFFF_FFFFu32
}

// ------------------------------------------------------------------ the family

/// The checksum algorithms, each with its own idea of an excluded byte.
#[derive(Clone, Copy, Debug, PartialEq, Eq, Structural)]
pub enum ChecksumAlgo {
    /// CRC-32 as GPT uses it. Excluded bytes are read as zero.
    Crc32,
    /// 32-bit rotate-right-and-add: the boot region and the up-case table of exFAT.
    /// Excluded bytes are skipped.
    ExfatBootRegion,
    /// 16-bit rotate-right-and-add: entry sets and name hashes of exFAT. Excluded
    /// bytes are skipped.
    ExfatEntrySet,
    /// 8-bit rotate-right-and-add: the checksum of a FAT short name. Excluded bytes
    /// are skipped.
    FatShortName,
}

impl ChecksumAlgo {
    /// The checksum of `data` with `ranges` excluded.
    pub open spec fn value(self, data: Seq<u8>, ranges: Seq<(u64, u64)>) -> u64 {
        match self {
            ChecksumAlgo::Crc32 => crc32(data, ranges) as u64,
            ChecksumAlgo::ExfatBootRegion => rotate_add(data, ranges, 0x8000_0000) as u64,
            ChecksumAlgo::ExfatEntrySet => rotate_add(data, ranges, 0x8000) as u64,
            ChecksumAlgo::FatShortName => rotate_add(data, ranges, 0x80) as u64,
        }
    }

    /// One past the largest value this algorithm produces.
    pub open spec fn bound(self) -> int {
        match self {
            ChecksumAlgo::Crc32 => 0x1_0000_0000,
            ChecksumAlgo::ExfatBootRegion => 0x1_0000_0000,
            ChecksumAlgo::ExfatEntrySet => 0x1_0000,
            ChecksumAlgo::FatShortName => 0x100,
        }
    }

    /// Compute the checksum of `data`, leaving out `ranges`.
    pub fn compute(&self, data: &[u8], ranges: &[(u64, u64)]) -> (r: u64)
        ensures
            r == self.value(data@, ranges@),
            r < self.bound(),
    {
        match *self {
            ChecksumAlgo::Crc32 => crc32_of(data, ranges) as u64,
            ChecksumAlgo::ExfatBootRegion => rotate_add_of(data, ranges, 0x8000_0000),
            ChecksumAlgo::ExfatEntrySet => rotate_add_of(data, ranges, 0x8000),
            ChecksumAlgo::FatShortName => rotate_add_of(data, ranges, 0x80),
        }
    }
}

} // verus!
