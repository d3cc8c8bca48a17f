//! GPT disks made to order.
//!
//! What is built is consistent, both checksums included, so that one thing at a time
//! can be damaged and exactly that one thing is reported.

use crate::bytes;
use crate::bytes::{le_vec, write_at, write_byte, write_le};
use crate::checksum;
use crate::checksum::ChecksumAlgo;
use crate::common;
use crate::gpt::array;
use crate::gpt::compare;
use crate::gpt::header;
use crate::gpt::header::HeaderFacts;
use crate::gpt::reader;
use crate::source;
use crate::source::Device;
use crate::text;
use vstd::prelude::*;

verus! {

// --------------------------------------------------------------------- the array

/// What an entry is made from: its type, its first and last sector, and its name.
pub struct EntrySpec {
    pub type_guid: Seq<u8>,
    pub first: u64,
    pub last: u64,
    pub name: Seq<char>,
}

/// Code units as little-endian bytes.
pub open spec fn unit_bytes(units: Seq<u16>) -> Seq<u8> {
    Seq::new(
        2 * units.len(),
        |i: int|
            if i % 2 == 0 {
                (units[i / 2] % 256) as u8
            } else {
                (units[i / 2] / 256) as u8
            },
    )
}

/// The code units of a name that fit an entry.
pub open spec fn fitting_units(name: Seq<char>) -> Seq<u16> {
    let units = text::utf16_units(name);
    if units.len() <= 36 {
        units
    } else {
        units.take(36)
    }
}

/// An array with one more entry, in slot `i`.
pub open spec fn with_entry(a: Seq<u8>, i: int, e: EntrySpec) -> Seq<u8> {
    let o = 128 * i;
    let a = bytes::put(a, o, e.type_guid);
    let a = bytes::put(a, o + 16, Seq::new(16, |j: int| (i + 1) as u8));
    let a = bytes::put(a, o + 32, bytes::le_bytes(e.first as int, 8));
    let a = bytes::put(a, o + 40, bytes::le_bytes(e.last as int, 8));
    bytes::put(a, o + 56, unit_bytes(fitting_units(e.name)))
}

/// A blank array with the first `n` entries of a list in its slots.
pub open spec fn with_entries(entries: Seq<EntrySpec>, n: nat) -> Seq<u8>
    decreases n,
{
    if n == 0 {
        bytes::zeros(16384)
    } else {
        with_entry(with_entries(entries, (n - 1) as nat), n - 1, entries[n - 1])
    }
}

/// The array that holds the first 128 entries of a list.
pub open spec fn array_image(entries: Seq<EntrySpec>) -> Seq<u8> {
    with_entries(
        entries,
        if entries.len() <= 128 {
            entries.len()
        } else {
            128
        },
    )
}

// -------------------------------------------------------------------- the header

/// The first 16 bytes of a header.
pub open spec fn front() -> Seq<u8> {
    header::signature() + bytes::le_bytes(0x1_0000, 4) + bytes::le_bytes(92, 4)
}

/// The last 72 bytes of a header.
pub open spec fn rest(my: u64, alt: u64, entries_lba: u64, sectors: u64, array_crc: u64) -> Seq<
    u8,
> {
    bytes::zeros(4) + bytes::le_bytes(my as int, 8) + bytes::le_bytes(alt as int, 8)
        + bytes::le_bytes(34, 8) + bytes::le_bytes(sectors - 34, 8) + Seq::new(16, |i: int| 0x5Au8)
        + bytes::le_bytes(entries_lba as int, 8) + bytes::le_bytes(128, 4) + bytes::le_bytes(128, 4)
        + bytes::le_bytes(array_crc as int, 4)
}

/// The checksum of the header with the given last part.
pub open spec fn sum_of(rest: Seq<u8>) -> u64 {
    ChecksumAlgo::Crc32.value(front() + bytes::zeros(4) + rest, seq![(16u64, 4u64)])
}

/// The header with the given last part.
pub open spec fn header_image(rest: Seq<u8>) -> Seq<u8> {
    front() + bytes::le_bytes(sum_of(rest) as int, 4) + rest
}

// ---------------------------------------------------------------------- the disk

/// A blank disk with a protective MBR.
pub open spec fn protected(sectors: u64) -> Seq<u8> {
    let cover = if sectors - 1 <= u32::MAX { sectors - 1 } else { 0xFFFF_FFFF };
    let d = bytes::zeros((512 * sectors) as nat);
    let d = bytes::put(d, 0x1C2, seq![0xEEu8]);
    let d = bytes::put(d, 0x1C6, bytes::le_bytes(1, 4));
    let d = bytes::put(d, 0x1CA, bytes::le_bytes(cover, 4));
    let d = bytes::put(d, 0x1FE, seq![0x55u8]);
    bytes::put(d, 0x1FF, seq![0xAAu8])
}

/// The last part of the primary header.
pub open spec fn primary_rest(sectors: u64, entries: Seq<EntrySpec>) -> Seq<u8> {
    rest(1, (sectors - 1) as u64, 2, sectors, array::array_crc(array_image(entries)))
}

/// The last part of the backup header.
pub open spec fn backup_rest(sectors: u64, entries: Seq<EntrySpec>) -> Seq<u8> {
    rest(
        (sectors - 1) as u64,
        1,
        (sectors - 33) as u64,
        sectors,
        array::array_crc(array_image(entries)),
    )
}

/// A disk of `sectors` sectors with both copies of a GPT.
pub open spec fn gpt_image(sectors: u64, entries: Seq<EntrySpec>) -> Seq<u8> {
    let d = protected(sectors);
    let d = bytes::put(d, 512, header_image(primary_rest(sectors, entries)));
    let d = bytes::put(d, 512 * (sectors - 1), header_image(backup_rest(sectors, entries)));
    let d = bytes::put(d, 1024, array_image(entries));
    bytes::put(d, 512 * (sectors - 33), array_image(entries))
}

/// The entries that a list of tuples describes.
pub open spec fn specs_of(entries: Seq<([u8; 16], u64, u64, &str)>) -> Seq<EntrySpec> {
    Seq::new(
        entries.len(),
        |i: int|
            EntrySpec {
                type_guid: entries[i].0@,
                first: entries[i].1,
                last: entries[i].2,
                name: entries[i].3@,
            },
    )
}

proof fn lemma_array_len(entries: Seq<EntrySpec>, n: nat)
    ensures
        with_entries(entries, n).len() == 16384,
    decreases n,
{
    if n > 0 {
        lemma_array_len(entries, (n - 1) as nat);
    }
}

fn write_name(a: &mut Vec<u8>, o: usize, name: &str)
    requires
        o + 72 <= old(a)@.len(),
    ensures
        final(a)@ == bytes::put(old(a)@, o as int, unit_bytes(fitting_units(name@))),
{
    let units: Vec<u16> = text::encode_utf16(name);
    let n: usize = if units.len() <= 36 { units.len() } else { 36 };
    let ghost fit = fitting_units(name@);
    let mut b: Vec<u8> = Vec::new();
    let mut j: usize = 0;
    while j < n
        invariant
            j <= n <= 36,
            n == fit.len(),
            n <= units@.len(),
            forall|k: int| 0 <= k < n ==> fit[k] == units@[k],
            b@.len() == 2 * j,
            forall|k: int| 0 <= k < b@.len() ==> #[trigger] b@[k] == unit_bytes(fit)[k],
        decreases n - j,
    {
        b.push((units[j] % 256) as u8);
        b.push((units[j] / 256) as u8);
        j += 1;
    }
    assert(b@ =~= unit_bytes(fit));
    write_at(a, o, &b);
}

fn build_array(entries: &[([u8; 16], u64, u64, &str)]) -> (a: Vec<u8>)
    ensures
        a@ == array_image(specs_of(entries@)),
        a@.len() == 16384,
{
    let ghost specs = specs_of(entries@);
    let n: usize = if entries.len() <= 128 { entries.len() } else { 128 };
    let mut a: Vec<u8> = vec![0u8; 16384];
    assert(a@ =~= bytes::zeros(16384));
    let mut i: usize = 0;
    while i < n
        invariant
            i <= n <= 128,
            n <= entries@.len(),
            specs == specs_of(entries@),
            a@.len() == 16384,
            a@ == with_entries(specs, i as nat),
        decreases n - i,
    {
        let o: usize = 128 * i;
        let kind: [u8; 16] = entries[i].0;
        let first: u64 = entries[i].1;
        let last: u64 = entries[i].2;
        let unique: Vec<u8> = vec![(i + 1) as u8; 16];
        assert(unique@ =~= Seq::new(16, |j: int| (i + 1) as u8));
        write_at(&mut a, o, &kind);
        write_at(&mut a, o + 16, &unique);
        write_le(&mut a, o + 32, first, 8);
        write_le(&mut a, o + 40, last, 8);
        write_name(&mut a, o + 56, entries[i].3);
        i += 1;
    }
    a
}

fn build_header(my: u64, alt: u64, entries_lba: u64, sectors: u64, array_crc: u64) -> (h: Vec<u8>)
    requires
        sectors > 66,
        array_crc <= u32::MAX,
    ensures
        h@ == header_image(rest(my, alt, entries_lba, sectors, array_crc)),
        h@.len() == 92,
{
    let mut front: Vec<u8> = vec![0x45u8, 0x46, 0x49, 0x20, 0x50, 0x41, 0x52, 0x54];
    assert(front@ =~= header::signature());
    front.append(&mut le_vec(0x1_0000, 4));
    front.append(&mut le_vec(92, 4));
    let mut rest: Vec<u8> = vec![0u8; 4];
    assert(rest@ =~= bytes::zeros(4));
    rest.append(&mut le_vec(my, 8));
    rest.append(&mut le_vec(alt, 8));
    rest.append(&mut le_vec(34, 8));
    rest.append(&mut le_vec(sectors - 34, 8));
    let mut disk: Vec<u8> = vec![0x5Au8; 16];
    assert(disk@ =~= Seq::new(16, |i: int| 0x5Au8));
    rest.append(&mut disk);
    rest.append(&mut le_vec(entries_lba, 8));
    rest.append(&mut le_vec(128, 4));
    rest.append(&mut le_vec(128, 4));
    rest.append(&mut le_vec(array_crc, 4));
    let ghost tail = self::rest(my, alt, entries_lba, sectors, array_crc);
    assert(rest@ =~= tail);
    proof {
        lemma_parts_len(my, alt, entries_lba, sectors, array_crc);
    }
    let mut h: Vec<u8> = Vec::new();
    let mut blank: Vec<u8> = vec![0u8; 4];
    assert(blank@ =~= bytes::zeros(4));
    let mut unsummed: Vec<u8> = front.clone();
    assert(unsummed@ =~= self::front());
    unsummed.append(&mut blank);
    unsummed.append(&mut rest.clone());
    assert(unsummed@ =~= self::front() + bytes::zeros(4) + tail);
    let ranges: Vec<(u64, u64)> = vec![(16u64, 4u64)];
    assert(ranges@ =~= seq![(16u64, 4u64)]);
    let sum: u64 = ChecksumAlgo::Crc32.compute(&unsummed, &ranges);
    h.append(&mut front);
    h.append(&mut le_vec(sum, 4));
    h.append(&mut rest);
    assert(h@ =~= header_image(tail));
    h
}

proof fn lemma_parts_len(my: u64, alt: u64, entries_lba: u64, sectors: u64, array_crc: u64)
    ensures
        front().len() == 16,
        rest(my, alt, entries_lba, sectors, array_crc).len() == 72,
        header_image(rest(my, alt, entries_lba, sectors, array_crc)).len() == 92,
{
    bytes::lemma_le_bytes_len(0x1_0000, 4);
    bytes::lemma_le_bytes_len(92, 4);
    bytes::lemma_le_bytes_len(my as int, 8);
    bytes::lemma_le_bytes_len(alt as int, 8);
    bytes::lemma_le_bytes_len(34, 8);
    bytes::lemma_le_bytes_len(sectors - 34, 8);
    bytes::lemma_le_bytes_len(entries_lba as int, 8);
    bytes::lemma_le_bytes_len(128, 4);
    bytes::lemma_le_bytes_len(array_crc as int, 4);
    bytes::lemma_le_bytes_len(
        sum_of(rest(my, alt, entries_lba, sectors, array_crc)) as int,
        4,
    );
}

/// Build a disk of `sectors` 512-byte sectors with both copies of a GPT. It needs room
/// for two headers, two arrays of 32 sectors and at least one sector between them.
pub fn synth_gpt(sectors: u64, entries: &[([u8; 16], u64, u64, &str)]) -> (d: Vec<u8>)
    requires
        sectors > 66,
        512 * sectors <= usize::MAX,
    ensures
        d@ == gpt_image(sectors, specs_of(entries@)),
        d@.len() == 512 * sectors,
{
    let ghost specs = specs_of(entries@);
    let array: Vec<u8> = build_array(entries);
    let ranges: Vec<(u64, u64)> = Vec::new();
    assert(ranges@ =~= Seq::empty());
    let array_crc: u64 = ChecksumAlgo::Crc32.compute(&array, &ranges);
    let last: u64 = sectors - 1;
    let size: usize = 512 * (sectors as usize);
    let mut d: Vec<u8> = vec![0u8; size];
    assert(d@ =~= bytes::zeros((512 * sectors) as nat));
    write_byte(&mut d, 0x1C2, 0xEE);
    write_le(&mut d, 0x1C6, 1, 4);
    let cover: u64 = if last <= 0xFFFF_FFFF { last } else { 0xFFFF_FFFF };
    write_le(&mut d, 0x1CA, cover, 4);
    write_byte(&mut d, 0x1FE, 0x55);
    write_byte(&mut d, 0x1FF, 0xAA);
    assert(d@ == protected(sectors));
    let p: Vec<u8> = build_header(1, last, 2, sectors, array_crc);
    write_at(&mut d, 512, &p);
    let b: Vec<u8> = build_header(last, 1, sectors - 33, sectors, array_crc);
    write_at(&mut d, 512 * (last as usize), &b);
    write_at(&mut d, 1024, &array);
    write_at(&mut d, 512 * ((sectors - 33) as usize), &array);
    d
}

// --------------------------------------------------------------------------- laws

/// The device that holds a disk image.
pub open spec fn holding(img: Seq<u8>) -> Device {
    Device {
        len: img.len() as u64,
        sector_size: 512,
        reads: |at: u64, n: u64| source::clipped_read(img, at, n),
    }
}

/// What the headers of a made disk say.
pub open spec fn made_facts(my: u64, alt: u64, entries_lba: u64, sectors: u64, crc: u64) -> HeaderFacts {
    HeaderFacts {
        present: true,
        revision: 0x1_0000,
        header_size: 92,
        my_lba: my,
        alternate_lba: alt,
        first_usable: 34,
        last_usable: (sectors - 34) as u64,
        anonymous: false,
        entries_lba,
        num_entries: 128,
        entry_size: 128,
        entries_crc32: crc,
    }
}

proof fn lemma_le32_at(b: Seq<u8>, off: int, v: int)
    requires
        0 <= v <= u32::MAX,
        common::holds(b, off, 4),
        b.subrange(off, off + 4) == bytes::le_bytes(v, 4),
    ensures
        common::le32(b, off) == v,
{
    bytes::lemma_le32_bytes(v);
    let s = b.subrange(off, off + 4);
    assert(b[off] == s[0] && b[off + 1] == s[1] && b[off + 2] == s[2] && b[off + 3] == s[3]);
}

proof fn lemma_le64_at(b: Seq<u8>, off: int, v: int)
    requires
        0 <= v <= u64::MAX,
        common::holds(b, off, 8),
        b.subrange(off, off + 8) == bytes::le_bytes(v, 8),
    ensures
        common::le64(b, off) == v,
{
    let lo = v % 0x1_0000_0000;
    let hi = v / 0x1_0000_0000;
    bytes::lemma_le64_bytes(v);
    bytes::lemma_le_bytes_len(lo, 4);
    bytes::lemma_le_bytes_len(hi, 4);
    let s = b.subrange(off, off + 8);
    assert(b.subrange(off, off + 4) =~= bytes::le_bytes(lo, 4)) by {
        assert(b.subrange(off, off + 4) =~= s.subrange(0, 4));
    }
    assert(b.subrange(off + 4, off + 8) =~= bytes::le_bytes(hi, 4)) by {
        assert(b.subrange(off + 4, off + 8) =~= s.subrange(4, 8));
    }
    lemma_le32_at(b, off, lo);
    lemma_le32_at(b, off + 4, hi);
}

/// A block that starts with a made header and is zero after it reads back, and passes
/// its own checksum.
proof fn lemma_header_reads_back(
    b: Seq<u8>,
    my: u64,
    alt: u64,
    entries_lba: u64,
    sectors: u64,
    crc: u64,
)
    requires
        sectors > 66,
        crc <= u32::MAX,
        b.len() >= 92,
        b.take(92) == header_image(rest(my, alt, entries_lba, sectors, crc)),
    ensures
        header::facts_of(b) == made_facts(my, alt, entries_lba, sectors, crc),
        header::crc_passes(b),
{
    let tail = rest(my, alt, entries_lba, sectors, crc);
    let h = header_image(tail);
    let sum = sum_of(tail);
    lemma_parts_len(my, alt, entries_lba, sectors, crc);
    bytes::lemma_le_bytes_len(0x1_0000, 4);
    bytes::lemma_le_bytes_len(92, 4);
    bytes::lemma_le_bytes_len(my as int, 8);
    bytes::lemma_le_bytes_len(alt as int, 8);
    bytes::lemma_le_bytes_len(34, 8);
    bytes::lemma_le_bytes_len(sectors - 34, 8);
    bytes::lemma_le_bytes_len(entries_lba as int, 8);
    bytes::lemma_le_bytes_len(128, 4);
    bytes::lemma_le_bytes_len(crc as int, 4);
    bytes::lemma_le_bytes_len(sum as int, 4);
    assert forall|lo: int, hi: int| 0 <= lo <= hi <= 92 implies #[trigger] b.subrange(lo, hi)
        == h.subrange(lo, hi) by {
        assert(b.subrange(lo, hi) =~= b.take(92).subrange(lo, hi));
    }
    assert(h.subrange(0, 8) =~= header::signature());
    assert(b.subrange(0, 8) == h.subrange(0, 8));
    lemma_front_reads(b, h, tail);
    lemma_rest_reads(b, h, my, alt, entries_lba, sectors, crc);
    assert(!header::zero_at(b, 0x38, 16)) by {
        assert(h.subrange(0x38, 0x48)[0] == 0x5A);
        assert(b.subrange(0x38, 0x48)[0] == b[0x38]);
    }
    // The checksum.
    assert(header::covered(b) =~= h);
    let blank = front() + bytes::zeros(4) + tail;
    assert forall|i: int| 0 <= i < 92 && !checksum::excluded(seq![(16u64, 4u64)], i) implies h[i]
        == blank[i] by {
        if 16 <= i < 20 {
            let ranges = seq![(16u64, 4u64)];
            assert(ranges[0].0 <= i < ranges[0].0 + ranges[0].1);
        }
    }
    checksum::lemma_crc32_ignores_excluded(h, blank, seq![(16u64, 4u64)]);
}

proof fn lemma_front_reads(b: Seq<u8>, h: Seq<u8>, tail: Seq<u8>)
    requires
        b.len() >= 92,
        tail.len() == 72,
        h == header_image(tail),
        forall|lo: int, hi: int|
            0 <= lo <= hi <= 92 ==> #[trigger] b.subrange(lo, hi) == h.subrange(lo, hi),
    ensures
        common::le32(b, 0x08) == 0x1_0000,
        common::le32(b, 0x0C) == 92,
        common::le32(b, 0x10) == sum_of(tail),
{
    let sum = sum_of(tail);
    bytes::lemma_le_bytes_len(0x1_0000, 4);
    bytes::lemma_le_bytes_len(92, 4);
    bytes::lemma_le_bytes_len(sum as int, 4);
    assert(h.subrange(8, 12) =~= bytes::le_bytes(0x1_0000, 4));
    assert(h.subrange(12, 16) =~= bytes::le_bytes(92, 4));
    assert(h.subrange(16, 20) =~= bytes::le_bytes(sum as int, 4));
    lemma_le32_at(b, 0x08, 0x1_0000);
    lemma_le32_at(b, 0x0C, 92);
    lemma_le32_at(b, 0x10, sum as int);
}

proof fn lemma_rest_reads(
    b: Seq<u8>,
    h: Seq<u8>,
    my: u64,
    alt: u64,
    entries_lba: u64,
    sectors: u64,
    crc: u64,
)
    requires
        sectors > 66,
        crc <= u32::MAX,
        b.len() >= 92,
        h == header_image(rest(my, alt, entries_lba, sectors, crc)),
        forall|lo: int, hi: int|
            0 <= lo <= hi <= 92 ==> #[trigger] b.subrange(lo, hi) == h.subrange(lo, hi),
    ensures
        common::le64(b, 0x18) == my,
        common::le64(b, 0x20) == alt,
        common::le64(b, 0x28) == 34,
        common::le64(b, 0x30) == sectors - 34,
        common::le64(b, 0x48) == entries_lba,
        common::le32(b, 0x50) == 128,
        common::le32(b, 0x54) == 128,
        common::le32(b, 0x58) == crc,
        h.subrange(0x38, 0x48) == Seq::new(16, |i: int| 0x5Au8),
{
    let tail = rest(my, alt, entries_lba, sectors, crc);
    lemma_parts_len(my, alt, entries_lba, sectors, crc);
    bytes::lemma_le_bytes_len(my as int, 8);
    bytes::lemma_le_bytes_len(alt as int, 8);
    bytes::lemma_le_bytes_len(34, 8);
    bytes::lemma_le_bytes_len(sectors - 34, 8);
    bytes::lemma_le_bytes_len(entries_lba as int, 8);
    bytes::lemma_le_bytes_len(128, 4);
    bytes::lemma_le_bytes_len(crc as int, 4);
    bytes::lemma_le_bytes_len(sum_of(tail) as int, 4);
    assert forall|lo: int, hi: int| 20 <= lo <= hi <= 92 implies #[trigger] h.subrange(lo, hi)
        == tail.subrange(lo - 20, hi - 20) by {
        assert(h.subrange(lo, hi) =~= tail.subrange(lo - 20, hi - 20));
    }
    assert(tail.subrange(4, 12) =~= bytes::le_bytes(my as int, 8));
    assert(tail.subrange(12, 20) =~= bytes::le_bytes(alt as int, 8));
    assert(tail.subrange(20, 28) =~= bytes::le_bytes(34, 8));
    assert(tail.subrange(28, 36) =~= bytes::le_bytes(sectors - 34, 8));
    assert(tail.subrange(36, 52) =~= Seq::new(16, |i: int| 0x5Au8));
    assert(tail.subrange(52, 60) =~= bytes::le_bytes(entries_lba as int, 8));
    assert(tail.subrange(60, 64) =~= bytes::le_bytes(128, 4));
    assert(tail.subrange(64, 68) =~= bytes::le_bytes(128, 4));
    assert(tail.subrange(68, 72) =~= bytes::le_bytes(crc as int, 4));
    lemma_le64_at(b, 0x18, my as int);
    lemma_le64_at(b, 0x20, alt as int);
    lemma_le64_at(b, 0x28, 34);
    lemma_le64_at(b, 0x30, sectors - 34);
    lemma_le64_at(b, 0x48, entries_lba as int);
    lemma_le32_at(b, 0x50, 128);
    lemma_le32_at(b, 0x54, 128);
    lemma_le32_at(b, 0x58, crc as int);
}

/// A disk image holds a block that starts with `h` and is zero after it.
spec fn holds_header(img: Seq<u8>, at: int, h: Seq<u8>) -> bool {
    &&& 0 <= at
    &&& at + 512 <= img.len()
    &&& h.len() == 92
    &&& forall|i: int| at <= i < at + 92 ==> #[trigger] img[i] == h[i - at]
    &&& forall|i: int| at + 92 <= i < at + 512 ==> #[trigger] img[i] == 0
}

/// A disk image holds an array.
spec fn holds_array(img: Seq<u8>, at: int, a: Seq<u8>) -> bool {
    &&& 0 <= at
    &&& at + 16384 <= img.len()
    &&& a.len() == 16384
    &&& forall|i: int| at <= i < at + 16384 ==> #[trigger] img[i] == a[i - at]
}

proof fn lemma_image_parts(sectors: u64, entries: Seq<EntrySpec>)
    requires
        sectors > 66,
        512 * sectors <= u64::MAX,
    ensures
        ({
            let img = gpt_image(sectors, entries);
            &&& img.len() == 512 * sectors
            &&& holds_header(img, 512, header_image(primary_rest(sectors, entries)))
            &&& holds_header(
                img,
                512 * (sectors - 1),
                header_image(backup_rest(sectors, entries)),
            )
            &&& holds_array(img, 1024, array_image(entries))
            &&& holds_array(img, 512 * (sectors - 33), array_image(entries))
        }),
{
    let crc = array::array_crc(array_image(entries));
    lemma_array_len(
        entries,
        if entries.len() <= 128 {
            entries.len()
        } else {
            128
        },
    );
    lemma_parts_len(1, (sectors - 1) as u64, 2, sectors, crc);
    lemma_parts_len((sectors - 1) as u64, 1, (sectors - 33) as u64, sectors, crc);
    bytes::lemma_le_bytes_len(1, 4);
    let cover = if sectors - 1 <= u32::MAX { sectors - 1 } else { 0xFFFF_FFFF };
    bytes::lemma_le_bytes_len(cover, 4);
}

/// A header that an image holds is read back from the device that holds the image.
proof fn lemma_header_is_read(
    img: Seq<u8>,
    at: int,
    my: u64,
    alt: u64,
    entries_lba: u64,
    sectors: u64,
    crc: u64,
)
    requires
        sectors > 66,
        crc <= u32::MAX,
        img.len() == 512 * sectors <= u64::MAX,
        holds_header(img, at, header_image(rest(my, alt, entries_lba, sectors, crc))),
    ensures
        ({
            let r = holding(img).read(at as u64, 512);
            &&& !r.refused()
            &&& r.data == img.subrange(at, at + 512)
            &&& header::facts_of(r.data) == made_facts(my, alt, entries_lba, sectors, crc)
            &&& header::crc_passes(r.data)
            &&& header::signed(holding(img).read(at as u64, 8).data)
            &&& !holding(img).read(at as u64, 8).refused()
        }),
{
    let h = header_image(rest(my, alt, entries_lba, sectors, crc));
    let b = img.subrange(at, at + 512);
    let r = holding(img).read(at as u64, 512);
    assert(r.data =~= b);
    assert(b.take(92) =~= h);
    lemma_header_reads_back(b, my, alt, entries_lba, sectors, crc);
    let eight = holding(img).read(at as u64, 8).data;
    assert(eight =~= b.subrange(0, 8));
    assert(eight.subrange(0, 8) =~= b.subrange(0, 8));
}

/// An array that an image holds passes the checksum that a made header stores.
proof fn lemma_array_is_read(
    img: Seq<u8>,
    at: u64,
    my: u64,
    alt: u64,
    entries_lba: u64,
    sectors: u64,
    a: Seq<u8>,
)
    requires
        sectors > 66,
        img.len() == 512 * sectors <= u64::MAX,
        at == 512 * entries_lba,
        holds_array(img, at as int, a),
    ensures
        ({
            let plan = array::plan_of(
                holding(img),
                made_facts(my, alt, entries_lba, sectors, array::array_crc(a)),
            );
            &&& plan.bytes == Some(a)
            &&& plan.crc matches Some(c) && c.agrees()
        }),
{
    let dev = holding(img);
    let f = made_facts(my, alt, entries_lba, sectors, array::array_crc(a));
    assert(header::block_size(dev) == 512);
    assert(f.entries_lba * header::block_size(dev) == 512 * entries_lba) by (nonlinear_arith)
        requires
            f.entries_lba == entries_lba,
            header::block_size(dev) == 512,
    ;
    assert(common::checked(f.entries_lba * header::block_size(dev)) == Some(at));
    assert(array::declared(f) == Some(16384u64));
    assert(dev.read(at, 16384).data =~= a);
}

/// A made disk is consistent: it scores 100, both headers pass their own checksums,
/// the array passes the checksum that either header stores, the two arrays are
/// identical, and the two headers differ in nothing that must match.
pub proof fn lemma_synth_disk_is_consistent(sectors: u64, entries: Seq<EntrySpec>)
    requires
        sectors > 66,
        512 * sectors <= u64::MAX,
    ensures
        ({
            let dev = holding(gpt_image(sectors, entries));
            let p = reader::primary_of(dev, 0);
            let b = reader::backup_of(dev, 0);
            let pplan = array::plan_of(dev, p.facts);
            let bplan = array::plan_of(dev, b.facts);
            &&& reader::score_of(dev, 0) == 100
            &&& p.crc matches Some(c) && c.agrees()
            &&& b.crc matches Some(c) && c.agrees()
            &&& pplan.crc matches Some(c) && c.agrees()
            &&& bplan.crc matches Some(c) && c.agrees()
            &&& pplan.bytes == bplan.bytes
            &&& compare::all_diffs(p.block, b.block) =~= Seq::empty()
        }),
{
    let img = gpt_image(sectors, entries);
    let a = array_image(entries);
    let crc = array::array_crc(a);
    let last = (sectors - 1) as u64;
    let far = (sectors - 33) as u64;
    lemma_image_parts(sectors, entries);
    lemma_primary_is_found(img, sectors, crc);
    lemma_backup_is_found(img, sectors, crc);
    lemma_headers_agree(img, sectors, crc);
    lemma_array_is_read(img, 1024, 1, last, 2, sectors, a);
    lemma_array_is_read(img, (512 * (sectors - 33)) as u64, last, 1, far, sectors, a);
}

/// The primary header of a device with 512-byte sectors is its second sector.
proof fn lemma_primary_place(dev: Device)
    requires
        header::block_size(dev) == 512,
    ensures
        reader::primary_of(dev, 0).block == dev.read(512, 512).data,
        reader::primary_of(dev, 0).facts == header::facts_of(dev.read(512, 512).data),
        reader::primary_of(dev, 0).crc == header::crc_of(dev.read(512, 512).data),
{
}

/// A header that says where it is and describes the device is worth a full score.
proof fn lemma_full_score(dev: Device, f: HeaderFacts)
    requires
        header::block_size(dev) == 512,
        !dev.read(512, 512).refused(),
        dev.read(512, 512).data.len() == 512,
        header::facts_of(dev.read(512, 512).data) == f,
        f == made_facts(
            1,
            reader::last_lba_of(dev),
            2,
            reader::sectors_of(dev),
            f.entries_crc32,
        ),
        reader::sectors_of(dev) > 66,
    ensures
        reader::score_of(dev, 0) == 100,
{
    assert(reader::field_score(f, 1, reader::last_lba_of(dev), 512) == 50);
}

/// The primary header of an image is found where it is looked for, and is worth a full
/// score.
proof fn lemma_primary_is_found(img: Seq<u8>, sectors: u64, crc: u64)
    requires
        sectors > 66,
        img.len() == 512 * sectors <= u64::MAX,
        crc <= u32::MAX,
        holds_header(
            img,
            512,
            header_image(rest(1, (sectors - 1) as u64, 2, sectors, crc)),
        ),
    ensures
        ({
            let dev = holding(img);
            let p = reader::primary_of(dev, 0);
            &&& p.facts == made_facts(1, (sectors - 1) as u64, 2, sectors, crc)
            &&& p.crc matches Some(c) && c.agrees()
            &&& p.block == img.subrange(512, 1024)
            &&& reader::score_of(dev, 0) == 100
        }),
{
    let dev = holding(img);
    lemma_header_is_read(img, 512, 1, (sectors - 1) as u64, 2, sectors, crc);
    lemma_sizes(img, sectors);
    lemma_primary_place(dev);
    lemma_full_score(dev, header::facts_of(dev.read(512, 512).data));
}

proof fn lemma_sizes(img: Seq<u8>, sectors: u64)
    requires
        sectors > 66,
        img.len() == 512 * sectors <= u64::MAX,
    ensures
        header::block_size(holding(img)) == 512,
        reader::sectors_of(holding(img)) == sectors,
        reader::last_lba_of(holding(img)) == sectors - 1,
{
}

/// A signed last sector is where the backup is.
proof fn lemma_backup_place(dev: Device, at: u64)
    requires
        reader::last_lba_of(dev) * header::block_size(dev) == at,
        !dev.read(at, 8).refused(),
        header::signed(dev.read(at, 8).data),
    ensures
        reader::backup_lba(dev, 0) == reader::last_lba_of(dev),
        reader::backup_at(dev, 0) == at,
        reader::backup_of(dev, 0).block == dev.read(at, header::block_size(dev)).data,
        reader::backup_of(dev, 0).facts == header::facts_of(
            dev.read(at, header::block_size(dev)).data,
        ),
        reader::backup_of(dev, 0).crc == header::crc_of(
            dev.read(at, header::block_size(dev)).data,
        ),
{
    assert(reader::signed_at(dev, reader::last_lba_of(dev)));
}

/// The backup header of an image is found where it is looked for.
proof fn lemma_backup_is_found(img: Seq<u8>, sectors: u64, crc: u64)
    requires
        sectors > 66,
        img.len() == 512 * sectors <= u64::MAX,
        crc <= u32::MAX,
        holds_header(
            img,
            512,
            header_image(rest(1, (sectors - 1) as u64, 2, sectors, crc)),
        ),
        holds_header(
            img,
            512 * (sectors - 1),
            header_image(
                rest((sectors - 1) as u64, 1, (sectors - 33) as u64, sectors, crc),
            ),
        ),
    ensures
        ({
            let b = reader::backup_of(holding(img), 0);
            &&& b.facts == made_facts(
                (sectors - 1) as u64,
                1,
                (sectors - 33) as u64,
                sectors,
                crc,
            )
            &&& b.crc matches Some(c) && c.agrees()
            &&& b.block == img.subrange(512 * (sectors - 1), 512 * (sectors - 1) + 512)
        }),
{
    let dev = holding(img);
    let last = (sectors - 1) as u64;
    let at = 512 * (sectors - 1);
    lemma_header_is_read(img, at, last, 1, (sectors - 33) as u64, sectors, crc);
    lemma_sizes(img, sectors);
    assert(last * header::block_size(dev) == at) by (nonlinear_arith)
        requires
            last == sectors - 1,
            at == 512 * (sectors - 1),
            header::block_size(dev) == 512,
    ;
    lemma_backup_place(dev, at as u64);
}

/// The two headers of an image differ in nothing that must match.
proof fn lemma_headers_agree(img: Seq<u8>, sectors: u64, crc: u64)
    requires
        sectors > 66,
        img.len() == 512 * sectors <= u64::MAX,
        crc <= u32::MAX,
        holds_header(
            img,
            512,
            header_image(rest(1, (sectors - 1) as u64, 2, sectors, crc)),
        ),
        holds_header(
            img,
            512 * (sectors - 1),
            header_image(
                rest((sectors - 1) as u64, 1, (sectors - 33) as u64, sectors, crc),
            ),
        ),
    ensures
        compare::all_diffs(
            img.subrange(512, 1024),
            img.subrange(512 * (sectors - 1), 512 * (sectors - 1) + 512),
        ) =~= Seq::empty(),
{
    let pb = img.subrange(512, 1024);
    let bb = img.subrange(512 * (sectors - 1), 512 * (sectors - 1) + 512);
    assert forall|i: int|
        0 <= i < 512 && !(0x10 <= i < 0x14 || 0x18 <= i < 0x28 || 0x48 <= i < 0x50) implies pb[i]
        == bb[i] by {
        assert(pb[i] == img[512 + i]);
        assert(bb[i] == img[512 * (sectors - 1) + i]);
        if i < 92 {
            lemma_same_outside_mirror(sectors, crc, i);
        }
    }
    compare::lemma_mirrored_fields_are_no_difference(pb, bb);
}

proof fn lemma_same_outside_mirror(sectors: u64, crc: u64, i: int)
    requires
        sectors > 66,
        0 <= i < 92,
        !(0x10 <= i < 0x14 || 0x18 <= i < 0x28 || 0x48 <= i < 0x50),
    ensures
        ({
            let p = header_image(rest(1, (sectors - 1) as u64, 2, sectors, crc));
            let b = header_image(
                rest((sectors - 1) as u64, 1, (sectors - 33) as u64, sectors, crc),
            );
            p[i] == b[i]
        }),
{
    let last = (sectors - 1) as u64;
    let far = (sectors - 33) as u64;
    lemma_parts_len(1, last, 2, sectors, crc);
    lemma_parts_len(last, 1, far, sectors, crc);
    bytes::lemma_le_bytes_len(1, 8);
    bytes::lemma_le_bytes_len(2, 8);
    bytes::lemma_le_bytes_len(last as int, 8);
    bytes::lemma_le_bytes_len(far as int, 8);
    bytes::lemma_le_bytes_len(34, 8);
    bytes::lemma_le_bytes_len(sectors - 34, 8);
    bytes::lemma_le_bytes_len(128, 4);
    bytes::lemma_le_bytes_len(crc as int, 4);
    bytes::lemma_le_bytes_len(sum_of(rest(1, last, 2, sectors, crc)) as int, 4);
    bytes::lemma_le_bytes_len(sum_of(rest(last, 1, far, sectors, crc)) as int, 4);
}

} // verus!
