//! Small volumes made up on the spot: what a formatter would write, with room for
//! the damage that no formatter produces.

use crate::bytes;
use crate::bytes::{le_vec, push_le, push_zeros, write_at, write_byte, write_le};
use crate::checksum;
use crate::checksum::{excluded, rotate_add};
use crate::common;
use crate::exfat::boot;
use crate::exfat::boot::region_checksum;
use crate::exfat::entry;
use crate::exfat::entry::{name_hash_ascii, set_checksum};
use crate::exfat::geometry;
use crate::exfat::types;
use crate::exfat::upcase;
use crate::exfat::upcase::table_checksum;
use crate::source::{clipped_read, Device};
use crate::text;
use crate::text::encode_utf16;
use vstd::prelude::*;
use vstd::slice::{slice_subrange, slice_to_vec};

verus! {

// --------------------------------------------------------------- entry sets

/// How many file name records a name of `n` units takes: at least one.
pub open spec fn name_parts(n: nat) -> nat {
    let p = common::ceil_div(n as int, 15);
    if p < 1 {
        1
    } else {
        p as nat
    }
}

/// Byte `o` of the 30 bytes that hold units `from` to `from + 14`.
pub open spec fn name_byte(units: Seq<u16>, from: int, o: int) -> u8 {
    let j = from + o / 2;
    if j >= units.len() {
        0
    } else if o % 2 == 0 {
        (units[j] % 256) as u8
    } else {
        (units[j] / 256) as u8
    }
}

/// One byte of the file name records, counted from the first of them.
pub open spec fn name_record_byte(units: Seq<u16>, i: int) -> u8 {
    if i % 32 == 0 {
        types::FILE_NAME
    } else if i % 32 == 1 {
        0
    } else {
        name_byte(units, 15 * (i / 32), i % 32 - 2)
    }
}

/// The primary record, its checksum still zero: an archive file.
pub open spec fn synth_primary(parts: nat) -> Seq<u8> {
    seq![types::FILE, ((1 + parts) % 256) as u8, 0, 0, 0x20u8] + bytes::zeros(27)
}

/// The hash of a name, zero where it is not computed.
pub open spec fn hash_or_zero(units: Seq<u16>) -> u16 {
    match entry::ascii_hash(units) {
        Some(h) => h,
        None => 0,
    }
}

/// The stream extension record.
pub open spec fn synth_stream(
    units: Seq<u16>,
    first_cluster: u32,
    length: u64,
    no_fat_chain: bool,
) -> Seq<u8> {
    seq![
        types::STREAM_EXTENSION,
        if no_fat_chain { 3u8 } else { 1u8 },
        0u8,
        (units.len() % 256) as u8,
    ] + bytes::le_bytes(hash_or_zero(units) as int, 2) + bytes::zeros(2) + bytes::le_bytes(
        length as int,
        8,
    ) + bytes::zeros(4) + bytes::le_bytes(first_cluster as int, 4) + bytes::le_bytes(
        length as int,
        8,
    )
}

/// The file name records.
pub open spec fn synth_names(units: Seq<u16>) -> Seq<u8> {
    Seq::new(32 * name_parts(units.len()), |i: int| name_record_byte(units, i))
}

/// The set before its checksum is filled in.
pub open spec fn unsummed_set(
    units: Seq<u16>,
    first_cluster: u32,
    length: u64,
    no_fat_chain: bool,
) -> Seq<u8> {
    synth_primary(name_parts(units.len())) + synth_stream(
        units,
        first_cluster,
        length,
        no_fat_chain,
    ) + synth_names(units)
}

/// The set with its checksum.
pub open spec fn summed_set(
    units: Seq<u16>,
    first_cluster: u32,
    length: u64,
    no_fat_chain: bool,
) -> Seq<u8> {
    let set = unsummed_set(units, first_cluster, length, no_fat_chain);
    bytes::put(set, 2, bytes::le_bytes(entry::set_sum(set) as int, 2))
}

/// The set with the `InUse` bit of every record cleared.
pub open spec fn without_in_use(set: Seq<u8>) -> Seq<u8> {
    Seq::new(
        set.len(),
        |i: int| if i % 32 == 0 && set[i] >= 0x80 { (set[i] - 0x80) as u8 } else { set[i] },
    )
}

/// The entry set of a file.
pub open spec fn synth_set(
    name: Seq<char>,
    first_cluster: u32,
    length: u64,
    no_fat_chain: bool,
    deleted: bool,
) -> Seq<u8> {
    let set = summed_set(text::utf16_units(name), first_cluster, length, no_fat_chain);
    if deleted {
        without_in_use(set)
    } else {
        set
    }
}

fn push_names(out: &mut Vec<u8>, units: &[u16], parts: usize)
    requires
        parts == name_parts(units@.len()),
        32 * parts <= usize::MAX,
    ensures
        final(out)@ == old(out)@ + synth_names(units@),
{
    let n: usize = 32 * parts;
    let mut i: usize = 0;
    while i < n
        invariant
            i <= n,
            n == 32 * parts,
            n == 32 * name_parts(units@.len()),
            32 * parts <= usize::MAX,
            out@ =~= old(out)@ + synth_names(units@).take(i as int),
        decreases n - i,
    {
        let o: usize = i % 32;
        let b: u8 = if o == 0 {
            types::FILE_NAME
        } else if o == 1 {
            0
        } else {
            let j: usize = 15 * (i / 32) + (o - 2) / 2;
            if j >= units.len() {
                0
            } else if (o - 2) % 2 == 0 {
                (units[j] % 256) as u8
            } else {
                (units[j] / 256) as u8
            }
        };
        assert(b == name_record_byte(units@, i as int));
        out.push(b);
        i += 1;
    }
    assert(synth_names(units@).take(n as int) =~= synth_names(units@));
}

fn build_unsummed(units: &[u16], first_cluster: u32, length: u64, no_fat_chain: bool) -> (r: Vec<u8>)
    requires
        64 + 32 * name_parts(units@.len()) <= usize::MAX,
    ensures
        r@ == unsummed_set(units@, first_cluster, length, no_fat_chain),
{
    let exact: u64 = common::div_ceil(units.len() as u64, 15);
    let parts: usize = if exact < 1 { 1 } else { exact as usize };
    let hash: u16 = match name_hash_ascii(units) {
        Some(h) => h,
        None => 0,
    };
    let mut out: Vec<u8> = Vec::new();
    out.push(types::FILE);
    out.push(((1 + parts) % 256) as u8);
    out.push(0);
    out.push(0);
    out.push(0x20);
    push_zeros(&mut out, 27);
    assert(out@ =~= synth_primary(parts as nat));
    out.push(types::STREAM_EXTENSION);
    out.push(if no_fat_chain { 3 } else { 1 });
    out.push(0);
    out.push((units.len() % 256) as u8);
    push_le(&mut out, hash as u64, 2);
    push_zeros(&mut out, 2);
    push_le(&mut out, length, 8);
    push_zeros(&mut out, 4);
    push_le(&mut out, first_cluster as u64, 4);
    push_le(&mut out, length, 8);
    assert(out@ =~= synth_primary(parts as nat) + synth_stream(
        units@,
        first_cluster,
        length,
        no_fat_chain,
    ));
    push_names(&mut out, units, parts);
    out
}

fn clear_in_use(set: &[u8]) -> (r: Vec<u8>)
    ensures
        r@ == without_in_use(set@),
{
    let mut out: Vec<u8> = Vec::new();
    let mut i: usize = 0;
    while i < set.len()
        invariant
            i <= set@.len(),
            out@ =~= without_in_use(set@).take(i as int),
        decreases set@.len() - i,
    {
        out.push(if i % 32 == 0 && set[i] >= 0x80 { set[i] - 0x80 } else { set[i] });
        i += 1;
    }
    assert(out@ =~= without_in_use(set@));
    out
}

/// A 0x85/0xC0/0xC1 entry set for `name`, with a correct set checksum and name hash.
/// `deleted` clears the `InUse` bit of every record, which is exactly what deleting
/// the file would do.
pub fn synth_entry_set(
    name: &str,
    first_cluster: u32,
    length: u64,
    no_fat_chain: bool,
    deleted: bool,
) -> (r: Vec<u8>)
    requires
        64 + 32 * name_parts(text::utf16_units(name@).len()) <= usize::MAX,
    ensures
        r@ == synth_set(name@, first_cluster, length, no_fat_chain, deleted),
{
    let units: Vec<u16> = encode_utf16(name);
    let mut out: Vec<u8> = build_unsummed(&units, first_cluster, length, no_fat_chain);
    let (_stored, sum, _restored) = set_checksum(&out, false);
    write_le(&mut out, 2, sum, 2);
    if deleted {
        clear_in_use(&out)
    } else {
        out
    }
}

// ------------------------------------------------------------- laws of the sets

proof fn lemma_sum_ignores_its_own_bytes(a: Seq<u8>, b: Seq<u8>)
    requires
        a.len() == b.len(),
        forall|i: int| 0 <= i < a.len() && i != 2 && i != 3 ==> #[trigger] a[i] == b[i],
    ensures
        rotate_add(a, entry::set_checksum_hole(), 0x8000) == rotate_add(
            b,
            entry::set_checksum_hole(),
            0x8000,
        ),
    decreases a.len(),
{
    let hole = entry::set_checksum_hole();
    if a.len() > 0 {
        let n = a.len() - 1;
        assert forall|i: int|
            0 <= i < a.drop_last().len() && i != 2 && i != 3 implies #[trigger] a.drop_last()[i]
            == b.drop_last()[i] by {
            assert(a[i] == b[i]);
        }
        lemma_sum_ignores_its_own_bytes(a.drop_last(), b.drop_last());
        if n == 2 || n == 3 {
            assert(hole[0].0 <= n < hole[0].0 + hole[0].1);
            assert(excluded(hole, n));
        } else {
            assert(a[n] == b[n]);
        }
    }
}

proof fn lemma_set_len(units: Seq<u16>, first_cluster: u32, length: u64, no_fat_chain: bool)
    ensures
        unsummed_set(units, first_cluster, length, no_fat_chain).len() == 64 + 32 * name_parts(
            units.len(),
        ),
        synth_primary(name_parts(units.len())).len() == 32,
        synth_stream(units, first_cluster, length, no_fat_chain).len() == 32,
{
    bytes::lemma_le_bytes_len(hash_or_zero(units) as int, 2);
    bytes::lemma_le_bytes_len(length as int, 8);
    bytes::lemma_le_bytes_len(first_cluster as int, 4);
}

/// A set made up by [`synth_entry_set`] stores the checksum it should, and after a
/// delete it still does once the `InUse` bits are put back.
pub proof fn lemma_synth_set_checks_out(
    name: Seq<char>,
    first_cluster: u32,
    length: u64,
    no_fat_chain: bool,
)
    ensures
        ({
            let live = synth_set(name, first_cluster, length, no_fat_chain, false);
            let deleted = synth_set(name, first_cluster, length, no_fat_chain, true);
            &&& entry::stored_sum(live) == Some(entry::set_sum(live))
            &&& entry::with_in_use(deleted) == live
            &&& entry::stored_sum(deleted) == Some(entry::set_sum(entry::with_in_use(deleted)))
        }),
{
    let units = text::utf16_units(name);
    let raw = unsummed_set(units, first_cluster, length, no_fat_chain);
    let live = summed_set(units, first_cluster, length, no_fat_chain);
    let deleted = without_in_use(live);
    let sum = entry::set_sum(raw);
    lemma_set_len(units, first_cluster, length, no_fat_chain);
    checksum::lemma_rotate_add_bound(raw, entry::set_checksum_hole(), 0x8000);
    bytes::lemma_le16_bytes(sum as int);
    lemma_sum_ignores_its_own_bytes(raw, live);
    bytes::lemma_u16_round_trip(raw, 2, sum as u16);
    assert(common::le16(live, 2) == sum as u16);
    assert forall|i: int| 0 <= i < live.len() && i % 32 == 0 implies types::in_use(
        #[trigger] live[i],
    ) by {
        assert(i != 2 && i != 3);
        assert(live[i] == raw[i]);
        if i >= 64 {
            assert(raw[i] == synth_names(units)[i - 64]);
        } else if i >= 32 {
            assert(raw[i] == synth_stream(units, first_cluster, length, no_fat_chain)[i - 32]);
        }
    }
    assert(entry::with_in_use(deleted) =~= live);
    assert(deleted[2] == live[2] && deleted[3] == live[3]);
}

/// Deleting a file clears one bit in each record of its set, bit 7 of the type byte,
/// and changes nothing else: not even the stored checksum.
pub proof fn lemma_delete_clears_one_bit_a_record(
    name: Seq<char>,
    first_cluster: u32,
    length: u64,
    no_fat_chain: bool,
    i: int,
)
    requires
        0 <= i < synth_set(name, first_cluster, length, no_fat_chain, false).len(),
    ensures
        ({
            let live = synth_set(name, first_cluster, length, no_fat_chain, false);
            let deleted = synth_set(name, first_cluster, length, no_fat_chain, true);
            &&& deleted.len() == live.len()
            &&& live.len() == 64 + 32 * name_parts(text::utf16_units(name).len())
            &&& i % 32 == 0 ==> live[i] & 0x80 == 0x80 && deleted[i] == live[i] & 0x7F
            &&& i % 32 != 0 ==> deleted[i] == live[i]
            &&& entry::stored_sum(deleted) == entry::stored_sum(live)
        }),
{
    let units = text::utf16_units(name);
    let raw = unsummed_set(units, first_cluster, length, no_fat_chain);
    let live = summed_set(units, first_cluster, length, no_fat_chain);
    lemma_set_len(units, first_cluster, length, no_fat_chain);
    bytes::lemma_le_bytes_len(entry::set_sum(raw) as int, 2);
    if i % 32 == 0 {
        assert(i != 2 && i != 3);
        assert(live[i] == raw[i]);
        if i >= 64 {
            assert(raw[i] == synth_names(units)[i - 64]);
        } else if i >= 32 {
            assert(raw[i] == synth_stream(units, first_cluster, length, no_fat_chain)[i - 32]);
        }
        let b: u8 = live[i];
        assert(b & 0x80 == 0x80 && b & 0x7F == b - 0x80) by (bit_vector)
            requires
                b >= 0x80,
        ;
    }
    let deleted = without_in_use(live);
    assert(deleted[2] == live[2] && deleted[3] == live[3]);
}

// -------------------------------------------------------------------- volumes

/// Sectors of the made-up volume: 32 in front of the heap, and 1000 clusters of one
/// sector each.
pub const SYNTH_SECTORS: u64 = 1032;

/// Byte offset of its FAT.
pub const SYNTH_FAT: usize = 12288;

/// Byte offset of cluster 2, its root directory.
pub const SYNTH_ROOT: usize = 16384;

/// The up-case table of the made-up volume.
pub open spec fn synth_table() -> Seq<u8> {
    seq![0xFFu8, 0xFF, 0x00, 0x00]
}

/// The fields of the boot sector.
pub open spec fn boot_fields(img: Seq<u8>) -> Seq<u8> {
    let s = bytes::put(
        img,
        0,
        seq![0xEBu8, 0x76, 0x90, 0x45, 0x58, 0x46, 0x41, 0x54, 0x20, 0x20, 0x20],
    );
    let s = bytes::put(s, 0x48, bytes::le_bytes(1032, 8));
    let s = bytes::put(s, 0x50, bytes::le_bytes(24, 4));
    let s = bytes::put(s, 0x54, bytes::le_bytes(8, 4));
    let s = bytes::put(s, 0x58, bytes::le_bytes(32, 4));
    let s = bytes::put(s, 0x5C, bytes::le_bytes(1000, 4));
    let s = bytes::put(s, 0x60, bytes::le_bytes(2, 4));
    let s = bytes::put(s, 0x64, bytes::le_bytes(0xDEAD_BEEF, 4));
    let s = bytes::put(s, 0x68, bytes::le_bytes(0x0100, 2));
    let s = bytes::put(s, 0x6C, seq![9u8, 0, 1, 0x80]);
    bytes::put(s, 0x1FE, seq![0x55u8, 0xAA])
}

/// The signatures of the first `n` extended boot sectors.
pub open spec fn ext_signatures(img: Seq<u8>, n: nat) -> Seq<u8>
    decreases n,
{
    if n == 0 {
        img
    } else {
        bytes::put(
            ext_signatures(img, (n - 1) as nat),
            512 * (n + 1) - 4,
            bytes::le_bytes(0xAA55_0000, 4),
        )
    }
}

/// The FAT, the bitmap and the up-case table.
pub open spec fn heap_fields(img: Seq<u8>) -> Seq<u8> {
    let s = bytes::put(img, SYNTH_FAT as int, bytes::le_bytes(0xFFFF_FFF8, 4));
    let s = bytes::put(
        s,
        SYNTH_FAT + 4,
        Seq::new(16, |i: int| 0xFFu8),
    );
    let s = bytes::put(s, SYNTH_ROOT + 512, seq![0x0Fu8]);
    bytes::put(s, SYNTH_ROOT + 1024, synth_table())
}

/// The three entries every root directory has, and what the caller adds.
pub open spec fn root_fields(img: Seq<u8>, entries: Seq<u8>) -> Seq<u8> {
    let r = SYNTH_ROOT as int;
    let n = if entries.len() <= 416 { entries.len() } else { 416 };
    let s = bytes::put(
        img,
        r,
        seq![types::VOLUME_LABEL, 5, 0x53, 0, 0x59, 0, 0x4E, 0, 0x54, 0, 0x48, 0],
    );
    let s = bytes::put(s, r + 32, seq![types::ALLOCATION_BITMAP]);
    let s = bytes::put(s, r + 32 + 0x14, bytes::le_bytes(3, 4));
    let s = bytes::put(s, r + 32 + 0x18, bytes::le_bytes(125, 8));
    let s = bytes::put(s, r + 64, seq![types::UPCASE_TABLE]);
    let s = bytes::put(
        s,
        r + 68,
        bytes::le_bytes(upcase::table_sum(synth_table()) as int, 4),
    );
    let s = bytes::put(s, r + 64 + 0x14, bytes::le_bytes(4, 4));
    let s = bytes::put(s, r + 64 + 0x18, bytes::le_bytes(4, 8));
    bytes::put(s, r + 96, entries.take(n as int))
}

/// The boot checksum, repeated for its whole sector.
pub open spec fn sum_sector(sum: u32) -> Seq<u8> {
    Seq::new(512, |i: int| bytes::le_bytes(sum as int, 4)[i % 4])
}

/// The image before the boot regions are closed.
pub open spec fn open_image(entries: Seq<u8>) -> Seq<u8> {
    root_fields(
        heap_fields(ext_signatures(boot_fields(bytes::zeros((512 * SYNTH_SECTORS) as nat)), 8)),
        entries,
    )
}

/// The image of the made-up volume.
pub open spec fn synth_image(entries: Seq<u8>) -> Seq<u8> {
    let s = open_image(entries);
    let s = bytes::put(s, 5632, sum_sector(boot::region_sum(s.take(5632)) as u32));
    bytes::put(s, 6144, s.take(6144))
}

fn write_boot_fields(img: &mut Vec<u8>)
    requires
        old(img)@.len() == 512 * SYNTH_SECTORS,
    ensures
        final(img)@ == boot_fields(old(img)@),
{
    let head: [u8; 11] = [0xEB, 0x76, 0x90, 0x45, 0x58, 0x46, 0x41, 0x54, 0x20, 0x20, 0x20];
    let shifts: [u8; 4] = [9, 0, 1, 0x80];
    let tail: [u8; 2] = [0x55, 0xAA];
    assert(head@ =~= seq![0xEBu8, 0x76, 0x90, 0x45, 0x58, 0x46, 0x41, 0x54, 0x20, 0x20, 0x20]);
    assert(shifts@ =~= seq![9u8, 0, 1, 0x80]);
    assert(tail@ =~= seq![0x55u8, 0xAA]);
    write_at(img, 0, &head);
    write_le(img, 0x48, 1032, 8);
    write_le(img, 0x50, 24, 4);
    write_le(img, 0x54, 8, 4);
    write_le(img, 0x58, 32, 4);
    write_le(img, 0x5C, 1000, 4);
    write_le(img, 0x60, 2, 4);
    write_le(img, 0x64, 0xDEAD_BEEF, 4);
    write_le(img, 0x68, 0x0100, 2);
    write_at(img, 0x6C, &shifts);
    write_at(img, 0x1FE, &tail);
}

fn write_ext_signatures(img: &mut Vec<u8>)
    requires
        old(img)@.len() == 512 * SYNTH_SECTORS,
    ensures
        final(img)@ == ext_signatures(old(img)@, 8),
        final(img)@.len() == old(img)@.len(),
{
    let mut n: usize = 0;
    while n < 8
        invariant
            n <= 8,
            img@.len() == 512 * SYNTH_SECTORS,
            img@ == ext_signatures(old(img)@, n as nat),
        decreases 8 - n,
    {
        write_le(img, 512 * (n + 2) - 4, 0xAA55_0000, 4);
        n += 1;
    }
}

fn write_heap_fields(img: &mut Vec<u8>)
    requires
        old(img)@.len() == 512 * SYNTH_SECTORS,
    ensures
        final(img)@ == heap_fields(old(img)@),
{
    let ends: [u8; 16] = [0xFF; 16];
    let table: [u8; 4] = [0xFF, 0xFF, 0x00, 0x00];
    assert(ends@ =~= Seq::new(16, |i: int| 0xFFu8));
    assert(table@ =~= synth_table());
    write_le(img, SYNTH_FAT, 0xFFFF_FFF8, 4);
    write_at(img, SYNTH_FAT + 4, &ends);
    write_byte(img, SYNTH_ROOT + 512, 0x0F);
    write_at(img, SYNTH_ROOT + 1024, &table);
}

fn write_root_fields(img: &mut Vec<u8>, entries: &[u8])
    requires
        old(img)@.len() == 512 * SYNTH_SECTORS,
    ensures
        final(img)@ == root_fields(old(img)@, entries@),
{
    let label: [u8; 12] = [types::VOLUME_LABEL, 5, 0x53, 0, 0x59, 0, 0x4E, 0, 0x54, 0, 0x48, 0];
    assert(label@ =~= seq![types::VOLUME_LABEL, 5, 0x53, 0, 0x59, 0, 0x4E, 0, 0x54, 0, 0x48, 0]);
    let table: [u8; 4] = [0xFF, 0xFF, 0x00, 0x00];
    assert(table@ =~= synth_table());
    let sum: u64 = table_checksum(&table);
    write_at(img, SYNTH_ROOT, &label);
    write_byte(img, SYNTH_ROOT + 32, types::ALLOCATION_BITMAP);
    write_le(img, SYNTH_ROOT + 32 + 0x14, 3, 4);
    write_le(img, SYNTH_ROOT + 32 + 0x18, 125, 8);
    write_byte(img, SYNTH_ROOT + 64, types::UPCASE_TABLE);
    write_le(img, SYNTH_ROOT + 68, sum, 4);
    write_le(img, SYNTH_ROOT + 64 + 0x14, 4, 4);
    write_le(img, SYNTH_ROOT + 64 + 0x18, 4, 8);
    let n: usize = if entries.len() <= 416 { entries.len() } else { 416 };
    let kept: &[u8] = slice_subrange(entries, 0, n);
    assert(kept@ =~= entries@.take(n as int));
    write_at(img, SYNTH_ROOT + 96, kept);
}

fn build_sum_sector(sum: u32) -> (r: Vec<u8>)
    ensures
        r@ == sum_sector(sum),
{
    let b: Vec<u8> = le_vec(sum as u64, 4);
    proof {
        bytes::lemma_le_bytes_len(sum as int, 4);
    }
    let mut out: Vec<u8> = Vec::new();
    let mut i: usize = 0;
    while i < 512
        invariant
            i <= 512,
            b@.len() == 4,
            b@ == bytes::le_bytes(sum as int, 4),
            out@ =~= sum_sector(sum).take(i as int),
        decreases 512 - i,
    {
        out.push(b[i % 4]);
        i += 1;
    }
    assert(out@ =~= sum_sector(sum));
    out
}

/// Build a small but genuinely valid volume whose root directory holds `root_entries`
/// after the three entries a volume must have.
///
/// 512-byte sectors, one sector per cluster, 1000 clusters; root directory at cluster
/// 2, bitmap at 3, up-case table at 4, and cluster 5 allocated for whatever file the
/// caller describes.
pub fn synth_volume(root_entries: &[u8]) -> (r: Vec<u8>)
    ensures
        r@ == synth_image(root_entries@),
{
    let mut img: Vec<u8> = Vec::new();
    push_zeros(&mut img, 512 * 1032);
    assert(img@ =~= bytes::zeros((512 * SYNTH_SECTORS) as nat));
    write_boot_fields(&mut img);
    write_ext_signatures(&mut img);
    write_heap_fields(&mut img);
    write_root_fields(&mut img, root_entries);
    let covered: &[u8] = slice_subrange(&img, 0, 5632);
    assert(covered@ =~= img@.take(5632));
    let sum: u64 = region_checksum(covered);
    let sector: Vec<u8> = build_sum_sector(sum as u32);
    write_at(&mut img, 5632, &sector);
    let region: Vec<u8> = slice_to_vec(slice_subrange(&img, 0, 6144));
    assert(region@ =~= img@.take(6144));
    write_at(&mut img, 6144, &region);
    img
}

// --------------------------------------------------------- laws of the volumes

/// The geometry of the made-up volume.
pub open spec fn synth_geometry() -> geometry::Geometry {
    geometry::Geometry {
        base: 0,
        bytes_per_sector: 512,
        sectors_per_cluster: 1,
        cluster_size: 512,
        partition_offset: 0,
        volume_length: 1032,
        fat_offset: 24,
        fat_length: 8,
        number_of_fats: 1,
        cluster_heap_offset: 32,
        cluster_count: 1000,
        first_cluster_of_root: 2,
        volume_flags: 0,
        fs_revision: 0x0100,
        percent_in_use: 0,
        active_fat: 0,
        trusted: true,
    }
}

proof fn lemma_signatures_keep(img: Seq<u8>, n: nat)
    ensures
        ext_signatures(img, n).len() == img.len(),
        forall|i: int| 0 <= i < 512 && i < img.len() ==> #[trigger] ext_signatures(img, n)[i] == img[i],
    decreases n,
{
    if n > 0 {
        lemma_signatures_keep(img, (n - 1) as nat);
    }
}

proof fn lemma_open_image_boot(entries: Seq<u8>)
    ensures
        open_image(entries).len() == 512 * SYNTH_SECTORS,
        open_image(entries).take(512) =~= boot_fields(
            bytes::zeros((512 * SYNTH_SECTORS) as nat),
        ).take(512),
{
    let blank = boot_fields(bytes::zeros((512 * SYNTH_SECTORS) as nat));
    let signed = ext_signatures(blank, 8);
    lemma_signatures_keep(blank, 8);
    let heap = heap_fields(signed);
    assert forall|i: int| 0 <= i < 512 implies open_image(entries)[i] == blank[i] by {
        assert(signed[i] == blank[i]);
        assert(heap[i] == signed[i]);
    }
}

proof fn lemma_boot_fields_read(img: Seq<u8>)
    requires
        img == bytes::zeros((512 * SYNTH_SECTORS) as nat),
    ensures
        geometry::geometry_of(boot_fields(img).take(512), 0, 512) == synth_geometry(),
{
    let b = boot_fields(img).take(512);
    bytes::lemma_le64_bytes(1032);
    bytes::lemma_le32_bytes(1032);
    bytes::lemma_le32_bytes(0);
    bytes::lemma_le32_bytes(24);
    bytes::lemma_le32_bytes(8);
    bytes::lemma_le32_bytes(32);
    bytes::lemma_le32_bytes(1000);
    bytes::lemma_le32_bytes(2);
    bytes::lemma_le32_bytes(0xDEAD_BEEF);
    bytes::lemma_le16_bytes(0x0100);
    vstd::arithmetic::power2::lemma2_to64();
    assert(b.len() == 512);
    assert(common::le64(b, 0x40) == 0);
    assert(common::le32(b, 0x48) == 1032 && common::le32(b, 0x4C) == 0);
    assert(common::le32(b, 0x50) == 24);
    assert(common::le32(b, 0x54) == 8);
    assert(common::le32(b, 0x58) == 32);
    assert(common::le32(b, 0x5C) == 1000);
    assert(common::le32(b, 0x60) == 2);
    assert(common::le16(b, 0x68) == 0x0100);
    assert(common::le16(b, 0x6A) == 0);
    assert(b[0x6C] == 9 && b[0x6D] == 0 && b[0x6E] == 1 && b[0x70] == 0);
    assert(geometry::declared_cluster_size(b, 512) == 512);
    assert(geometry::shift_findings(b, 512) =~= Seq::empty());
}

/// The volume made up around any root entries is valid: its boot sector describes a
/// geometry that is consistent and fits, the stored boot checksum is the one its boot
/// region has, and the backup region is a copy of the main one.
pub proof fn lemma_synth_volume_is_valid(entries: Seq<u8>)
    ensures
        ({
            let img = synth_image(entries);
            let g = geometry::geometry_of(img.take(512), 0, 512);
            &&& img.len() == 512 * SYNTH_SECTORS
            &&& g == synth_geometry()
            &&& g.consistent(img.len() as u64)
            &&& boot::stored_in(img.subrange(5632, 6144)) == Some(
                boot::region_sum(img.take(5632)),
            )
            &&& img.subrange(6144, 12288) == img.take(6144)
        }),
{
    let open = open_image(entries);
    let sum = boot::region_sum(open.take(5632));
    let closed_main = bytes::put(open, 5632, sum_sector(sum as u32));
    let img = synth_image(entries);
    lemma_open_image_boot(entries);
    lemma_boot_fields_read(bytes::zeros((512 * SYNTH_SECTORS) as nat));
    assert(img.take(512) =~= open.take(512));
    assert(img.take(5632) =~= open.take(5632));
    checksum::lemma_rotate_add_bound(open.take(5632), boot::skipped_bytes(), 0x8000_0000);
    bytes::lemma_le_bytes_len(sum as int, 4);
    bytes::lemma_le32_bytes(sum as int);
    let sector = img.subrange(5632, 6144);
    assert(sector[0] == sum_sector(sum as u32)[0]);
    assert(sector[1] == sum_sector(sum as u32)[1]);
    assert(sector[2] == sum_sector(sum as u32)[2]);
    assert(sector[3] == sum_sector(sum as u32)[3]);
    assert(common::le32(sector, 0) == sum);
    assert(img.subrange(6144, 12288) =~= closed_main.take(6144));
    assert(img.take(6144) =~= closed_main.take(6144));
}

/// Changing any one byte that the boot checksum covers makes the made-up volume's
/// checksum wrong, and changing one of the bytes it skips does not.
pub proof fn lemma_one_byte_breaks_the_boot_checksum(
    entries: Seq<u8>,
    i: int,
    v: u8,
    dev: Device,
)
    requires
        0 <= i < 5632,
        v != synth_image(entries)[i],
        dev.read(0, 5632) == clipped_read(synth_image(entries).update(i, v), 0, 5632),
        dev.read(5632, 512) == clipped_read(synth_image(entries).update(i, v), 5632, 512),
    ensures
        boot::boot_checksum_of(dev, synth_geometry(), 0).matches <==> i == 106 || i == 107 || i
            == 112,
{
    let img = synth_image(entries);
    let m = img.update(i, v);
    lemma_synth_volume_is_valid(entries);
    assert(m.subrange(0, 5632) =~= m.take(5632));
    assert(m.subrange(5632, 6144) =~= img.subrange(5632, 6144));
    boot::lemma_checksum_notices_every_other_byte(img.take(5632), m.take(5632), i);
    assert(dev.read(0, 5632).data == m.take(5632));
    assert(dev.read(5632, 512).data == img.subrange(5632, 6144));
}

} // verus!
