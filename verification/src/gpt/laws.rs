//! What reading a GPT comes down to, said of the sectors and bytes on the device.

use crate::bytes::{lemma_numbers_are_little_endian, number};
use crate::checksum::ChecksumAlgo;
use crate::checksum;
use crate::common;
use crate::extent::Span;
use crate::gpt::array;
use crate::gpt::array::{ArrayPlanModel, EntryArray};
use crate::gpt::attributes;
use crate::gpt::compare;
use crate::gpt::desc;
use crate::gpt::entry;
use crate::gpt::entry::EntryFactsModel;
use crate::gpt::finding;
use crate::gpt::finding::Finding;
use crate::gpt::header;
use crate::gpt::header::HeaderFacts;
use crate::gpt::reader;
use crate::source::Device;
use crate::text;
use vstd::arithmetic::div_mod;
use vstd::arithmetic::power2;
use vstd::prelude::*;

verus! {

// --------------------------------------------------------------------- membership

broadcast proof fn lemma_when(cond: bool, f: Finding, g: Finding)
    ensures
        #[trigger] finding::when(cond, f).contains(g) <==> cond && g == f,
{
    if cond && g == f {
        assert(finding::when(cond, f)[0] == g);
    }
}

broadcast proof fn lemma_single(f: Finding, g: Finding)
    ensures
        #[trigger] seq![f].contains(g) <==> f == g,
{
    if f == g {
        assert(seq![f][0] == g);
    }
}

// ------------------------------------------------------------------------- entries

/// Sector `x` lies in the range that an entry gives.
pub open spec fn claims(e: EntryFactsModel, x: int) -> bool {
    e.first_lba <= x <= e.last_lba
}

/// Two entries in use overlap exactly when some sector lies in both of their ranges:
/// whether they cross at an end, or one holds the other.
pub proof fn lemma_overlap_is_a_common_sector(a: EntryFactsModel, b: EntryFactsModel)
    ensures
        entry::overlap(a, b) <==> {
            &&& !a.unused()
            &&& !b.unused()
            &&& exists|x: int| #[trigger] claims(a, x) && claims(b, x)
        },
{
    if entry::overlap(a, b) {
        let x: int = if a.first_lba >= b.first_lba { a.first_lba as int } else { b.first_lba as int };
        assert(claims(a, x) && claims(b, x));
    }
}

/// An entry names each other entry that shares a sector with it, where these are no more
/// than eight, and none that does not.
pub proof fn lemma_shared_sectors_are_reported(facts: Seq<EntryFactsModel>, x: int, y: int, s: int)
    requires
        0 <= x < facts.len() <= u64::MAX,
        0 <= y < facts.len(),
        x != y,
        !facts[x].unused(),
        !facts[y].unused(),
    ensures
        ({
            let told = Finding::Overlap {
                other: y as u64,
                first: facts[x].first_lba,
                last: facts[x].last_lba,
                other_first: facts[y].first_lba,
                other_last: facts[y].last_lba,
            };
            &&& claims(facts[x], s) && claims(facts[y], s) && entry::partners(
                facts,
                x,
                facts.len(),
            ) <= 8 ==> entry::overlap_findings(facts, x).contains(told)
            &&& entry::overlap_findings(facts, x).contains(told) ==> exists|t: int| #[trigger]
                claims(facts[x], t) && claims(facts[y], t)
        }),
{
    broadcast use vstd::seq_lib::lemma_seq_concat_contains_all_elements;
    broadcast use lemma_when;

    lemma_overlap_is_a_common_sector(facts[x], facts[y]);
    lemma_named(facts, x, y, facts.len());
}

proof fn lemma_named(facts: Seq<EntryFactsModel>, x: int, y: int, n: nat)
    requires
        0 <= x < facts.len() <= u64::MAX,
        0 <= y < facts.len(),
        x != y,
        n <= facts.len(),
    ensures
        ({
            let told = Finding::Overlap {
                other: y as u64,
                first: facts[x].first_lba,
                last: facts[x].last_lba,
                other_first: facts[y].first_lba,
                other_last: facts[y].last_lba,
            };
            &&& y < n && entry::overlap(facts[x], facts[y]) && entry::partners(facts, x, n) <= 8
                ==> entry::named_partners(facts, x, n).contains(told)
            &&& entry::named_partners(facts, x, n).contains(told) ==> entry::overlap(
                facts[x],
                facts[y],
            )
        }),
    decreases n,
{
    broadcast use vstd::seq_lib::lemma_seq_concat_contains_all_elements;
    broadcast use lemma_when;

    if n > 0 {
        lemma_named(facts, x, y, (n - 1) as nat);
    }
}

/// Where each part of an entry is stored: two GUIDs, three numbers, and the name as 36
/// code units, read up to the first that is zero.
pub proof fn lemma_entry_parts(b: Seq<u8>)
    requires
        b.len() >= 128,
    ensures
        ({
            let f = entry::facts_of(b);
            &&& f.type_guid == b.subrange(0, 16)
            &&& f.unique_guid == b.subrange(16, 32)
            &&& f.first_lba == number(b, 32, 8)
            &&& f.last_lba == number(b, 40, 8)
            &&& f.attributes == number(b, 48, 8)
        }),
        forall|units: Seq<u16>|
            #[trigger] spelled_at(b, 56, units) && units.len() < 36 && zero_unit(b, units.len() as int)
                ==> entry::facts_of(b).name == text::utf16_text(units),
        forall|units: Seq<u16>|
            #[trigger] spelled_at(b, 56, units) && units.len() == 36 ==> entry::facts_of(b).name
                == text::utf16_text(units),
        entry::facts_of(b).name_tail_dirty <==> exists|i: int, j: int|
            0 <= i < j < 36 && #[trigger] zero_unit(b, i) && !#[trigger] zero_unit(b, j),
        entry::facts_of(b).unused() <==> forall|i: int| 0 <= i < 16 ==> #[trigger] b[i] == 0,
{
    lemma_numbers_are_little_endian(b, 32);
    lemma_numbers_are_little_endian(b, 40);
    lemma_numbers_are_little_endian(b, 48);
    let f = entry::facts_of(b);
    assert(f.type_guid =~= b.subrange(0, 16));
    assert(f.unique_guid =~= b.subrange(16, 32));
    let all = entry::name_units(b);
    assert(all.len() == 36);
    assert forall|units: Seq<u16>|
        #[trigger] spelled_at(b, 56, units) && units.len() < 36 && zero_unit(
            b,
            units.len() as int,
        ) implies f.name == text::utf16_text(units) by {
        assert forall|i: int| 0 <= i < units.len() implies #[trigger] all[i] == units[i] by {}
        lemma_nul_at(all, units.len());
        assert(all.take(units.len() as int) =~= units);
    }
    assert forall|units: Seq<u16>|
        #[trigger] spelled_at(b, 56, units) && units.len() == 36 implies f.name == text::utf16_text(
        units,
    ) by {
        assert forall|i: int| 0 <= i < units.len() implies #[trigger] all[i] == units[i] by {}
        lemma_nul_at(all, 36);
        assert(all.take(36) =~= units);
    }
    lemma_nul_index(all);
    let z = text::nul_index(all) as int;
    if f.name_tail_dirty {
        let j = choose|j: int| z < j < all.len() && #[trigger] all[j] != 0;
        assert(zero_unit(b, z));
        assert(!zero_unit(b, j));
    }
    if exists|i: int, j: int|
        0 <= i < j < 36 && #[trigger] zero_unit(b, i) && !#[trigger] zero_unit(b, j) {
        let (i, j) = choose|i: int, j: int|
            0 <= i < j < 36 && #[trigger] zero_unit(b, i) && !#[trigger] zero_unit(b, j);
        assert(all[i] == 0);
        assert(all[j] != 0);
    }
    assert(f.unused() <==> forall|i: int| 0 <= i < 16 ==> #[trigger] b[i] == 0) by {
        assert(forall|i: int| 0 <= i < 16 ==> f.type_guid[i] == #[trigger] b[i]);
    }
}

/// Code unit `i` of an entry's name is zero.
pub open spec fn zero_unit(b: Seq<u8>, i: int) -> bool {
    b[56 + 2 * i] == 0 && b[57 + 2 * i] == 0
}

/// The code units, none of them zero, stand at `off`, each with its low byte first.
pub open spec fn spelled_at(b: Seq<u8>, off: int, units: Seq<u16>) -> bool {
    forall|i: int|
        0 <= i < units.len() ==> (#[trigger] units[i] != 0 && b[off + 2 * i] == units[i] % 256 && b[off
            + 2 * i + 1] == units[i] / 256)
}

proof fn lemma_nul_at(s: Seq<u16>, n: nat)
    requires
        n <= s.len(),
        forall|i: int| 0 <= i < n ==> s[i] != 0,
        n < s.len() ==> s[n as int] == 0,
    ensures
        text::nul_index(s) == n,
    decreases s.len(),
{
    if n > 0 {
        assert forall|i: int| 0 <= i < n - 1 implies s.skip(1)[i] != 0 by {
            assert(s.skip(1)[i] == s[i + 1]);
        }
        lemma_nul_at(s.skip(1), (n - 1) as nat);
    }
}

proof fn lemma_nul_index(s: Seq<u16>)
    ensures
        text::nul_index(s) <= s.len(),
        forall|i: int| 0 <= i < text::nul_index(s) ==> #[trigger] s[i] != 0,
        text::nul_index(s) < s.len() ==> s[text::nul_index(s) as int] == 0,
    decreases s.len(),
{
    if s.len() > 0 && s[0] != 0 {
        lemma_nul_index(s.skip(1));
        let n = text::nul_index(s.skip(1));
        assert forall|i: int| 0 <= i < text::nul_index(s) implies #[trigger] s[i] != 0 by {
            if i > 0 {
                assert(s.skip(1)[i - 1] == s[i]);
            }
        }
        if n < s.len() - 1 {
            assert(s.skip(1)[n as int] == s[n as int + 1]);
        }
    }
}

/// What an entry in use is told of: a range without sectors, sectors outside the usable
/// ones or past the device, no GUID of its own, and text behind the end of its name. Each
/// is told exactly when it is so.
pub proof fn lemma_entry_findings_are_told(f: EntryFactsModel, first: u64, last: u64, sectors: u64)
    ensures
        ({
            let told = entry::entry_findings(f, first, last, sectors);
            &&& told.contains(Finding::NoSectors { first: f.first_lba, last: f.last_lba }) <==> !f.unused()
                && forall|x: int| !#[trigger] claims(f, x)
            &&& told.contains(
                Finding::OutsideUsable {
                    first: f.first_lba,
                    last: f.last_lba,
                    first_usable: first,
                    last_usable: last,
                },
            ) <==> !f.unused() && first <= last && (f.first_lba < first || f.last_lba > last)
            &&& told.contains(Finding::PastDevice { last: f.last_lba, sectors }) <==> !f.unused()
                && 0 < sectors <= f.last_lba
            &&& told.contains(Finding::UniqueGuidZero) <==> !f.unused() && forall|i: int|
                0 <= i < f.unique_guid.len() ==> #[trigger] f.unique_guid[i] == 0
            &&& told.contains(Finding::NameTail) <==> !f.unused() && f.name_tail_dirty
            &&& f.unused() ==> (told.len() == 0 <==> f.blank())
        }),
{
    broadcast use vstd::seq_lib::lemma_seq_concat_contains_all_elements;
    broadcast use lemma_when;
    broadcast use vstd::seq_lib::lemma_seq_empty_contains_nothing;

    if f.first_lba <= f.last_lba {
        assert(claims(f, f.first_lba as int));
    }
}

// ------------------------------------------------------------------------- headers

/// Where each number of a header is stored, and what signs it: the eight letters that
/// spell EFI PART.
pub proof fn lemma_header_parts(b: Seq<u8>)
    requires
        b.len() >= 92,
    ensures
        ({
            let f = header::facts_of(b);
            &&& f.present <==> b[0] == 'E' as u8 && b[1] == 'F' as u8 && b[2] == 'I' as u8 && b[3]
                == ' ' as u8 && b[4] == 'P' as u8 && b[5] == 'A' as u8 && b[6] == 'R' as u8 && b[7]
                == 'T' as u8
            &&& f.revision == number(b, 8, 4)
            &&& f.header_size == number(b, 12, 4)
            &&& f.my_lba == number(b, 24, 8)
            &&& f.alternate_lba == number(b, 32, 8)
            &&& f.first_usable == number(b, 40, 8)
            &&& f.last_usable == number(b, 48, 8)
            &&& f.anonymous <==> b.subrange(56, 72) == Seq::new(16, |i: int| 0u8)
            &&& f.entries_lba == number(b, 72, 8)
            &&& f.num_entries == number(b, 80, 4)
            &&& f.entry_size == number(b, 84, 4)
            &&& f.entries_crc32 == number(b, 88, 4)
        }),
{
    lemma_numbers_are_little_endian(b, 8);
    lemma_numbers_are_little_endian(b, 12);
    lemma_numbers_are_little_endian(b, 24);
    lemma_numbers_are_little_endian(b, 32);
    lemma_numbers_are_little_endian(b, 40);
    lemma_numbers_are_little_endian(b, 48);
    lemma_numbers_are_little_endian(b, 72);
    lemma_numbers_are_little_endian(b, 80);
    lemma_numbers_are_little_endian(b, 84);
    lemma_numbers_are_little_endian(b, 88);
    let head = b.subrange(0, 8);
    let mark = header::signature();
    assert(forall|i: int| 0 <= i < 8 ==> head[i] == b[i]);
    if header::facts_of(b).present {
        assert(head[0] == mark[0] && head[1] == mark[1] && head[2] == mark[2] && head[3] == mark[3]);
        assert(head[4] == mark[4] && head[5] == mark[5] && head[6] == mark[6] && head[7] == mark[7]);
    } else if b[0] == 0x45 && b[1] == 0x46 && b[2] == 0x49 && b[3] == 0x20 && b[4] == 0x50 && b[5]
        == 0x41 && b[6] == 0x52 && b[7] == 0x54 {
        assert(head =~= mark);
    }
    let id = b.subrange(56, 72);
    let none = Seq::new(16, |i: int| 0u8);
    assert(forall|i: int| 56 <= i < 72 ==> #[trigger] b[i] == id[i - 56]);
    if header::facts_of(b).anonymous {
        assert(id =~= none);
    }
    if id == none {
        assert forall|i: int| 56 <= i < 72 implies #[trigger] b[i] == 0 by {
            assert(b[i] == none[i - 56]);
        }
    }
}

/// A header's checksum is the CRC-32 of as many bytes as the header says it has, its own
/// four taken as zero.
pub proof fn lemma_header_checksum_covers_the_header(b: Seq<u8>, zeroed: Seq<u8>)
    requires
        b.len() >= 92,
        20 <= number(b, 12, 4) <= b.len(),
        zeroed.len() == number(b, 12, 4),
        forall|i: int|
            0 <= i < zeroed.len() ==> #[trigger] zeroed[i] == if 16 <= i < 20 { 0 } else { b[i] },
    ensures
        header::header_crc(b) == ChecksumAlgo::Crc32.value(zeroed, Seq::empty()),
        header::crc_passes(b) <==> number(b, 16, 4) == ChecksumAlgo::Crc32.value(
            zeroed,
            Seq::empty(),
        ),
{
    lemma_numbers_are_little_endian(b, 12);
    lemma_numbers_are_little_endian(b, 16);
    lemma_register_of_zeroed(header::covered(b), zeroed);
}

proof fn lemma_register_of_zeroed(a: Seq<u8>, z: Seq<u8>)
    requires
        a.len() == z.len(),
        forall|i: int| 0 <= i < z.len() ==> #[trigger] z[i] == if 16 <= i < 20 { 0 } else { a[i] },
    ensures
        checksum::crc32_register(a, seq![(16u64, 4u64)]) == checksum::crc32_register(
            z,
            Seq::empty(),
        ),
    decreases a.len(),
{
    if a.len() > 0 {
        let i = a.len() - 1;
        let own = seq![(16u64, 4u64)];
        assert forall|j: int| 0 <= j < i implies #[trigger] z.drop_last()[j] == if 16 <= j < 20 {
            0
        } else {
            a.drop_last()[j]
        } by {
            assert(z[j] == if 16 <= j < 20 { 0 } else { a[j] });
        }
        lemma_register_of_zeroed(a.drop_last(), z.drop_last());
        assert(checksum::excluded(own, i) <==> 16 <= i < 20) by {
            if 16 <= i < 20 {
                assert(own[0].0 <= i < own[0].0 + own[0].1);
            }
        }
        assert(z[i] == if 16 <= i < 20 { 0 } else { a[i] });
    }
}

/// What a signed header is told of, each exactly when it is so: a size that cannot be,
/// a place that is not its own, an alternate that cannot be or is not the last sector,
/// usable sectors that are none or past the device, and a disk GUID of zeroes.
pub proof fn lemma_header_findings_are_told(
    f: HeaderFacts,
    at_lba: u64,
    last_lba: u64,
    block: u64,
    is_primary: bool,
)
    requires
        f.present,
    ensures
        ({
            let told = header::header_findings(f, at_lba, last_lba, block, is_primary);
            let alt = f.alternate_lba;
            &&& told.contains(Finding::HeaderSizeSmall { size: f.header_size }) <==> f.header_size < 92
            &&& told.contains(Finding::HeaderSizeLarge { size: f.header_size, block })
                <==> f.header_size >= 92 && f.header_size > block
            &&& told.contains(Finding::WrongLba { my_lba: f.my_lba, at_lba }) <==> f.my_lba != at_lba
            &&& told.contains(Finding::NoAlternate) <==> alt == 0
            &&& told.contains(Finding::AlternateSelf) <==> alt != 0 && alt == f.my_lba
            &&& told.contains(Finding::AlternatePast { alternate: alt, last_lba }) <==> alt != 0 && alt
                != f.my_lba && alt > last_lba
            &&& told.contains(Finding::AlternateNotLast { last_lba, alternate: alt }) <==> is_primary
                && alt != 0 && alt != f.my_lba && alt < last_lba
            &&& told.contains(Finding::UsableInverted { first: f.first_usable, last: f.last_usable })
                <==> f.first_usable > f.last_usable
            &&& told.contains(Finding::UsablePast { last: f.last_usable, last_lba })
                <==> f.last_usable > last_lba
            &&& told.contains(Finding::DiskGuidZero) <==> f.anonymous
        }),
{
    broadcast use vstd::seq_lib::lemma_seq_concat_contains_all_elements;
    broadcast use lemma_when;
    broadcast use lemma_single;

}

/// The device is counted in whole blocks, the last of which is where a backup belongs.
/// It is taken there, unless only the sector that the primary names is signed.
pub proof fn lemma_where_the_backup_is(dev: Device, pf: HeaderFacts)
    requires
        dev.sector_size > 0,
        dev.len >= dev.sector_size,
    ensures
        ({
            let last = reader::last_lba_of(dev);
            let chosen = reader::backup_lba_of(dev, pf);
            &&& last * dev.sector_size + dev.sector_size <= dev.len
            &&& (last + 2) * dev.sector_size > dev.len
            &&& chosen <= last
            &&& reader::signed_at(dev, last) ==> chosen == last
            &&& chosen != last ==> pf.present && chosen == pf.alternate_lba && reader::signed_at(
                dev,
                chosen,
            )
            &&& !reader::signed_at(dev, last) && pf.present && 0 < pf.alternate_lba <= last
                && pf.alternate_lba != pf.my_lba && reader::signed_at(dev, pf.alternate_lba)
                ==> chosen == pf.alternate_lba
        }),
{
    let n = dev.len as int;
    let size = dev.sector_size as int;
    let q = n / size;
    div_mod::lemma_fundamental_div_mod(n, size);
    div_mod::lemma_mod_bound(n, size);
    assert(q >= 1) by (nonlinear_arith)
        requires
            n >= size,
            size > 0,
            q == n / size,
    ;
    assert((q - 1) * size + size == size * q && (q + 1) * size == size * q + size) by (nonlinear_arith);
}

// ------------------------------------------------------------------------ the array

/// The entry array starts at the block that the header names, holds as many entries as it
/// says up to 4096, and each entry stands one entry size behind the one before.
pub proof fn lemma_where_the_entries_are(dev: Device, f: HeaderFacts, a: EntryArray, i: int)
    ensures
        ({
            let p = array::plan_of(dev, f);
            let start = f.entries_lba * header::block_size(dev);
            &&& start < dev.len ==> p.at == Some(start as u64)
            &&& start >= dev.len ==> p.at is None
            &&& f.num_entries <= 4096 ==> p.count == f.num_entries
            &&& f.num_entries > 4096 ==> p.count == 4096
            &&& 128 <= f.entry_size <= 4096 ==> p.entry_size == f.entry_size
            &&& f.entry_size < 128 ==> p.entry_size == 128
            &&& f.entry_size > 4096 ==> p.entry_size == 4096
        }),
        a.place(0) == a.at,
        a.place(i + 1) == a.place(i) + a.entry_size,
        header::block_size(dev) == if dev.sector_size == 0 { 1 } else { dev.sector_size },
{
    assert(f.entries_lba * header::block_size(dev) >= 0) by (nonlinear_arith)
        requires
            f.entries_lba >= 0,
            header::block_size(dev) >= 0,
    ;
    assert((i + 1) * a.entry_size == i * a.entry_size + a.entry_size) by (nonlinear_arith);
    assert(0 * a.entry_size == 0);
}

/// Every entry of an array that ends inside the 64-bit offsets is read, each from its own
/// place.
pub proof fn lemma_every_entry_is_read(dev: Device, a: EntryArray, i: int)
    requires
        a.at + a.count * a.entry_size <= u64::MAX,
        0 <= i < a.count,
    ensures
        a.all_facts(dev).len() == a.count,
        a.expanded(dev).len() == a.count,
        a.all_facts(dev)[i] == entry::facts_of(dev.read((a.at + i * a.entry_size) as u64, 128).data),
        a.expanded(dev)[i].facts == a.all_facts(dev)[i],
        a.expanded(dev)[i].span.at == a.at + i * a.entry_size,
{
    lemma_reachable(a, 0);
    assert(i * a.entry_size <= a.count * a.entry_size && i * a.entry_size >= 0) by (nonlinear_arith)
        requires
            0 <= i < a.count,
            a.entry_size >= 0,
    ;
}

proof fn lemma_reachable(a: EntryArray, i: nat)
    requires
        a.at + a.count * a.entry_size <= u64::MAX,
        i <= a.count,
    ensures
        a.reachable(i) == a.count,
    decreases a.count - i,
{
    if i < a.count {
        assert(i * a.entry_size <= a.count * a.entry_size) by (nonlinear_arith)
            requires
                i < a.count,
                a.entry_size >= 0,
        ;
        lemma_reachable(a, i + 1);
    }
}

/// The array's checksum is taken over all its declared bytes, and read only where these
/// are at most four mebibytes and end on the device.
pub proof fn lemma_array_checksum_covers_the_array(dev: Device, f: HeaderFacts, at: u64)
    ensures
        ({
            let len = f.num_entries * f.entry_size;
            let r = dev.read(at, len as u64);
            &&& 0 < len <= 0x40_0000 && at + len <= dev.len && !r.refused() && r.data.len() == len
                ==> array::array_bytes(dev, f, at) == Some(r.data)
            &&& array::array_bytes(dev, f, at) matches Some(bytes) ==> bytes.len() == len && bytes
                == r.data && 0 < len <= 0x40_0000 && at + len <= dev.len
        }),
        array::array_bytes(dev, f, at) matches Some(bytes) ==> (array::crc_findings(dev, f, at).len()
            == 0 <==> f.entries_crc32 == ChecksumAlgo::Crc32.value(bytes, Seq::empty())),
        array::array_bytes(dev, f, at) is None ==> array::crc_findings(dev, f, at).len() == 1,
{
    assert(f.num_entries * f.entry_size >= 0) by (nonlinear_arith)
        requires
            f.num_entries >= 0,
            f.entry_size >= 0,
    ;
}

/// An array lies among the usable sectors exactly when one of its blocks does.
pub proof fn lemma_array_in_usable_is_a_common_sector(f: HeaderFacts, block: u64, len: u64)
    requires
        block > 0,
        array::declared(f) == Some(len),
        f.entries_lba + len < u64::MAX,
        f.last_usable < u64::MAX,
    ensures
        array::in_usable(f, block) <==> exists|k: int|
            0 <= k && k * block < len && f.first_usable <= #[trigger] array_block(f, k)
                <= f.last_usable,
{
    let n = common::ceil_div(len as int, block as int);
    lemma_ceil(len as int, block as int);
    assert(n <= len) by (nonlinear_arith)
        requires
            (n - 1) * block < len,
            block >= 1,
            n >= 0,
            len >= 0,
    ;
    if array::in_usable(f, block) {
        let k: int = if f.first_usable > f.entries_lba { f.first_usable - f.entries_lba } else { 0 };
        assert(k <= n - 1);
        assert(k * block <= (n - 1) * block) by (nonlinear_arith)
            requires
                k <= n - 1,
                block > 0,
        ;
        assert(f.first_usable <= array_block(f, k) <= f.last_usable);
    }
    if exists|k: int|
        0 <= k && k * block < len && f.first_usable <= #[trigger] array_block(f, k) <= f.last_usable {
        let k = choose|k: int|
            0 <= k && k * block < len && f.first_usable <= #[trigger] array_block(f, k)
                <= f.last_usable;
        assert(k < n) by (nonlinear_arith)
            requires
                k * block < len,
                len <= n * block,
                block > 0,
        ;
        assert(len > 0) by (nonlinear_arith)
            requires
                k * block < len,
                k >= 0,
                block > 0,
        ;
    }
}

/// The sector of block `k` of the array.
pub open spec fn array_block(f: HeaderFacts, k: int) -> int {
    f.entries_lba + k
}

proof fn lemma_ceil(a: int, b: int)
    requires
        a >= 0,
        b > 0,
    ensures
        common::ceil_div(a, b) >= 0,
        (common::ceil_div(a, b) - 1) * b < a <= common::ceil_div(a, b) * b,
{
    div_mod::lemma_fundamental_div_mod(a, b);
    div_mod::lemma_mod_bound(a, b);
    div_mod::lemma_div_pos_is_pos(a, b);
    let q = a / b;
    assert((q + 1) * b == q * b + b && (q - 1) * b == q * b - b && b * q == q * b)
        by (nonlinear_arith);
}

// ---------------------------------------------------------------------- comparison

/// The two headers are meant to differ at `off`: in their own checksum, in the two places
/// that point at each other, and in where their arrays start.
pub open spec fn meant_to_differ(off: int) -> bool {
    16 <= off < 20 || 24 <= off < 40 || 72 <= off < 80
}

/// Two headers are reported to differ exactly when one of their 92 bytes does, other than
/// where they are meant to.
pub proof fn lemma_headers_differ_exactly_when(p: Seq<u8>, b: Seq<u8>)
    requires
        p.len() >= 92,
        b.len() >= 92,
    ensures
        compare::all_diffs(p, b).len() > 0 <==> exists|off: int|
            0 <= off < 92 && !meant_to_differ(off) && #[trigger] p[off] != b[off],
{
    let fields = desc::gpt_header_fields();
    lemma_diffs(p, b, fields.len());
    if exists|off: int| 0 <= off < 92 && !meant_to_differ(off) && #[trigger] p[off] != b[off] {
        let off = choose|off: int|
            0 <= off < 92 && !meant_to_differ(off) && #[trigger] p[off] != b[off];
        let k: int = if off < 8 {
            0
        } else if off < 12 {
            1
        } else if off < 16 {
            2
        } else if off < 24 {
            4
        } else if off < 48 {
            7
        } else if off < 56 {
            8
        } else if off < 72 {
            9
        } else if off < 84 {
            11
        } else if off < 88 {
            12
        } else {
            13
        };
        let f = fields[k];
        assert(f.off <= off < f.off + f.width);
        assert(compare::raw_of(p, f)[off - f.off] == p[off]);
        assert(compare::raw_of(b, f)[off - f.off] == b[off]);
        assert(!compare::mirrored(f.off));
        assert(field_differs(p, b, k));
    }
    if exists|k: int| 0 <= k < fields.len() && #[trigger] field_differs(p, b, k) {
        let k = choose|k: int| 0 <= k < fields.len() && #[trigger] field_differs(p, b, k);
        let f = fields[k];
        let (x, y) = (compare::raw_of(p, f), compare::raw_of(b, f));
        assert(x.len() == f.width && y.len() == f.width);
        if forall|j: int| 0 <= j < f.width ==> x[j] == y[j] {
            assert(x =~= y);
        }
        let j = choose|j: int| 0 <= j < f.width && x[j] != y[j];
        assert(p[f.off + j] == x[j] && b[f.off + j] == y[j]);
        assert(!meant_to_differ(f.off + j));
    }
}

spec fn field_differs(p: Seq<u8>, b: Seq<u8>, k: int) -> bool {
    let f = desc::gpt_header_fields()[k];
    !compare::mirrored(f.off) && compare::raw_of(p, f) != compare::raw_of(b, f)
}

proof fn lemma_diffs(p: Seq<u8>, b: Seq<u8>, n: nat)
    requires
        n <= desc::gpt_header_fields().len(),
    ensures
        compare::diffs_of(p, b, n).len() > 0 <==> exists|k: int|
            0 <= k < n && #[trigger] field_differs(p, b, k),
    decreases n,
{
    if n > 0 {
        lemma_diffs(p, b, (n - 1) as nat);
        let before = compare::diffs_of(p, b, (n - 1) as nat);
        let now = compare::diffs_of(p, b, n);
        if field_differs(p, b, n - 1) {
            assert(now.len() == before.len() + 1);
        } else {
            assert(now == before);
            if exists|k: int| 0 <= k < n && #[trigger] field_differs(p, b, k) {
                let k = choose|k: int| 0 <= k < n && #[trigger] field_differs(p, b, k);
                assert(k < n - 1);
            }
        }
    }
}

/// The number of differing bytes of two arrays: none for the same bytes, one more for each
/// further position at which they differ, and as many as one is longer than the other.
pub proof fn lemma_differing_bytes_are_counted(a: Seq<u8>, b: Seq<u8>, x: u8, y: u8)
    ensures
        compare::difference(a, a) == 0,
        compare::difference(a, b) == compare::difference(b, a),
        a.len() == b.len() ==> compare::difference(a.push(x), b.push(y)) == compare::difference(a, b)
            + if x == y {
            0int
        } else {
            1
        },
        a.len() >= b.len() ==> compare::difference(a.push(x), b) == compare::difference(a, b) + 1,
{
    lemma_differing(a, a, a.len());
    let n: nat = if a.len() <= b.len() { a.len() } else { b.len() };
    lemma_differing(a, b, n);
    lemma_differing_prefix(a, b, a.push(x), b.push(y), n);
    lemma_differing_prefix(a, b, a.push(x), b, n);
}

proof fn lemma_differing(a: Seq<u8>, b: Seq<u8>, n: nat)
    requires
        n <= a.len(),
        n <= b.len(),
    ensures
        compare::differing(a, a, n) == 0,
        compare::differing(a, b, n) == compare::differing(b, a, n),
    decreases n,
{
    if n > 0 {
        lemma_differing(a, b, (n - 1) as nat);
    }
}

proof fn lemma_differing_prefix(a: Seq<u8>, b: Seq<u8>, c: Seq<u8>, d: Seq<u8>, n: nat)
    requires
        n <= a.len() <= c.len(),
        n <= b.len() <= d.len(),
        forall|i: int| 0 <= i < n ==> a[i] == c[i],
        forall|i: int| 0 <= i < n ==> b[i] == d[i],
    ensures
        compare::differing(a, b, n) == compare::differing(c, d, n),
    decreases n,
{
    if n > 0 {
        lemma_differing_prefix(a, b, c, d, (n - 1) as nat);
    }
}

/// Two headers name each other, and the backup's array ends where the backup is: each is
/// told exactly when it is not so.
pub proof fn lemma_mirror_findings_are_told(p: HeaderFacts, b: HeaderFacts, block: u64)
    requires
        p.present,
        b.present,
        block > 0,
    ensures
        ({
            let told = compare::mirror_findings(p, b, block);
            let len = b.num_entries * b.entry_size;
            &&& told.contains(
                Finding::BackupPointsElsewhere { alternate: b.alternate_lba, my_lba: p.my_lba },
            ) <==> b.alternate_lba != p.my_lba
            &&& told.contains(
                Finding::PrimaryPointsElsewhere { alternate: p.alternate_lba, my_lba: b.my_lba },
            ) <==> p.alternate_lba != b.my_lba
            &&& 0 < len <= u64::MAX && b.my_lba < u64::MAX && (told.len() == 0) ==> (b.my_lba
                - b.entries_lba) * block >= len && (b.my_lba - b.entries_lba - 1) * block < len
        }),
{
    broadcast use vstd::seq_lib::lemma_seq_concat_contains_all_elements;
    broadcast use vstd::seq_lib::lemma_seq_empty_contains_nothing;
    broadcast use lemma_when;

    let len = b.num_entries * b.entry_size;
    if 0 < len <= u64::MAX && b.my_lba < u64::MAX {
        lemma_ceil(len, block as int);
        let end = compare::backup_end(b, block)->0;
        let told = compare::mirror_findings(p, b, block);
        let gap = Finding::BackupArrayGap { end, my_lba: b.my_lba };
        assert(told.contains(gap) <==> end != b.my_lba);
        if told.len() == 0 {
            assert(!told.contains(gap));
            let n = common::ceil_div(len, block as int);
            assert(b.my_lba - b.entries_lba == n);
        }
    }
}

// ------------------------------------------------------------- protective boot record

/// Slot `i` of a boot record is in use: it has a type, a start or a size.
pub open spec fn slot_used(s: Seq<u8>, i: int) -> bool {
    s[450 + 16 * i] != 0 || number(s, 454 + 16 * i, 4) != 0 || number(s, 458 + 16 * i, 4) != 0
}

/// A boot record protects the disk as it should exactly when it is signed and one slot is
/// in use, of type 0xEE, which covers the device from sector 1 to the end, or says that
/// the device is too large to tell.
pub proof fn lemma_protective_record_exactly_when(dev: Device, at: u64)
    requires
        !dev.read(at, 512).refused(),
        dev.read(at, 512).data.len() == 512,
    ensures
        ({
            let s = dev.read(at, 512).data;
            let all = reader::last_lba_of(dev);
            reader::mbr_finding(dev, at) is ProtectiveFine <==> {
                &&& s[510] == 0x55
                &&& s[511] == 0xAA
                &&& exists|i: int|
                    0 <= i < 4 && #[trigger] slot_used(s, i) && s[450 + 16 * i] == 0xEE && number(
                        s,
                        454 + 16 * i,
                        4,
                    ) == 1 && (number(s, 458 + 16 * i, 4) == all || number(s, 458 + 16 * i, 4)
                        == 0xFFFF_FFFF) && forall|j: int|
                        0 <= j < 4 && j != i ==> !#[trigger] slot_used(s, j)
            }
        }),
        ({
            let s = dev.read(at, 512).data;
            reader::mbr_finding(dev, at) is HybridMbr <==> {
                &&& s[510] == 0x55
                &&& s[511] == 0xAA
                &&& exists|i: int| 0 <= i < 4 && #[trigger] slot_used(s, i) && s[450 + 16 * i] == 0xEE
                &&& exists|i: int| 0 <= i < 4 && #[trigger] slot_used(s, i) && s[450 + 16 * i] != 0xEE
            }
        }),
{
    let s = dev.read(at, 512).data;
    lemma_numbers_are_little_endian(s, 454);
    lemma_numbers_are_little_endian(s, 458);
    lemma_numbers_are_little_endian(s, 470);
    lemma_numbers_are_little_endian(s, 474);
    lemma_numbers_are_little_endian(s, 486);
    lemma_numbers_are_little_endian(s, 490);
    lemma_numbers_are_little_endian(s, 502);
    lemma_numbers_are_little_endian(s, 506);
    reveal_with_fuel(reader::mbr_count, 5);
    reveal_with_fuel(reader::mbr_extent, 5);
    assert(slot_used(s, 0) <==> !reader::mbr_blank(s, 0));
    assert(slot_used(s, 1) <==> !reader::mbr_blank(s, 1));
    assert(slot_used(s, 2) <==> !reader::mbr_blank(s, 2));
    assert(slot_used(s, 3) <==> !reader::mbr_blank(s, 3));
}

// --------------------------------------------------------------------------- scores

/// A device is no GPT disk where its second block is unreadable, too short or unsigned.
/// Where it is signed the score is at least 50, and it is 100 exactly when the header
/// has revision 1.0, a possible size, its own place, an alternate on the device that is
/// not itself, and an array of possible shape.
pub proof fn lemma_what_a_full_score_takes(dev: Device, at: u64)
    requires
        at + header::block_size(dev) <= u64::MAX,
    ensures
        ({
            let block = header::block_size(dev);
            let r = dev.read((at + block) as u64, block);
            let f = header::facts_of(r.data);
            let score = reader::score_of(dev, at);
            let signed = !r.refused() && r.data.len() >= 92 && f.present;
            &&& score == 0 <==> !signed
            &&& signed ==> 50 <= score <= 100
            &&& score == 100 <==> {
                &&& signed
                &&& f.revision == 0x1_0000
                &&& 92 <= f.header_size <= block
                &&& f.my_lba == (at + block) as u64 / block
                &&& f.alternate_lba != 0 && f.alternate_lba != f.my_lba && f.alternate_lba
                    <= reader::last_lba_of(dev)
                &&& 128 <= f.entry_size <= 4096 && f.entry_size % 8 == 0
                &&& 0 < f.num_entries <= 4096
            }
        }),
{
}

// ------------------------------------------------------------------- what is left over

/// A slot that is not in use is told what is left in it: its GUID, its range, its name and
/// its attributes, each by one of four marks.
pub proof fn lemma_what_is_left_in_a_slot(f: EntryFactsModel)
    requires
        f.unused(),
    ensures
        ({
            let left = f.survivors();
            let told = entry::entry_findings(f, 0, 0, 0);
            &&& 0 <= left <= 15
            &&& left % 2 == 1 <==> exists|i: int|
                0 <= i < f.unique_guid.len() && #[trigger] f.unique_guid[i] != 0
            &&& (left / 2) % 2 == 1 <==> f.first_lba != 0 || f.last_lba != 0
            &&& (left / 4) % 2 == 1 <==> f.name.len() > 0 || f.name_tail_dirty
            &&& (left / 8) % 2 == 1 <==> f.attributes != 0
            &&& left == 0 ==> told.len() == 0
            &&& left != 0 ==> told == seq![Finding::Survivors { left: left as u8 }]
        }),
{
}

/// What stands behind the 92 bytes of a header is told when the header claims a part of it,
/// and when it is not zero.
pub proof fn lemma_header_padding_is_judged(b: Seq<u8>, at: u64)
    requires
        512 <= b.len() <= u64::MAX,
        at + 92 <= u64::MAX,
    ensures
        header::padding_of(b, at) matches Some(p) && {
            let size = number(b, 12, 4);
            &&& p.span.at == at + 92
            &&& p.span.len == b.len() - 92
            &&& p.findings.contains(Finding::PaddingDirty) <==> exists|i: int|
                92 <= i < b.len() && #[trigger] b[i] != 0
            &&& size > 92 <==> p.findings.contains(
                Finding::PaddingInside { size: size as u64, inside: (size - 92) as u64 },
            )
        },
{
    broadcast use vstd::seq_lib::lemma_seq_concat_contains_all_elements;
    broadcast use lemma_when;

    lemma_numbers_are_little_endian(b, 12);
}

/// The bytes of an entry past the 128 that are defined are read from behind them.
pub proof fn lemma_vendor_bytes_are_read(dev: Device, off: u64, size: u64)
    requires
        off + size <= u64::MAX,
    ensures
        array::tail_of(dev, off, size) is Some <==> size > 128,
        array::tail_of(dev, off, size) matches Some(t) ==> {
            let r = dev.read((off + 128) as u64, (size - 128) as u64);
            &&& t.span.at == off + 128
            &&& t.span.len == size - 128
            &&& !r.refused() ==> t.bytes == r.data
            &&& r.refused() ==> t.bytes.len() == 0
        },
{
}

/// Bits 3 to 47 of the attributes are nobody's: one of them set is a stray.
pub proof fn lemma_stray_attributes(a: u64)
    ensures
        !attributes::stray(a) <==> (a as int / 8) % 0x2000_0000_0000 == 0,
        attributes::is_set(a, 0) <==> a % 2 == 1,
        attributes::is_set(a, 63) <==> a >= 0x8000_0000_0000_0000,
{
    power2::lemma2_to64();
    power2::lemma2_to64_rest();
    let m = (a as int / 8) % 0x2000_0000_0000;
    if attributes::stray(a) {
        let bit = choose|bit: u32| 3 <= bit <= 47 && #[trigger] attributes::is_set(a, bit);
        lemma_bit_of_middle(a as int, bit as nat);
        if m == 0 {
            assert((m / power2::pow2((bit - 3) as nat) as int) % 2 == 0) by {
                power2::lemma_pow2_pos((bit - 3) as nat);
                div_mod::lemma_div_of0(power2::pow2((bit - 3) as nat) as int);
            }
        }
    }
    if m != 0 {
        let j = lemma_some_bit(m, 45);
        let bit = (j + 3) as u32;
        lemma_bit_of_middle(a as int, bit as nat);
        assert(attributes::is_set(a, bit));
    }
    assert(a as int / 1 == a);
    let top = a as int / 0x8000_0000_0000_0000;
    assert(0 <= top <= 1);
}

proof fn lemma_bit_of_middle(a: int, bit: nat)
    requires
        a >= 0,
        3 <= bit <= 47,
    ensures
        (a / power2::pow2(bit) as int) % 2 == (((a / 8) % 0x2000_0000_0000) / power2::pow2(
            (bit - 3) as nat,
        ) as int) % 2,
{
    let k = (bit - 3) as nat;
    let p = power2::pow2(k) as int;
    let x = a / 8;
    power2::lemma2_to64();
    power2::lemma_pow2_pos(k);
    power2::lemma_pow2_adds(3, k);
    assert(power2::pow2(bit) == 8 * p);
    div_mod::lemma_div_denominator(a, 8, p);
    assert(a / (8 * p) == x / p);
    let rest = (45 - k) as nat;
    power2::lemma_pow2_adds(k, rest);
    power2::lemma_pow2_pos(rest);
    power2::lemma2_to64_rest();
    let q = power2::pow2(rest) as int;
    let whole = 0x2000_0000_0000int;
    assert(whole == p * q);
    assert(rest >= 1);
    power2::lemma_pow2_unfold(rest);
    let h = power2::pow2((rest - 1) as nat) as int;
    assert(q == 2 * h);
    div_mod::lemma_fundamental_div_mod(x, whole);
    let t = x / whole;
    let m = x % whole;
    assert(x == p * (2 * (h * t)) + m) by (nonlinear_arith)
        requires
            x == whole * t + m,
            whole == p * q,
            q == 2 * h,
    ;
    div_mod::lemma_fundamental_div_mod(m, p);
    div_mod::lemma_mod_bound(m, p);
    let mq = m / p;
    let mr = m % p;
    let u = h * t;
    assert(x == p * (2 * u + mq) + mr) by (nonlinear_arith)
        requires
            x == p * (2 * u) + m,
            m == p * mq + mr,
    ;
    assert((2 * u + mq) * p + mr == x) by (nonlinear_arith)
        requires
            x == p * (2 * u + mq) + mr,
    ;
    div_mod::lemma_fundamental_div_mod_converse(x, p, 2 * u + mq, mr);
    assert(x / p == 2 * u + mq);
}

proof fn lemma_some_bit(m: int, n: nat) -> (j: nat)
    requires
        0 < m < power2::pow2(n),
    ensures
        j < n,
        (m / power2::pow2(j) as int) % 2 == 1,
    decreases n,
{
    power2::lemma2_to64();
    if n == 0 {
        0
    } else {
        power2::lemma_pow2_unfold(n);
        if m % 2 == 1 {
            assert(power2::pow2(0) == 1);
            assert(m / 1 == m);
            0
        } else {
            let h = m / 2;
            let j = lemma_some_bit(h, (n - 1) as nat);
            let p = power2::pow2(j) as int;
            power2::lemma_pow2_unfold(j + 1);
            power2::lemma_pow2_pos(j);
            assert(power2::pow2(j + 1) == 2 * p);
            div_mod::lemma_div_denominator(m, 2, p);
            assert(m / (2 * p) == h / p);
            j + 1
        }
    }
}

/// Which of two headers that differ to trust: the one whose checksum holds, when only one
/// does. Arrays are the same exactly when their bytes are, and are compared when both could
/// be read.
pub proof fn lemma_verdicts(p: header::HeaderModel, b: header::HeaderModel, x: ArrayPlanModel, y: ArrayPlanModel)
    ensures
        ({
            let differ = compare::all_diffs(p.block, b.block).len() > 0;
            let p_ok = p.crc is Some && p.crc->0.stored == p.crc->0.computed;
            let b_ok = b.crc is Some && b.crc->0.stored == b.crc->0.computed;
            let told = compare::header_verdict(p, b);
            &&& told.contains(Finding::HeadersAgree) <==> !differ && p.facts.present && b.facts.present
            &&& told.contains(Finding::PrimaryWhole) <==> differ && p_ok && !b_ok
            &&& told.contains(Finding::BackupWhole) <==> differ && !p_ok && b_ok
            &&& told.contains(Finding::BothWhole) <==> differ && p_ok && b_ok
            &&& told.contains(Finding::NeitherWhole) <==> differ && !p_ok && !b_ok
        }),
        compare::array_verdict(x, y) is ArraysNotCompared <==> x.bytes is None || y.bytes is None,
        compare::array_verdict(x, y) is ArraysIdentical <==> x.bytes is Some && x.bytes == y.bytes,
{
    broadcast use lemma_when;
    broadcast use lemma_single;

}

/// Which headers are there: one that is missing is told, and when both are.
pub proof fn lemma_presence_is_told(p: HeaderFacts, b: HeaderFacts, at: u64, other: u64)
    ensures
        ({
            let told = reader::presence_finding(p, b, at, other);
            &&& told is None <==> p.present && b.present
            &&& told == Some(Finding::BackupMissing { backup: other }) <==> p.present && !b.present
            &&& told == Some(Finding::PrimaryMissing { primary: at, backup: other }) <==> !p.present
                && b.present
            &&& told == Some(Finding::NeitherSigned { primary: at, backup: other }) <==> !p.present
                && !b.present
        }),
{
}

// --------------------------------------------------------------------------- the disk

/// What makes up a GPT disk: the header in the block behind the start, the backup in its own
/// block, and each one's array where it says.
pub proof fn lemma_parts_of_a_disk(dev: Device, base: u64)
    requires
        dev.sector_size > 0,
        base + dev.sector_size <= u64::MAX,
    ensures
        ({
            let d = reader::gpt_of(dev, base);
            let block = dev.sector_size as int;
            let at = (base + block) as u64;
            let other = reader::backup_lba_of(dev, d.primary.facts);
            let p = dev.read(at, dev.sector_size as u64).data;
            &&& d.primary.block == p
            &&& d.primary.facts == header::facts_of(p)
            &&& other * block <= u64::MAX ==> d.backup.facts == header::facts_of(
                dev.read((other * block) as u64, dev.sector_size as u64).data,
            )
            &&& d.primary_plan == array::plan_of(dev, d.primary.facts)
            &&& d.backup_plan == array::plan_of(dev, d.backup.facts)
            &&& d.findings[0] == reader::mbr_finding(dev, base)
            &&& d.entries.array matches Some(a) ==> Some(a.at) == d.primary_plan.at && a.count
                == d.primary_plan.count && a.entry_size == d.primary_plan.entry_size && a.first_usable
                == d.primary.facts.first_usable && a.last_usable == d.primary.facts.last_usable
                && a.device_lbas == dev.len / dev.sector_size as u64
            &&& d.backup_entries.array matches Some(a) ==> Some(a.at) == d.backup_plan.at && a.count
                == d.backup_plan.count && a.first_usable == d.backup.facts.first_usable
            &&& d.entries.array is Some <==> d.primary_plan.at is Some
            &&& d.backup_entries.array is Some <==> d.backup_plan.at is Some
        }),
{
    let d = reader::gpt_of(dev, base);
    let other = reader::backup_lba_of(dev, d.primary.facts);
    assert(other * dev.sector_size >= 0) by (nonlinear_arith)
        requires
            other >= 0,
            dev.sector_size >= 0,
    ;
}

/// The spans that make up a disk are those with any bytes, in their order.
pub proof fn lemma_spans_with_bytes_are_kept(spans: Seq<Span>, x: Span)
    ensures
        reader::covering(Seq::empty()).len() == 0,
        x.len > 0 ==> reader::covering(spans.push(x)) == reader::covering(spans).push(x),
        x.len == 0 ==> reader::covering(spans.push(x)) == reader::covering(spans),
{
    assert(spans.push(x).drop_last() =~= spans);
}

} // verus!
