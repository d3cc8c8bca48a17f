//! What reading an MBR comes down to, said of the sectors and bytes on the device.

use crate::bytes::{lemma_numbers_are_little_endian, number};
use crate::mbr::ebr;
use crate::mbr::entry;
use crate::mbr::entry::EntryFacts;
use crate::mbr::finding;
use crate::mbr::finding::Finding;
use crate::mbr::reader;
use crate::source::Device;
use vstd::arithmetic::div_mod;
use vstd::prelude::*;

verus! {

broadcast proof fn lemma_when(cond: bool, f: Finding, g: Finding)
    ensures
        #[trigger] finding::when(cond, f).contains(g) <==> cond && g == f,
{
    if cond && g == f {
        assert(finding::when(cond, f)[0] == g);
    }
}

// ------------------------------------------------------------------------- entries

/// Where each number of an entry is stored. An entry is empty when it has no type, no start
/// and no size.
pub proof fn lemma_entry_numbers(b: Seq<u8>)
    requires
        b.len() == 16,
    ensures
        ({
            let f = entry::facts_of(b);
            &&& f.status == b[0]
            &&& f.part_type == b[4]
            &&& f.lba_first == number(b, 8, 4)
            &&& f.num_sectors == number(b, 12, 4)
            &&& f.empty() <==> b[4] == 0 && number(b, 8, 4) == 0 && number(b, 12, 4) == 0
        }),
{
    lemma_numbers_are_little_endian(b, 8);
    lemma_numbers_are_little_endian(b, 12);
}

/// Sector `x` lies in the range that an entry gives.
pub open spec fn claims(e: EntryFacts, x: int) -> bool {
    e.lba_first <= x < e.lba_first + e.num_sectors
}

/// Two entries overlap exactly when some sector lies in both of their ranges: whether they
/// cross at an end, or one holds the other.
pub proof fn lemma_overlap_is_a_common_sector(a: EntryFacts, b: EntryFacts)
    requires
        a.lba_first + a.num_sectors <= u64::MAX,
        b.lba_first + b.num_sectors <= u64::MAX,
    ensures
        entry::overlap(a, b) <==> exists|x: int| #[trigger] claims(a, x) && claims(b, x),
{
    if entry::overlap(a, b) {
        let x: int = if a.lba_first >= b.lba_first { a.lba_first as int } else { b.lba_first as int };
        assert(claims(a, x) && claims(b, x));
    }
}

/// An entry is told of each other entry that shares a sector with it, and of no other.
pub proof fn lemma_shared_sectors_are_reported(facts: Seq<EntryFacts>, i: usize, j: usize)
    requires
        i < facts.len(),
        j < facts.len(),
        i != j,
        facts.len() <= usize::MAX,
        facts[i as int].lba_first + facts[i as int].num_sectors <= u64::MAX,
        facts[j as int].lba_first + facts[j as int].num_sectors <= u64::MAX,
    ensures
        (exists|x: int| #[trigger] claims(facts[i as int], x) && claims(facts[j as int], x))
            ==> entry::overlap_findings(
            facts,
            entry::overlaps_of(facts, facts.len()),
            i as int,
        ).contains(entry::overlap_finding(facts, i, j)),
        entry::overlaps_of(facts, facts.len()).contains((i, j)) <==> exists|x: int| #[trigger]
            claims(facts[i as int], x) && claims(facts[j as int], x),
{
    let pairs = entry::overlaps_of(facts, facts.len());
    lemma_overlap_is_a_common_sector(facts[i as int], facts[j as int]);
    entry::lemma_overlaps_are_mutual(facts, i, j);
    if pairs.contains((i, j)) {
        lemma_pair_is_told(facts, pairs, i, j);
    }
}

proof fn lemma_pair_is_told(
    facts: Seq<EntryFacts>,
    pairs: Seq<(usize, usize)>,
    i: usize,
    j: usize,
)
    requires
        pairs.contains((i, j)),
    ensures
        entry::overlap_findings(facts, pairs, i as int).contains(
            entry::overlap_finding(facts, i, j),
        ),
    decreases pairs.len(),
{
    broadcast use vstd::seq_lib::lemma_seq_concat_contains_all_elements;
    broadcast use lemma_when;

    let k = choose|k: int| 0 <= k < pairs.len() && pairs[k] == (i, j);
    if k < pairs.len() - 1 {
        assert(pairs.drop_last()[k] == (i, j));
        lemma_pair_is_told(facts, pairs.drop_last(), i, j);
    }
}

/// What an entry in use is told, each exactly when it is so: no sectors, an end past the
/// device, a status that is neither active nor inactive, and the type that stands for a
/// whole GPT disk. An empty one is told when bytes are left in it.
pub proof fn lemma_entry_is_judged(f: EntryFacts, leftover: bool, sectors: u64, size: u64)
    requires
        f.lba_first + f.num_sectors <= u64::MAX,
    ensures
        ({
            let told = entry::entry_findings(f, leftover, sectors, size);
            let end = (f.lba_first + f.num_sectors) as u64;
            &&& told.contains(Finding::Leftover) <==> f.empty() && leftover
            &&& told.contains(Finding::ZeroLength) <==> !f.empty() && f.num_sectors == 0
            &&& told.contains(
                Finding::PastDevice { end, device_sectors: sectors, sector_size: size },
            ) <==> !f.empty() && 0 < sectors < end
            &&& told.contains(Finding::OddStatus { status: f.status }) <==> !f.empty() && f.status != 0
                && f.status != 0x80
            &&& told.contains(Finding::ProtectiveEntry) <==> !f.empty() && f.part_type == 0xEE
        }),
{
    broadcast use vstd::seq_lib::lemma_seq_concat_contains_all_elements;
    broadcast use vstd::seq_lib::lemma_seq_empty_contains_nothing;
    broadcast use lemma_when;

}

/// A table is a protective one exactly when one entry is in use and that has type 0xEE.
pub proof fn lemma_protective_exactly_when(facts: Seq<EntryFacts>)
    ensures
        entry::protective_finding(facts) is Some <==> exists|i: int|
            0 <= i < facts.len() && !(#[trigger] facts[i]).empty() && facts[i].part_type == 0xEE
                && forall|j: int| 0 <= j < facts.len() && j != i ==> (#[trigger] facts[j]).empty(),
{
    lemma_used(facts);
}

proof fn lemma_used(facts: Seq<EntryFacts>)
    ensures
        entry::used(facts) == 0 <==> forall|i: int|
            0 <= i < facts.len() ==> (#[trigger] facts[i]).empty(),
        entry::first_used(facts) is None <==> entry::used(facts) == 0,
        forall|i: int|
            0 <= i < facts.len() && !(#[trigger] facts[i]).empty() && (forall|j: int|
                0 <= j < facts.len() && j != i ==> (#[trigger] facts[j]).empty()) ==> entry::used(facts)
                == 1 && entry::first_used(facts) == Some(facts[i]),
        entry::used(facts) == 1 ==> exists|i: int|
            0 <= i < facts.len() && !(#[trigger] facts[i]).empty() && entry::first_used(facts) == Some(
                facts[i],
            ) && forall|j: int| 0 <= j < facts.len() && j != i ==> (#[trigger] facts[j]).empty(),
    decreases facts.len(),
{
    if facts.len() > 0 {
        let front = facts.drop_last();
        let last = facts.len() - 1;
        lemma_used(front);
        assert(forall|j: int| 0 <= j < last ==> front[j] == #[trigger] facts[j]);
        assert(facts[last] == facts.last());
        if entry::used(facts) == 0 {
            assert forall|i: int| 0 <= i < facts.len() implies (#[trigger] facts[i]).empty() by {
                if i < last {
                    assert(front[i].empty());
                }
            }
        }
        assert forall|i: int|
            0 <= i < facts.len() && !(#[trigger] facts[i]).empty() && (forall|j: int|
                0 <= j < facts.len() && j != i ==> (#[trigger] facts[j]).empty()) implies entry::used(
            facts,
        ) == 1 && entry::first_used(facts) == Some(facts[i]) by {
            if i < last {
                assert(facts[last].empty());
                assert(!front[i].empty());
                assert forall|j: int| 0 <= j < front.len() && j != i implies (#[trigger] front[j]).empty() by {
                    assert(facts[j].empty());
                }
            } else {
                assert forall|j: int| 0 <= j < front.len() implies (#[trigger] front[j]).empty() by {
                    assert(facts[j].empty());
                }
            }
        }
        if entry::used(facts) == 1 {
            if facts.last().empty() {
                let i = choose|i: int|
                    0 <= i < front.len() && !(#[trigger] front[i]).empty() && entry::first_used(front)
                        == Some(front[i]) && forall|j: int|
                        0 <= j < front.len() && j != i ==> (#[trigger] front[j]).empty();
                assert(!facts[i].empty());
                assert forall|j: int| 0 <= j < facts.len() && j != i implies (#[trigger] facts[j]).empty() by {
                    if j < last {
                        assert(front[j].empty());
                    }
                }
            } else {
                assert(!facts[last].empty());
                assert forall|j: int| 0 <= j < facts.len() && j != last implies (#[trigger] facts[j]).empty() by {
                    assert(front[j].empty());
                }
            }
        }
    }
}

/// The four entries stand one behind the other, 16 bytes each, from byte 446. An extended
/// one leads to the chain that starts where it does.
pub proof fn lemma_where_the_entries_are(dev: Device, base: u64, i: int)
    requires
        0 <= i < 4,
        base + 512 <= u64::MAX,
    ensures
        ({
            let m = reader::mbr_of(dev, base);
            let f = m.entries[i].slot.facts;
            &&& m.entries.len() == 4
            &&& f == entry::facts_of(dev.read((base + 446 + 16 * i) as u64, 16).data)
            &&& (f.part_type == 0x05 || f.part_type == 0x0F || f.part_type == 0x85) && f.num_sectors > 0
                ==> m.entries[i].logicals == ebr::chain_of(
                dev,
                dev.sector_size,
                f.lba_first,
                f.lba_first,
                Set::empty(),
                0,
            )
            &&& !((f.part_type == 0x05 || f.part_type == 0x0F || f.part_type == 0x85) && f.num_sectors
                > 0) ==> m.entries[i].logicals.len() == 0
        }),
{
}

// ------------------------------------------------------------------ logical partitions

/// One step of a chain of extended boot records. The record is read from its own sector. Its
/// first entry is relative to it, its second to the start of the extended partition, and
/// where the second is not zero the chain goes on there.
pub proof fn lemma_chain_goes_from_record_to_record(
    dev: Device,
    size: u32,
    ext: u64,
    lba: u64,
    seen: Set<u64>,
    n: nat,
)
    requires
        n < 128,
        !seen.contains(lba),
        lba * size + 512 <= u64::MAX,
        lba * size < dev.len,
        dev.read((lba * size + 446) as u64, 16).data.len() == 16,
        dev.read((lba * size + 462) as u64, 16).data.len() == 16,
    ensures
        ({
            let c = ebr::chain_of(dev, size, ext, lba, seen, n);
            let first = dev.read((lba * size + 446) as u64, 16).data;
            let second = dev.read((lba * size + 462) as u64, 16).data;
            let next = number(second, 8, 4);
            &&& c.len() > 0
            &&& c[0].finding is None
            &&& c[0].ebr matches Some(e) && {
                &&& e.lba == lba
                &&& e.slots.len() == 4
                &&& e.slots[0].facts == entry::facts_of(first)
                &&& e.slots[1].facts == entry::facts_of(second)
                &&& first[4] != 0 && lba + number(first, 8, 4) <= u64::MAX && (lba + number(
                    first,
                    8,
                    4,
                )) * size <= u64::MAX ==> e.slots[0].volume == Some(
                    (
                        (lba + number(first, 8, 4)) as u64,
                        Some(((lba + number(first, 8, 4)) * size) as u64),
                    ),
                )
            }
            &&& next == 0 ==> c.len() == 1
            &&& next != 0 && ext + next <= u64::MAX ==> c.skip(1) == ebr::chain_of(
                dev,
                size,
                ext,
                (ext + next) as u64,
                seen.insert(lba),
                n + 1,
            )
        }),
{
    let first = dev.read((lba * size + 446) as u64, 16).data;
    let second = dev.read((lba * size + 462) as u64, 16).data;
    lemma_numbers_are_little_endian(first, 8);
    lemma_numbers_are_little_endian(second, 8);
    assert(lba * size >= 0) by (nonlinear_arith)
        requires
            lba >= 0,
            size >= 0,
    ;
    let rel = number(first, 8, 4);
    assert((lba + rel) * size >= 0) by (nonlinear_arith)
        requires
            lba >= 0,
            rel >= 0,
            size >= 0,
    ;
    let c = ebr::chain_of(dev, size, ext, lba, seen, n);
    let next = number(second, 8, 4);
    if next != 0 && ext + next <= u64::MAX {
        let rest = ebr::chain_of(dev, size, ext, (ext + next) as u64, seen.insert(lba), n + 1);
        assert(c.skip(1) =~= rest);
    }
}

// --------------------------------------------------------------------------- scores

/// An entry is plausible when it is empty, or has a known status, sectors, and an end on the
/// device.
pub proof fn lemma_plausible_exactly_when(f: EntryFacts, sectors: u64)
    requires
        sectors > 0,
    ensures
        reader::plausible(f, sectors) <==> f.empty() || ((f.status == 0 || f.status == 128)
            && f.num_sectors > 0 && f.lba_first + f.num_sectors <= sectors),
{
}

/// A sector has no score unless it is signed. A signed one whose entries are all plausible
/// has 80, but 40 when all are empty; each implausible entry costs, and so does a jump, with
/// which a file system starts.
pub proof fn lemma_what_a_score_takes(dev: Device, at: u64)
    requires
        !dev.read(at, 512).refused(),
        dev.read(at, 512).data.len() == 512,
    ensures
        ({
            let b = dev.read(at, 512).data;
            let sectors = reader::sectors_of(dev);
            let fact = |i: int| entry::facts_of(b.subrange(446 + 16 * i, 462 + 16 * i));
            let fine = |i: int| reader::plausible(fact(i), sectors);
            let score = reader::score_of(dev, at);
            let all_fine = fine(0) && fine(1) && fine(2) && fine(3);
            let all_empty = fact(0).empty() && fact(1).empty() && fact(2).empty() && fact(3).empty();
            let jump = b[0] == 0xEB || b[0] == 0xE9;
            &&& score == 0 <==> b[510] != 0x55 || b[511] != 0xAA
            &&& score == 80 <==> score > 0 && all_fine && !all_empty && !jump
            &&& score > 0 && all_fine && all_empty ==> score == if jump { 15int } else { 40 }
            &&& score > 0 && all_fine && !all_empty && jump ==> score == 55
            &&& score > 0 && !all_fine ==> score <= 65
        }),
{
    reveal_with_fuel(reader::plausible_count, 5);
    reveal_with_fuel(reader::populated_count, 5);
    let b = dev.read(at, 512).data;
    assert(reader::slot_bytes(b, 0) == b.subrange(446, 462));
    assert(reader::slot_bytes(b, 1) == b.subrange(462, 478));
    assert(reader::slot_bytes(b, 2) == b.subrange(478, 494));
    assert(reader::slot_bytes(b, 3) == b.subrange(494, 510));
}

/// A device is counted in whole sectors.
pub proof fn lemma_whole_sectors(dev: Device)
    requires
        dev.sector_size > 0,
    ensures
        reader::sectors_of(dev) * dev.sector_size <= dev.len,
        dev.len < (reader::sectors_of(dev) + 1) * dev.sector_size,
{
    let n = dev.len as int;
    let s = dev.sector_size as int;
    div_mod::lemma_fundamental_div_mod(n, s);
    div_mod::lemma_mod_bound(n, s);
    let q = n / s;
    assert((q + 1) * s == q * s + s && s * q == q * s) by (nonlinear_arith);
}

/// Where a chain of extended boot records stops: after 128 of them, at one that was passed
/// already, and at one past the end of the device, each told so.
pub proof fn lemma_where_a_chain_stops(
    dev: Device,
    size: u32,
    ext: u64,
    lba: u64,
    seen: Set<u64>,
    n: nat,
)
    requires
        lba * size <= u64::MAX,
    ensures
        ({
            let c = ebr::chain_of(dev, size, ext, lba, seen, n);
            let told = c[0].finding;
            &&& c.len() > 0
            &&& told == Some(Finding::ChainTooLong) <==> n >= 128
            &&& told == Some(Finding::ChainLoops { lba }) <==> n < 128 && seen.contains(lba)
            &&& told == Some(Finding::EbrPastDevice) <==> n < 128 && !seen.contains(lba) && lba * size
                >= dev.len
            &&& told is Some ==> c.len() == 1 && c[0].ebr is None
        }),
{
    assert(lba * size >= 0) by (nonlinear_arith)
        requires
            lba >= 0,
            size >= 0,
    ;
}

/// The two last slots of an extended boot record are not used, and told when they hold
/// anything.
pub proof fn lemma_unused_slots_are_judged(dev: Device, at: u64, region: u64, label: Seq<char>)
    ensures
        entry_is_dirty(dev, at) <==> ebr::unused_of(dev, at, region, label).findings.contains(
            Finding::UnusedSlotDirty,
        ),
{
    broadcast use lemma_when;

}

/// One of the sixteen bytes of the entry at `at` is not zero.
pub open spec fn entry_is_dirty(dev: Device, at: u64) -> bool {
    let b = dev.read(at, 16).data;
    exists|i: int| 0 <= i < b.len() && #[trigger] b[i] != 0
}

} // verus!
