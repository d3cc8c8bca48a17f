//! What an exFAT volume is told of itself, said of the bytes on the device.

use crate::bytes::{lemma_numbers_are_little_endian, number};
use crate::common;
use crate::desc::FieldDesc;
use crate::exfat::bitmap;
use crate::exfat::boot;
use crate::exfat::chain;
use crate::exfat::directory;
use crate::exfat::directory::{ItemModel, MetaRef};
use crate::exfat::entry;
use crate::exfat::entry_set;
use crate::exfat::entry_set::SetFacts;
use crate::exfat::fat_table;
use crate::exfat::finding;
use crate::exfat::finding::Finding;
use crate::exfat::geometry;
use crate::exfat::geometry::Geometry;
use crate::exfat::upcase;
use crate::exfat::volume;
use crate::source::Device;
use vstd::arithmetic::div_mod;
use vstd::prelude::*;

verus! {

broadcast proof fn lemma_when(cond: bool, f: Finding, g: Finding)
    ensures
        #[trigger] finding::when(cond, f).contains(g) <==> cond && g == f,
{
    if cond && g == f {
        assert(finding::when(cond, f)[0] == g);
    }
}

broadcast proof fn lemma_single(f: Finding, g: Finding)
    ensures
        #[trigger] seq![f].contains(g) <==> f == g,
{
    if f == g {
        assert(seq![f][0] == g);
    }
}

// ------------------------------------------------------------------------ geometry

/// A geometry is consistent exactly when it has one or two FATs behind both boot regions,
/// the clusters start behind the FATs and end in the volume, the root is one of them, and
/// the volume ends on the device.
pub proof fn lemma_consistent_exactly_when(g: Geometry, device_len: u64)
    requires
        g.well_formed(),
        g.base + g.volume_length * g.bytes_per_sector <= u64::MAX,
        device_len > 0,
    ensures
        g.consistent(device_len) <==> {
            &&& g.number_of_fats == 1 || g.number_of_fats == 2
            &&& 24 <= g.fat_offset
            &&& 0 < g.fat_length
            &&& g.fat_offset + g.number_of_fats * g.fat_length <= g.cluster_heap_offset
            &&& 0 < g.cluster_count <= 0xFFFF_FFF5
            &&& g.cluster_heap_offset + g.cluster_count * g.sectors_per_cluster <= g.volume_length
            &&& 2 <= g.first_cluster_of_root <= g.cluster_count + 1
            &&& g.base + g.volume_length * g.bytes_per_sector <= device_len
        },
{
    assert(g.fat_length * g.number_of_fats == g.number_of_fats * g.fat_length) by (nonlinear_arith);
    assert(0 <= g.fat_length * g.number_of_fats <= 0xFFFF_FFFF * 0xFF) by (nonlinear_arith)
        requires
            0 <= g.fat_length <= 0xFFFF_FFFF,
            0 <= g.number_of_fats <= 0xFF,
    ;
    assert(0 <= g.cluster_count * g.sectors_per_cluster <= 0xFFFF_FFFF * 0x200_0000)
        by (nonlinear_arith)
        requires
            0 <= g.cluster_count <= 0xFFFF_FFFF,
            0 <= g.sectors_per_cluster <= 0x200_0000,
    ;
    assert(g.volume_length * g.bytes_per_sector >= g.volume_length) by (nonlinear_arith)
        requires
            g.volume_length >= 0,
            g.bytes_per_sector >= 1,
    ;
}

/// What a volume's placement is told, each exactly when it is so.
pub proof fn lemma_placement_is_judged(g: Geometry, device_len: u64)
    requires
        g.well_formed(),
        g.base + g.volume_length * g.bytes_per_sector <= u64::MAX,
    ensures
        ({
            let told = geometry::placement_findings(g, device_len);
            let lba = g.base / g.bytes_per_sector;
            let end = g.base + g.volume_length * g.bytes_per_sector;
            &&& told.contains(Finding::PartitionOffsetUnset { lba, base: g.base }) <==> g.partition_offset
                == 0 && g.base != 0
            &&& told.contains(
                Finding::PartitionOffsetMoved { declared: g.partition_offset, lba },
            ) <==> g.partition_offset != 0 && g.partition_offset != lba
            &&& told.contains(
                Finding::VolumePastDevice {
                    sectors: g.volume_length,
                    bytes_per_sector: g.bytes_per_sector,
                    end: end as u64,
                    device_len,
                },
            ) <==> 0 < device_len < end
        }),
{
    broadcast use vstd::seq_lib::lemma_seq_concat_contains_all_elements;
    broadcast use vstd::seq_lib::lemma_seq_empty_contains_nothing;
    broadcast use lemma_when;

    lemma_products(g);
}

/// What the room for the FATs is told, each exactly when it is so: an entry of four bytes
/// for each cluster and two more, in front of the heap.
pub proof fn lemma_fat_area_is_judged(g: Geometry)
    requires
        g.well_formed(),
    ensures
        ({
            let told = geometry::fat_area_findings(g);
            let need = 4 * (g.cluster_count + 2);
            let have = g.fat_length * g.bytes_per_sector;
            let fats_end = g.fat_offset + g.number_of_fats * g.fat_length;
            &&& told.contains(
                Finding::FatTooShort {
                    sectors: g.fat_length,
                    have: have as u64,
                    clusters: g.cluster_count,
                    need: need as u64,
                },
            ) <==> have < need
            &&& told.contains(
                Finding::HeapOverlapsFats {
                    heap: g.cluster_heap_offset,
                    fats: g.number_of_fats,
                    fats_end: fats_end as u64,
                },
            ) <==> g.cluster_heap_offset < fats_end
        }),
{
    broadcast use vstd::seq_lib::lemma_seq_concat_contains_all_elements;
    broadcast use vstd::seq_lib::lemma_seq_empty_contains_nothing;
    broadcast use lemma_when;

    lemma_products(g);
}

/// What the heap is told, each exactly when it is so.
pub proof fn lemma_heap_is_judged(g: Geometry)
    requires
        g.well_formed(),
    ensures
        ({
            let told = geometry::heap_findings(g);
            let heap_end = g.cluster_heap_offset + g.cluster_count * g.sectors_per_cluster;
            &&& told.contains(Finding::TooManyClusters { count: g.cluster_count }) <==> g.cluster_count
                > 0xFFFF_FFF5
            &&& told.contains(
                Finding::HeapPastVolume {
                    count: g.cluster_count,
                    heap_end: heap_end as u64,
                    volume_length: g.volume_length,
                },
            ) <==> g.cluster_count <= 0xFFFF_FFF5 && 0 < g.volume_length < heap_end
            &&& told.contains(
                Finding::RootOutsideHeap {
                    cluster: g.first_cluster_of_root,
                    last: (g.cluster_count + 1) as u64,
                },
            ) <==> !(2 <= g.first_cluster_of_root <= g.cluster_count + 1)
        }),
{
    broadcast use vstd::seq_lib::lemma_seq_concat_contains_all_elements;
    broadcast use vstd::seq_lib::lemma_seq_empty_contains_nothing;
    broadcast use lemma_when;

    lemma_products(g);
}

/// What the flags and the like are told, each exactly when it is so.
pub proof fn lemma_flags_are_judged(g: Geometry)
    requires
        g.well_formed(),
    ensures
        ({
            let told = geometry::flag_findings(g);
            &&& told.contains(
                Finding::UnknownRevision { major: g.fs_revision / 256, minor: g.fs_revision % 256 },
            ) <==> g.fs_revision != 256
            &&& told.contains(Finding::PercentInvalid { percent: g.percent_in_use }) <==> g.percent_in_use
                > 100 && g.percent_in_use != 255
            &&& told.contains(Finding::VolumeDirty) <==> (g.volume_flags / 2) % 2 == 1
            &&& told.contains(Finding::MediaFailure) <==> (g.volume_flags / 4) % 2 == 1
            &&& told.contains(Finding::ReservedVolumeFlags { flags: g.volume_flags }) <==> g.volume_flags
                > 15
            &&& told.contains(Finding::ActiveFatMissing) <==> g.volume_flags % 2 == 1 && g.number_of_fats
                < 2
        }),
{
    broadcast use vstd::seq_lib::lemma_seq_concat_contains_all_elements;
    broadcast use vstd::seq_lib::lemma_seq_empty_contains_nothing;
    broadcast use lemma_when;

}

/// A boot sector is told all that its placement, its FATs, its heap and its flags are.
pub proof fn lemma_boot_sector_is_told_all(g: Geometry, device_len: u64, f: Finding)
    ensures
        geometry::boot_sector_findings(g, device_len).contains(f) <==> {
            ||| geometry::placement_findings(g, device_len).contains(f)
            ||| geometry::fat_area_findings(g).contains(f)
            ||| geometry::heap_findings(g).contains(f)
            ||| geometry::flag_findings(g).contains(f)
        },
{
    broadcast use vstd::seq_lib::lemma_seq_concat_contains_all_elements;

}

proof fn lemma_products(g: Geometry)
    requires
        g.well_formed(),
    ensures
        0 <= g.fat_length * g.number_of_fats <= 0xFFFF_FFFF * 0xFF,
        g.fat_length * g.number_of_fats == g.number_of_fats * g.fat_length,
        0 <= g.cluster_count * g.sectors_per_cluster <= 0xFFFF_FFFF * 0x200_0000,
        0 <= g.fat_length * g.bytes_per_sector <= 0xFFFF_FFFF * 0xFFFF_FFFF,
        g.volume_length * g.bytes_per_sector >= 0,
{
    assert(g.fat_length * g.number_of_fats == g.number_of_fats * g.fat_length) by (nonlinear_arith);
    assert(0 <= g.fat_length * g.number_of_fats <= 0xFFFF_FFFF * 0xFF) by (nonlinear_arith)
        requires
            0 <= g.fat_length <= 0xFFFF_FFFF,
            0 <= g.number_of_fats <= 0xFF,
    ;
    assert(0 <= g.cluster_count * g.sectors_per_cluster <= 0xFFFF_FFFF * 0x200_0000)
        by (nonlinear_arith)
        requires
            0 <= g.cluster_count <= 0xFFFF_FFFF,
            0 <= g.sectors_per_cluster <= 0x200_0000,
    ;
    assert(0 <= g.fat_length * g.bytes_per_sector <= 0xFFFF_FFFF * 0xFFFF_FFFF) by (nonlinear_arith)
        requires
            0 <= g.fat_length <= 0xFFFF_FFFF,
            0 <= g.bytes_per_sector <= 0xFFFF_FFFF,
    ;
    assert(g.volume_length * g.bytes_per_sector >= 0) by (nonlinear_arith)
        requires
            g.volume_length >= 0,
            g.bytes_per_sector >= 0,
    ;
}

/// A sector has a score exactly when it names exFAT. A full score takes the signature, the
/// zeroes behind the name, the jump, and a geometry that is trusted and consistent.
pub proof fn lemma_what_a_score_takes(dev: Device, at: u64)
    requires
        !dev.read(at, 512).refused(),
        dev.read(at, 512).data.len() == 512,
    ensures
        ({
            let b = dev.read(at, 512).data;
            let g = geometry::geometry_of(b, at, dev.sector_size);
            let score = volume::score_of(dev, at);
            &&& score > 0 <==> b.subrange(3, 11) == seq![
                'E' as u8,
                'X' as u8,
                'F' as u8,
                'A' as u8,
                'T' as u8,
                ' ' as u8,
                ' ' as u8,
                ' ' as u8,
            ]
            &&& score > 0 ==> 50 <= score <= 100
            &&& score >= 80 ==> g.trusted && g.consistent(dev.len)
            &&& score == 100 <==> {
                &&& score > 0
                &&& b[510] == 0x55 && b[511] == 0xAA
                &&& forall|i: int| 11 <= i < 64 ==> #[trigger] b[i] == 0
                &&& b[0] == 0xEB && b[1] == 0x76 && b[2] == 0x90
                &&& g.trusted && g.consistent(dev.len)
            }
        }),
{
    let b = dev.read(at, 512).data;
    let z = b.subrange(11, 64);
    assert(forall|i: int| 11 <= i < 64 ==> #[trigger] b[i] == z[i - 11]);
    if entry::zero_from(z, 0) {
        assert forall|i: int| 11 <= i < 64 implies #[trigger] b[i] == 0 by {
            assert(z[i - 11] == 0);
        }
    }
    if forall|i: int| 11 <= i < 64 ==> #[trigger] b[i] == 0 {
        assert forall|i: int| 0 <= i < z.len() implies #[trigger] z[i] == 0 by {
            assert(b[i + 11] == 0);
        }
    }
    assert(seq![0x45u8, 0x58, 0x46, 0x41, 0x54, 0x20, 0x20, 0x20] =~= seq![
        'E' as u8,
        'X' as u8,
        'F' as u8,
        'A' as u8,
        'T' as u8,
        ' ' as u8,
        ' ' as u8,
        ' ' as u8,
    ]);
}

// --------------------------------------------------------------------- the root's records

/// The bitmap and the up-case table that count are the first of their type in use in the
/// root.
pub proof fn lemma_first_of_its_type(items: Seq<ItemModel>, t: u8, i: int)
    requires
        0 <= i < items.len() <= u64::MAX,
        t != 0,
        directory::lone_type(items[i]) == t,
        forall|j: int| 0 <= j < i ==> directory::lone_type(#[trigger] items[j]) != t,
    ensures
        directory::first_of(items, t) == Some(directory::reference(items[i], i)),
        items[i].entry is Single,
        directory::reference(items[i], i).index == i,
        directory::reference(items[i], i).first_cluster == items[i].entry->Single_0.first_cluster,
        directory::reference(items[i], i).data_length == items[i].entry->Single_0.data_length,
        items[i].entry->Single_0.type_byte == t,
        t == 0x82 ==> directory::reference(items[i], i).stored_checksum == Some(
            items[i].entry->Single_0.table_checksum as u64,
        ),
{
    lemma_first_upto(items, t, i, items.len());
    assert(items.take(items.len() as int) =~= items);
}

proof fn lemma_first_upto(items: Seq<ItemModel>, t: u8, i: int, n: nat)
    requires
        0 <= i < items.len(),
        n <= items.len(),
        directory::lone_type(items[i]) == t,
        forall|j: int| 0 <= j < i ==> directory::lone_type(#[trigger] items[j]) != t,
    ensures
        directory::first_of(items.take(n as int), t) == if i < n {
            Some(directory::reference(items[i], i))
        } else {
            None
        },
    decreases n,
{
    if n > 0 {
        lemma_first_upto(items, t, i, (n - 1) as nat);
        assert(items.take(n as int).drop_last() =~= items.take(n - 1));
        assert(items.take(n as int).last() == items[n - 1]);
    }
}

/// A root without one of its three records is told so, where the volume is trusted.
pub proof fn lemma_missing_records_are_told(items: Seq<ItemModel>)
    ensures
        ({
            let meta = directory::meta_of(items);
            let told = volume::root_findings(true, meta);
            &&& told.contains(Finding::NoBitmapEntry) <==> forall|i: int|
                0 <= i < items.len() ==> directory::lone_type(#[trigger] items[i]) != 0x81
            &&& told.contains(Finding::NoUpcaseEntry) <==> forall|i: int|
                0 <= i < items.len() ==> directory::lone_type(#[trigger] items[i]) != 0x82
            &&& told.contains(Finding::NoVolumeLabel) <==> forall|i: int|
                0 <= i < items.len() ==> directory::lone_type(#[trigger] items[i]) != 0x83
            &&& volume::root_findings(false, meta) == seq![Finding::GeometryUnusable]
        }),
{
    broadcast use vstd::seq_lib::lemma_seq_concat_contains_all_elements;
    broadcast use vstd::seq_lib::lemma_seq_empty_contains_nothing;
    broadcast use lemma_when;

    lemma_first_is_some(items, 0x81);
    lemma_first_is_some(items, 0x82);
    lemma_first_is_some(items, 0x83);
}

proof fn lemma_first_is_some(items: Seq<ItemModel>, t: u8)
    ensures
        directory::first_of(items, t) is None <==> forall|i: int|
            0 <= i < items.len() ==> directory::lone_type(#[trigger] items[i]) != t,
    decreases items.len(),
{
    if items.len() > 0 {
        let front = items.drop_last();
        lemma_first_is_some(front, t);
        assert(forall|i: int| 0 <= i < front.len() ==> front[i] == #[trigger] items[i]);
        if directory::first_of(items, t) is None {
            assert forall|i: int| 0 <= i < items.len() implies directory::lone_type(
                #[trigger] items[i],
            ) != t by {
                if i < front.len() {
                    assert(directory::lone_type(front[i]) != t);
                }
            }
        }
        if forall|i: int| 0 <= i < items.len() ==> directory::lone_type(#[trigger] items[i]) != t {
            assert(directory::lone_type(items[items.len() - 1]) != t);
            assert forall|i: int| 0 <= i < front.len() implies directory::lone_type(
                #[trigger] front[i],
            ) != t by {
                assert(directory::lone_type(items[i]) != t);
            }
        }
    }
}

/// What a directory counts: each row behind the end, and each row called deleted.
pub proof fn lemma_rows_are_counted(items: Seq<ItemModel>, x: ItemModel)
    ensures
        directory::residue_count(Seq::empty()) == 0,
        directory::deleted_count(Seq::empty()) == 0,
        directory::residue_count(items.push(x)) == directory::residue_count(items) + if x.residue {
            1int
        } else {
            0
        },
        directory::deleted_count(items.push(x)) == directory::deleted_count(items)
            + if x.reads_deleted() {
            1int
        } else {
            0
        },
{
    assert(items.push(x).drop_last() =~= items);
}

// ------------------------------------------------------------------- bitmap and up-case

/// The bitmap has one bit a cluster, in whole bytes; its length is told when it is another.
pub proof fn lemma_bitmap_length(dev: Device, g: Geometry, r: MetaRef)
    requires
        g.cluster_count <= 0xFFFF_FFFF,
    ensures
        ({
            let b = bitmap::bitmap_of(dev, g, r);
            &&& 8 * b.expected_length >= g.cluster_count
            &&& 8 * (b.expected_length - 1) < g.cluster_count || g.cluster_count == 0
            &&& b.length_matches <==> r.data_length == b.expected_length
            &&& volume::bitmap_length_finding(dev, g, r) is None <==> r.data_length == b.expected_length
        }),
{
}

/// The bitmap is held against the FAT from cluster 2 on, as many clusters as both have, up
/// to 65536. They agree exactly when nothing stray is found.
pub proof fn lemma_what_is_crosschecked(dev: Device, g: Geometry, bits: Seq<u8>, fat_at: u64)
    requires
        g.fat_at(g.active_fat as int) == Some(fat_at),
        fat_at + 8 + 4 * 65536 <= u64::MAX,
        g.cluster_count <= 65536,
        !dev.read((fat_at + 8) as u64, (4 * g.cluster_count) as u64).refused(),
        dev.read((fat_at + 8) as u64, (4 * g.cluster_count) as u64).data.len() == 4 * g.cluster_count,
        8 * bits.len() >= g.cluster_count,
    ensures
        ({
            let fat = dev.read((fat_at + 8) as u64, (4 * g.cluster_count) as u64).data;
            let c = bitmap::crosscheck_of(dev, g, bits);
            &&& c.compared == g.cluster_count
            &&& c.chained_but_free == bitmap::chained_but_free(fat, bits, g.cluster_count as nat)
            &&& c.allocated_without_chain == bitmap::without_chain(fat, bits, g.cluster_count as nat)
            &&& c.findings.contains(Finding::BitmapAgrees { compared: g.cluster_count })
                <==> c.chained_but_free.len() == 0 && c.allocated_without_chain == 0
            &&& c.findings.contains(Finding::ChainedButFree) <==> c.chained_but_free.len() > 0
        }),
{
    broadcast use vstd::seq_lib::lemma_seq_concat_contains_all_elements;
    broadcast use vstd::seq_lib::lemma_seq_empty_contains_nothing;
    broadcast use lemma_when;

    let fat = dev.read((fat_at + 8) as u64, (4 * g.cluster_count) as u64).data;
    lemma_lone_bound(fat, bits, g.cluster_count as nat);
}

proof fn lemma_lone_bound(fat: Seq<u8>, bits: Seq<u8>, n: nat)
    ensures
        bitmap::without_chain(fat, bits, n) <= n,
    decreases n,
{
    if n > 0 {
        lemma_lone_bound(fat, bits, (n - 1) as nat);
    }
}

/// An up-case table is judged by the sum of all its bytes.
pub proof fn lemma_upcase_table_is_judged(stored: Option<u64>, table: Seq<u8>)
    ensures
        upcase::sum_finding(stored, table) is UpcaseMatches <==> stored == Some(
            crate::checksum::rotate_add(table, Seq::empty(), 0x8000_0000) as u64,
        ),
{
}

// ----------------------------------------------------------------------------- sets

/// The name that is shown is the part its length covers. What is left behind that is told,
/// and so is a hash that is not the name's.
pub proof fn lemma_names_are_judged(f: SetFacts, units: Seq<u16>)
    ensures
        ({
            let shown = entry_set::shown_units(units, f.name_length);
            let told = entry_set::name_findings(f, units);
            &&& f.name_length <= units.len() ==> shown == units.take(f.name_length as int)
            &&& f.name_length > units.len() ==> shown == units
            &&& told.contains(Finding::NameResidue) <==> exists|i: int|
                f.name_length <= i < units.len() && #[trigger] units[i] != 0
            &&& told.contains(Finding::NameHashUnverified) <==> entry::ascii_hash(shown) is None
            &&& entry::ascii_hash(shown) matches Some(h) ==> (f.stored_hash == Some(h) ==> forall|
                s: u64,
                c: u64,
            | !#[trigger] told.contains(Finding::NameHash { stored: s, computed: c }))
            &&& entry::ascii_hash(shown) matches Some(h) ==> f.stored_hash matches Some(v) ==> v != h
                ==> told.contains(Finding::NameHash { stored: v as u64, computed: h as u64 })
        }),
{
    broadcast use vstd::seq_lib::lemma_seq_concat_contains_all_elements;
    broadcast use lemma_when;
    broadcast use lemma_single;

    assert(f.name_length == units.len() ==> units.take(f.name_length as int) =~= units);
}

/// A deleted set is told whether it is whole: its sum is the one it had when in use.
pub proof fn lemma_deleted_sets_are_judged(set: Seq<u8>)
    requires
        set.len() >= 96,
    ensures
        entry_set::deletion_findings(set, true).len() == 0,
        ({
            let told = entry_set::deletion_findings(set, false);
            let whole = number(set, 2, 2) == entry::set_sum(entry::with_in_use(set));
            &&& told.contains(Finding::SetIntact) <==> whole
            &&& told.contains(Finding::SetOverwritten) <==> !whole
            &&& told.contains(Finding::SetDeleted { primary: set[0], second: set[32], third: set[64] })
        }),
{
    lemma_numbers_are_little_endian(set, 2);
    let told = entry_set::deletion_findings(set, false);
    assert(told.len() == 2);
    assert(told[1] == Finding::SetDeleted { primary: set[0], second: set[32], third: set[64] });
    assert(told.contains(told[0]));
    assert(told.contains(told[1]));
}

/// The contents of a set are followed as its stream extension says. A directory in use is
/// entered, down to sixteen levels; a deleted one is not.
pub proof fn lemma_contents_are_followed(
    dev: Device,
    g: Geometry,
    f: SetFacts,
    name: Seq<char>,
    depth: u32,
)
    ensures
        ({
            let c = entry_set::clusters_of(dev, g, f, name, depth);
            let bytes = if f.is_dir && !f.no_fat_chain { None } else { Some(f.data_length) };
            let all = chain::chain_of(dev, g, f.first_cluster, f.no_fat_chain, bytes);
            &&& c.clusters == all.clusters.len() as u64
            &&& c.contents is Some <==> f.is_dir && f.live && depth < 16
            &&& c.contents matches Some(s) ==> s.first_cluster == f.first_cluster && s.no_fat_chain
                == f.no_fat_chain && s.byte_len == bytes && s.depth == depth + 1 && s.name == name
        }),
{
}

// ---------------------------------------------------------------------- boot and FATs

/// The eight extended boot sectors stand behind the boot sector, and each ends in its
/// signature or is told otherwise.
pub proof fn lemma_extended_boot_sectors(dev: Device, g: Geometry, at: u64, index: u64)
    requires
        g.bytes_per_sector >= 512,
        !dev.read(at, g.bytes_per_sector).refused(),
        dev.read(at, g.bytes_per_sector).data.len() == g.bytes_per_sector,
    ensures
        ({
            let b = dev.read(at, g.bytes_per_sector).data;
            let e = boot::ext_sector_of(dev, g, at, index);
            let v = number(b, g.bytes_per_sector - 4, 4);
            &&& e.at == at
            &&& e.index == index
            &&& e.signature == Some(v as u32)
            &&& e.finding is None <==> v == 0xAA55_0000
        }),
{
    let b = dev.read(at, g.bytes_per_sector).data;
    lemma_numbers_are_little_endian(b, g.bytes_per_sector - 4);
}

/// The extended boot sectors are listed in order, one for each of the eight sectors that can
/// be addressed.
pub proof fn lemma_extended_boot_sectors_in_order(
    dev: Device,
    g: Geometry,
    first: u64,
    n: nat,
    i: int,
)
    requires
        n <= 8,
        0 <= i < n,
        first + 20 <= u64::MAX,
        forall|s: int| first < s <= first + n ==> #[trigger] g.sector_at(s) is Some,
    ensures
        boot::ext_sectors_of(dev, g, first, n).len() == n,
        boot::ext_sectors_of(dev, g, first, n)[i] == boot::ext_sector_of(
            dev,
            g,
            g.sector_at(first + i + 1)->0,
            i as u64,
        ),
    decreases n,
{
    assert(g.sector_at(first + n) is Some);
    if n > 1 {
        lemma_extended_boot_sectors_in_order(
            dev,
            g,
            first,
            (n - 1) as nat,
            if i < n - 1 { i } else { 0 },
        );
    } else {
        assert(boot::ext_sectors_of(dev, g, first, 0) =~= Seq::empty());
    }
}

/// The head of a FAT: the media entry and the one behind it have fixed values, and a FAT that
/// is not the active one of two is told so.
pub proof fn lemma_fat_heads_are_judged(head: Seq<u8>, active: bool, fats: u64)
    requires
        head.len() == 8,
    ensures
        ({
            let told = fat_table::head_findings(head, active, fats);
            let media = number(head, 0, 4);
            let second = number(head, 4, 4);
            &&& told.contains(Finding::MediaEntry { found: media as u32 }) <==> media != 0xFFFF_FFF8
            &&& told.contains(Finding::ReservedEntry { found: second as u32 }) <==> second != 0xFFFF_FFFF
            &&& told.contains(Finding::InactiveFat) <==> !active && fats > 1
        }),
{
    broadcast use vstd::seq_lib::lemma_seq_concat_contains_all_elements;
    broadcast use vstd::seq_lib::lemma_seq_empty_contains_nothing;
    broadcast use lemma_when;

    lemma_numbers_are_little_endian(head, 0);
    lemma_numbers_are_little_endian(head, 4);
}

/// A slot of OEM parameters is unset when all its bytes are ones, null when all are zeroes,
/// and a vendor's otherwise.
pub proof fn lemma_oem_slots_are_judged(raw: Seq<u8>)
    requires
        raw.len() == 48,
    ensures
        boot::oem_kind(raw) is Null <==> forall|i: int| 0 <= i < 48 ==> #[trigger] raw[i] == 0,
        boot::oem_kind(raw) is Unset <==> forall|i: int| 0 <= i < 48 ==> #[trigger] raw[i] == 0xFF,
        boot::oem_kind(raw) is Vendor <==> !(boot::oem_kind(raw) is Null) && !(boot::oem_kind(
            raw,
        ) is Unset),
{
    if boot::all_ff(raw) {
        assert(raw[0] == 0xFF);
    }
    if forall|i: int| 0 <= i < 48 ==> #[trigger] raw[i] == 0xFF {
        assert(raw[0] == 0xFF);
        assert(boot::all_ff(raw));
    }
}

/// A chain is told when its clusters are not as many as its length needs.
pub proof fn lemma_chain_lengths_are_judged(g: Geometry, clusters: int, want: u64)
    requires
        g.cluster_size > 0,
        clusters >= 0,
    ensures
        chain::length_findings(g, clusters, Some(want)).len() == 0 <==> (clusters - 1) * g.cluster_size
            < want <= clusters * g.cluster_size,
        chain::length_findings(g, clusters, None).len() == 0,
{
    let size = g.cluster_size as int;
    let a = want as int;
    div_mod::lemma_fundamental_div_mod(a, size);
    div_mod::lemma_mod_bound(a, size);
    div_mod::lemma_div_pos_is_pos(a, size);
    let q = a / size;
    let need = common::ceil_div(a, size);
    assert((q + 1) * size == q * size + size && (q - 1) * size == q * size - size && size * q == q
        * size) by (nonlinear_arith);
    assert((need - 1) * size < a <= need * size);
    if clusters < need {
        assert(clusters * size <= (need - 1) * size) by (nonlinear_arith)
            requires
                clusters <= need - 1,
                size > 0,
        ;
    }
    if clusters > need {
        assert((clusters - 1) * size >= need * size) by (nonlinear_arith)
            requires
                clusters - 1 >= need,
                size > 0,
        ;
    }
}

// ------------------------------------------------------------------------ the layout shown

/// The two boot regions that are compared are the twelve sectors from the start of the volume
/// and the twelve behind them.
pub proof fn lemma_which_regions_are_compared(dev: Device, g: Geometry, main: u64, other: u64)
    requires
        g.bytes_per_sector <= 0xFFFF_FFFF,
        g.sector_at(0) == Some(main),
        g.sector_at(12) == Some(other),
        !dev.read(main, (12 * g.bytes_per_sector) as u64).refused(),
        !dev.read(other, (12 * g.bytes_per_sector) as u64).refused(),
    ensures
        ({
            let a = dev.read(main, (12 * g.bytes_per_sector) as u64).data;
            let b = dev.read(other, (12 * g.bytes_per_sector) as u64).data;
            let d = boot::backup_diff_of(dev, g);
            &&& d.verdict is RegionsIdentical <==> a == b
            &&& d.verdict is RegionLengths <==> a.len() != b.len()
            &&& d.verdict is RegionsDiffer <==> a.len() == b.len() && a != b
            &&& d.verdict is RegionsDiffer ==> d.sectors == boot::sector_diffs(
                a,
                b,
                g.bytes_per_sector,
                12,
            )
        }),
        main == g.base,
{
    assert(0 * g.bytes_per_sector == 0);
}

/// A field of the boot sector is told to differ exactly when one of its bytes does. The two
/// that change in use are marked as such.
pub proof fn lemma_fields_are_compared(f: FieldDesc, a: Seq<u8>, b: Seq<u8>)
    requires
        f.off + f.width <= 512,
        a.len() >= 512,
        b.len() >= 512,
    ensures
        boot::field_differs(f, a, b) <==> exists|i: int|
            f.off <= i < f.off + f.width && #[trigger] a[i] != b[i],
        boot::field_diff(f, a, b).skipped <==> (f.off <= 106 < f.off + f.width || f.off <= 107 < f.off
            + f.width || f.off <= 112 < f.off + f.width),
        boot::field_diff(f, a, b).main == a.subrange(f.off as int, f.off + f.width),
        boot::field_diff(f, a, b).backup == b.subrange(f.off as int, f.off + f.width),
{
    let x = a.subrange(f.off as int, f.off + f.width);
    let y = b.subrange(f.off as int, f.off + f.width);
    if x != y {
        if forall|j: int| 0 <= j < f.width ==> x[j] == y[j] {
            assert(x =~= y);
        }
        let j = choose|j: int| 0 <= j < f.width && x[j] != y[j];
        assert(a[f.off + j] != b[f.off + j]);
    }
    if exists|i: int| f.off <= i < f.off + f.width && #[trigger] a[i] != b[i] {
        let i = choose|i: int| f.off <= i < f.off + f.width && #[trigger] a[i] != b[i];
        assert(x[i - f.off] != y[i - f.off]);
    }
}

/// Each field that differs is listed, in order, and no other.
pub proof fn lemma_differing_fields_are_listed(
    fields: Seq<FieldDesc>,
    f: FieldDesc,
    a: Seq<u8>,
    b: Seq<u8>,
)
    requires
        f.off + f.width <= a.len(),
        f.off + f.width <= b.len(),
    ensures
        boot::field_diffs(Seq::empty(), a, b).len() == 0,
        boot::field_differs(f, a, b) ==> boot::field_diffs(fields.push(f), a, b) == boot::field_diffs(
            fields,
            a,
            b,
        ).push(boot::field_diff(f, a, b)),
        !boot::field_differs(f, a, b) ==> boot::field_diffs(fields.push(f), a, b) == boot::field_diffs(
            fields,
            a,
            b,
        ),
{
    assert(fields.push(f).drop_last() =~= fields);
}

/// The reserved sector is told when it holds anything.
pub proof fn lemma_reserved_sector_is_judged(dev: Device, g: Geometry, at: u64)
    requires
        !dev.read(at, g.bytes_per_sector).refused(),
    ensures
        boot::reserved_finding(dev, g, at) == Some(Finding::ReservedSectorDirty) <==> exists|i: int|
            0 <= i < dev.read(at, g.bytes_per_sector).data.len() && #[trigger] dev.read(
                at,
                g.bytes_per_sector,
            ).data[i] != 0,
        boot::reserved_finding(dev, g, at) is None || boot::reserved_finding(dev, g, at) == Some(
            Finding::ReservedSectorDirty,
        ),
{
}

/// Ten slots of OEM parameters, 48 bytes each, fit in a sector.
pub proof fn lemma_ten_oem_slots(g: Geometry, at: u64, n: u64)
    requires
        g.bytes_per_sector >= 512,
        at + g.bytes_per_sector <= u64::MAX,
        n <= 10,
    ensures
        boot::oem_slots(g, at, n) == n,
    decreases n,
{
    if n > 0 {
        lemma_ten_oem_slots(g, at, (n - 1) as u64);
    }
}

/// What is worked out of a geometry: sizes and places as they follow from it.
pub proof fn lemma_what_is_worked_out(g: Geometry)
    requires
        g.well_formed(),
    ensures
        ({
            let c = volume::computed_of(g);
            &&& c.bytes_per_sector == g.bytes_per_sector
            &&& c.sectors_per_cluster == g.sectors_per_cluster
            &&& c.cluster_size == g.cluster_size
            &&& g.size() is Some ==> c.volume_size == g.volume_length * g.bytes_per_sector
            &&& g.heap_at() is Some ==> c.heap_offset == g.base + g.cluster_heap_offset
                * g.bytes_per_sector
            &&& c.heap_size == g.cluster_count * g.cluster_size
            &&& c.last_cluster == g.cluster_count + 1
            &&& g.cluster_at(g.first_cluster_of_root as int) matches Some(at) ==> c.root_directory_offset
                == at
            &&& c.fat_0_offset is Some <==> g.number_of_fats >= 1
            &&& c.fat_1_offset is Some <==> g.number_of_fats >= 2
            &&& c.finding is None <==> g.trusted
        }),
{
    assert(0 <= g.cluster_count * g.cluster_size <= 0xFFFF_FFFF * 0xFFFF_FFFF) by (nonlinear_arith)
        requires
            0 <= g.cluster_count <= 0xFFFF_FFFF,
            0 <= g.cluster_size <= 0xFFFF_FFFF,
    ;
}

/// The volume is shown from its start, as long as it says and no further than the device.
pub proof fn lemma_span_of_a_volume(g: Geometry, device_len: u64, size: u64)
    requires
        g.size() == Some(size),
        size > 0,
        g.base < device_len,
    ensures
        volume::span_of(g, device_len).at == g.base,
        volume::span_of(g, device_len).len == if g.base + size <= device_len {
            size as int
        } else {
            device_len - g.base
        },
{
}

/// A directory's slots are the bytes under its runs, 32 at a time, up to 8192 of them.
pub proof fn lemma_slots_of_a_directory(
    dev: Device,
    g: Geometry,
    first: u64,
    no_fat_chain: bool,
    len: Option<u64>,
    label: Seq<char>,
    depth: u32,
)
    ensures
        ({
            let c = chain::chain_of(dev, g, first, no_fat_chain, len);
            let runs = chain::runs_of(g, c.clusters);
            let flat = chain::gather(dev, runs, 262144, Seq::empty()).data;
            let d = directory::directory_of(dev, g, first, no_fat_chain, len, label, depth);
            let scan = directory::Scan {
                dev,
                geo: g,
                flat,
                runs,
                slots: flat.len() as int / 32,
                depth,
            };
            &&& runs.len() == 0 ==> d.items.len() == 0 && d.findings.contains(Finding::NoClustersResolved)
            &&& runs.len() > 0 ==> d.items == scan.items(0, false)
            &&& runs.len() > 0 && flat.len() <= 0xFFFF_FFFF ==> d.vacant_slots == scan.vacancies(0, false)
                as u64
            &&& d.label == label
        }),
{
    broadcast use vstd::seq_lib::lemma_seq_concat_contains_all_elements;
    broadcast use lemma_single;

}

} // verus!
