//! What reading a FAT volume comes down to, said of the bytes on the device.

use crate::common;
use crate::fat::chain;
use crate::fat::chain::ChainEnd;
use crate::fat::directory;
use crate::fat::geometry;
use crate::fat::geometry::Geom;
use crate::fat::kind;
use crate::fat::kind::FatKind;
use crate::fat::scrub;
use crate::runs;
use crate::extent::Span;
use crate::scrub::{Fill, Marker, RecordClass, ScrubMode, SlotModel, WhyNot};
use crate::scrub_laws;
use crate::source::Device;
use vstd::arithmetic::div_mod;
use vstd::arithmetic::power2;
use vstd::prelude::*;

verus! {

// --------------------------------------------------------------------- geometry

/// Where each number of a boot sector is stored, low byte first.
pub proof fn lemma_boot_sector_numbers(b: Seq<u8>)
    requires
        b.len() >= 0x30,
    ensures
        ({
            let r = geometry::bpb_of(b);
            &&& r.bytes_per_sector == b[0x0B] + 256 * b[0x0C]
            &&& r.sectors_per_cluster == b[0x0D]
            &&& r.reserved_sectors == b[0x0E] + 256 * b[0x0F]
            &&& r.num_fats == b[0x10]
            &&& r.root_entries == b[0x11] + 256 * b[0x12]
            &&& r.total_16 == b[0x13] + 256 * b[0x14]
            &&& r.fat_size_16 == b[0x16] + 256 * b[0x17]
            &&& r.total_32 == b[0x20] + 256 * b[0x21] + 65536 * b[0x22] + 16777216 * b[0x23]
            &&& r.fat_size_32 == b[0x24] + 256 * b[0x25] + 65536 * b[0x26] + 16777216 * b[0x27]
            &&& r.root_cluster == b[0x2C] + 256 * b[0x2D] + 65536 * b[0x2E] + 16777216 * b[0x2F]
        }),
{
}

/// A usable volume is a reserved area, the FATs, the root directory area and the data,
/// one right behind the other, and they use up the sectors it declares but for what is
/// left over after the last whole cluster. The root area is the fewest sectors that hold
/// the root's entries.
pub proof fn lemma_regions_follow_each_other(b: Seq<u8>, base: u64)
    requires
        geometry::geom_of(geometry::bpb_of(b), base).sane,
    ensures
        ({
            let r = geometry::bpb_of(b);
            let g = geometry::geom_of(r, base);
            let bps = r.bytes_per_sector as int;
            let fats = r.num_fats * g.fat_size;
            &&& g.base == base
            &&& g.bytes_per_sector == r.bytes_per_sector
            &&& g.sectors_per_cluster == r.sectors_per_cluster
            &&& g.reserved_sectors == r.reserved_sectors
            &&& g.num_fats == r.num_fats
            &&& g.root_entries == r.root_entries
            &&& g.root_cluster == r.root_cluster
            &&& g.fat_size == if r.fat_size_16 != 0 { r.fat_size_16 } else { r.fat_size_32 }
            &&& g.total_sectors == if r.total_16 != 0 { r.total_16 } else { r.total_32 }
            &&& g.fat_start == base + r.reserved_sectors * bps
            &&& g.root_dir_start == g.fat_start + fats * bps
            &&& g.data_start == g.root_dir_start + g.root_dir_sectors * bps
            &&& g.root_dir_sectors * bps >= 32 * r.root_entries > (g.root_dir_sectors - 1) * bps
            &&& r.reserved_sectors + fats + g.root_dir_sectors + g.data_sectors == g.total_sectors
            &&& g.cluster_count * r.sectors_per_cluster <= g.data_sectors
            &&& g.data_sectors < (g.cluster_count + 1) * r.sectors_per_cluster
            &&& g.bytes_per_cluster == r.sectors_per_cluster * bps
            &&& g.kind == kind::kind_of(g.cluster_count as int)
        }),
{
    let r = geometry::bpb_of(b);
    let g = geometry::geom_of(r, base);
    let bps = r.bytes_per_sector as int;
    let spc = r.sectors_per_cluster as int;
    geometry::lemma_layout_bounds(r, base);
    let n = r.root_entries * 32 + (bps - 1);
    div_mod::lemma_fundamental_div_mod(n, bps);
    div_mod::lemma_mod_bound(n, bps);
    let q = n / bps;
    assert(q * bps == bps * q) by (nonlinear_arith);
    assert((q - 1) * bps == q * bps - bps) by (nonlinear_arith);
    let d = r.total() - r.meta();
    div_mod::lemma_fundamental_div_mod(d, spc);
    div_mod::lemma_mod_bound(d, spc);
    let k = d / spc;
    assert(k * spc == spc * k) by (nonlinear_arith);
    assert((k + 1) * spc == k * spc + spc) by (nonlinear_arith);
    assert(r.front() * bps == (r.num_fats * r.fat_size()) * bps + r.reserved_sectors * bps)
        by (nonlinear_arith)
        requires
            r.front() == r.num_fats * r.fat_size() + r.reserved_sectors,
    ;
}

/// A boot sector is usable exactly when its sectors are 512 to 4096 bytes and its
/// clusters 1 to 128 sectors, each a power of two, it has a FAT size and a volume size,
/// and at least one cluster fits behind the reserved area, the FATs and the root, at an
/// offset that 64 bits can hold.
pub proof fn lemma_usable_exactly_when(b: Seq<u8>, base: u64)
    ensures
        ({
            let r = geometry::bpb_of(b);
            let size = if r.fat_size_16 != 0 { r.fat_size_16 } else { r.fat_size_32 };
            let total = if r.total_16 != 0 { r.total_16 } else { r.total_32 };
            let bps = r.bytes_per_sector as int;
            let root = (32 * r.root_entries + bps - 1) / bps;
            let meta = r.reserved_sectors + r.num_fats * size + root;
            geometry::geom_of(r, base).sane <==> {
                &&& exists|k: nat| 9 <= k <= 12 && r.bytes_per_sector == #[trigger] power2::pow2(k)
                &&& exists|k: nat| k <= 7 && r.sectors_per_cluster == #[trigger] power2::pow2(k)
                &&& size > 0
                &&& total > 0
                &&& meta + r.sectors_per_cluster <= total
                &&& base + meta * bps <= u64::MAX
            }
        }),
{
    let r = geometry::bpb_of(b);
    let bps = r.bytes_per_sector as int;
    let spc = r.sectors_per_cluster as int;
    power2::lemma2_to64();
    lemma_small_powers(r.bytes_per_sector as int, r.sectors_per_cluster as int);
    if r.usable() {
        geometry::lemma_layout_bounds(r, base);
        let d = r.total() - r.meta();
        div_mod::lemma_fundamental_div_mod(d, spc);
        div_mod::lemma_mod_bound(d, spc);
        let k = d / spc;
        assert(d >= spc ==> k > 0) by (nonlinear_arith)
            requires
                k == d / spc,
                spc > 0,
        ;
        assert(0 <= d < spc ==> k == 0) by (nonlinear_arith)
            requires
                k == d / spc,
                spc > 0,
        ;
        assert(r.data_start(base) == base + r.meta() * bps) by (nonlinear_arith)
            requires
                r.data_start(base) == r.front() * bps + base + r.root_dir_sectors() * bps,
                r.meta() == r.front() + r.root_dir_sectors(),
        ;
    }
}

proof fn lemma_small_powers(bps: int, spc: int)
    ensures
        (exists|k: nat| 9 <= k <= 12 && bps == #[trigger] power2::pow2(k)) <==> bps == 512 || bps
            == 1024 || bps == 2048 || bps == 4096,
        (exists|k: nat| k <= 7 && spc == #[trigger] power2::pow2(k)) <==> spc == 1 || spc == 2 || spc
            == 4 || spc == 8 || spc == 16 || spc == 32 || spc == 64 || spc == 128,
{
    power2::lemma2_to64();
    if exists|k: nat| 9 <= k <= 12 && bps == #[trigger] power2::pow2(k) {
        let k = choose|k: nat| 9 <= k <= 12 && bps == #[trigger] power2::pow2(k);
        assert(k == 9 || k == 10 || k == 11 || k == 12);
    }
    if exists|k: nat| k <= 7 && spc == #[trigger] power2::pow2(k) {
        let k = choose|k: nat| k <= 7 && spc == #[trigger] power2::pow2(k);
        assert(k == 0 || k == 1 || k == 2 || k == 3 || k == 4 || k == 5 || k == 6 || k == 7);
    }
}

/// Below 4085 clusters a volume is FAT12, below 65525 it is FAT16, and from there on it
/// is FAT32, whose entries carry 12, 16 and 28 bits. The eight highest values an entry
/// can have end a chain, and the one below them marks a bad cluster.
pub proof fn lemma_kind_goes_by_the_count(clusters: int)
    ensures
        ({
            let k = kind::kind_of(clusters);
            &&& k == FatKind::Fat12 <==> clusters <= 4084
            &&& k == FatKind::Fat16 <==> 4085 <= clusters <= 65524
            &&& k == FatKind::Fat32 <==> clusters >= 65525
        }),
        FatKind::Fat12.bits() + 1 == power2::pow2(12),
        FatKind::Fat16.bits() + 1 == power2::pow2(16),
        FatKind::Fat32.bits() + 1 == power2::pow2(28),
        forall|k: FatKind| #[trigger] k.eoc() + 8 == k.bits() + 1,
        forall|k: FatKind| #[trigger] k.bad() + 1 == k.eoc(),
{
    power2::lemma2_to64();
}

/// Clusters stand side by side: cluster 2 where the data starts, and each of the others
/// one cluster behind the one before. Nothing before 2 or past the last is anywhere.
pub proof fn lemma_clusters_stand_side_by_side(g: Geom, c: int)
    ensures
        g.cluster_at(2) == if g.sane && g.cluster_count >= 1 {
            Some(g.data_start)
        } else {
            None
        },
        !(g.sane && 2 <= c <= g.cluster_count + 1) ==> g.cluster_at(c) is None,
        g.cluster_at(c + 1) matches Some(next) ==> c >= 2 ==> next >= g.bytes_per_cluster
            && g.cluster_at(c) == Some((next - g.bytes_per_cluster) as u64),
        g.cluster_at(c) matches Some(at) ==> c <= g.cluster_count < u64::MAX ==> at + g.bytes_per_cluster
            <= u64::MAX ==> g.cluster_at(c + 1) == Some((at + g.bytes_per_cluster) as u64),
{
    let s = g.bytes_per_cluster as int;
    assert((c - 1) * s == (c - 2) * s + s) by (nonlinear_arith);
    assert(c >= 2 ==> (c - 2) * s >= 0) by (nonlinear_arith)
        requires
            s >= 0,
    ;
}

/// The copies of the FAT stand one behind the other from the start of the first.
pub proof fn lemma_fats_stand_side_by_side(g: Geom, n: int)
    requires
        n >= 0,
        g.fat_start + (n + 1) * (g.fat_size * g.bytes_per_sector) <= u64::MAX,
    ensures
        g.fat_at(0) == Some(g.fat_start),
        g.fat_at(n) matches Some(at) && g.fat_at(n + 1) == Some(
            (at + g.fat_size * g.bytes_per_sector) as u64,
        ),
{
    let len = g.fat_size * g.bytes_per_sector;
    assert(len >= 0) by (nonlinear_arith)
        requires
            len == g.fat_size * g.bytes_per_sector,
            g.fat_size >= 0,
            g.bytes_per_sector >= 0,
    ;
    assert((n + 1) * len == n * len + len && n * len >= 0) by (nonlinear_arith)
        requires
            n >= 0,
            len >= 0,
    ;
    assert(0 * len == 0);
}

// ---------------------------------------------------------------------- entries

/// The bytes that `cluster`'s entry in a copy of the FAT touches, `at` being the offset
/// of that copy: the entry fits the copy, and the device gives all of them.
pub open spec fn entry_stored(dev: Device, g: Geom, fat: int, off: u64, width: u64) -> bool {
    &&& g.fat_at(fat) matches Some(at) && g.fat_len() matches Some(len) && at + len <= u64::MAX && off
        + width <= at + len
    &&& !dev.read(off, width).refused()
    &&& dev.read(off, width).data.len() == width
}

/// On FAT16 the entry of a cluster is the 16-bit number stored two bytes a cluster into
/// the table, all of it.
pub proof fn lemma_fat16_entries_are_words(dev: Device, g: Geom, fat: int, c: int, off: u64, v: u16)
    requires
        g.kind == FatKind::Fat16,
        c >= 0,
        g.fat_at(fat) matches Some(at) && off == at + 2 * c,
        entry_stored(dev, g, fat, off, 2),
        dev.read(off, 2).data[0] == v % 256,
        dev.read(off, 2).data[1] == v / 256,
    ensures
        chain::entry_of(dev, g, fat, c) == Some(v as u32),
        fat == 0 && c <= u64::MAX && v >= 0xFFF8 ==> chain::after(dev, g, c as u64) == Err::<
            u64,
            ChainEnd,
        >(ChainEnd::Eoc(v as u32)),
{
}

/// On FAT32 the entry of a cluster is the low 28 bits of the number stored four bytes a
/// cluster into the table, whatever the four bits above them hold.
pub proof fn lemma_fat32_entries_are_28_bits(
    dev: Device,
    g: Geom,
    fat: int,
    c: int,
    off: u64,
    v: u32,
)
    requires
        g.kind == FatKind::Fat32,
        c >= 0,
        v < 0x1000_0000,
        g.fat_at(fat) matches Some(at) && off == at + 4 * c,
        entry_stored(dev, g, fat, off, 4),
        dev.read(off, 4).data[0] == v % 256,
        dev.read(off, 4).data[1] == (v / 256) % 256,
        dev.read(off, 4).data[2] == (v / 65536) % 256,
        dev.read(off, 4).data[3] % 16 == v / 16777216,
    ensures
        chain::entry_of(dev, g, fat, c) == Some(v),
        fat == 0 && c <= u64::MAX && v >= 0x0FFF_FFF8 ==> chain::after(dev, g, c as u64) == Err::<
            u64,
            ChainEnd,
        >(ChainEnd::Eoc(v)),
{
    let d = dev.read(off, 4).data;
    lemma_low_28_bits(v, d[0], d[1], d[2], d[3]);
    assert(chain::raw_entry(dev, g, off) is Some);
}

proof fn lemma_low_28_bits(v: u32, b0: u8, b1: u8, b2: u8, b3: u8)
    requires
        v < 0x1000_0000,
        b0 == v % 256,
        b1 == (v / 256) % 256,
        b2 == (v / 65536) % 256,
        b3 % 16 == v / 16777216,
    ensures
        (b0 + 256 * b1 + 65536 * b2 + 16777216 * b3) % 0x1000_0000 == v,
{
    let hi = b3 as int / 16;
    assert(v / 65536 == (v / 256) / 256);
    assert(v / 16777216 == (v / 65536) / 256);
    assert(b0 + 256 * b1 + 65536 * b2 + 16777216 * (b3 % 16) == v);
    assert(b3 == 16 * hi + b3 % 16);
    assert(b0 + 256 * b1 + 65536 * b2 + 16777216 * b3 == hi * 0x1000_0000 + v);
    div_mod::lemma_fundamental_div_mod_converse(hi * 0x1000_0000 + v, 0x1000_0000, hi, v as int);
}

/// On FAT12 three bytes hold two entries: the even cluster's is the first byte and the
/// low half of the second, the odd one's the high half of the second and the third.
pub proof fn lemma_fat12_entries_share_three_bytes(
    dev: Device,
    g: Geom,
    fat: int,
    pair: int,
    off: u64,
    even: u16,
    odd: u16,
)
    requires
        g.kind == FatKind::Fat12,
        pair >= 0,
        even < 0x1000 && odd < 0x1000,
        g.fat_at(fat) matches Some(at) && off == at + 3 * pair,
        off + 3 <= u64::MAX,
        entry_stored(dev, g, fat, off, 2),
        entry_stored(dev, g, fat, (off + 1) as u64, 2),
        dev.read(off, 2).data[0] == even % 256,
        dev.read(off, 2).data[1] == even / 256 + 16 * (odd % 16),
        dev.read((off + 1) as u64, 2).data[0] == even / 256 + 16 * (odd % 16),
        dev.read((off + 1) as u64, 2).data[1] == odd / 16,
    ensures
        chain::entry_of(dev, g, fat, 2 * pair) == Some(even as u32),
        chain::entry_of(dev, g, fat, 2 * pair + 1) == Some(odd as u32),
{
    let x = dev.read(off, 2).data;
    let y = dev.read((off + 1) as u64, 2).data;
    lemma_two_halves(even, odd, x[0], x[1], y[1]);
    assert(2 * pair + (2 * pair) / 2 == 3 * pair);
    assert(2 * pair + 1 + (2 * pair + 1) / 2 == 3 * pair + 1);
    assert((2 * pair + 1) % 2 == 1);
    assert((2 * pair) % 2 == 0);
}

proof fn lemma_two_halves(even: u16, odd: u16, b0: u8, b1: u8, b2: u8)
    requires
        even < 0x1000,
        odd < 0x1000,
        b0 == even % 256,
        b1 == even / 256 + 16 * (odd % 16),
        b2 == odd / 16,
    ensures
        (b0 + 256 * b1) % 0x1000 == even,
        (b1 + 256 * b2) / 16 == odd,
{
    assert(b0 + 256 * b1 == even + 0x1000 * (odd % 16));
    assert(b1 + 256 * b2 == even / 256 + 16 * odd);
}

/// An entry that does not lie wholly in its table, or that the device does not give in
/// full, has no value: what follows the table is never taken for one.
pub proof fn lemma_no_entry_past_the_table(dev: Device, g: Geom, fat: int, c: int)
    requires
        chain::entry_of(dev, g, fat, c) is Some,
    ensures
        ({
            let width: u64 = if g.kind == FatKind::Fat32 { 4 } else { 2 };
            &&& g.entry_at(fat, c) matches Some(off)
            &&& g.fat_at(fat) matches Some(at)
            &&& off + width <= at + g.fat_size * g.bytes_per_sector
            &&& !dev.read(off, width).refused()
            &&& dev.read(off, width).data.len() >= width
        }),
{
}

// -------------------------------------------------------------------- directories

/// The clusters all have a place, and end inside the 64-bit offsets.
pub open spec fn all_placed(g: Geom, clusters: Seq<u64>) -> bool {
    forall|i: int|
        0 <= i < clusters.len() ==> (g.cluster_at(#[trigger] clusters[i] as int) is Some
            && g.cluster_at(clusters[i] as int)->0 + g.bytes_per_cluster <= u64::MAX)
}

/// Up to half a mebibyte, the runs of a directory hold the bytes of every cluster of its
/// chain, each once and in chain order: byte `r` of the cluster that stands `k`-th in
/// the chain is byte `k * bytes_per_cluster + r` of the runs.
pub proof fn lemma_runs_hold_the_chain_in_order(
    g: Geom,
    clusters: Seq<u64>,
    n: nat,
    k: int,
    r: int,
)
    requires
        n <= clusters.len(),
        all_placed(g, clusters),
        (n - 1) * g.bytes_per_cluster < 524288,
        0 <= k < n,
        0 <= r < g.bytes_per_cluster,
    ensures
        ({
            let held = runs::offsets_of(directory::runs_of(g, clusters, n).0);
            let i = k * g.bytes_per_cluster + r;
            &&& held.len() == n * g.bytes_per_cluster
            &&& 0 <= i < held.len()
            &&& i / g.bytes_per_cluster as int == k
            &&& i % g.bytes_per_cluster as int == r
            &&& held[i] == g.cluster_at(clusters[k] as int)->0 + r
        }),
    decreases n,
{
    let size = g.bytes_per_cluster as int;
    let before = runs::offsets_of(directory::runs_of(g, clusters, (n - 1) as nat).0);
    let i = k * size + r;
    assert(n * size == (n - 1) * size + size && (n - 2) * size == (n - 1) * size - size)
        by (nonlinear_arith);
    assert(0 <= i < n * size) by (nonlinear_arith)
        requires
            i == k * size + r,
            0 <= k < n,
            0 <= r < size,
    ;
    div_mod::lemma_fundamental_div_mod_converse(i, size, k, r);
    lemma_one_more_cluster(g, clusters, n);
    if k < n - 1 {
        lemma_runs_hold_the_chain_in_order(g, clusters, (n - 1) as nat, k, r);
    }
}

proof fn lemma_one_more_cluster(g: Geom, clusters: Seq<u64>, n: nat)
    requires
        0 < n <= clusters.len(),
        all_placed(g, clusters),
        (n - 1) * g.bytes_per_cluster < 524288,
        0 < g.bytes_per_cluster,
    ensures
        ({
            let (now, taken) = directory::runs_of(g, clusters, n);
            let before = directory::runs_of(g, clusters, (n - 1) as nat).0;
            let at = g.cluster_at(clusters[n - 1] as int)->0;
            &&& now.len() > 0
            &&& now.last().0 + now.last().1 <= u64::MAX
            &&& taken == common::saturated(n * g.bytes_per_cluster)
            &&& runs::offsets_of(before).len() == (n - 1) * g.bytes_per_cluster
            &&& runs::offsets_of(now) == runs::offsets_of(before) + runs::piece(
                at as int,
                g.bytes_per_cluster as int,
            )
        }),
    decreases n,
{
    let size = g.bytes_per_cluster as int;
    let (before, taken) = directory::runs_of(g, clusters, (n - 1) as nat);
    let at = g.cluster_at(clusters[n - 1] as int)->0;
    assert(n * size == (n - 1) * size + size && (n - 2) * size == (n - 1) * size - size)
        by (nonlinear_arith);
    if n > 1 {
        lemma_one_more_cluster(g, clusters, (n - 1) as nat);
    } else {
        assert((n - 1) * size == 0) by (nonlinear_arith)
            requires
                n == 1,
        ;
        assert(runs::offsets_of(before) =~= Seq::<int>::empty());
    }
    if before.len() > 0 && before.last().0 + before.last().1 == at {
        runs::lemma_offsets_grow(before, g.bytes_per_cluster);
    } else {
        runs::lemma_offsets_push(before, (at, g.bytes_per_cluster));
    }
}

/// A directory whose first clusters already make up half a mebibyte is read no further.
pub proof fn lemma_runs_stop_at_the_limit(g: Geom, clusters: Seq<u64>, n: nat, m: nat)
    requires
        0 < n <= m <= clusters.len(),
        all_placed(g, clusters),
        0 < g.bytes_per_cluster,
        (n - 1) * g.bytes_per_cluster < 524288 <= n * g.bytes_per_cluster,
    ensures
        directory::runs_of(g, clusters, m) == directory::runs_of(g, clusters, n),
    decreases m - n,
{
    lemma_one_more_cluster(g, clusters, n);
    if n < m {
        lemma_runs_stop_at_the_limit(g, clusters, n, (m - 1) as nat);
    }
}

// -------------------------------------------------------------------------- scrubs

/// A run of whole records is taken for a directory exactly when each of them is free, or
/// has the top two attribute bits clear and, fragments aside, no control character behind
/// the first of its name, and when not all of them are free. No attribute below 0x40
/// stands in the way.
pub proof fn lemma_what_a_directory_looks_like(records: Seq<SlotModel>)
    requires
        crate::scrub::full_records(records),
    ensures
        scrub::directory_like(records) <==> {
            &&& forall|i: int|
                0 <= i < records.len() ==> {
                    let b = (#[trigger] records[i]).data;
                    b[0] == 0 || b[11] == 0x0F || (b[11] <= 0x3F && forall|j: int|
                        1 <= j <= 10 ==> 0x20 <= #[trigger] b[j] <= 0xFF)
                }
            &&& exists|i: int| 0 <= i < records.len() && (#[trigger] records[i]).data[0] != 0
        },
{
    assert forall|i: int| 0 <= i < records.len() implies (scrub::plausible(
        (#[trigger] records[i]).data,
    ) <==> {
        let b = records[i].data;
        b[0] == 0 || b[11] == 0x0F || (b[11] <= 0x3F && forall|j: int|
            1 <= j <= 10 ==> 0x20 <= #[trigger] b[j] <= 0xFF)
    }) by {}
}

proof fn lemma_one_cluster_is_one_run(dev: Device, base: u64, cluster: u64, at: u64)
    requires
        ({
            let g = scrub::volume_geometry(dev, base);
            &&& g.sane
            &&& g.cluster_at(cluster as int) == Some(at)
            &&& at + g.bytes_per_cluster <= u64::MAX
            &&& (chain::entry_of(dev, g, 0, cluster as int) matches Some(v) && v >= g.kind.eoc())
        }),
    ensures
        ({
            let g = scrub::volume_geometry(dev, base);
            &&& scrub::runs_from(dev, g, at) == Ok::<Seq<(u64, u64)>, WhyNot>(
                seq![(at, g.bytes_per_cluster)],
            )
            &&& g.bytes_per_cluster % 32 == 0
            &&& 0 < g.bytes_per_cluster <= 524288
            &&& at >= g.data_start
            &&& (at - g.data_start) % g.bytes_per_cluster as int == 0
        }),
{
    let g = scrub::volume_geometry(dev, base);
    let raw = dev.read(base, 512).data;
    let size = g.bytes_per_cluster as int;
    lemma_regions_follow_each_other(raw, base);
    lemma_usable_exactly_when(raw, base);
    let r = geometry::bpb_of(raw);
    lemma_small_powers(r.bytes_per_sector as int, r.sectors_per_cluster as int);
    let (bps, spc) = (r.bytes_per_sector as int, r.sectors_per_cluster as int);
    assert(size % 32 == 0 && 0 < size <= 524288) by {
        let m = bps / 32;
        assert(bps == 32 * m);
        assert(spc * bps == 32 * (spc * m)) by (nonlinear_arith)
            requires
                bps == 32 * m,
        ;
        assert(0 < spc * bps <= 128 * 4096) by (nonlinear_arith)
            requires
                0 < spc <= 128,
                0 < bps <= 4096,
        ;
    }
    assert((cluster - 2) * size >= 0) by (nonlinear_arith)
        requires
            cluster >= 2,
            size >= 0,
    ;
    assert(at - g.data_start == (cluster - 2) * size);
    div_mod::lemma_fundamental_div_mod_converse(at - g.data_start, size, cluster - 2, 0);
    assert(scrub::cluster_holding(g, at) == cluster);
    let rds = g.root_dir_sectors as int;
    assert(g.root_dir_start + 32 * r.root_entries <= g.data_start);
    assert(chain::chain_of(dev, g, cluster, 4096).0 =~= seq![cluster]);
    let all = chain::chain_of(dev, g, cluster, 4096).0;
    let runs = scrub::runs_from(dev, g, at)->Ok_0;
    assert(crate::scrub::joined_runs(scrub::places(g, all), g.bytes_per_cluster, at, 0)
        =~= Seq::<(u64, u64)>::empty());
    assert(scrub::places(g, all)[0] == Some(at));
    assert(runs =~= seq![(at, g.bytes_per_cluster)]);
}

spec fn slot_at(at: u64, k: int) -> u64 {
    (at + 32 * k) as u64
}

proof fn lemma_records_of_one_run(dev: Device, at: u64, size: u64)
    requires
        at + size <= u64::MAX,
        size % 32 == 0,
        size <= 524288,
        forall|k: int|
            0 <= k && 32 * k < size ==> {
                let b = dev.read(#[trigger] slot_at(at, k), 32);
                !b.refused() && b.data.len() == 32
            },
    ensures
        crate::scrub::directory_records(dev, seq![(at, size)], Seq::empty()) matches Some(records)
            && {
            &&& 32 * records.len() == size
            &&& crate::scrub::full_records(records)
            &&& forall|k: int|
                0 <= k < records.len() ==> (#[trigger] records[k]).at == at + 32 * k
                    && records[k].data == dev.read((at + 32 * k) as u64, 32).data
        },
{
    let runs = seq![(at, size)];
    assert(runs.skip(1) =~= Seq::<(u64, u64)>::empty());
    let held = runs::offsets_of(runs);
    assert(runs::offsets_of(runs.skip(1)) =~= Seq::<int>::empty());
    assert(held =~= runs::piece(at as int, size as int));
    assert forall|k: int| 0 <= k && 32 * k < held.len() implies !crate::scrub::unusable(
        dev.read(#[trigger] runs::record_at(runs, k), 32),
    ) by {
        assert(held[32 * k] == at + 32 * k);
        assert(slot_at(at, k) == runs::record_at(runs, k));
    }
    runs::lemma_directory_records_are_its_bytes(dev, runs);
    let records = crate::scrub::directory_records(dev, runs, Seq::empty())->0;
    assert forall|k: int| 0 <= k < records.len() implies (#[trigger] records[k]).at == at + 32 * k
        && records[k].data == dev.read((at + 32 * k) as u64, 32).data && records[k].data.len()
        == 32 by {
        assert(held[32 * k] == at + 32 * k);
        assert(slot_at(at, k) == records[k].at);
    }
}

/// A whole-directory scrub rewrites each deleted record that still holds anything behind
/// its first byte. Swept, all of it behind the first byte reads as zeroes.
pub proof fn lemma_scrub_reaches_every_deleted_record(
    dev: Device,
    g: Geom,
    label: Seq<char>,
    spans: Seq<Span>,
    mode: ScrubMode,
    records: Seq<SlotModel>,
    i: int,
    j: int,
)
    requires
        mode == ScrubMode::Sweep || mode == ScrubMode::Compact,
        scrub::directory_at(dev, g, spans) == Some(records),
        crate::scrub::full_records(records),
        0 <= i < records.len(),
        1 <= j < 32,
        records[i].data[0] == 0xE5,
        records[i].data[j] != 0,
    ensures
        scrub::directory_plan(dev, g, label, spans, mode) matches Some(plan) && exists|k: int|
            0 <= k < plan.edits.len() && {
                let e = #[trigger] plan.edits[k];
                &&& e.offset == records[i].at
                &&& e.old == records[i].data
                &&& mode == ScrubMode::Sweep ==> forall|x: int|
                    1 <= x < 32 ==> #[trigger] e.new[x] == 0
            },
{
    scrub_laws::lemma_deleted_record_is_rewritten(Marker::Fat, records, mode, i, j);
    let plan = scrub::directory_plan(dev, g, label, spans, mode)->0;
    let all = crate::scrub::layout_edits(Marker::Fat, records, mode, records.len());
    assert(plan.edits == all);
}

/// One directory of a single cluster, made of whole records that look like a directory's,
/// has a plan in either whole-directory mode as soon as one deleted record in it still
/// holds anything behind its first byte. The plan rewrites that record: swept, all of it
/// behind the first byte reads as zeroes.
pub proof fn lemma_one_cluster_directory_is_scrubbed(
    dev: Device,
    base: u64,
    label: Seq<char>,
    cluster: u64,
    at: u64,
    i: int,
    j: int,
    mode: ScrubMode,
)
    requires
        mode == ScrubMode::Sweep || mode == ScrubMode::Compact,
        ({
            let g = scrub::volume_geometry(dev, base);
            let slot = |k: int| dev.read((at + 32 * k) as u64, 32);
            &&& g.sane
            &&& g.cluster_at(cluster as int) == Some(at)
            &&& at + g.bytes_per_cluster <= u64::MAX
            &&& (chain::entry_of(dev, g, 0, cluster as int) matches Some(v) && v >= g.kind.eoc())
            &&& forall|k: int|
                0 <= k && 32 * k < g.bytes_per_cluster ==> {
                    let b = (#[trigger] slot(k)).data;
                    &&& !slot(k).refused()
                    &&& b.len() == 32
                    &&& b[0] == 0 || b[11] == 0x0F || (b[11] <= 0x3F && forall|x: int|
                        1 <= x <= 10 ==> #[trigger] b[x] >= 0x20)
                }
            &&& 0 <= i && 32 * i < g.bytes_per_cluster
            &&& 1 <= j < 32
            &&& slot(i).data[0] == 0xE5
            &&& slot(i).data[j] != 0
        }),
    ensures
        ({
            let g = scrub::volume_geometry(dev, base);
            let spans = seq![Span::of_bytes(at, g.bytes_per_cluster)];
            scrub::planned(dev, base, label, spans, mode) matches Some(plan) && exists|k: int|
                0 <= k < plan.edits.len() && {
                    let e = #[trigger] plan.edits[k];
                    &&& e.offset == at + 32 * i
                    &&& e.old == dev.read((at + 32 * i) as u64, 32).data
                    &&& mode == ScrubMode::Sweep ==> forall|x: int|
                        1 <= x < 32 ==> #[trigger] e.new[x] == 0
                }
        }),
{
    let g = scrub::volume_geometry(dev, base);
    let spans = seq![Span::of_bytes(at, g.bytes_per_cluster)];
    let slot = |k: int| dev.read((at + 32 * k) as u64, 32);
    lemma_one_cluster_is_one_run(dev, base, cluster, at);
    let runs = seq![(at, g.bytes_per_cluster)];
    assert forall|k: int| 0 <= k && 32 * k < g.bytes_per_cluster implies {
        let b = dev.read(#[trigger] slot_at(at, k), 32);
        !b.refused() && b.data.len() == 32
    } by {
        assert(slot(k).data.len() == 32);
    }
    lemma_records_of_one_run(dev, at, g.bytes_per_cluster);
    let records = crate::scrub::directory_records(dev, runs, Seq::empty())->0;
    assert forall|k: int| 0 <= k < records.len() implies {
        let b = (#[trigger] records[k]).data;
        b[0] == 0 || b[11] == 0x0F || (b[11] <= 0x3F && forall|x: int|
            1 <= x <= 10 ==> 0x20 <= #[trigger] b[x] <= 0xFF)
    } by {
        assert(slot(k).data == records[k].data);
    }
    assert(slot(i).data == records[i].data);
    assert(records[i].data[0] != 0);
    lemma_what_a_directory_looks_like(records);
    assert(scrub::directory_at(dev, g, spans) == Some(records));
    lemma_scrub_reaches_every_deleted_record(dev, g, label, spans, mode, records, i, j);
}

/// Deleted records can be overwritten exactly when whole records are selected, each one
/// marked deleted, and there is something to overwrite.
pub proof fn lemma_record_plan_exactly_when(
    dev: Device,
    g: Geom,
    label: Seq<char>,
    spans: Seq<Span>,
    fill: Fill,
)
    ensures
        scrub::record_plan(dev, g, label, spans, fill) is Some <==> {
            &&& spans.len() > 0
            &&& forall|i: int|
                0 <= i < spans.len() ==> {
                    let b = dev.read((#[trigger] spans[i]).at, 32).data;
                    spans[i].len == 32 && spans[i].whole_bytes && b.len() == 32 && b[0] == 0xE5
                }
            &&& fill == Fill::Zero || exists|i: int, j: int|
                0 <= i < spans.len() && 1 <= j < 32 && #[trigger] dev.read(spans[i].at, 32).data[j] != 0
        },
        scrub::record_plan(dev, g, label, spans, fill) matches Some(plan) ==> plan.edits
            == crate::scrub::fill_edits(
            crate::scrub::in_order(crate::scrub::selected(dev, spans)),
            fill,
            "scrub deleted FAT record"@,
        ),
{
    if spans.len() > 0 && crate::scrub::all_deleted(dev, Marker::Fat, spans) {
        scrub_laws::lemma_something_to_overwrite_exactly_when(
            dev,
            Marker::Fat,
            spans,
            fill,
            "scrub deleted FAT record"@,
        );
    }
    if forall|i: int|
        0 <= i < spans.len() ==> {
            let b = dev.read((#[trigger] spans[i]).at, 32).data;
            spans[i].len == 32 && spans[i].whole_bytes && b.len() == 32 && b[0] == 0xE5
        } {
        assert(crate::scrub::all_deleted(dev, Marker::Fat, spans));
    }
}

/// The cluster that holds an offset is the one whose bytes it lies among.
pub proof fn lemma_the_cluster_that_holds_an_offset(g: Geom, from: u64)
    requires
        g.sane,
        g.bytes_per_cluster > 0,
        from >= g.data_start,
    ensures
        ({
            let c = scrub::cluster_holding(g, from);
            &&& c >= 2
            &&& (c - 2) * g.bytes_per_cluster + g.data_start <= from
            &&& from < (c - 1) * g.bytes_per_cluster + g.data_start
            &&& g.cluster_at(c) matches Some(at) ==> at <= from < at + g.bytes_per_cluster
        }),
{
    let size = g.bytes_per_cluster as int;
    let d = from - g.data_start;
    div_mod::lemma_fundamental_div_mod(d, size);
    div_mod::lemma_mod_bound(d, size);
    div_mod::lemma_div_pos_is_pos(d, size);
    let q = d / size;
    assert((q + 1) * size == q * size + size && q * size == size * q) by (nonlinear_arith);
}

/// From an offset in the data area a directory goes on to the end of its cluster, and then
/// through the clusters that the FAT chains behind it.
pub proof fn lemma_a_directory_goes_on_along_its_chain(
    dev: Device,
    g: Geom,
    from: u64,
    k: int,
    r: int,
)
    requires
        g.sane,
        g.bytes_per_cluster > 0,
        from >= g.data_start,
        g.root_entries == 0 || g.root_dir_start + 32 * g.root_entries <= g.data_start,
        ({
            let c = scrub::cluster_holding(g, from);
            let all = chain::chain_of(dev, g, c as u64, 4096).0;
            &&& g.in_range(c)
            &&& all.len() > 0
            &&& all_placed(g, all)
            &&& 0 <= k < all.len()
            &&& 0 <= r < g.bytes_per_cluster
            &&& k == 0 ==> r >= from - g.cluster_at(c)->0
        }),
    ensures
        ({
            let c = scrub::cluster_holding(g, from);
            let all = chain::chain_of(dev, g, c as u64, 4096).0;
            let skipped = from - g.cluster_at(c)->0;
            let size = g.bytes_per_cluster;
            &&& all[0] == c
            &&& scrub::runs_from(dev, g, from) matches Ok(runs) && {
                let held = runs::offsets_of(runs);
                &&& held.len() == all.len() * size - skipped
                &&& 0 <= k * size + r - skipped < held.len()
                &&& held[k * size + r - skipped] == g.cluster_at(all[k] as int)->0 + r
            }
        }),
{
    let c = scrub::cluster_holding(g, from);
    let all = chain::chain_of(dev, g, c as u64, 4096).0;
    chain::lemma_chain_is_sound(dev, g, c as u64, 4096);
    lemma_the_cluster_that_holds_an_offset(g, from);
    let places = scrub::places(g, all);
    assert forall|i: int| 0 <= i < places.len() implies (#[trigger] places[i] is Some
        && places[i]->0 + g.bytes_per_cluster <= u64::MAX) by {
        assert(g.cluster_at(all[i] as int) is Some);
    }
    runs::lemma_joined_runs_hold_the_clusters(
        places,
        g.bytes_per_cluster,
        from,
        all.len(),
        k,
        r,
    );
}

// -------------------------------------------------------------------------- chains

/// Where the entry of a cluster leads: the eight highest values end the chain, the one below
/// them and zero break it off, and any other is the next cluster.
pub proof fn lemma_where_an_entry_leads(dev: Device, g: Geom, c: u64, v: u32)
    requires
        chain::entry_of(dev, g, 0, c as int) == Some(v),
    ensures
        ({
            let top: int = if g.kind == FatKind::Fat12 {
                0xFFF
            } else if g.kind == FatKind::Fat16 {
                0xFFFF
            } else {
                0xFFF_FFFF
            };
            &&& top - 7 <= v <= top ==> chain::after(dev, g, c) == Err::<u64, ChainEnd>(ChainEnd::Eoc(v))
            &&& v == top - 8 ==> chain::after(dev, g, c) == Err::<u64, ChainEnd>(ChainEnd::Bad(c))
            &&& v == 0 ==> chain::after(dev, g, c) == Err::<u64, ChainEnd>(ChainEnd::Free(c))
            &&& 0 < v < top - 8 ==> chain::after(dev, g, c) == Ok::<u64, ChainEnd>(v as u64)
        }),
{
}

/// A chain goes from cluster to cluster for as long as the FAT leads to one that exists and
/// was not passed yet: it is its first cluster, and then the chain of the next.
pub proof fn lemma_chain_goes_from_cluster_to_cluster(
    dev: Device,
    g: Geom,
    c: u64,
    next: u64,
    seen: Set<u64>,
    n: nat,
    limit: nat,
)
    requires
        g.sane,
        2 <= c <= g.last(),
        n < limit,
        !seen.contains(c),
    ensures
        chain::after(dev, g, c) == Ok::<u64, ChainEnd>(next) ==> {
            let all = chain::chain_from(dev, g, c, seen, n, limit);
            let rest = chain::chain_from(dev, g, next, seen.insert(c), n + 1, limit);
            all.0 == seq![c] + rest.0 && all.1 == rest.1
        },
        chain::after(dev, g, c) matches Err(end) ==> chain::chain_from(dev, g, c, seen, n, limit)
            == (seq![c], end),
        chain::chain_from(dev, g, c, seen.insert(c), n, limit) == (Seq::<u64>::empty(), ChainEnd::Loop(c)),
        chain::chain_from(dev, g, c, seen, limit, limit) == (Seq::<u64>::empty(), ChainEnd::Truncated),
        chain::chain_from(dev, g, 0, seen, n, limit) == (Seq::<u64>::empty(), ChainEnd::OutOfRange(0)),
        chain::chain_from(dev, g, 1, seen, n, limit) == (Seq::<u64>::empty(), ChainEnd::OutOfRange(1)),
        next > g.last() ==> chain::chain_from(dev, g, next, seen, n, limit) == (
            Seq::<u64>::empty(),
            ChainEnd::OutOfRange(next),
        ),
{
}

/// A chain's listing counts all its clusters and shows the first 1024 of them, each where it
/// is.
pub proof fn lemma_chain_listing(x: chain::ChainExpander, dev: Device, i: int)
    ensures
        ({
            let (clusters, end) = chain::chain_of(dev, x.geom, x.start, 65536);
            let l = x.listing(dev);
            &&& l.summary.clusters == clusters.len()
            &&& l.rows.len() == if clusters.len() <= 1024 { clusters.len() } else { 1024 }
            &&& l.rows.len() + l.hidden == clusters.len()
            &&& 0 <= i < l.rows.len() ==> l.rows[i].cluster == clusters[i] && l.rows[i].index == i
                && l.rows[i].at == x.geom.cluster_at(clusters[i] as int)
            &&& end is Eoc <==> l.summary.finding is ChainEnds
            &&& end is Bad <==> l.summary.finding is ChainBad
            &&& end is Free <==> l.summary.finding is ChainFree
            &&& end is OutOfRange <==> l.summary.finding is ChainOutside
            &&& end is Loop <==> l.summary.finding is ChainLoops
            &&& end is Truncated <==> l.summary.finding is ChainTruncated
            &&& end is Unreadable <==> l.summary.finding is ChainUnreadable
        }),
{
}

/// A selection is named by its first record that is no fragment, and a directory's scrub by
/// the names of its deleted records in order.
pub proof fn lemma_scrubs_are_named(records: Seq<SlotModel>, x: SlotModel)
    requires
        crate::scrub::full_records(records),
        x.data.len() == 32,
    ensures
        scrub::short_entry(records) is None <==> forall|i: int|
            0 <= i < records.len() ==> (#[trigger] records[i]).data[11] % 64 == 15,
        scrub::short_entry(records) matches Some(b) ==> exists|i: int|
            0 <= i < records.len() && b == (#[trigger] records[i]).data && b[11] % 64 != 15 && forall|j: int|
                0 <= j < i ==> (#[trigger] records[j]).data[11] % 64 == 15,
        scrub::deleted_names(Seq::empty()).len() == 0,
        x.data[0] == 0xE5 ==> scrub::deleted_names(records.push(x)) == scrub::deleted_names(
            records,
        ).push(scrub::record_label(x.data)),
        x.data[0] != 0xE5 ==> scrub::deleted_names(records.push(x)) == scrub::deleted_names(records),
{
    lemma_short_entry(records);
    assert(records.push(x).drop_last() =~= records);
}

proof fn lemma_short_entry(records: Seq<SlotModel>)
    ensures
        scrub::short_entry(records) is None <==> forall|i: int|
            0 <= i < records.len() ==> (#[trigger] records[i]).data[11] % 64 == 15,
        scrub::short_entry(records) matches Some(b) ==> exists|i: int|
            0 <= i < records.len() && b == (#[trigger] records[i]).data && b[11] % 64 != 15 && forall|j: int|
                0 <= j < i ==> (#[trigger] records[j]).data[11] % 64 == 15,
    decreases records.len(),
{
    if records.len() > 0 {
        let front = records.drop_last();
        lemma_short_entry(front);
        let last = records.len() - 1;
        assert(forall|i: int| 0 <= i < last ==> front[i] == #[trigger] records[i]);
        match scrub::short_entry(front) {
            Some(b) => {
                let i = choose|i: int|
                    0 <= i < front.len() && b == (#[trigger] front[i]).data && b[11] % 64 != 15 && forall|
                        j: int,
                    | 0 <= j < i ==> (#[trigger] front[j]).data[11] % 64 == 15;
                assert(records[i].data == b);
                assert forall|j: int| 0 <= j < i implies (#[trigger] records[j]).data[11] % 64 == 15 by {
                    assert(front[j].data[11] % 64 == 15);
                }
            },
            None => {
                assert forall|j: int| 0 <= j < last implies (#[trigger] records[j]).data[11] % 64 == 15 by {
                    assert(front[j].data[11] % 64 == 15);
                }
                assert(records[last] == records.last());
            },
        }
    }
}

/// The root area of a FAT12 or FAT16 volume is a directory of its own, from any record in it
/// to the end of its entries.
pub proof fn lemma_a_fixed_root_goes_to_its_end(dev: Device, g: Geom, from: u64)
    requires
        g.root_entries <= 0xFFFF,
        g.root_dir_start + 32 * g.root_entries <= u64::MAX,
        g.root_dir_start <= from < g.root_dir_start + 32 * g.root_entries,
    ensures
        scrub::runs_from(dev, g, from) == Ok::<Seq<(u64, u64)>, WhyNot>(
            seq![(from, (g.root_dir_start + 32 * g.root_entries - from) as u64)],
        ),
{
}

/// A whole directory is selected by its first cluster, or by the start of a fixed root.
pub proof fn lemma_what_selects_a_directory(g: Geom, spans: Seq<Span>)
    requires
        g.bytes_per_cluster > 0,
    ensures
        scrub::directory_shaped(g, spans) <==> spans.len() == 1 && {
            ||| g.root_entries > 0 && spans[0].at == g.root_dir_start
            ||| spans[0].len == g.bytes_per_cluster && exists|k: int|
                k >= 0 && spans[0].at == g.data_start + #[trigger] (k * g.bytes_per_cluster)
        },
{
    if spans.len() == 1 {
        let size = g.bytes_per_cluster as int;
        let d = spans[0].at - g.data_start;
        if d >= 0 && d % size == 0 {
            div_mod::lemma_fundamental_div_mod(d, size);
            div_mod::lemma_div_pos_is_pos(d, size);
            let k = d / size;
            assert(size * k == k * size) by (nonlinear_arith);
            assert(spans[0].at == g.data_start + k * g.bytes_per_cluster);
        }
        if exists|k: int| k >= 0 && spans[0].at == g.data_start + #[trigger] (k * g.bytes_per_cluster) {
            let k = choose|k: int|
                k >= 0 && spans[0].at == g.data_start + #[trigger] (k * g.bytes_per_cluster);
            div_mod::lemma_fundamental_div_mod_converse(d, size, k, 0);
            assert(k * size >= 0) by (nonlinear_arith)
                requires
                    k >= 0,
                    size >= 0,
            ;
        }
    }
}

/// What follows a record is told by the records behind it up to the first free one, `end`:
/// whether one of them is in use, how many, and where the first is.
pub proof fn lemma_what_follows_a_record(
    dev: Device,
    g: Geom,
    at: u64,
    runs: Seq<(u64, u64)>,
    recs: Seq<SlotModel>,
    end: int,
)
    requires
        g.sane,
        at + 32 <= u64::MAX,
        scrub::runs_from(dev, g, at) == Ok::<Seq<(u64, u64)>, WhyNot>(runs),
        crate::scrub::directory_records(
            dev,
            crate::scrub::runs_past_record(runs, at),
            Seq::empty(),
        ) == Some(recs),
        recs.len() <= u64::MAX,
        0 <= end <= recs.len(),
        forall|k: int| 0 <= k < end ==> (#[trigger] recs[k]).data[0] != 0,
        end < recs.len() ==> recs[end].data[0] == 0,
    ensures
        ({
            let found = scrub::use_after(dev, g, (at + 32) as u64);
            &&& found == Ok::<Option<(u64, u64)>, WhyNot>(None) <==> forall|k: int|
                0 <= k < end ==> (#[trigger] recs[k]).data[0] == 0xE5
            &&& found matches Ok(Some((count, first))) ==> count == scrub_laws::live_before(
                Marker::Fat,
                recs,
                end,
            ) && exists|i: int|
                0 <= i < end && (#[trigger] recs[i]).at == first && recs[i].data[0] != 0xE5 && forall|k: int|
                    0 <= k < i ==> (#[trigger] recs[k]).data[0] == 0xE5
            &&& found is Ok
        }),
{
    let rest = crate::scrub::runs_past_record(runs, at);
    scrub_laws::lemma_use_is_what_the_records_say(dev, Marker::Fat, rest, recs, end);
    assert(scrub::record_before((at + 32) as u64) == at);
    let st = crate::scrub::directory_use(dev, Marker::Fat, rest, crate::scrub::no_use())->Ok_0;
    assert(forall|k: int|
        0 <= k < end ==> (Marker::Fat.of_byte((#[trigger] recs[k]).data[0]) != RecordClass::Live
            <==> recs[k].data[0] == 0xE5));
}

/// What the plan for a directory says of it: the names that go, the records that move, and
/// an edit for each slot that changes. Nothing is refused. There is no plan exactly when no
/// slot changes.
pub proof fn lemma_what_a_directory_plan_says(
    dev: Device,
    g: Geom,
    label: Seq<char>,
    spans: Seq<Span>,
    mode: ScrubMode,
    records: Seq<SlotModel>,
)
    requires
        scrub::directory_at(dev, g, spans) == Some(records),
        records.len() <= 16384,
        mode == ScrubMode::Sweep || mode == ScrubMode::Compact,
    ensures
        ({
            let after = crate::scrub::scrubbed(Marker::Fat, records, mode);
            scrub::directory_plan(dev, g, label, spans, mode) is Some <==> exists|i: int|
                0 <= i < records.len() && (#[trigger] after[i]).data != records[i].data
        }),
        scrub::directory_plan(dev, g, label, spans, mode) matches Some(plan) ==> {
            &&& plan.label == label
            &&& plan.mode == mode
            &&& plan.affected == scrub::deleted_names(records)
            &&& plan.zero_refusal is None
            &&& mode == ScrubMode::Sweep ==> plan.relocated == 0
            &&& mode == ScrubMode::Compact ==> plan.relocated == crate::scrub::moved(
                Marker::Fat,
                records,
                mode,
                records.len(),
            )
        },
{
    let after = crate::scrub::scrubbed(Marker::Fat, records, mode);
    let n = records.len();
    scrub_laws::lemma_edits_exactly_when(Marker::Fat, records, mode, n);
    scrub_laws::lemma_moved_bound(Marker::Fat, records, mode, n);
    if exists|i: int| 0 <= i < records.len() && (#[trigger] after[i]).data != records[i].data {
        let i = choose|i: int| 0 <= i < records.len() && (#[trigger] after[i]).data != records[i].data;
        assert(scrub_laws::slot_changes(Marker::Fat, records, mode, i));
    }
    if exists|i: int| 0 <= i < n && #[trigger] scrub_laws::slot_changes(Marker::Fat, records, mode, i) {
        let i = choose|i: int|
            0 <= i < n && #[trigger] scrub_laws::slot_changes(Marker::Fat, records, mode, i);
        assert(after[i].data != records[i].data);
    }
}

/// What the plan for selected records says: zeroing them is refused as what follows the last
/// of them demands.
pub proof fn lemma_what_a_record_plan_says(
    dev: Device,
    g: Geom,
    label: Seq<char>,
    spans: Seq<Span>,
    fill: Fill,
)
    ensures
        scrub::record_plan(dev, g, label, spans, fill) matches Some(plan) ==> {
            let chosen = crate::scrub::in_order(crate::scrub::selected(dev, spans));
            &&& plan.label == label
            &&& plan.mode == ScrubMode::Record(fill)
            &&& plan.relocated == 0
            &&& chosen.last().at + 32 <= u64::MAX ==> plan.zero_refusal == crate::scrub::refusal(
                scrub::use_after(dev, g, (chosen.last().at + 32) as u64),
            )
            &&& forall|i: int|
                0 <= i < chosen.len() ==> (#[trigger] chosen[i]).at <= chosen.last().at
        },
{
    let chosen = crate::scrub::in_order(crate::scrub::selected(dev, spans));
    crate::scrub::lemma_in_order(crate::scrub::selected(dev, spans));
    assert forall|i: int| 0 <= i < chosen.len() implies (#[trigger] chosen[i]).at <= chosen.last().at by {
        assert(chosen[chosen.len() - 1] == chosen.last());
    }
}

} // verus!
