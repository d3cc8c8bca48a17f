//! What reading an exFAT volume comes down to, said of the bytes on the device.

use crate::bytes::{lemma_numbers_are_little_endian, number};
use crate::common;
use crate::exfat::chain;
use crate::exfat::chain::Chain;
use crate::exfat::finding;
use crate::exfat::finding::Finding;
use crate::exfat::geometry;
use crate::exfat::geometry::Geometry;
use crate::runs;
use crate::scrub::holds_image;
use crate::source::{clipped_read, window, Device};
use vstd::arithmetic::div_mod;
use vstd::arithmetic::power2;
use vstd::prelude::*;

verus! {

broadcast proof fn lemma_when(cond: bool, f: Finding, g: Finding)
    ensures
        #[trigger] finding::when(cond, f).contains(g) <==> cond && g == f,
{
    if cond && g == f {
        assert(finding::when(cond, f)[0] == g);
    }
}

broadcast proof fn lemma_single(f: Finding, g: Finding)
    ensures
        #[trigger] seq![f].contains(g) <==> f == g,
{
    if f == g {
        assert(seq![f][0] == g);
    }
}

// ------------------------------------------------------------------------ geometry

/// The sizes that a boot sector gives are powers of two: one sector a cluster for a
/// cluster shift of 0 and twice as many for each one more, up to 25; sectors of 512 bytes
/// for a sector shift of 9 and of twice the size for each one more, up to 12.
pub proof fn lemma_shifts_double(a: Seq<u8>, b: Seq<u8>, base: u64, fallback: u32)
    requires
        a.len() >= 512,
        b.len() >= 512,
    ensures
        ({
            let g = geometry::geometry_of(a, base, fallback);
            let h = geometry::geometry_of(b, base, fallback);
            &&& a[0x6D] == 0 ==> g.sectors_per_cluster == 1
            &&& a[0x6D] < b[0x6D] <= 25 && b[0x6D] == a[0x6D] + 1 ==> h.sectors_per_cluster == 2
                * g.sectors_per_cluster
            &&& a[0x6C] == 9 ==> g.bytes_per_sector == 512
            &&& 9 <= a[0x6C] < b[0x6C] <= 12 && b[0x6C] == a[0x6C] + 1 ==> h.bytes_per_sector == 2
                * g.bytes_per_sector
            &&& 9 <= a[0x6C] <= 12 && a[0x6D] <= 25 ==> g.bytes_per_sector == power2::pow2(
                a[0x6C] as nat,
            ) && g.sectors_per_cluster == power2::pow2(a[0x6D] as nat)
        }),
{
    geometry::lemma_geometry_bounds(a, base, fallback);
    geometry::lemma_geometry_bounds(b, base, fallback);
    lemma_power_fits(a[0x6C]);
    lemma_power_fits(a[0x6D]);
    lemma_power_fits(b[0x6C]);
    lemma_power_fits(b[0x6D]);
    power2::lemma2_to64();
    if b[0x6D] == a[0x6D] + 1 {
        power2::lemma_pow2_unfold(b[0x6D] as nat);
    }
    if b[0x6C] == a[0x6C] + 1 {
        power2::lemma_pow2_unfold(b[0x6C] as nat);
    }
}

proof fn lemma_power_fits(s: u8)
    ensures
        s <= 25 ==> 0 < power2::pow2(s as nat) <= 0x200_0000,
{
    power2::lemma2_to64();
    if s <= 25 {
        power2::lemma_pow2_pos(s as nat);
        if s < 25 {
            power2::lemma_pow2_strictly_increases(s as nat, 25);
        }
    }
}

/// A cluster is as many sectors as the shift says, up to 32 MiB: shifts of 9 and 3 make
/// clusters of 4096 bytes. The volume is then trusted, and otherwise it is not.
pub proof fn lemma_cluster_size_is_the_product(raw: Seq<u8>, base: u64, fallback: u32)
    requires
        raw.len() >= 512,
    ensures
        ({
            let g = geometry::geometry_of(raw, base, fallback);
            let sane = 9 <= raw[0x6C] <= 12 && raw[0x6D] <= 25;
            &&& g.trusted <==> sane && raw[0x6C] + raw[0x6D] <= 25
            &&& g.trusted ==> g.cluster_size == g.bytes_per_sector * g.sectors_per_cluster
                && g.cluster_size == power2::pow2((raw[0x6C] + raw[0x6D]) as nat)
            &&& raw[0x6C] == 9 && raw[0x6D] == 3 ==> g.cluster_size == 4096
        }),
{
    let s = raw[0x6C];
    let c = raw[0x6D];
    geometry::lemma_geometry_bounds(raw, base, fallback);
    lemma_power_fits(s);
    lemma_power_fits(c);
    power2::lemma2_to64();
    if 9 <= s <= 12 && c <= 25 {
        power2::lemma_pow2_adds(s as nat, c as nat);
        if s + c < 25 {
            power2::lemma_pow2_strictly_increases((s + c) as nat, 25);
        } else if s + c > 25 {
            power2::lemma_pow2_strictly_increases(25, (s + c) as nat);
        }
    }
    let g = geometry::geometry_of(raw, base, fallback);
    assert(power2::pow2(25) == 0x200_0000);
    let f1 = finding::when(
        !geometry::sector_shift_valid(raw),
        Finding::SectorShift { shift: common::byte_or_zero(raw, 0x6C), fallback },
    );
    assert(geometry::shift_findings(raw, fallback).len() == 0 <==> geometry::sector_shift_valid(raw)
        && geometry::cluster_shift_valid(raw) && geometry::declared_cluster_size(raw, fallback)
        <= 0x200_0000);
}

/// Where each number of a boot sector is stored.
pub proof fn lemma_boot_sector_numbers(raw: Seq<u8>, base: u64, fallback: u32)
    requires
        raw.len() >= 512,
    ensures
        ({
            let g = geometry::geometry_of(raw, base, fallback);
            &&& g.base == base
            &&& g.partition_offset == number(raw, 64, 8)
            &&& g.volume_length == number(raw, 72, 8)
            &&& g.fat_offset == number(raw, 80, 4)
            &&& g.fat_length == number(raw, 84, 4)
            &&& g.cluster_heap_offset == number(raw, 88, 4)
            &&& g.cluster_count == number(raw, 92, 4)
            &&& g.first_cluster_of_root == number(raw, 96, 4)
            &&& g.fs_revision == number(raw, 104, 2)
            &&& g.volume_flags == number(raw, 106, 2)
            &&& g.number_of_fats == raw[110]
            &&& g.percent_in_use == raw[112]
            &&& g.active_fat == raw[106] % 2
        }),
{
    lemma_numbers_are_little_endian(raw, 64);
    lemma_numbers_are_little_endian(raw, 72);
    lemma_numbers_are_little_endian(raw, 80);
    lemma_numbers_are_little_endian(raw, 84);
    lemma_numbers_are_little_endian(raw, 88);
    lemma_numbers_are_little_endian(raw, 92);
    lemma_numbers_are_little_endian(raw, 96);
    lemma_numbers_are_little_endian(raw, 104);
    lemma_numbers_are_little_endian(raw, 106);
}

/// Sectors follow each other from the start of the volume, the FATs from the first on,
/// and clusters from cluster 2, which is where the heap starts. A number outside the heap
/// is nowhere.
pub proof fn lemma_clusters_stand_side_by_side(g: Geometry, s: int, n: int, c: int)
    ensures
        g.sector_at(0) == Some(g.base),
        g.sector_at(s) matches Some(at) ==> at + g.bytes_per_sector <= u64::MAX ==> g.sector_at(s + 1)
            == Some((at + g.bytes_per_sector) as u64),
        g.heap_at() == g.sector_at(g.cluster_heap_offset as int),
        g.fat_at(0) == g.sector_at(g.fat_offset as int),
        n >= 0 ==> (g.fat_at(n) matches Some(at) ==> at + g.fat_length * g.bytes_per_sector <= u64::MAX
            ==> (n + 1) * g.fat_length + g.fat_offset <= u64::MAX ==> g.fat_at(n + 1) == Some(
            (at + g.fat_length * g.bytes_per_sector) as u64,
        )),
        g.cluster_count > 0 ==> g.cluster_at(2) == g.heap_at(),
        !(2 <= c <= g.cluster_count + 1) ==> g.cluster_at(c) is None,
        g.cluster_at(c) matches Some(at) ==> c <= g.cluster_count ==> at + g.cluster_size <= u64::MAX
            ==> g.cluster_at(c + 1) == Some((at + g.cluster_size) as u64),
{
    let bps = g.bytes_per_sector as int;
    let fl = g.fat_length as int;
    let size = g.cluster_size as int;
    assert(0 * bps == 0 && (s + 1) * bps == s * bps + bps) by (nonlinear_arith);
    assert(0 * fl == 0 && (n + 1) * fl == n * fl + fl) by (nonlinear_arith);
    let k = n * fl + g.fat_offset;
    assert((k + fl) * bps == k * bps + fl * bps) by (nonlinear_arith);
    assert(0 * size == 0 && (c - 1) * size == (c - 2) * size + size) by (nonlinear_arith);
    assert(c >= 2 ==> (c - 2) * size >= 0) by (nonlinear_arith)
        requires
            size >= 0,
    ;
    assert(fl * bps >= 0 && (n >= 0 ==> n * fl >= 0)) by (nonlinear_arith)
        requires
            fl >= 0,
            bps >= 0,
    ;
    assert(n >= 0 ==> k * bps >= 0) by (nonlinear_arith)
        requires
            n >= 0 ==> k >= 0,
            bps >= 0,
    ;
}

// -------------------------------------------------------------------------- chains

/// What the end of a chain says: nothing where the last entry marks the end, and
/// otherwise the one thing that stopped it.
pub open spec fn end_is_told(dev: Device, g: Geometry, fat_at: u64, c: Chain) -> bool {
    let last = c.clusters.last();
    let r = dev.read((fat_at + 4 * last) as u64, 4);
    let next = number(r.data, 0, 4);
    let read = fat_at + 4 * last <= u64::MAX && !r.refused() && r.data.len() >= 4;
    &&& c.findings.len() <= 1
    &&& c.findings.len() == 0 ==> c.clusters.len() > 0 && (fat_at + 4 * last > u64::MAX || (read && next
        == 0xFFFF_FFFF))
    &&& c.findings.len() == 1 ==> match c.findings[0] {
        Finding::ChainTooLong => c.clusters.len() == 65536,
        Finding::ChainLoops { cluster } => c.clusters.contains(cluster),
        Finding::ChainUnreadable { cluster } => cluster == last && r.refused(),
        Finding::FatEndsBefore { cluster } => cluster == last && r.data.len() < 4,
        Finding::ChainsToBad { cluster } => cluster == last && read && next == 0xFFFF_FFF7,
        Finding::ChainNoEnd { cluster } => cluster == last && read && next == 0,
        Finding::ChainLeavesHeap { cluster, next: to, .. } => cluster == last && read && next == to
            && !(2 <= to <= g.cluster_count + 1),
        _ => false,
    }
}

/// A chain in the FAT goes on for as long as the FAT says: it stops at the end marker, or
/// with a finding that is so.
pub proof fn lemma_chain_ends_where_the_fat_says(dev: Device, g: Geometry, fat_at: u64, first: u64)
    ensures
        end_is_told(dev, g, fat_at, chain::fat_walk(dev, g, fat_at, Seq::empty(), first)),
{
    lemma_walk_end(dev, g, fat_at, Seq::empty(), first);
}

proof fn lemma_walk_end(dev: Device, g: Geometry, fat_at: u64, seen: Seq<u64>, cur: u64)
    requires
        seen.len() <= 65536,
    ensures
        end_is_told(dev, g, fat_at, chain::fat_walk(dev, g, fat_at, seen, cur)),
    decreases 65536 - seen.len(),
{
    let out = seen.push(cur);
    assert(out.last() == cur);
    if seen.len() < 65536 && !seen.contains(cur) && fat_at + 4 * cur <= u64::MAX {
        let r = dev.read((fat_at + 4 * cur) as u64, 4);
        lemma_numbers_are_little_endian(r.data, 0);
        let next = common::le32(r.data, 0);
        if !r.refused() && r.data.len() >= 4 && g.in_heap(next as int) && next != 0xFFFF_FFFF && next
            != 0xFFFF_FFF7 && next != 0 {
            lemma_walk_end(dev, g, fat_at, out, next as u64);
        }
    }
}

/// A chain that skips the FAT has the fewest clusters that hold the bytes wanted, at least
/// one, while these fit the heap and the limit.
pub proof fn lemma_contiguous_has_the_fewest(g: Geometry, first: u64, want: u64)
    requires
        g.cluster_size > 0,
        g.in_heap(first as int),
        g.cluster_count <= 0xFFFF_FFFF,
    ensures
        ({
            let c = chain::contiguous(g, first, want).clusters;
            let n = c.len() as int;
            &&& n >= 1
            &&& n <= 65536
            &&& first + n - 1 <= g.cluster_count + 1
            &&& forall|i: int| 0 <= i < n ==> #[trigger] c[i] == first + i
            &&& n > 1 ==> (n - 1) * g.cluster_size < want
            &&& n * g.cluster_size >= want || n == 65536 || first + n - 1 == g.cluster_count + 1
        }),
{
    let size = g.cluster_size as int;
    lemma_ceil(want as int, size);
    let q = common::ceil_div(want as int, size);
    let n = chain::contiguous(g, first, want).clusters.len() as int;
    if n > 1 {
        assert((n - 1) * size <= (q - 1) * size) by (nonlinear_arith)
            requires
                n <= q,
                size > 0,
        ;
    }
    if q < 1 {
        assert(n * size >= want) by (nonlinear_arith)
            requires
                want <= q * size,
                q < 1,
                q >= 0,
                n >= 0,
                size > 0,
        ;
    }
}

proof fn lemma_ceil(a: int, b: int)
    requires
        a >= 0,
        b > 0,
    ensures
        common::ceil_div(a, b) >= 0,
        (common::ceil_div(a, b) - 1) * b < a <= common::ceil_div(a, b) * b,
{
    div_mod::lemma_fundamental_div_mod(a, b);
    div_mod::lemma_mod_bound(a, b);
    div_mod::lemma_div_pos_is_pos(a, b);
    let q = a / b;
    assert((q + 1) * b == q * b + b && (q - 1) * b == q * b - b && b * q == q * b)
        by (nonlinear_arith);
}

/// The runs of clusters hold the bytes of all of them, in order.
pub proof fn lemma_runs_hold_the_chain_in_order(g: Geometry, clusters: Seq<u64>, k: int, r: int)
    requires
        forall|i: int|
            0 <= i < clusters.len() ==> (g.cluster_at(#[trigger] clusters[i] as int) is Some
                && g.cluster_at(clusters[i] as int)->0 + g.cluster_size <= u64::MAX),
        0 <= k < clusters.len(),
        0 <= r < g.cluster_size,
    ensures
        ({
            let held = runs::offsets_of(chain::runs_of(g, clusters));
            let i = k * g.cluster_size + r;
            &&& held.len() == clusters.len() * g.cluster_size
            &&& 0 <= i < held.len()
            &&& held[i] == g.cluster_at(clusters[k] as int)->0 + r
        }),
    decreases clusters.len(),
{
    let size = g.cluster_size as int;
    let n = clusters.len() as int;
    let front = clusters.drop_last();
    let i = k * size + r;
    lemma_one_more_cluster(g, clusters);
    assert(n * size == (n - 1) * size + size) by (nonlinear_arith);
    assert(0 <= i < n * size && (k < n - 1 ==> i < (n - 1) * size)) by (nonlinear_arith)
        requires
            i == k * size + r,
            0 <= k < n,
            0 <= r < size,
    ;
    if k < n - 1 {
        assert(forall|j: int| 0 <= j < n - 1 ==> front[j] == #[trigger] clusters[j]);
        lemma_runs_hold_the_chain_in_order(g, front, k, r);
    }
}

proof fn lemma_one_more_cluster(g: Geometry, clusters: Seq<u64>)
    requires
        clusters.len() > 0,
        g.cluster_size > 0,
        forall|i: int|
            0 <= i < clusters.len() ==> (g.cluster_at(#[trigger] clusters[i] as int) is Some
                && g.cluster_at(clusters[i] as int)->0 + g.cluster_size <= u64::MAX),
    ensures
        ({
            let now = chain::runs_of(g, clusters);
            let before = chain::runs_of(g, clusters.drop_last());
            let at = g.cluster_at(clusters.last() as int)->0;
            &&& now.len() > 0
            &&& now.last().0 + now.last().1 <= u64::MAX
            &&& runs::offsets_of(before).len() == (clusters.len() - 1) * g.cluster_size
            &&& runs::offsets_of(now) == runs::offsets_of(before) + runs::piece(
                at as int,
                g.cluster_size as int,
            )
        }),
    decreases clusters.len(),
{
    let size = g.cluster_size as int;
    let n = clusters.len() as int;
    let front = clusters.drop_last();
    let before = chain::runs_of(g, front);
    let at = g.cluster_at(clusters.last() as int)->0;
    assert(g.cluster_at(clusters[n - 1] as int) is Some);
    if front.len() > 0 {
        assert(forall|j: int| 0 <= j < n - 1 ==> front[j] == #[trigger] clusters[j]);
        lemma_one_more_cluster(g, front);
        assert((n - 1) * size == (n - 2) * size + size) by (nonlinear_arith);
    } else {
        assert(runs::offsets_of(before) =~= Seq::<int>::empty());
        assert((n - 1) * size == 0) by (nonlinear_arith)
            requires
                n == 1,
        ;
    }
    if before.len() > 0 && before.last().0 + before.last().1 == at {
        runs::lemma_offsets_grow(before, g.cluster_size);
    } else {
        runs::lemma_offsets_push(before, (at, g.cluster_size));
    }
}

/// What is gathered from a device that holds an image is the image's bytes under the
/// runs, in order, up to the limit.
pub proof fn lemma_gathered_bytes_are_the_image(
    dev: Device,
    image: Seq<u8>,
    runs: Seq<(u64, u64)>,
    limit: u64,
    i: int,
)
    requires
        holds_image(dev, image),
        forall|k: int| 0 <= k < runs.len() ==> (#[trigger] runs[k]).0 + runs[k].1 <= image.len(),
        image.len() <= u64::MAX,
        0 <= i < limit,
        i < runs::offsets_of(runs).len(),
    ensures
        ({
            let got = chain::gather(dev, runs, limit, Seq::empty()).data;
            &&& got.len() == if runs::offsets_of(runs).len() <= limit {
                runs::offsets_of(runs).len() as int
            } else {
                limit as int
            }
            &&& got[i] == image[runs::offsets_of(runs)[i]]
            &&& chain::gather(dev, runs, limit, Seq::empty()).findings.len() == 0
        }),
{
    lemma_gathered(dev, image, runs, limit, Seq::empty(), i);
}

proof fn lemma_gathered(
    dev: Device,
    image: Seq<u8>,
    runs: Seq<(u64, u64)>,
    limit: u64,
    out: Seq<u8>,
    i: int,
)
    requires
        holds_image(dev, image),
        forall|k: int| 0 <= k < runs.len() ==> (#[trigger] runs[k]).0 + runs[k].1 <= image.len(),
        image.len() <= u64::MAX,
        out.len() <= limit,
    ensures
        ({
            let got = chain::gather(dev, runs, limit, out);
            let held = runs::offsets_of(runs);
            &&& got.findings.len() == 0
            &&& got.data.len() == if out.len() + held.len() <= limit {
                out.len() + held.len()
            } else {
                limit as nat
            }
            &&& 0 <= i < out.len() ==> got.data[i] == out[i]
            &&& out.len() <= i < got.data.len() ==> got.data[i] == image[held[i - out.len()]]
        }),
    decreases runs.len(),
{
    if runs.len() > 0 && out.len() < limit {
        let (at, len) = runs[0];
        let want: u64 = if len <= limit - out.len() { len } else { (limit - out.len()) as u64 };
        assert(runs[0].0 + runs[0].1 <= image.len());
        let r = dev.read(at, want);
        assert(r == clipped_read(image, at, want));
        assert(r.data == window(image, at as int, want as int));
        assert(r.data.len() == want);
        let rest = runs.skip(1);
        assert(forall|k: int| 0 <= k < rest.len() ==> #[trigger] rest[k] == runs[k + 1]);
        lemma_gathered(dev, image, rest, limit, out + r.data, i);
        let held = runs::offsets_of(runs);
        if out.len() <= i < out.len() + want {
            assert((out + r.data)[i] == r.data[i - out.len()]);
            assert(held[i - out.len()] == at + (i - out.len()));
        }
    }
}

} // verus!
