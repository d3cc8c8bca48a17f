//! The allocation bitmap, and how it agrees with the FAT.

use crate::common;
use crate::common::{div_ceil, min_u64, saturating_mul, u32le};
use crate::exfat::chain;
use crate::exfat::chain::{cluster_chain, cluster_runs, read_runs, runs_to_extent};
use crate::exfat::directory::MetaRef;
use crate::exfat::finding;
use crate::exfat::finding::{note, Finding};
use crate::exfat::geometry::Geometry;
use crate::extent::Span;
use crate::source::{BlockSource, Device, ReadOutcome};
use crate::text;
use crate::text::Text;
use vstd::prelude::*;

verus! {

/// The most bytes of a bitmap that are read.
pub const MAX_BITMAP_BYTES: u64 = 0x80_0000;

/// How many clusters the bitmap and FAT comparison covers.
pub const MAX_CROSSCHECK_CLUSTERS: u64 = 65536;

// ---------------------------------------------------------------------- bits

/// The weight of bit `j` of a byte.
pub open spec fn weight(j: int) -> u8 {
    if j == 0 { 1 } else if j == 1 { 2 } else if j == 2 { 4 } else if j == 3 { 8 }
    else if j == 4 { 16 } else if j == 5 { 32 } else if j == 6 { 64 } else { 128 }
}

/// Bit `i` of a bitmap, bit 0 being the lowest of byte 0.
pub open spec fn bit(bits: Seq<u8>, i: int) -> bool {
    (bits[i / 8] / weight(i % 8)) % 2 == 1
}

fn weight_of(j: u64) -> (r: u8)
    ensures
        r == weight(j as int),
        r > 0,
{
    match j {
        0 => 1, 1 => 2, 2 => 4, 3 => 8, 4 => 16, 5 => 32, 6 => 64,
        _ => 128,
    }
}

/// How many bits of a byte are set.
pub open spec fn ones(b: u8) -> nat
    decreases b,
{
    if b == 0 {
        0
    } else {
        (b % 2) as nat + ones(b / 2)
    }
}

/// How many bits of a bitmap are set.
pub open spec fn all_ones(bits: Seq<u8>) -> nat
    decreases bits.len(),
{
    if bits.len() == 0 {
        0
    } else {
        all_ones(bits.drop_last()) + ones(bits.last())
    }
}

fn count_ones(b: u8) -> (r: u64)
    ensures
        r == ones(b),
        r <= 8,
{
    let mut rest: u8 = b;
    let mut n: u64 = 0;
    let mut steps: u64 = 0;
    let ghost mut room: int = 256;
    while rest > 0
        invariant
            n + ones(rest) == ones(b),
            n <= steps <= 8,
            rest < room,
            steps == 0 ==> room == 256,
            steps == 1 ==> room == 128,
            steps == 2 ==> room == 64,
            steps == 3 ==> room == 32,
            steps == 4 ==> room == 16,
            steps == 5 ==> room == 8,
            steps == 6 ==> room == 4,
            steps == 7 ==> room == 2,
            steps == 8 ==> room == 1,
        decreases rest,
    {
        n += (rest % 2) as u64;
        rest = rest / 2;
        steps += 1;
        proof {
            room = room / 2;
        }
    }
    n
}

fn count_all_ones(bits: &[u8]) -> (r: u64)
    requires
        bits@.len() <= MAX_BITMAP_BYTES,
    ensures
        r == all_ones(bits@),
        r <= 8 * bits@.len(),
{
    let mut total: u64 = 0;
    let mut i: usize = 0;
    while i < bits.len()
        invariant
            i <= bits@.len() <= MAX_BITMAP_BYTES,
            total == all_ones(bits@.take(i as int)),
            total <= 8 * i,
        decreases bits@.len() - i,
    {
        assert(bits@.take(i + 1).drop_last() =~= bits@.take(i as int));
        total += count_ones(bits[i]);
        i += 1;
    }
    assert(bits@.take(i as int) =~= bits@);
    total
}

// ---------------------------------------------------------------- crosscheck

/// Cluster `i + 2` has a FAT entry but is free in the bitmap.
pub open spec fn chained_but_free_at(fat: Seq<u8>, bits: Seq<u8>, i: int) -> bool {
    common::le32(fat, 4 * i) != 0 && !bit(bits, i)
}

/// Cluster `i + 2` is allocated in the bitmap but has no FAT entry.
pub open spec fn allocated_without_chain_at(fat: Seq<u8>, bits: Seq<u8>, i: int) -> bool {
    common::le32(fat, 4 * i) == 0 && bit(bits, i)
}

/// The first eight clusters, of the first `n`, that are chained but free.
pub open spec fn chained_but_free(fat: Seq<u8>, bits: Seq<u8>, n: nat) -> Seq<u64>
    decreases n,
{
    if n == 0 {
        Seq::empty()
    } else {
        let before = chained_but_free(fat, bits, (n - 1) as nat);
        if chained_but_free_at(fat, bits, n - 1) && before.len() < 8 {
            before.push((n + 1) as u64)
        } else {
            before
        }
    }
}

/// How many of the first `n` clusters are allocated without a FAT entry.
pub open spec fn without_chain(fat: Seq<u8>, bits: Seq<u8>, n: nat) -> nat
    decreases n,
{
    if n == 0 {
        0
    } else {
        without_chain(fat, bits, (n - 1) as nat) + if allocated_without_chain_at(
            fat,
            bits,
            n - 1,
        ) {
            1nat
        } else {
            0nat
        }
    }
}

/// How many clusters can be compared: as many as there are, as the bound allows, and
/// as both tables cover.
pub open spec fn comparable(g: Geometry, fat: Seq<u8>, bits: Seq<u8>) -> nat {
    let n = if g.cluster_count <= MAX_CROSSCHECK_CLUSTERS {
        g.cluster_count as nat
    } else {
        MAX_CROSSCHECK_CLUSTERS as nat
    };
    let m = if fat.len() / 4 < n { fat.len() / 4 } else { n };
    if 8 * bits.len() < m {
        8 * bits.len()
    } else {
        m
    }
}

/// The comparison of the bitmap with the FAT.
#[derive(Debug)]
pub struct Crosscheck {
    pub compared: u64,
    /// Up to eight clusters with a FAT entry that the bitmap calls free.
    pub chained_but_free: Vec<u64>,
    pub allocated_without_chain: u64,
    pub findings: Vec<Finding>,
}

/// What a [`Crosscheck`] says.
pub struct CrosscheckModel {
    pub compared: u64,
    pub chained_but_free: Seq<u64>,
    pub allocated_without_chain: u64,
    pub findings: Seq<Finding>,
}

impl View for Crosscheck {
    type V = CrosscheckModel;

    open spec fn view(&self) -> CrosscheckModel {
        CrosscheckModel {
            compared: self.compared,
            chained_but_free: self.chained_but_free@,
            allocated_without_chain: self.allocated_without_chain,
            findings: self.findings@,
        }
    }
}

/// What comparing the bitmap with the FAT's bytes says.
pub open spec fn compared(g: Geometry, fat: Seq<u8>, bits: Seq<u8>) -> CrosscheckModel {
    let n = comparable(g, fat, bits);
    let stray = chained_but_free(fat, bits, n);
    let lone = without_chain(fat, bits, n) as u64;
    CrosscheckModel {
        compared: n as u64,
        chained_but_free: stray,
        allocated_without_chain: lone,
        findings: Seq::<Finding>::empty() + finding::when(stray.len() > 0, Finding::ChainedButFree)
            + finding::when(lone > 0, Finding::AllocatedWithoutChain { count: lone })
            + finding::when(
            stray.len() == 0 && lone == 0,
            Finding::BitmapAgrees { compared: n as u64 },
        ),
    }
}

/// A comparison that was not made.
pub open spec fn not_compared(f: Finding) -> CrosscheckModel {
    CrosscheckModel {
        compared: 0,
        chained_but_free: Seq::empty(),
        allocated_without_chain: 0,
        findings: seq![f],
    }
}

/// The comparison of `bits` with the volume's active FAT.
pub open spec fn crosscheck_of(dev: Device, g: Geometry, bits: Seq<u8>) -> CrosscheckModel {
    match g.fat_at(g.active_fat as int) {
        None => not_compared(Finding::CrosscheckOverflow),
        Some(fat_at) => {
            let n = if g.cluster_count <= MAX_CROSSCHECK_CLUSTERS {
                g.cluster_count
            } else {
                MAX_CROSSCHECK_CLUSTERS
            };
            let fat = dev.read(common::saturated(fat_at + 8), (4 * n) as u64);
            if fat.refused() {
                not_compared(Finding::CrosscheckUnreadable)
            } else {
                compared(g, fat.data, bits)
            }
        },
    }
}

fn compare_tables(geo: &Geometry, fat: &[u8], bits: &[u8]) -> (r: Crosscheck)
    requires
        bits@.len() <= MAX_BITMAP_BYTES,
    ensures
        r@ == compared(*geo, fat@, bits@),
{
    let bound: u64 = min_u64(geo.cluster_count, MAX_CROSSCHECK_CLUSTERS);
    let n: u64 = min_u64(min_u64(bound, fat.len() as u64 / 4), 8 * bits.len() as u64);
    assert(n == comparable(*geo, fat@, bits@));
    let mut stray: Vec<u64> = Vec::new();
    let mut lone: u64 = 0;
    let mut i: u64 = 0;
    while i < n
        invariant
            i <= n <= 65536,
            n <= fat@.len() / 4,
            n <= 8 * bits@.len(),
            stray@ =~= chained_but_free(fat@, bits@, i as nat),
            lone == without_chain(fat@, bits@, i as nat),
            lone <= i,
        decreases n - i,
    {
        let v: u32 = match u32le(fat, 4 * (i as usize)) {
            Some(v) => v,
            None => 0,
        };
        let alloc: bool = (bits[(i / 8) as usize] / weight_of(i % 8)) % 2 == 1;
        assert(alloc == bit(bits@, i as int));
        if v != 0 && !alloc {
            if stray.len() < 8 {
                stray.push(i + 2);
            }
        } else if alloc && v == 0 {
            lone += 1;
        }
        i += 1;
    }
    let mut findings: Vec<Finding> = Vec::new();
    note(&mut findings, stray.len() > 0, Finding::ChainedButFree);
    note(&mut findings, lone > 0, Finding::AllocatedWithoutChain { count: lone });
    note(
        &mut findings,
        stray.len() == 0 && lone == 0,
        Finding::BitmapAgrees { compared: n },
    );
    Crosscheck { compared: n, chained_but_free: stray, allocated_without_chain: lone, findings }
}

/// Hold the bitmap against the FAT. A cluster that is allocated but has a zero FAT
/// entry is legal, that is what `NoFatChain` means; only the other direction is a
/// finding.
pub fn bitmap_fat_crosscheck<S: BlockSource>(src: &S, geo: &Geometry, bits: &[u8]) -> (r:
    Crosscheck)
    requires
        bits@.len() <= MAX_BITMAP_BYTES,
    ensures
        r@ == crosscheck_of(src.device(), *geo, bits@),
{
    let mut findings: Vec<Finding> = Vec::new();
    let fat_at: u64 = match geo.fat_byte(geo.active_fat) {
        Some(at) => at,
        None => {
            findings.push(Finding::CrosscheckOverflow);
            assert(findings@ =~= seq![Finding::CrosscheckOverflow]);
            return Crosscheck {
                compared: 0,
                chained_but_free: Vec::new(),
                allocated_without_chain: 0,
                findings,
            };
        },
    };
    let n: u64 = min_u64(geo.cluster_count, MAX_CROSSCHECK_CLUSTERS);
    let (fat, outcome) = src.read_vec(fat_at.saturating_add(8), 4 * n);
    if outcome == ReadOutcome::Unreadable {
        findings.push(Finding::CrosscheckUnreadable);
        assert(findings@ =~= seq![Finding::CrosscheckUnreadable]);
        return Crosscheck {
            compared: 0,
            chained_but_free: Vec::new(),
            allocated_without_chain: 0,
            findings,
        };
    }
    compare_tables(geo, &fat, bits)
}

impl Crosscheck {
    /// Which clusters are chained but free, in words.
    pub fn stray_message(&self) -> (r: String)
        ensures
            r@ == "cluster(s) "@ + text::list(self.chained_but_free@)
                + " have a FAT entry but are marked free in the bitmap"@,
    {
        Text::of("cluster(s) ").list(&self.chained_but_free).lit(
            " have a FAT entry but are marked free in the bitmap",
        ).done()
    }
}

// -------------------------------------------------------------------- bitmap

/// The figures a bitmap adds up to.
#[derive(Clone, Copy, Debug, PartialEq, Eq, Structural)]
pub struct Usage {
    pub allocated_clusters: u64,
    pub free_clusters: u64,
    pub allocated_bytes: u64,
    /// Rounded down.
    pub percent: u64,
}

/// The figures of a bitmap of which `bits` was read.
pub open spec fn usage_of(g: Geometry, bits: Seq<u8>) -> Usage {
    let allocated = all_ones(bits);
    let counted = if 8 * bits.len() <= g.cluster_count {
        8 * bits.len()
    } else {
        g.cluster_count as nat
    };
    Usage {
        allocated_clusters: allocated as u64,
        free_clusters: if counted >= allocated { (counted - allocated) as u64 } else { 0 },
        allocated_bytes: common::saturated(allocated * g.cluster_size),
        percent: if counted == 0 { 0 } else { (100 * allocated / counted) as u64 },
    }
}

/// The allocation bitmap of a volume.
#[derive(Debug)]
pub struct Bitmap {
    pub extent: Vec<Span>,
    /// The length it should have, one bit per cluster.
    pub expected_length: u64,
    pub length_matches: bool,
    /// `None` when nothing of it could be read.
    pub usage: Option<Usage>,
    pub crosscheck: Option<Crosscheck>,
    pub findings: Vec<Finding>,
}

/// What a [`Bitmap`] says.
pub struct BitmapModel {
    pub extent: Seq<Span>,
    pub expected_length: u64,
    pub length_matches: bool,
    pub usage: Option<Usage>,
    pub crosscheck: Option<CrosscheckModel>,
    pub findings: Seq<Finding>,
}

impl View for Bitmap {
    type V = BitmapModel;

    open spec fn view(&self) -> BitmapModel {
        BitmapModel {
            extent: self.extent@,
            expected_length: self.expected_length,
            length_matches: self.length_matches,
            usage: self.usage,
            crosscheck: match self.crosscheck {
                Some(c) => Some(c@),
                None => None,
            },
            findings: self.findings@,
        }
    }
}

/// The allocation bitmap that a root directory entry refers to.
pub open spec fn bitmap_of(dev: Device, g: Geometry, r: MetaRef) -> BitmapModel {
    let want = common::ceil_div(g.cluster_count as int, 8) as u64;
    let c = chain::chain_of(dev, g, r.first_cluster, false, Some(r.data_length));
    let runs = chain::runs_of(g, c.clusters);
    let limit = if r.data_length <= MAX_BITMAP_BYTES { r.data_length } else { MAX_BITMAP_BYTES };
    let read = chain::gather(dev, runs, limit, Seq::empty());
    let usage = usage_of(g, read.data);
    let length = finding::when(
        r.data_length != want,
        Finding::BitmapLength {
            declared: r.data_length,
            clusters: g.cluster_count,
            need: want,
        },
    );
    BitmapModel {
        extent: chain::extent_of(runs),
        expected_length: want,
        length_matches: r.data_length == want,
        usage: if read.data.len() == 0 { None } else { Some(usage) },
        crosscheck: if read.data.len() == 0 {
            None
        } else {
            Some(crosscheck_of(dev, g, read.data))
        },
        findings: c.findings + length + read.findings + if read.data.len() == 0 {
            seq![Finding::BitmapUnreadable]
        } else {
            finding::when(
                g.percent_in_use != usage.percent && g.percent_in_use != 0xFF,
                Finding::PercentDisagrees { boot: g.percent_in_use, bitmap: usage.percent },
            )
        },
    }
}

fn figure_usage(geo: &Geometry, bits: &[u8]) -> (r: Usage)
    requires
        bits@.len() <= MAX_BITMAP_BYTES,
    ensures
        r == usage_of(*geo, bits@),
{
    let allocated: u64 = count_all_ones(bits);
    let counted: u64 = min_u64(8 * bits.len() as u64, geo.cluster_count);
    let percent: u64 = if counted == 0 { 0 } else { 100 * allocated / counted };
    Usage {
        allocated_clusters: allocated,
        free_clusters: counted.saturating_sub(allocated),
        allocated_bytes: saturating_mul(allocated, geo.cluster_size),
        percent,
    }
}

/// Read the allocation bitmap that a root directory entry refers to.
pub fn bitmap<S: BlockSource>(src: &S, geo: &Geometry, r: MetaRef) -> (out: Bitmap)
    requires
        geo.well_formed(),
    ensures
        out@ == bitmap_of(src.device(), *geo, r),
{
    let want: u64 = div_ceil(geo.cluster_count, 8);
    let (clusters, mut findings) = cluster_chain(
        src,
        geo,
        r.first_cluster,
        false,
        Some(r.data_length),
    );
    let runs: Vec<(u64, u64)> = cluster_runs(geo, &clusters);
    let extent: Vec<Span> = runs_to_extent(&runs);
    note(
        &mut findings,
        r.data_length != want,
        Finding::BitmapLength {
            declared: r.data_length,
            clusters: geo.cluster_count,
            need: want,
        },
    );
    let (bits, mut read_findings) = read_runs(src, &runs, min_u64(r.data_length, MAX_BITMAP_BYTES));
    findings.append(&mut read_findings);
    if bits.len() == 0 {
        findings.push(Finding::BitmapUnreadable);
        assert(findings@ =~= bitmap_of(src.device(), *geo, r).findings);
        return Bitmap {
            extent,
            expected_length: want,
            length_matches: r.data_length == want,
            usage: None,
            crosscheck: None,
            findings,
        };
    }
    let usage = figure_usage(geo, &bits);
    note(
        &mut findings,
        geo.percent_in_use != usage.percent && geo.percent_in_use != 0xFF,
        Finding::PercentDisagrees { boot: geo.percent_in_use, bitmap: usage.percent },
    );
    let crosscheck = bitmap_fat_crosscheck(src, geo, &bits);
    Bitmap {
        extent,
        expected_length: want,
        length_matches: r.data_length == want,
        usage: Some(usage),
        crosscheck: Some(crosscheck),
        findings,
    }
}

} // verus!
