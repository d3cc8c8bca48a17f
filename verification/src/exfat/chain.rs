//! Cluster chains: which clusters a record owns, and which bytes those are.
//!
//! `NoFatChain` is the field it is fatal to read backwards: set means contiguous
//! and the FAT holds nothing; clear means the FAT is authoritative.

use crate::common;
use crate::common::{div_ceil, min_u64, saturating_mul, u32le, ChainGuard, Step};
use crate::exfat::finding;
use crate::exfat::finding::Finding;
use crate::exfat::geometry::Geometry;
use crate::extent::Span;
use crate::source::{BlockSource, Device, ReadOutcome};
use vstd::prelude::*;

verus! {

/// The FAT value that ends a chain.
pub const FAT_END_OF_CHAIN: u32 = 0xFFFF_FFFF;

/// The FAT value of a cluster that the driver marked bad.
pub const FAT_BAD_CLUSTER: u32 = 0xFFFF_FFF7;

/// Upper bound on a cluster chain walk. A corrupt FAT will describe a longer one.
pub const MAX_CLUSTER_CHAIN: usize = 65536;

/// How many spans an extent carries before it is summarised.
pub const MAX_SPANS: usize = 64;

/// A resolved chain: its clusters in order, and what was wrong on the way.
pub struct Chain {
    pub clusters: Seq<u64>,
    pub findings: Seq<Finding>,
}

/// The chain that ends here, with what stopped it.
pub open spec fn stop(clusters: Seq<u64>, f: Finding) -> Chain {
    Chain { clusters, findings: seq![f] }
}

/// Following the FAT at `fat_at` from cluster `cur`, with `seen` already followed.
pub open spec fn fat_walk(dev: Device, g: Geometry, fat_at: u64, seen: Seq<u64>, cur: u64) -> Chain
    decreases MAX_CLUSTER_CHAIN - seen.len(),
{
    let out = seen.push(cur);
    if seen.len() >= MAX_CLUSTER_CHAIN {
        stop(seen, Finding::ChainTooLong)
    } else if seen.contains(cur) {
        stop(seen, Finding::ChainLoops { cluster: cur })
    } else if fat_at + 4 * cur > u64::MAX {
        Chain { clusters: out, findings: Seq::empty() }
    } else {
        let entry = dev.read((fat_at + 4 * cur) as u64, 4);
        let next = common::le32(entry.data, 0);
        if entry.refused() {
            stop(out, Finding::ChainUnreadable { cluster: cur })
        } else if entry.data.len() < 4 {
            stop(out, Finding::FatEndsBefore { cluster: cur })
        } else if next == FAT_END_OF_CHAIN {
            Chain { clusters: out, findings: Seq::empty() }
        } else if next == FAT_BAD_CLUSTER {
            stop(out, Finding::ChainsToBad { cluster: cur })
        } else if next == 0 {
            stop(out, Finding::ChainNoEnd { cluster: cur })
        } else if !g.in_heap(next as int) {
            stop(
                out,
                Finding::ChainLeavesHeap {
                    cluster: cur,
                    next,
                    last: common::saturated(g.cluster_count + 1),
                },
            )
        } else {
            fat_walk(dev, g, fat_at, out, next as u64)
        }
    }
}

/// How many clusters a contiguous allocation of `want` bytes takes: at least one,
/// and never more than a walk would follow.
pub open spec fn contiguous_len(g: Geometry, want: u64) -> u64 {
    let n = common::ceil_div(want as int, g.cluster_size as int);
    if n < 1 {
        1
    } else if n > MAX_CLUSTER_CHAIN {
        MAX_CLUSTER_CHAIN as u64
    } else {
        n as u64
    }
}

/// A contiguous allocation from `first`, cut off at the end of the heap.
pub open spec fn contiguous(g: Geometry, first: u64, want: u64) -> Chain {
    let n = contiguous_len(g, want);
    let available = (g.cluster_count + 2 - first) as u64;
    let fits = g.in_heap(first + n - 1);
    let kept = if fits { n } else { available };
    Chain {
        clusters: Seq::new(kept as nat, |i: int| (first + i) as u64),
        findings: finding::when(
            !fits,
            Finding::ContiguousPastHeap {
                clusters: n,
                first,
                last: common::saturated(g.cluster_count + 1),
                available,
            },
        ) + seq![Finding::Contiguous { first, last: (first + kept - 1) as u64 }],
    }
}

/// A chain whose length disagrees with the byte length its record declares.
pub open spec fn length_findings(g: Geometry, clusters: int, byte_len: Option<u64>) -> Seq<Finding> {
    match byte_len {
        Some(want) => {
            let need = common::ceil_div(want as int, g.cluster_size as int);
            finding::when(
                clusters != need,
                Finding::ChainLength {
                    clusters: clusters as u64,
                    have: common::saturated(clusters * g.cluster_size),
                    want,
                    need: need as u64,
                },
            )
        },
        None => Seq::empty(),
    }
}

/// The clusters of the allocation that starts at `first`.
pub open spec fn chain_of(
    dev: Device,
    g: Geometry,
    first: u64,
    no_fat_chain: bool,
    byte_len: Option<u64>,
) -> Chain {
    if first == 0 {
        Chain { clusters: Seq::empty(), findings: Seq::empty() }
    } else if !g.in_heap(first as int) {
        stop(
            Seq::empty(),
            Finding::FirstClusterOutside { first, last: common::saturated(g.cluster_count + 1) },
        )
    } else if no_fat_chain {
        contiguous(
            g,
            first,
            match byte_len {
                Some(n) => n,
                None => g.cluster_size,
            },
        )
    } else {
        match g.fat_at(g.active_fat as int) {
            Some(fat_at) => {
                let walked = fat_walk(dev, g, fat_at, Seq::empty(), first);
                Chain {
                    clusters: walked.clusters,
                    findings: walked.findings + length_findings(
                        g,
                        walked.clusters.len() as int,
                        byte_len,
                    ),
                }
            },
            None => stop(Seq::empty(), Finding::ActiveFatOverflow),
        }
    }
}

fn walk_fat<S: BlockSource>(src: &S, geo: &Geometry, fat_at: u64, first: u64) -> (r: (
    Vec<u64>,
    Vec<Finding>,
))
    requires
        geo.well_formed(),
        first <= 0x1_0000_0000,
    ensures
        r.0@ == fat_walk(src.device(), *geo, fat_at, Seq::empty(), first).clusters,
        r.1@ == fat_walk(src.device(), *geo, fat_at, Seq::empty(), first).findings,
        r.0@.len() <= MAX_CLUSTER_CHAIN,
{
    let mut out: Vec<u64> = Vec::new();
    let mut findings: Vec<Finding> = Vec::new();
    let mut guard = ChainGuard::new(MAX_CLUSTER_CHAIN);
    let mut cur: u64 = first;
    let ghost whole = fat_walk(src.device(), *geo, fat_at, Seq::empty(), first);
    assert(out@ =~= Seq::<u64>::empty());
    assert(out@.to_set() =~= Set::<u64>::empty());
    loop
        invariant_except_break
            findings@.len() == 0,
            cur <= 0x1_0000_0000,
            out@.no_duplicates(),
            guard.seen() == out@.to_set(),
            guard.limit() == MAX_CLUSTER_CHAIN,
            out@.len() <= MAX_CLUSTER_CHAIN,
            whole == fat_walk(src.device(), *geo, fat_at, out@, cur),
        invariant
            geo.well_formed(),
        ensures
            out@ == whole.clusters,
            findings@ == whole.findings,
            out@.len() <= MAX_CLUSTER_CHAIN,
        decreases MAX_CLUSTER_CHAIN - out@.len(),
    {
        proof {
            out@.unique_seq_to_set();
        }
        match guard.visit(cur) {
            Step::Continue => {},
            Step::Loop => {
                findings.push(Finding::ChainLoops { cluster: cur });
                assert(findings@ =~= whole.findings);
                break;
            },
            Step::TooLong => {
                findings.push(Finding::ChainTooLong);
                assert(findings@ =~= whole.findings);
                break;
            },
        }
        let ghost before = out@;
        out.push(cur);
        proof {
            assert(out@.to_set() =~= before.to_set().insert(cur)) by {
                assert forall|x: u64| out@.to_set().contains(x) <==> before.to_set().insert(
                    cur,
                ).contains(x) by {
                    if before.contains(x) {
                        let j = choose|j: int| 0 <= j < before.len() && before[j] == x;
                        assert(out@[j] == x);
                    }
                    if x == cur {
                        assert(out@[before.len() as int] == x);
                    }
                }
            }
        }
        let entry_at: u64 = match fat_at.checked_add(4 * cur) {
            Some(at) => at,
            None => {
                assert(findings@ =~= whole.findings);
                break;
            },
        };
        let (b, outcome) = src.read_vec(entry_at, 4);
        if outcome == ReadOutcome::Unreadable {
            findings.push(Finding::ChainUnreadable { cluster: cur });
            assert(findings@ =~= whole.findings);
            break;
        }
        let next: u32 = match u32le(&b, 0) {
            Some(v) => v,
            None => {
                findings.push(Finding::FatEndsBefore { cluster: cur });
                assert(findings@ =~= whole.findings);
                break;
            },
        };
        if next == FAT_END_OF_CHAIN {
            assert(findings@ =~= whole.findings);
            break;
        }
        if next == FAT_BAD_CLUSTER {
            findings.push(Finding::ChainsToBad { cluster: cur });
            assert(findings@ =~= whole.findings);
            break;
        }
        if next == 0 {
            findings.push(Finding::ChainNoEnd { cluster: cur });
            assert(findings@ =~= whole.findings);
            break;
        }
        if !geo.cluster_in_heap(next as u64) {
            findings.push(
                Finding::ChainLeavesHeap { cluster: cur, next, last: geo.last_cluster() },
            );
            assert(findings@ =~= whole.findings);
            break;
        }
        cur = next as u64;
    }
    (out, findings)
}

fn contiguous_chain(geo: &Geometry, first: u64, want: u64) -> (r: (Vec<u64>, Vec<Finding>))
    requires
        geo.well_formed(),
        geo.in_heap(first as int),
    ensures
        r.0@ == contiguous(*geo, first, want).clusters,
        r.1@ == contiguous(*geo, first, want).findings,
        r.0@.len() <= MAX_CLUSTER_CHAIN,
{
    let mut findings: Vec<Finding> = Vec::new();
    let exact: u64 = div_ceil(want, geo.cluster_size);
    let n: u64 = if exact < 1 { 1 } else { min_u64(exact, MAX_CLUSTER_CHAIN as u64) };
    let fits: bool = geo.cluster_in_heap(first + n - 1);
    let available: u64 = geo.cluster_count + 2 - first;
    let kept: u64 = if fits { n } else { available };
    finding::note(
        &mut findings,
        !fits,
        Finding::ContiguousPastHeap { clusters: n, first, last: geo.last_cluster(), available },
    );
    findings.push(Finding::Contiguous { first, last: first + kept - 1 });
    let mut out: Vec<u64> = Vec::new();
    let mut i: u64 = 0;
    while i < kept
        invariant
            i <= kept,
            first + kept <= u64::MAX,
            out@ =~= Seq::new(i as nat, |j: int| (first + j) as u64),
        decreases kept - i,
    {
        out.push(first + i);
        i += 1;
    }
    assert(findings@ =~= contiguous(*geo, first, want).findings);
    (out, findings)
}

/// Resolve an allocation into its clusters. Both readings of `no_fat_chain` are
/// here, and the findings say which one was taken.
pub fn cluster_chain<S: BlockSource>(
    src: &S,
    geo: &Geometry,
    first: u64,
    no_fat_chain: bool,
    byte_len: Option<u64>,
) -> (r: (Vec<u64>, Vec<Finding>))
    requires
        geo.well_formed(),
    ensures
        r.0@ == chain_of(src.device(), *geo, first, no_fat_chain, byte_len).clusters,
        r.1@ == chain_of(src.device(), *geo, first, no_fat_chain, byte_len).findings,
        r.0@.len() <= MAX_CLUSTER_CHAIN,
{
    let ghost whole = chain_of(src.device(), *geo, first, no_fat_chain, byte_len);
    let mut findings: Vec<Finding> = Vec::new();
    if first == 0 {
        assert(findings@ =~= whole.findings);
        return (Vec::new(), findings);
    }
    if !geo.cluster_in_heap(first) {
        findings.push(Finding::FirstClusterOutside { first, last: geo.last_cluster() });
        assert(findings@ =~= whole.findings);
        return (Vec::new(), findings);
    }
    if no_fat_chain {
        let want: u64 = match byte_len {
            Some(n) => n,
            None => geo.cluster_size,
        };
        return contiguous_chain(geo, first, want);
    }
    let fat_at: u64 = match geo.fat_byte(geo.active_fat) {
        Some(at) => at,
        None => {
            findings.push(Finding::ActiveFatOverflow);
            assert(findings@ =~= whole.findings);
            return (Vec::new(), findings);
        },
    };
    let (out, mut findings) = walk_fat(src, geo, fat_at, first);
    if let Some(want) = byte_len {
        let clusters: u64 = out.len() as u64;
        let have: u64 = saturating_mul(clusters, geo.cluster_size);
        let need: u64 = div_ceil(want, geo.cluster_size);
        finding::note(
            &mut findings,
            clusters != need,
            Finding::ChainLength { clusters, have, want, need },
        );
    }
    assert(findings@ =~= whole.findings);
    (out, findings)
}

// --------------------------------------------------------------------- runs

/// The byte runs of a list of clusters, adjacent clusters coalesced. A cluster
/// that is nowhere on the device contributes nothing.
pub open spec fn runs_of(g: Geometry, clusters: Seq<u64>) -> Seq<(u64, u64)>
    decreases clusters.len(),
{
    if clusters.len() == 0 {
        Seq::empty()
    } else {
        let before = runs_of(g, clusters.drop_last());
        match g.cluster_at(clusters.last() as int) {
            None => before,
            Some(at) => if before.len() > 0 && common::saturated(
                before.last().0 + before.last().1,
            ) == at {
                before.drop_last().push(
                    (before.last().0, common::saturated(before.last().1 + g.cluster_size)),
                )
            } else {
                before.push((at, g.cluster_size))
            },
        }
    }
}

/// Absolute byte runs for a list of clusters, with adjacent clusters coalesced so
/// a contiguous file is one span rather than ten thousand.
pub fn cluster_runs(geo: &Geometry, clusters: &[u64]) -> (r: Vec<(u64, u64)>)
    ensures
        r@ == runs_of(*geo, clusters@),
        r@.len() <= clusters@.len(),
{
    let mut runs: Vec<(u64, u64)> = Vec::new();
    let mut i: usize = 0;
    while i < clusters.len()
        invariant
            i <= clusters@.len(),
            runs@ == runs_of(*geo, clusters@.take(i as int)),
            runs@.len() <= i,
        decreases clusters@.len() - i,
    {
        assert(clusters@.take(i + 1).drop_last() =~= clusters@.take(i as int));
        let ghost before = runs@;
        match geo.cluster_byte(clusters[i]) {
            None => {},
            Some(at) => {
                let n: usize = runs.len();
                if n > 0 && runs[n - 1].0.saturating_add(runs[n - 1].1) == at {
                    let (start, len): (u64, u64) = runs[n - 1];
                    runs[n - 1] = (start, len.saturating_add(geo.cluster_size));
                    assert(runs@ =~= runs_of(*geo, clusters@.take(i + 1)));
                } else {
                    runs.push((at, geo.cluster_size));
                }
            },
        }
        i += 1;
    }
    assert(clusters@.take(i as int) =~= clusters@);
    runs
}

/// The spans that stand for a list of runs: all of them, up to the limit.
pub open spec fn extent_of(runs: Seq<(u64, u64)>) -> Seq<Span> {
    let n = if runs.len() <= MAX_SPANS { runs.len() } else { MAX_SPANS as nat };
    Seq::new(n, |i: int| Span::of_bytes(runs[i].0, runs[i].1))
}

/// The spans to show for a list of runs.
pub fn runs_to_extent(runs: &[(u64, u64)]) -> (r: Vec<Span>)
    ensures
        r@ == extent_of(runs@),
{
    let n: usize = if runs.len() <= MAX_SPANS { runs.len() } else { MAX_SPANS };
    let mut out: Vec<Span> = Vec::new();
    let mut i: usize = 0;
    while i < n
        invariant
            i <= n <= runs@.len(),
            out@ =~= Seq::new(i as nat, |j: int| Span::of_bytes(runs@[j].0, runs@[j].1)),
        decreases n - i,
    {
        out.push(Span::bytes(runs[i].0, runs[i].1));
        i += 1;
    }
    out
}

/// The bytes of a run list read in order, and what stopped the reading.
pub struct Gathered {
    pub data: Seq<u8>,
    pub findings: Seq<Finding>,
}

/// Reading `runs` after `out`, up to `limit` bytes in all. The first run that does
/// not arrive whole ends it: later bytes must not slide into the gap.
pub open spec fn gather(dev: Device, runs: Seq<(u64, u64)>, limit: u64, out: Seq<u8>) -> Gathered
    decreases runs.len(),
{
    if runs.len() == 0 || out.len() >= limit {
        Gathered { data: out, findings: Seq::empty() }
    } else {
        let (at, len) = runs[0];
        let want: u64 = if len <= limit - out.len() { len } else { (limit - out.len()) as u64 };
        let r = dev.read(at, want);
        if r.refused() {
            Gathered { data: out, findings: seq![Finding::RunUnreadable { want, at }] }
        } else if r.data.len() < want {
            Gathered {
                data: out + r.data,
                findings: seq![Finding::RunShort { got: r.data.len() as u64, want, at }],
            }
        } else {
            gather(dev, runs.skip(1), limit, out + r.data)
        }
    }
}

/// Read a chain's bytes, bounded by `limit`.
pub fn read_runs<S: BlockSource>(src: &S, runs: &[(u64, u64)], limit: u64) -> (r: (
    Vec<u8>,
    Vec<Finding>,
))
    ensures
        r.0@ == gather(src.device(), runs@, limit, Seq::empty()).data,
        r.1@ == gather(src.device(), runs@, limit, Seq::empty()).findings,
        r.0@.len() <= limit,
{
    let mut out: Vec<u8> = Vec::new();
    let mut findings: Vec<Finding> = Vec::new();
    let ghost whole = gather(src.device(), runs@, limit, Seq::empty());
    let mut i: usize = 0;
    assert(runs@.skip(0) =~= runs@);
    assert(out@ =~= Seq::<u8>::empty());
    while i < runs.len()
        invariant_except_break
            i <= runs@.len(),
            findings@.len() == 0,
            whole == gather(src.device(), runs@.skip(i as int), limit, out@),
        invariant
            out@.len() <= limit,
        ensures
            out@ == whole.data,
            findings@ == whole.findings,
        decreases runs@.len() - i,
    {
        if out.len() as u64 >= limit {
            assert(findings@ =~= whole.findings);
            break;
        }
        let (at, len): (u64, u64) = runs[i];
        let want: u64 = min_u64(len, limit - out.len() as u64);
        let (mut b, outcome) = src.read_vec(at, want);
        if outcome == ReadOutcome::Unreadable {
            findings.push(Finding::RunUnreadable { want, at });
            assert(findings@ =~= whole.findings);
            break;
        }
        let got: u64 = b.len() as u64;
        let ghost data = b@;
        out.append(&mut b);
        if got < want {
            findings.push(Finding::RunShort { got, want, at });
            assert(findings@ =~= whole.findings);
            break;
        }
        assert(runs@.skip(i as int).skip(1) =~= runs@.skip(i + 1));
        i += 1;
    }
    (out, findings)
}

/// Absolute offset of byte `i` of a run list whose first byte is byte `from`.
pub open spec fn abs_from(runs: Seq<(u64, u64)>, i: u64, from: u64) -> Option<u64>
    decreases runs.len(),
{
    if runs.len() == 0 {
        None
    } else if i < common::saturated(from + runs[0].1) {
        common::checked(runs[0].0 + (i - from))
    } else {
        abs_from(runs.skip(1), i, common::saturated(from + runs[0].1))
    }
}

/// Absolute offset of byte `i` of a run list.
pub fn abs_of(runs: &[(u64, u64)], i: u64) -> (r: Option<u64>)
    ensures
        r == abs_from(runs@, i, 0),
{
    let mut from: u64 = 0;
    let mut k: usize = 0;
    assert(runs@.skip(0) =~= runs@);
    while k < runs.len()
        invariant
            k <= runs@.len(),
            from <= i,
            abs_from(runs@, i, 0) == abs_from(runs@.skip(k as int), i, from),
        decreases runs@.len() - k,
    {
        let (at, len): (u64, u64) = runs[k];
        assert(runs@.skip(k as int).skip(1) =~= runs@.skip(k + 1));
        if i < from.saturating_add(len) {
            return at.checked_add(i - from);
        }
        from = from.saturating_add(len);
        k += 1;
    }
    None
}

// --------------------------------------------------------------------- laws

/// A walk never lists a cluster twice and never lists more than the limit, so it
/// terminates on any FAT.
pub proof fn lemma_walk_is_bounded(dev: Device, g: Geometry, fat_at: u64, seen: Seq<u64>, cur: u64)
    requires
        seen.no_duplicates(),
        seen.len() <= MAX_CLUSTER_CHAIN,
    ensures
        fat_walk(dev, g, fat_at, seen, cur).clusters.no_duplicates(),
        fat_walk(dev, g, fat_at, seen, cur).clusters.len() <= MAX_CLUSTER_CHAIN,
        seen.is_prefix_of(fat_walk(dev, g, fat_at, seen, cur).clusters),
        fat_walk(dev, g, fat_at, seen, cur).findings.len() <= 1,
    decreases MAX_CLUSTER_CHAIN - seen.len(),
{
    if seen.len() < MAX_CLUSTER_CHAIN && !seen.contains(cur) && fat_at + 4 * cur <= u64::MAX {
        let entry = dev.read((fat_at + 4 * cur) as u64, 4);
        lemma_walk_is_bounded(
            dev,
            g,
            fat_at,
            seen.push(cur),
            common::le32(entry.data, 0) as u64,
        );
    }
}

/// Every cluster of the list lies in the heap.
pub open spec fn all_in_heap(g: Geometry, clusters: Seq<u64>) -> bool {
    forall|i: int| 0 <= i < clusters.len() ==> g.in_heap(#[trigger] clusters[i] as int)
}

/// Every cluster a walk lists lies in the heap, whatever the FAT holds.
pub proof fn lemma_walk_stays_in_heap(
    dev: Device,
    g: Geometry,
    fat_at: u64,
    seen: Seq<u64>,
    cur: u64,
)
    requires
        g.in_heap(cur as int),
        all_in_heap(g, seen),
    ensures
        all_in_heap(g, fat_walk(dev, g, fat_at, seen, cur).clusters),
    decreases MAX_CLUSTER_CHAIN - seen.len(),
{
    let out = seen.push(cur);
    assert(all_in_heap(g, out));
    if seen.len() < MAX_CLUSTER_CHAIN && !seen.contains(cur) && fat_at + 4 * cur <= u64::MAX {
        let next = common::le32(dev.read((fat_at + 4 * cur) as u64, 4).data, 0);
        if g.in_heap(next as int) {
            lemma_walk_stays_in_heap(dev, g, fat_at, out, next as u64);
        }
    }
}

/// The FAT at `fat_at` says that `next` comes after `cur`.
pub open spec fn chains_to(dev: Device, fat_at: u64, cur: u64, next: u64) -> bool {
    let entry = dev.read((fat_at + 4 * cur) as u64, 4);
    &&& fat_at + 4 * cur <= u64::MAX
    &&& !entry.refused()
    &&& entry.data.len() >= 4
    &&& common::le32(entry.data, 0) == next
}

/// Every cluster of the list but the first is the one that the FAT at `fat_at` names
/// after the cluster before it.
pub open spec fn linked(dev: Device, fat_at: u64, clusters: Seq<u64>) -> bool {
    forall|i: int, j: int|
        0 <= i && j == i + 1 && j < clusters.len() ==> chains_to(
            dev,
            fat_at,
            #[trigger] clusters[i],
            #[trigger] clusters[j],
        )
}

/// A walk goes from each cluster to the one its FAT entry names.
pub proof fn lemma_walk_follows_the_fat(
    dev: Device,
    g: Geometry,
    fat_at: u64,
    seen: Seq<u64>,
    cur: u64,
)
    requires
        linked(dev, fat_at, seen),
        seen.len() > 0 ==> chains_to(dev, fat_at, seen.last(), cur),
    ensures
        linked(dev, fat_at, fat_walk(dev, g, fat_at, seen, cur).clusters),
    decreases MAX_CLUSTER_CHAIN - seen.len(),
{
    let out = seen.push(cur);
    assert(linked(dev, fat_at, out)) by {
        assert forall|i: int, j: int| 0 <= i && j == i + 1 && j < out.len() implies chains_to(
            dev,
            fat_at,
            #[trigger] out[i],
            #[trigger] out[j],
        ) by {
            if j < seen.len() {
                assert(out[i] == seen[i] && out[j] == seen[j]);
            }
        }
    }
    if seen.len() < MAX_CLUSTER_CHAIN && !seen.contains(cur) && fat_at + 4 * cur <= u64::MAX {
        let entry = dev.read((fat_at + 4 * cur) as u64, 4);
        let next = common::le32(entry.data, 0);
        if !entry.refused() && entry.data.len() >= 4 && g.in_heap(next as int) {
            lemma_walk_follows_the_fat(dev, g, fat_at, out, next as u64);
        }
    }
}

/// Whichever way a chain is resolved, its clusters lie in the heap, are listed
/// once each and are at most as many as the limit. Each is the one that comes after the
/// cluster before it: in the active FAT, or in number where the FAT is not consulted.
pub proof fn lemma_chain_is_sound(
    dev: Device,
    g: Geometry,
    first: u64,
    no_fat_chain: bool,
    byte_len: Option<u64>,
)
    requires
        g.well_formed(),
    ensures
        ({
            let c = chain_of(dev, g, first, no_fat_chain, byte_len).clusters;
            &&& c.no_duplicates()
            &&& c.len() <= MAX_CLUSTER_CHAIN
            &&& all_in_heap(g, c)
            &&& c.len() > 0 ==> c[0] == first
            &&& no_fat_chain ==> forall|i: int|
                0 <= i < c.len() ==> #[trigger] c[i] == first + i
            &&& !no_fat_chain ==> match g.fat_at(g.active_fat as int) {
                Some(fat_at) => linked(dev, fat_at, c),
                None => c.len() == 0,
            }
        }),
{
    if g.in_heap(first as int) && !no_fat_chain {
        if let Some(fat_at) = g.fat_at(g.active_fat as int) {
            let e = Seq::<u64>::empty();
            lemma_walk_is_bounded(dev, g, fat_at, e, first);
            lemma_walk_stays_in_heap(dev, g, fat_at, e, first);
            lemma_walk_follows_the_fat(dev, g, fat_at, e, first);
            let c = fat_walk(dev, g, fat_at, e, first).clusters;
            if c.len() > 0 {
                assert(fat_walk(dev, g, fat_at, e, first).clusters[0] == first) by {
                    if fat_at + 4 * first <= u64::MAX {
                        let next = common::le32(dev.read((fat_at + 4 * first) as u64, 4).data, 0);
                        assert(e.push(first)[0] == first);
                        lemma_walk_is_bounded(dev, g, fat_at, e.push(first), next as u64);
                    }
                }
            }
        }
    }
}

/// The two devices hold the same entries for the heap's clusters in the FAT at `fat_at`.
pub open spec fn same_fat(a: Device, b: Device, g: Geometry, fat_at: u64) -> bool {
    forall|off: u64|
        fat_at <= off && off + 4 <= fat_at + 4 * (g.cluster_count + 2) ==> #[trigger] a.read(off, 4)
            == b.read(off, 4)
}

/// A walk depends on the FAT and nothing else that the device holds.
pub proof fn lemma_walk_depends_on_the_fat(
    a: Device,
    b: Device,
    g: Geometry,
    fat_at: u64,
    seen: Seq<u64>,
    cur: u64,
)
    requires
        same_fat(a, b, g, fat_at),
        g.in_heap(cur as int),
    ensures
        fat_walk(a, g, fat_at, seen, cur) == fat_walk(b, g, fat_at, seen, cur),
    decreases MAX_CLUSTER_CHAIN - seen.len(),
{
    if seen.len() < MAX_CLUSTER_CHAIN && !seen.contains(cur) && fat_at + 4 * cur <= u64::MAX {
        let off = (fat_at + 4 * cur) as u64;
        assert(a.read(off, 4) == b.read(off, 4));
        let next = common::le32(a.read(off, 4).data, 0);
        if g.in_heap(next as int) {
            lemma_walk_depends_on_the_fat(a, b, g, fat_at, seen.push(cur), next as u64);
        }
    }
}

/// How many bytes a run list holds.
pub open spec fn bytes_in(runs: Seq<(u64, u64)>) -> int
    decreases runs.len(),
{
    if runs.len() == 0 {
        0
    } else {
        bytes_in(runs.drop_last()) + runs.last().1
    }
}

proof fn lemma_bytes_in_front(runs: Seq<(u64, u64)>)
    requires
        runs.len() > 0,
    ensures
        bytes_in(runs) == runs[0].1 + bytes_in(runs.skip(1)),
        bytes_in(runs.skip(1)) >= 0,
    decreases runs.len(),
{
    if runs.len() > 1 {
        lemma_bytes_in_front(runs.drop_last());
        assert(runs.drop_last().skip(1) =~= runs.skip(1).drop_last());
    } else {
        assert(runs.drop_last() =~= Seq::empty());
        assert(runs.skip(1) =~= Seq::empty());
    }
}

proof fn lemma_abs_of_pushed(front: Seq<(u64, u64)>, last: (u64, u64), i: u64, from: u64)
    requires
        from <= i,
        from + bytes_in(front) + last.1 <= u64::MAX,
    ensures
        bytes_in(front) >= 0,
        abs_from(front.push(last), i, from) == if i < from + bytes_in(front) {
            abs_from(front, i, from)
        } else if i < from + bytes_in(front) + last.1 {
            common::checked(last.0 + (i - from - bytes_in(front)))
        } else {
            None
        },
    decreases front.len(),
{
    let all = front.push(last);
    if front.len() == 0 {
        assert(all.skip(1) =~= Seq::empty());
        assert(abs_from(all.skip(1), i, common::saturated(from + last.1)) is None);
    } else {
        lemma_bytes_in_front(front);
        assert(all.skip(1) =~= front.skip(1).push(last));
        let next = common::saturated(from + front[0].1);
        assert(next == from + front[0].1);
        if i >= next {
            lemma_abs_of_pushed(front.skip(1), last, i, next);
        }
    }
}

/// The bytes of a run list are the bytes of its clusters, in order: byte `i` lies in
/// cluster `i / size` of the list, `i % size` bytes into it, and there is none past the
/// last cluster.
pub proof fn lemma_runs_hold_the_clusters_in_order(g: Geometry, clusters: Seq<u64>, i: u64)
    requires
        g.cluster_size > 0,
        clusters.len() * g.cluster_size <= u64::MAX,
        forall|k: int|
            0 <= k < clusters.len() ==> (g.cluster_at((#[trigger] clusters[k]) as int) matches Some(
                at,
            ) && at + g.cluster_size <= u64::MAX),
    ensures
        i < clusters.len() * g.cluster_size ==> abs_from(runs_of(g, clusters), i, 0) == Some(
            (g.cluster_at(clusters[i as int / g.cluster_size as int] as int).unwrap() + i as int
                % g.cluster_size as int) as u64,
        ),
        i >= clusters.len() * g.cluster_size ==> abs_from(runs_of(g, clusters), i, 0) is None,
{
    lemma_runs_in_order(g, clusters, i);
}

proof fn lemma_runs_in_order(g: Geometry, clusters: Seq<u64>, i: u64)
    requires
        g.cluster_size > 0,
        clusters.len() * g.cluster_size <= u64::MAX,
        forall|k: int|
            0 <= k < clusters.len() ==> (g.cluster_at((#[trigger] clusters[k]) as int) matches Some(
                at,
            ) && at + g.cluster_size <= u64::MAX),
    ensures
        bytes_in(runs_of(g, clusters)) == clusters.len() * g.cluster_size,
        clusters.len() > 0 ==> runs_of(g, clusters).len() > 0 && runs_of(g, clusters).last().0
            + runs_of(g, clusters).last().1 == g.cluster_at(clusters.last() as int).unwrap()
            + g.cluster_size,
        i < clusters.len() * g.cluster_size ==> 0 <= (i as int / g.cluster_size as int)
            < clusters.len() && abs_from(runs_of(g, clusters), i, 0) == Some(
            (g.cluster_at(clusters[i as int / g.cluster_size as int] as int).unwrap() + i as int
                % g.cluster_size as int) as u64,
        ),
        i >= clusters.len() * g.cluster_size ==> abs_from(runs_of(g, clusters), i, 0) is None,
    decreases clusters.len(),
{
    let s = g.cluster_size as int;
    let n = clusters.len() as int;
    if n == 0 {
        assert(n * s == 0) by (nonlinear_arith)
            requires
                n == 0,
        ;
    } else {
        let front = clusters.drop_last();
        let before = runs_of(g, front);
        let runs = runs_of(g, clusters);
        let at = g.cluster_at(clusters.last() as int).unwrap();
        assert((n - 1) * s + s == n * s && (n - 1) * s >= 0) by (nonlinear_arith)
            requires
                n >= 1,
                s >= 0,
        ;
        assert forall|k: int| 0 <= k < front.len() implies (g.cluster_at(
            (#[trigger] front[k]) as int,
        ) matches Some(p) && p + g.cluster_size <= u64::MAX) by {
            assert(front[k] == clusters[k]);
        }
        assert(clusters[n - 1] == clusters.last());
        lemma_runs_in_order(g, front, i);
        let q = i as int / s;
        let r = i as int % s;
        vstd::arithmetic::div_mod::lemma_fundamental_div_mod(i as int, s);
        vstd::arithmetic::div_mod::lemma_mod_bound(i as int, s);
        if (n - 1) * s <= i < n * s {
            vstd::arithmetic::div_mod::lemma_fundamental_div_mod_converse(
                i as int,
                s,
                n - 1,
                i - (n - 1) * s,
            );
        } else if i < (n - 1) * s {
            assert(front[q] == clusters[q]);
        }
        if before.len() > 0 && common::saturated(before.last().0 + before.last().1) == at {
            let a = before.drop_last();
            let old_last = before.last();
            let new_last = (old_last.0, common::saturated(old_last.1 + g.cluster_size));
            assert(before =~= a.push(old_last));
            assert(runs =~= a.push(new_last));
            assert(bytes_in(before) == bytes_in(a) + old_last.1);
            lemma_bytes_nonnegative(a);
            assert(new_last.1 == old_last.1 + s);
            assert(runs.drop_last() =~= a);
            assert(bytes_in(runs) == bytes_in(a) + new_last.1);
            lemma_abs_of_pushed(a, old_last, i, 0);
            lemma_abs_of_pushed(a, new_last, i, 0);
        } else {
            let last = (at, g.cluster_size);
            assert(runs =~= before.push(last));
            assert(runs.drop_last() =~= before);
            lemma_abs_of_pushed(before, last, i, 0);
        }
    }
}

proof fn lemma_bytes_nonnegative(runs: Seq<(u64, u64)>)
    ensures
        bytes_in(runs) >= 0,
    decreases runs.len(),
{
    if runs.len() > 0 {
        lemma_bytes_nonnegative(runs.drop_last());
    }
}

/// When `NoFatChain` is set the FAT is not consulted: what the device holds makes
/// no difference.
pub proof fn lemma_contiguous_ignores_the_fat(
    dev1: Device,
    dev2: Device,
    g: Geometry,
    first: u64,
    byte_len: Option<u64>,
)
    ensures
        chain_of(dev1, g, first, true, byte_len) == chain_of(dev2, g, first, true, byte_len),
{
}

} // verus!
