//! FAT entries and the cluster chains they form.
//!
//! A corrupt FAT describes cycles happily, so every walk is bounded and cycle-proof.

use crate::common;
use crate::common::{read_exact_opt, saturating_mul, u16le, u32le, ChainGuard, Step};
use crate::fat::finding::Finding;
use crate::fat::geometry::Geom;
use crate::fat::kind::FatKind;
use crate::source::{BlockSource, Device};
use crate::text;
use crate::text::Text;
use vstd::prelude::*;

verus! {

// ---------------------------------------------------------------------- entries

/// The value of an entry whose bytes hold `raw`. Two 12-bit entries share three bytes:
/// the odd one is the high part of its two.
pub open spec fn unpacked(kind: FatKind, cluster: int, raw: u32) -> u32 {
    match kind {
        FatKind::Fat12 => if cluster % 2 == 1 {
            raw / 16
        } else {
            raw % 0x1000
        },
        FatKind::Fat16 => raw,
        FatKind::Fat32 => raw % 0x1000_0000,
    }
}

/// The bytes of an entry at `off`, as a number.
pub open spec fn raw_entry(dev: Device, g: Geom, off: u64) -> Option<u32> {
    let r = dev.read(off, g.entry_width());
    if r.refused() || r.data.len() < g.entry_width() {
        None
    } else if g.kind == FatKind::Fat32 {
        Some(common::le32(r.data, 0))
    } else {
        Some(common::le16(r.data, 0) as u32)
    }
}

/// The entry for `cluster` in FAT copy `fat`: nothing past the end of the table, and
/// nothing that the device refused.
pub open spec fn entry_of(dev: Device, g: Geom, fat: int, cluster: int) -> Option<u32> {
    match (g.entry_at(fat, cluster), g.fat_at(fat), g.fat_len()) {
        (Some(off), Some(at), Some(len)) => if at + len <= u64::MAX && off + g.entry_width() <= at
            + len {
            match raw_entry(dev, g, off) {
                Some(raw) => Some(unpacked(g.kind, cluster, raw)),
                None => None,
            }
        } else {
            None
        },
        _ => None,
    }
}

/// Read one FAT entry, masked to the kind's width. `None` when it is off the end of the
/// table or the device refused.
pub fn fat_entry<S: BlockSource>(src: &S, geom: &Geom, fat: u64, cluster: u64) -> (r: Option<u32>)
    ensures
        r == entry_of(src.device(), *geom, fat as int, cluster as int),
{
    let off: u64 = match geom.fat_entry_offset(fat, cluster) {
        Some(v) => v,
        None => {
            return None;
        },
    };
    let (at, len): (u64, u64) = match (geom.fat_offset(fat), geom.fat_bytes()) {
        (Some(at), Some(len)) => (at, len),
        _ => {
            return None;
        },
    };
    let width: u64 = geom.fat_entry_width();
    let end: u64 = match at.checked_add(len) {
        Some(v) => v,
        None => {
            return None;
        },
    };
    if end < width || off > end - width {
        return None;
    }
    let buf: Vec<u8> = match read_exact_opt(src, off, width) {
        Some(v) => v,
        None => {
            return None;
        },
    };
    if (buf.len() as u64) < width {
        return None;
    }
    match geom.kind {
        FatKind::Fat12 => match u16le(&buf, 0) {
            Some(raw) => Some(
                if cluster % 2 == 1 {
                    raw as u32 / 16
                } else {
                    raw as u32 % 0x1000
                },
            ),
            None => None,
        },
        FatKind::Fat16 => match u16le(&buf, 0) {
            Some(raw) => Some(raw as u32),
            None => None,
        },
        FatKind::Fat32 => match u32le(&buf, 0) {
            Some(raw) => Some(raw % 0x1000_0000),
            None => None,
        },
    }
}

/// An entry never holds more than its kind's bits.
pub proof fn lemma_entries_fit_their_kind(dev: Device, g: Geom, fat: int, cluster: int)
    ensures
        entry_of(dev, g, fat, cluster) matches Some(v) ==> v <= g.kind.bits(),
{
}

// ----------------------------------------------------------------------- chains

/// How a cluster chain stopped.
#[derive(Clone, Copy, Debug, PartialEq, Eq, Structural)]
pub enum ChainEnd {
    /// An end-of-chain marker: the normal, healthy ending.
    Eoc(u32),
    /// The chain ran into a cluster marked unusable.
    Bad(u64),
    /// The next entry reads as free. On a live file this is corruption; on a deleted
    /// one it is simply what deletion does.
    Free(u64),
    /// The next cluster number is outside the volume.
    OutOfRange(u64),
    /// The chain revisits a cluster it has already used.
    Loop(u64),
    /// Stopped at the traversal limit rather than at a marker.
    Truncated,
    /// The FAT could not be read.
    Unreadable(u64),
}

/// Where the entry after `cur` leads: to another cluster, or to the end.
pub open spec fn after(dev: Device, g: Geom, cur: u64) -> Result<u64, ChainEnd> {
    match entry_of(dev, g, 0, cur as int) {
        None => Err(ChainEnd::Unreadable(cur)),
        Some(next) => if next >= g.kind.eoc() {
            Err(ChainEnd::Eoc(next))
        } else if next == g.kind.bad() {
            Err(ChainEnd::Bad(cur))
        } else if next == 0 {
            Err(ChainEnd::Free(cur))
        } else {
            Ok(next as u64)
        },
    }
}

/// The chain from `cur` on, `seen` being the `n` clusters visited so far.
pub open spec fn chain_from(
    dev: Device,
    g: Geom,
    cur: u64,
    seen: Set<u64>,
    n: nat,
    limit: nat,
) -> (Seq<u64>, ChainEnd)
    decreases limit + 1 - n,
{
    if !g.in_range(cur as int) {
        (Seq::empty(), ChainEnd::OutOfRange(cur))
    } else if n >= limit {
        (Seq::empty(), ChainEnd::Truncated)
    } else if seen.contains(cur) {
        (Seq::empty(), ChainEnd::Loop(cur))
    } else {
        match after(dev, g, cur) {
            Err(end) => (seq![cur], end),
            Ok(next) => {
                let rest = chain_from(dev, g, next, seen.insert(cur), n + 1, limit);
                (seq![cur] + rest.0, rest.1)
            },
        }
    }
}

/// The chain that starts at `start`, no longer than `limit`.
pub open spec fn chain_of(dev: Device, g: Geom, start: u64, limit: nat) -> (Seq<u64>, ChainEnd) {
    chain_from(dev, g, start, Set::empty(), 0, limit)
}

/// Follow a cluster chain from `start`, bounded and cycle-proof.
pub fn follow_chain<S: BlockSource>(src: &S, geom: &Geom, start: u64, limit: usize) -> (r: (
    Vec<u64>,
    ChainEnd,
))
    ensures
        (r.0@, r.1) == chain_of(src.device(), *geom, start, limit as nat),
{
    let ghost dev = src.device();
    let mut out: Vec<u64> = Vec::new();
    let mut guard = ChainGuard::new(limit);
    let mut cur: u64 = start;
    let ghost whole = chain_of(dev, *geom, start, limit as nat);
    let mut n: usize = 0;
    loop
        invariant
            dev == src.device(),
            whole == chain_of(dev, *geom, start, limit as nat),
            guard.limit() == limit,
            guard.seen().len() == n,
            guard.seen().finite(),
            n <= limit,
            ({
                let rest = chain_from(dev, *geom, cur, guard.seen(), n as nat, limit as nat);
                whole.0 =~= out@ + rest.0 && whole.1 == rest.1
            }),
        decreases limit - n,
    {
        if !geom.cluster_in_range(cur) {
            assert(out@ =~= whole.0);
            return (out, ChainEnd::OutOfRange(cur));
        }
        match guard.visit(cur) {
            Step::Continue => {},
            Step::Loop => {
                assert(out@ =~= whole.0);
                return (out, ChainEnd::Loop(cur));
            },
            Step::TooLong => {
                assert(out@ =~= whole.0);
                return (out, ChainEnd::Truncated);
            },
        }
        out.push(cur);
        let next: u32 = match fat_entry(src, geom, 0, cur) {
            Some(v) => v,
            None => {
                assert(out@ =~= whole.0);
                return (out, ChainEnd::Unreadable(cur));
            },
        };
        if next >= geom.kind.eoc_min() {
            assert(out@ =~= whole.0);
            return (out, ChainEnd::Eoc(next));
        }
        if next == geom.kind.bad_mark() {
            assert(out@ =~= whole.0);
            return (out, ChainEnd::Bad(cur));
        }
        if next == 0 {
            assert(out@ =~= whole.0);
            return (out, ChainEnd::Free(cur));
        }
        cur = next as u64;
        n += 1;
    }
}

/// What the end of a chain says of the last entry that was read, `c` being the clusters
/// of the chain: which marker it holds, or where it leads.
pub open spec fn end_is_told(
    dev: Device,
    g: Geom,
    start: u64,
    c: Seq<u64>,
    limit: nat,
    end: ChainEnd,
) -> bool {
    let last = entry_of(dev, g, 0, c.last() as int);
    match end {
        ChainEnd::Eoc(v) => c.len() > 0 && last == Some(v) && v >= g.kind.eoc(),
        ChainEnd::Bad(k) => c.len() > 0 && k == c.last() && last == Some(g.kind.bad()),
        ChainEnd::Free(k) => c.len() > 0 && k == c.last() && last == Some(0u32),
        ChainEnd::Unreadable(k) => c.len() > 0 && k == c.last() && last is None,
        ChainEnd::OutOfRange(k) => !g.in_range(k as int) && leads_to(dev, g, start, c, k),
        ChainEnd::Loop(k) => c.contains(k) && leads_to(dev, g, start, c, k),
        ChainEnd::Truncated => c.len() == limit && exists|k: u64|
            g.in_range(k as int) && #[trigger] leads_to(dev, g, start, c, k),
    }
}

/// `k` is the cluster after the chain `c`: the start, where the chain is empty.
pub open spec fn leads_to(dev: Device, g: Geom, start: u64, c: Seq<u64>, k: u64) -> bool {
    if c.len() == 0 {
        k == start
    } else {
        after(dev, g, c.last()) == Ok::<u64, ChainEnd>(k)
    }
}

/// Whatever the FAT holds, a chain ends: it is no longer than its limit, every cluster
/// in it exists, none occurs twice, and each is the one that the FAT names after the
/// one before. How it ended is what the entry of its last cluster says.
pub proof fn lemma_chain_is_sound(dev: Device, g: Geom, start: u64, limit: nat)
    ensures
        ({
            let c = chain_of(dev, g, start, limit).0;
            &&& c.len() <= limit
            &&& forall|i: int| 0 <= i < c.len() ==> g.in_range((#[trigger] c[i]) as int)
            &&& forall|i: int, j: int| 0 <= i < j < c.len() ==> c[i] != c[j]
            &&& c.len() > 0 ==> c[0] == start
            &&& forall|i: int|
                0 < i < c.len() ==> after(dev, g, c[i - 1]) == Ok::<u64, ChainEnd>(
                    #[trigger] c[i],
                )
            &&& end_is_told(dev, g, start, c, limit, chain_of(dev, g, start, limit).1)
        }),
{
    lemma_rest_is_sound(dev, g, start, Set::empty(), 0, limit);
    lemma_rest_end_is_told(dev, g, start, Set::empty(), 0, limit);
}

proof fn lemma_rest_end_is_told(dev: Device, g: Geom, cur: u64, seen: Set<u64>, n: nat, limit: nat)
    requires
        n <= limit,
    ensures
        ({
            let (c, end) = chain_from(dev, g, cur, seen, n, limit);
            match end {
                ChainEnd::Loop(k) => (seen.contains(k) || c.contains(k)) && leads_to(
                    dev,
                    g,
                    cur,
                    c,
                    k,
                ),
                _ => end_is_told(dev, g, cur, c, (limit - n) as nat, end),
            }
        }),
    decreases limit + 1 - n,
{
    let (c, end) = chain_from(dev, g, cur, seen, n, limit);
    if !g.in_range(cur as int) {
    } else if n >= limit {
        assert(leads_to(dev, g, cur, c, cur));
    } else if !seen.contains(cur) {
        match after(dev, g, cur) {
            Err(e) => {
                assert(c.last() == cur);
            },
            Ok(next) => {
                lemma_rest_end_is_told(dev, g, next, seen.insert(cur), n + 1, limit);
                let (rest, last) = chain_from(dev, g, next, seen.insert(cur), n + 1, limit);
                assert(c == seq![cur] + rest && end == last);
                assert(c[0] == cur);
                if rest.len() > 0 {
                    assert(c.last() == rest.last());
                } else {
                    assert(c.last() == cur);
                }
                assert forall|k: u64| #[trigger] leads_to(dev, g, next, rest, k) implies leads_to(
                    dev,
                    g,
                    cur,
                    c,
                    k,
                ) by {}
                if let ChainEnd::Loop(k) = end {
                    if rest.contains(k) {
                        let i = choose|i: int| 0 <= i < rest.len() && rest[i] == k;
                        assert(c[i + 1] == k);
                    }
                }
            },
        }
    }
}

proof fn lemma_rest_is_sound(dev: Device, g: Geom, cur: u64, seen: Set<u64>, n: nat, limit: nat)
    requires
        n <= limit,
    ensures
        ({
            let c = chain_from(dev, g, cur, seen, n, limit).0;
            &&& c.len() <= limit - n
            &&& forall|i: int|
                0 <= i < c.len() ==> g.in_range((#[trigger] c[i]) as int) && !seen.contains(c[i])
            &&& forall|i: int, j: int| 0 <= i < j < c.len() ==> c[i] != c[j]
            &&& c.len() > 0 ==> c[0] == cur
            &&& forall|i: int|
                0 < i < c.len() ==> after(dev, g, c[i - 1]) == Ok::<u64, ChainEnd>(
                    #[trigger] c[i],
                )
        }),
    decreases limit + 1 - n,
{
    if g.in_range(cur as int) && n < limit && !seen.contains(cur) {
        if let Ok(next) = after(dev, g, cur) {
            lemma_rest_is_sound(dev, g, next, seen.insert(cur), n + 1, limit);
            let c = chain_from(dev, g, cur, seen, n, limit).0;
            let rest = chain_from(dev, g, next, seen.insert(cur), n + 1, limit).0;
            assert(c =~= seq![cur] + rest);
            assert forall|i: int| 0 < i < c.len() implies c[i] == rest[i - 1] by {}
            assert forall|i: int| 0 < i < c.len() implies after(dev, g, c[i - 1]) == Ok::<
                u64,
                ChainEnd,
            >(#[trigger] c[i]) by {
                if i > 1 {
                    assert(c[i - 1] == rest[i - 2]);
                    assert(rest[i - 1] == c[i]);
                }
            }
        }
    }
}

/// The two devices hold the same entries in FAT #0.
pub open spec fn same_fat(a: Device, b: Device, g: Geom) -> bool {
    forall|off: u64|
        (g.fat_at(0) matches Some(at) && g.fat_len() matches Some(len) && at <= off && off
            + g.entry_width() <= at + len) ==> #[trigger] a.read(off, g.entry_width()) == b.read(
            off,
            g.entry_width(),
        )
}

/// A chain depends on FAT #0 and nothing else that the device holds.
pub proof fn lemma_chain_depends_on_the_fat(a: Device, b: Device, g: Geom, start: u64, limit: nat)
    requires
        same_fat(a, b, g),
    ensures
        chain_of(a, g, start, limit) == chain_of(b, g, start, limit),
{
    lemma_rest_depends_on_the_fat(a, b, g, start, Set::empty(), 0, limit);
}

proof fn lemma_rest_depends_on_the_fat(
    a: Device,
    b: Device,
    g: Geom,
    cur: u64,
    seen: Set<u64>,
    n: nat,
    limit: nat,
)
    requires
        same_fat(a, b, g),
    ensures
        chain_from(a, g, cur, seen, n, limit) == chain_from(b, g, cur, seen, n, limit),
    decreases limit + 1 - n,
{
    if g.in_range(cur as int) && n < limit && !seen.contains(cur) {
        assert(after(a, g, cur) == after(b, g, cur)) by {
            if let (Some(off), Some(at), Some(len)) = (
                g.entry_at(0, cur as int),
                g.fat_at(0),
                g.fat_len(),
            ) {
                assert(at <= off);
                if off + g.entry_width() <= at + len {
                    assert(a.read(off, g.entry_width()) == b.read(off, g.entry_width()));
                }
            }
        }
        if let Ok(next) = after(a, g, cur) {
            lemma_rest_depends_on_the_fat(a, b, g, next, seen.insert(cur), n + 1, limit);
        }
    }
}

// ---------------------------------------------------------------------- summary

/// One line describing how a chain ran and how it stopped.
#[derive(Debug)]
pub struct ChainSummary {
    pub label: String,
    pub clusters: u64,
    pub finding: Finding,
}

/// What a [`ChainSummary`] says.
pub struct ChainSummaryModel {
    pub label: Seq<char>,
    pub clusters: nat,
    pub finding: Finding,
}

impl View for ChainSummary {
    type V = ChainSummaryModel;

    open spec fn view(&self) -> ChainSummaryModel {
        ChainSummaryModel {
            label: self.label@,
            clusters: self.clusters as nat,
            finding: self.finding,
        }
    }
}

/// What is said of how a chain stopped.
pub open spec fn end_finding(g: Geom, end: ChainEnd) -> Finding {
    match end {
        ChainEnd::Eoc(value) => Finding::ChainEnds { value },
        ChainEnd::Bad(cluster) => Finding::ChainBad { cluster },
        ChainEnd::Free(cluster) => Finding::ChainFree { cluster },
        ChainEnd::OutOfRange(cluster) => Finding::ChainOutside { cluster, last: g.last() },
        ChainEnd::Loop(cluster) => Finding::ChainLoops { cluster },
        ChainEnd::Truncated => Finding::ChainTruncated,
        ChainEnd::Unreadable(cluster) => Finding::ChainUnreadable { cluster },
    }
}

/// The summary of a chain of `n` clusters.
pub open spec fn summary_of(g: Geom, n: nat, end: ChainEnd, what: Seq<char>) -> ChainSummaryModel {
    ChainSummaryModel {
        label: what + ": "@ + text::dec(n as int) + " clusters ("@ + text::dec(
            common::saturated(n * g.bytes_per_cluster) as int,
        ) + " bytes)"@,
        clusters: n,
        finding: end_finding(g, end),
    }
}

/// Summarise a chain.
pub fn chain_summary(g: &Geom, clusters: &[u64], end: ChainEnd, what: &str) -> (r: ChainSummary)
    ensures
        r@ == summary_of(*g, clusters@.len(), end, what@),
{
    let n: u64 = clusters.len() as u64;
    let bytes: u64 = saturating_mul(n, g.bytes_per_cluster);
    let finding = match end {
        ChainEnd::Eoc(value) => Finding::ChainEnds { value },
        ChainEnd::Bad(cluster) => Finding::ChainBad { cluster },
        ChainEnd::Free(cluster) => Finding::ChainFree { cluster },
        ChainEnd::OutOfRange(cluster) => Finding::ChainOutside { cluster, last: g.last_cluster() },
        ChainEnd::Loop(cluster) => Finding::ChainLoops { cluster },
        ChainEnd::Truncated => Finding::ChainTruncated,
        ChainEnd::Unreadable(cluster) => Finding::ChainUnreadable { cluster },
    };
    ChainSummary {
        label: Text::of(what).lit(": ").dec(n).lit(" clusters (").dec(bytes).lit(" bytes)").done(),
        clusters: n,
        finding,
    }
}

// ---------------------------------------------------------------------- listing

/// Clusters followed for one file's chain.
pub const MAX_CHAIN_CLUSTERS: usize = 65536;

/// Clusters listed for one file's chain.
pub const MAX_CHAIN_ROWS: usize = 1024;

/// A file's cluster chain, before it is expanded.
#[derive(Clone, Copy, Debug, PartialEq, Eq, Structural)]
pub struct ChainExpander {
    pub geom: Geom,
    pub start: u64,
}

/// One cluster of a file's data.
#[derive(Clone, Copy, Debug, PartialEq, Eq, Structural)]
pub struct ChainRow {
    pub index: u64,
    pub cluster: u64,
    /// Where the cluster is.
    pub at: Option<u64>,
}

impl ChainRow {
    /// What the row is called.
    pub fn label(&self) -> (r: String)
        ensures
            r@ == "["@ + text::dec(self.index as int) + "] cluster "@ + text::dec(
                self.cluster as int,
            ),
    {
        Text::of("[").dec(self.index).lit("] cluster ").dec(self.cluster).done()
    }
}

/// A file's cluster chain, expanded.
#[derive(Debug)]
pub struct ChainListing {
    pub summary: ChainSummary,
    pub rows: Vec<ChainRow>,
    /// Clusters that are not listed.
    pub hidden: u64,
}

impl ChainListing {
    /// What the row for the clusters that are not listed is called, where there are any.
    pub fn hidden_label(&self) -> (r: Option<String>)
        ensures
            match r {
                Some(s) => self.hidden > 0 && s@ == "... "@ + text::dec(self.hidden as int)
                    + " further clusters not shown"@,
                None => self.hidden == 0,
            },
    {
        if self.hidden > 0 {
            Some(Text::of("... ").dec(self.hidden).lit(" further clusters not shown").done())
        } else {
            None
        }
    }
}

/// What a [`ChainListing`] says.
pub struct ChainListingModel {
    pub summary: ChainSummaryModel,
    pub rows: Seq<ChainRow>,
    pub hidden: int,
}

impl View for ChainListing {
    type V = ChainListingModel;

    open spec fn view(&self) -> ChainListingModel {
        ChainListingModel {
            summary: self.summary@,
            rows: self.rows@,
            hidden: self.hidden as int,
        }
    }
}

impl ChainExpander {
    /// The listing of the chain.
    pub open spec fn listing(self, dev: Device) -> ChainListingModel {
        let (clusters, end) = chain_of(dev, self.geom, self.start, MAX_CHAIN_CLUSTERS as nat);
        let shown = if clusters.len() <= MAX_CHAIN_ROWS {
            clusters.len()
        } else {
            MAX_CHAIN_ROWS as nat
        };
        ChainListingModel {
            summary: summary_of(self.geom, clusters.len(), end, "chain"@),
            rows: Seq::new(
                shown,
                |i: int|
                    ChainRow {
                        index: i as u64,
                        cluster: clusters[i],
                        at: self.geom.cluster_at(clusters[i] as int),
                    },
            ),
            hidden: clusters.len() - shown,
        }
    }

    /// Follow the chain and list its first clusters.
    pub fn expand<S: BlockSource>(&self, src: &S) -> (r: ChainListing)
        ensures
            r@ == self.listing(src.device()),
    {
        let ghost want = self.listing(src.device());
        let (clusters, end): (Vec<u64>, ChainEnd) = follow_chain(
            src,
            &self.geom,
            self.start,
            MAX_CHAIN_CLUSTERS,
        );
        let shown: usize = if clusters.len() <= MAX_CHAIN_ROWS {
            clusters.len()
        } else {
            MAX_CHAIN_ROWS
        };
        let mut rows: Vec<ChainRow> = Vec::new();
        let mut i: usize = 0;
        while i < shown
            invariant
                i <= shown <= clusters@.len(),
                want == self.listing(src.device()),
                clusters@ == chain_of(
                    src.device(),
                    self.geom,
                    self.start,
                    MAX_CHAIN_CLUSTERS as nat,
                ).0,
                shown == want.rows.len(),
                rows@ =~= want.rows.take(i as int),
            decreases shown - i,
        {
            let cluster: u64 = clusters[i];
            rows.push(
                ChainRow { index: i as u64, cluster, at: self.geom.cluster_to_byte(cluster) },
            );
            i += 1;
        }
        assert(rows@ =~= want.rows);
        ChainListing {
            summary: chain_summary(&self.geom, &clusters, end, "chain"),
            rows,
            hidden: (clusters.len() - shown) as u64,
        }
    }
}

} // verus!
