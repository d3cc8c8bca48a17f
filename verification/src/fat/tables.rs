//! The allocation tables: the head of each, and whether the copies agree.

use crate::common;
use crate::common::{min_u64, read_exact_opt, saturating_mul};
use crate::extent::Span;
use crate::fat::chain;
use crate::fat::chain::fat_entry;
use crate::fat::finding;
use crate::fat::finding::{note, Finding};
use crate::fat::geometry::Geom;
use crate::fat::kind::FatKind;
use crate::source::{BlockSource, Device};
use crate::text;
use crate::text::Text;
use vstd::prelude::*;

verus! {

/// FAT entries decoded when a table is expanded.
pub const PREVIEW_ENTRIES: u64 = 64;

/// Copies that are looked at.
pub const MAX_COPIES: u64 = 8;

/// Differing bytes reported when two tables disagree. The first few identify the
/// damage; the rest would just be a long list.
pub const MAX_FAT_DIFFS: usize = 16;

/// Bytes of each table compared before giving up.
pub const MAX_COMPARE_BYTES: u64 = 0x100_0000;

/// Bytes compared at a time.
pub const COMPARE_CHUNK: u64 = 0x1_0000;

// ---------------------------------------------------------------------- preview

/// The first few entries of one table, before they are decoded.
#[derive(Clone, Copy, Debug, PartialEq, Eq, Structural)]
pub struct FatPreview {
    pub geom: Geom,
    pub fat: u64,
}

/// A readable entry: the bytes it touches and what it holds.
#[derive(Clone, Copy, Debug, PartialEq, Eq, Structural)]
pub struct Decoded {
    pub span: Span,
    pub value: u32,
}

/// One decoded entry.
#[derive(Clone, Copy, Debug, PartialEq, Eq, Structural)]
pub struct PreviewRow {
    pub cluster: u64,
    /// The entry, where it was readable.
    pub entry: Option<Decoded>,
    pub finding: Option<Finding>,
    /// Said in addition.
    pub also: Option<Finding>,
}

impl PreviewRow {
    /// What the row is called.
    pub fn label(&self) -> (r: String)
        ensures
            r@ == "entry["@ + text::dec(self.cluster as int) + "]"@,
    {
        Text::of("entry[").dec(self.cluster).lit("]").done()
    }
}

/// The head of a table, decoded.
#[derive(Debug)]
pub struct Preview {
    pub rows: Vec<PreviewRow>,
    /// Entries that are not shown.
    pub hidden: u64,
}

impl Preview {
    /// What the row for the entries that are not shown is called. It is there even when
    /// there are none.
    pub fn hidden_label(&self) -> (r: String)
        ensures
            r@ == "... "@ + text::dec(self.hidden as int) + " further entries not shown"@,
    {
        Text::of("... ").dec(self.hidden).lit(" further entries not shown").done()
    }
}

/// What is said of the entry `v` for `cluster`.
pub open spec fn value_finding(g: Geom, cluster: int, v: u32) -> Option<Finding> {
    if cluster == 0 {
        Some(Finding::MediaEntry { media: (v % 0x100) as u64 })
    } else if cluster == 1 {
        Some(Finding::SecondEntry)
    } else if v == 0 {
        Some(Finding::FreeEntry)
    } else if v == g.kind.bad() {
        Some(Finding::BadEntry { cluster: cluster as u64 })
    } else if v >= g.kind.eoc() {
        Some(Finding::EndEntry)
    } else if !g.in_range(v as int) {
        Some(Finding::EntryOutside { value: v, last: g.last() })
    } else {
        None
    }
}

impl FatPreview {
    /// The row for `cluster`, where it has one.
    pub open spec fn row(self, dev: Device, cluster: int) -> Option<PreviewRow> {
        let g = self.geom;
        match g.entry_at(self.fat as int, cluster) {
            None => None,
            Some(at) => if dev.read(at, g.entry_width()).refused() {
                Some(
                    PreviewRow {
                        cluster: cluster as u64,
                        entry: None,
                        finding: Some(Finding::EntryUnreadable { cluster: cluster as u64, at }),
                        also: None,
                    },
                )
            } else {
                match chain::entry_of(dev, g, self.fat as int, cluster) {
                    None => None,
                    Some(v) => Some(
                        PreviewRow {
                            cluster: cluster as u64,
                            entry: Some(Decoded { span: Span::of_bytes(at, g.entry_width()), value: v }),
                            finding: value_finding(g, cluster, v),
                            also: if cluster == 1 && g.kind == FatKind::Fat32 && (v
                                / 0x0800_0000) % 2 == 0 {
                                Some(Finding::VolumeDirty)
                            } else {
                                None
                            },
                        },
                    ),
                }
            },
        }
    }

    /// The rows for the clusters below `n`.
    pub open spec fn rows(self, dev: Device, n: nat) -> Seq<PreviewRow>
        decreases n,
    {
        if n == 0 {
            Seq::empty()
        } else {
            let before = self.rows(dev, (n - 1) as nat);
            match self.row(dev, n - 1) {
                Some(r) => before.push(r),
                None => before,
            }
        }
    }

    /// The last cluster that is decoded.
    pub open spec fn last_shown(self) -> u64 {
        let end = common::saturated(self.geom.last() + 1);
        if end < PREVIEW_ENTRIES {
            end
        } else {
            PREVIEW_ENTRIES
        }
    }

    fn read_row<S: BlockSource>(&self, src: &S, cluster: u64) -> (r: Option<PreviewRow>)
        ensures
            r == self.row(src.device(), cluster as int),
    {
        let g = &self.geom;
        let at: u64 = match g.fat_entry_offset(self.fat, cluster) {
            Some(at) => at,
            None => {
                return None;
            },
        };
        let width: u64 = g.fat_entry_width();
        if read_exact_opt(src, at, width).is_none() {
            return Some(
                PreviewRow {
                    cluster,
                    entry: None,
                    finding: Some(Finding::EntryUnreadable { cluster, at }),
                    also: None,
                },
            );
        }
        let v: u32 = match fat_entry(src, g, self.fat, cluster) {
            Some(v) => v,
            None => {
                return None;
            },
        };
        let finding: Option<Finding> = if cluster == 0 {
            Some(Finding::MediaEntry { media: (v % 0x100) as u64 })
        } else if cluster == 1 {
            Some(Finding::SecondEntry)
        } else if v == 0 {
            Some(Finding::FreeEntry)
        } else if v == g.kind.bad_mark() {
            Some(Finding::BadEntry { cluster })
        } else if v >= g.kind.eoc_min() {
            Some(Finding::EndEntry)
        } else if !g.cluster_in_range(v as u64) {
            Some(Finding::EntryOutside { value: v, last: g.last_cluster() })
        } else {
            None
        };
        let also: Option<Finding> = if cluster == 1 && g.kind == FatKind::Fat32 && (v / 0x0800_0000)
            % 2 == 0 {
            Some(Finding::VolumeDirty)
        } else {
            None
        };
        Some(PreviewRow { cluster, entry: Some(Decoded { span: Span::bytes(at, width), value: v }), finding, also })
    }

    /// About how many rows expanding gives: the entries, and one for what is not shown.
    pub fn hint_len(&self) -> (r: Option<usize>)
        ensures
            r == Some((PREVIEW_ENTRIES + 1) as usize),
    {
        Some(PREVIEW_ENTRIES as usize + 1)
    }

    /// Decode the head of the table.
    pub fn expand<S: BlockSource>(&self, src: &S) -> (r: Preview)
        ensures
            r.rows@ == self.rows(src.device(), (self.last_shown() + 1) as nat),
            r.hidden == if self.geom.last() > self.last_shown() {
                self.geom.last() - self.last_shown()
            } else {
                0
            },
    {
        let end: u64 = self.geom.last_cluster();
        let last: u64 = min_u64(PREVIEW_ENTRIES, end.saturating_add(1));
        let mut rows: Vec<PreviewRow> = Vec::new();
        let mut c: u64 = 0;
        while c <= last
            invariant
                c <= last + 1,
                last <= PREVIEW_ENTRIES,
                rows@ == self.rows(src.device(), c as nat),
            decreases last + 1 - c,
        {
            if let Some(r) = self.read_row(src, c) {
                rows.push(r);
            }
            c += 1;
        }
        Preview { rows, hidden: end.saturating_sub(last) }
    }
}

// ------------------------------------------------------------------- comparison

/// One byte that differs between two tables.
#[derive(Clone, Copy, Debug, PartialEq, Eq, Structural)]
pub struct ByteDiff {
    /// Offset within the table.
    pub off: u64,
    pub a: u8,
    pub b: u8,
}

/// Two chunks' differing bytes, from byte `i` on, added to those found so far until
/// there are enough.
pub open spec fn chunk_diffs(
    a: Seq<u8>,
    b: Seq<u8>,
    base: int,
    i: nat,
    n: nat,
    diffs: Seq<ByteDiff>,
) -> Seq<ByteDiff>
    decreases n - i,
{
    if i >= n || diffs.len() >= MAX_FAT_DIFFS {
        diffs
    } else if a[i as int] != b[i as int] {
        chunk_diffs(
            a,
            b,
            base,
            i + 1,
            n,
            diffs.push(ByteDiff { off: (base + i) as u64, a: a[i as int], b: b[i as int] }),
        )
    } else {
        chunk_diffs(a, b, base, i + 1, n, diffs)
    }
}

/// What a comparison found: the differing bytes, how far it got, and whether a read
/// stopped it.
pub struct Scan {
    pub diffs: Seq<ByteDiff>,
    pub scanned: int,
    pub stopped: bool,
}

/// The smaller of two lengths.
pub open spec fn shorter(a: Seq<u8>, b: Seq<u8>) -> nat {
    if a.len() <= b.len() {
        a.len()
    } else {
        b.len()
    }
}

/// The comparison of two tables from byte `scanned` on.
pub open spec fn scan_from(
    dev: Device,
    at_a: u64,
    at_b: u64,
    limit: int,
    scanned: int,
    diffs: Seq<ByteDiff>,
) -> Scan
    decreases limit - scanned,
{
    if scanned >= limit || diffs.len() >= MAX_FAT_DIFFS {
        Scan { diffs, scanned, stopped: false }
    } else {
        let want = if limit - scanned < COMPARE_CHUNK {
            (limit - scanned) as u64
        } else {
            COMPARE_CHUNK
        };
        let a = dev.read(common::saturated(at_a + scanned), want);
        let b = dev.read(common::saturated(at_b + scanned), want);
        if a.refused() || b.refused() {
            Scan { diffs, scanned, stopped: true }
        } else {
            let n = shorter(a.data, b.data);
            let more = chunk_diffs(a.data, b.data, scanned, 0, n, diffs);
            if n < want {
                Scan { diffs: more, scanned, stopped: true }
            } else {
                scan_from(dev, at_a, at_b, limit, scanned + want, more)
            }
        }
    }
}

/// The comparison of two tables of `len` bytes, as far as it goes.
pub open spec fn scan_of(dev: Device, at_a: u64, at_b: u64, len: u64) -> Scan {
    scan_from(
        dev,
        at_a,
        at_b,
        if len < MAX_COMPARE_BYTES {
            len as int
        } else {
            MAX_COMPARE_BYTES as int
        },
        0,
        Seq::empty(),
    )
}

fn add_diffs(a: &[u8], b: &[u8], base: u64, diffs: &mut Vec<ByteDiff>)
    requires
        base <= MAX_COMPARE_BYTES,
        a@.len() <= COMPARE_CHUNK,
    ensures
        final(diffs)@ == chunk_diffs(a@, b@, base as int, 0, shorter(a@, b@), old(diffs)@),
{
    let n: usize = if a.len() <= b.len() { a.len() } else { b.len() };
    let ghost whole = chunk_diffs(a@, b@, base as int, 0, n as nat, diffs@);
    let mut i: usize = 0;
    while i < n && diffs.len() < MAX_FAT_DIFFS
        invariant
            i <= n,
            n <= a@.len() <= COMPARE_CHUNK,
            n <= b@.len(),
            base <= MAX_COMPARE_BYTES,
            whole == chunk_diffs(a@, b@, base as int, i as nat, n as nat, diffs@),
        decreases n - i,
    {
        if a[i] != b[i] {
            diffs.push(ByteDiff { off: base + i as u64, a: a[i], b: b[i] });
        }
        i += 1;
    }
}

fn scan<S: BlockSource>(src: &S, at_a: u64, at_b: u64, len: u64) -> (r: (
    Vec<ByteDiff>,
    u64,
    bool,
))
    ensures
        ({
            let s = scan_of(src.device(), at_a, at_b, len);
            &&& r.0@ == s.diffs
            &&& r.1 == s.scanned
            &&& r.2 == s.stopped
        }),
{
    let ghost dev = src.device();
    let limit: u64 = min_u64(len, MAX_COMPARE_BYTES);
    let ghost whole = scan_of(dev, at_a, at_b, len);
    let mut diffs: Vec<ByteDiff> = Vec::new();
    let mut scanned: u64 = 0;
    assert(diffs@ =~= Seq::empty());
    while scanned < limit && diffs.len() < MAX_FAT_DIFFS
        invariant
            dev == src.device(),
            scanned <= limit <= MAX_COMPARE_BYTES,
            whole == scan_from(dev, at_a, at_b, limit as int, scanned as int, diffs@),
            whole == scan_of(dev, at_a, at_b, len),
        decreases limit - scanned,
    {
        let want: u64 = min_u64(COMPARE_CHUNK, limit - scanned);
        let (a, a_outcome) = src.read_vec(at_a.saturating_add(scanned), want);
        let (b, b_outcome) = src.read_vec(at_b.saturating_add(scanned), want);
        if a_outcome == crate::source::ReadOutcome::Unreadable || b_outcome
            == crate::source::ReadOutcome::Unreadable {
            return (diffs, scanned, true);
        }
        add_diffs(&a, &b, scanned, &mut diffs);
        let n: usize = if a.len() <= b.len() { a.len() } else { b.len() };
        if (n as u64) < want {
            return (diffs, scanned, true);
        }
        scanned += want;
    }
    (diffs, scanned, false)
}

/// The comparison of one table against another.
#[derive(Debug)]
pub struct TableComparison {
    pub a: u64,
    pub b: u64,
    /// Where the two tables are, where they can be addressed.
    pub spans: Option<(Span, Span)>,
    pub diffs: Vec<ByteDiff>,
    pub scanned: u64,
    /// Whether the tables agree as far as they were compared.
    pub matches: Option<bool>,
    pub findings: Vec<Finding>,
}

/// What a [`TableComparison`] says.
pub struct TableComparisonModel {
    pub a: u64,
    pub b: u64,
    pub spans: Option<(Span, Span)>,
    pub diffs: Seq<ByteDiff>,
    pub scanned: int,
    pub matches: Option<bool>,
    pub findings: Seq<Finding>,
}

impl View for TableComparison {
    type V = TableComparisonModel;

    open spec fn view(&self) -> TableComparisonModel {
        TableComparisonModel {
            a: self.a,
            b: self.b,
            spans: self.spans,
            diffs: self.diffs@,
            scanned: self.scanned as int,
            matches: self.matches,
            findings: self.findings@,
        }
    }
}

/// What is said of a comparison.
pub open spec fn verdict(s: Scan, len: u64) -> Finding {
    let scanned = s.scanned as u64;
    let count = s.diffs.len() as u64;
    if s.diffs.len() == 0 {
        if s.scanned >= len {
            Finding::TablesAgree { bytes: len }
        } else {
            Finding::TablesAgreeSoFar { scanned, bytes: len }
        }
    } else if s.diffs.len() >= MAX_FAT_DIFFS {
        Finding::TablesDisagreeAtLeast { count, scanned }
    } else {
        Finding::TablesDisagree { count, scanned }
    }
}

/// The comparison of FAT #`a` with FAT #`b`, each `len` bytes long.
pub open spec fn comparison_of(dev: Device, g: Geom, a: u64, b: u64, len: u64) -> TableComparisonModel {
    match (g.fat_at(a as int), g.fat_at(b as int)) {
        (Some(at_a), Some(at_b)) => {
            let s = scan_of(dev, at_a, at_b, len);
            TableComparisonModel {
                a,
                b,
                spans: Some((Span::of_bytes(at_a, len), Span::of_bytes(at_b, len))),
                diffs: s.diffs,
                scanned: s.scanned,
                matches: Some(s.diffs.len() == 0),
                findings: finding::when(
                    s.stopped,
                    Finding::CompareStopped { scanned: s.scanned as u64 },
                ).push(verdict(s, len)),
            }
        },
        _ => TableComparisonModel {
            a,
            b,
            spans: None,
            diffs: Seq::empty(),
            scanned: 0,
            matches: None,
            findings: seq![Finding::FatPast],
        },
    }
}

/// Compare two tables, bounded in both work and output.
pub fn compare_fats<S: BlockSource>(src: &S, g: &Geom, a: u64, b: u64, len: u64) -> (r:
    TableComparison)
    ensures
        r@ == comparison_of(src.device(), *g, a, b, len),
{
    if let (Some(at_a), Some(at_b)) = (g.fat_offset(a), g.fat_offset(b)) {
        let (diffs, scanned, stopped): (Vec<ByteDiff>, u64, bool) = scan(src, at_a, at_b, len);
        let mut findings: Vec<Finding> = Vec::new();
        note(&mut findings, stopped, Finding::CompareStopped { scanned });
        let count: u64 = diffs.len() as u64;
        let ghost start = findings@;
        if diffs.len() == 0 {
            findings.push(
                if scanned >= len {
                    Finding::TablesAgree { bytes: len }
                } else {
                    Finding::TablesAgreeSoFar { scanned, bytes: len }
                },
            );
        } else if diffs.len() >= MAX_FAT_DIFFS {
            findings.push(Finding::TablesDisagreeAtLeast { count, scanned });
        } else {
            findings.push(Finding::TablesDisagree { count, scanned });
        }
        let matches: bool = diffs.len() == 0;
        let r = TableComparison {
            a,
            b,
            spans: Some((Span::bytes(at_a, len), Span::bytes(at_b, len))),
            diffs,
            scanned,
            matches: Some(matches),
            findings,
        };
        assert(r@.findings =~= comparison_of(src.device(), *g, a, b, len).findings);
        r
    } else {
        let findings: Vec<Finding> = vec![Finding::FatPast];
        assert(findings@ =~= seq![Finding::FatPast]);
        let r = TableComparison {
            a,
            b,
            spans: None,
            diffs: Vec::new(),
            scanned: 0,
            matches: None,
            findings,
        };
        assert(r@.diffs =~= Seq::empty());
        r
    }
}

/// The cluster whose entry starts at the byte at `off` of a table, or, where none does,
/// the one whose entry the byte belongs to. Two FAT12 entries share every third byte:
/// an even cluster's starts at the first byte of three, the odd one after it at the
/// second.
pub open spec fn cluster_of_byte(kind: FatKind, off: int) -> int {
    match kind {
        FatKind::Fat12 => 2 * (off / 3) + if off % 3 == 0 {
            0int
        } else {
            1
        },
        FatKind::Fat16 => off / 2,
        FatKind::Fat32 => off / 4,
    }
}

/// Offset within a table to the cluster whose entry starts there.
pub fn cluster_at_byte(kind: FatKind, off: u64) -> (r: u64)
    ensures
        r == cluster_of_byte(kind, off as int),
{
    match kind {
        FatKind::Fat12 => 2 * (off / 3) + if off % 3 == 0 {
            0
        } else {
            1
        },
        FatKind::Fat16 => off / 2,
        FatKind::Fat32 => off / 4,
    }
}

/// The byte at which a cluster's entry starts names that cluster, on every kind of
/// table.
pub proof fn lemma_entry_byte_names_its_cluster(g: Geom, cluster: int)
    requires
        0 <= cluster,
    ensures
        cluster_of_byte(g.kind, g.entry_place(cluster)) == cluster,
{
}

impl TableComparison {
    /// What the comparison is called.
    pub fn label(&self) -> (r: String)
        ensures
            r@ == "FAT #"@ + text::dec(self.a as int) + " vs FAT #"@ + text::dec(self.b as int),
    {
        Text::of("FAT #").dec(self.a).lit(" vs FAT #").dec(self.b).done()
    }

    /// What a differing byte is called.
    pub fn diff_label(&self, kind: FatKind, i: usize) -> (r: String)
        requires
            i < self.diffs@.len(),
        ensures
            r@ == "cluster ~"@ + text::dec(
                cluster_of_byte(kind, self.diffs@[i as int].off as int),
            ) + " @+"@ + text::hex_small(self.diffs@[i as int].off as int, 1),
    {
        let d = self.diffs[i];
        Text::of("cluster ~").dec(cluster_at_byte(kind, d.off)).lit(" @+").hex_small(
            d.off,
            1,
        ).done()
    }

    /// What is said of a differing byte.
    pub fn diff_finding(&self, i: usize) -> (r: Finding)
        requires
            i < self.diffs@.len(),
        ensures
            r == (Finding::ByteDiffers {
                a: self.a,
                byte_a: self.diffs@[i as int].a,
                b: self.b,
                byte_b: self.diffs@[i as int].b,
            }),
    {
        let d = self.diffs[i];
        Finding::ByteDiffers { a: self.a, byte_a: d.a, b: self.b, byte_b: d.b }
    }
}

// ------------------------------------------------------------------------ mirror

/// The comparison of FAT #0 with every other copy, before it is made.
#[derive(Clone, Copy, Debug, PartialEq, Eq, Structural)]
pub struct FatMirror {
    pub geom: Geom,
}

/// The models of a list of comparisons.
pub open spec fn comparison_models(v: Seq<TableComparison>) -> Seq<TableComparisonModel> {
    Seq::new(v.len(), |i: int| v[i]@)
}

impl FatMirror {
    /// How many copies are looked at.
    pub open spec fn copies(self) -> u64 {
        if self.geom.num_fats < MAX_COPIES {
            self.geom.num_fats
        } else {
            MAX_COPIES
        }
    }

    /// Compare FAT #0 with every other copy; the error says why that cannot be done.
    pub fn expand<S: BlockSource>(&self, src: &S) -> (r: Result<Vec<TableComparison>, Finding>)
        ensures
            match self.geom.fat_len() {
                None => r == Err::<Vec<TableComparison>, Finding>(Finding::FatBytesOverflow),
                Some(len) => r matches Ok(v) && comparison_models(v@) == Seq::new(
                    if self.copies() == 0 {
                        0
                    } else {
                        (self.copies() - 1) as nat
                    },
                    |i: int| comparison_of(src.device(), self.geom, 0, (i + 1) as u64, len),
                ),
            },
    {
        let len: u64 = match self.geom.fat_bytes() {
            Some(len) => len,
            None => {
                return Err(Finding::FatBytesOverflow);
            },
        };
        let copies: u64 = min_u64(self.geom.num_fats, MAX_COPIES);
        let ghost dev = src.device();
        let mut out: Vec<TableComparison> = Vec::new();
        let mut i: u64 = 1;
        while i < copies
            invariant
                1 <= i,
                copies == 0 ==> i == 1,
                copies > 0 ==> i <= copies,
                dev == src.device(),
                comparison_models(out@) =~= Seq::new(
                    (i - 1) as nat,
                    |j: int| comparison_of(dev, self.geom, 0, (j + 1) as u64, len),
                ),
            decreases copies - i,
        {
            let ghost before = comparison_models(out@);
            let c = compare_fats(src, &self.geom, 0, i, len);
            out.push(c);
            assert(comparison_models(out@) =~= before.push(c@));
            i += 1;
        }
        Ok(out)
    }
}

// -------------------------------------------------------------------- the FAT area

/// One table.
#[derive(Debug)]
pub struct FatCopy {
    pub span: Span,
    pub preview: FatPreview,
}

impl FatCopy {
    /// What the table is called.
    pub fn label(&self) -> (r: String)
        ensures
            r@ == "FAT #"@ + text::dec(self.preview.fat as int) + " @"@ + text::hex(
                self.span.at as int,
                10,
            ),
    {
        Text::of("FAT #").dec(self.preview.fat).lit(" @").hex(self.span.at, 10).done()
    }
}

/// All the tables of a volume.
#[derive(Debug)]
pub struct FatArea {
    pub copies: u64,
    pub sectors: u64,
    pub span: Span,
    pub tables: Vec<FatCopy>,
    /// The comparison, where there is something to compare.
    pub mirror: Option<FatMirror>,
    pub finding: Option<Finding>,
}

/// The tables below `n` that can be addressed.
pub open spec fn tables_of(g: Geom, n: nat) -> Seq<FatCopy>
    decreases n,
{
    if n == 0 {
        Seq::empty()
    } else {
        let before = tables_of(g, (n - 1) as nat);
        let len = match g.fat_len() {
            Some(len) => len,
            None => 0,
        };
        match g.fat_at(n - 1) {
            Some(at) => before.push(
                FatCopy {
                    span: Span::of_bytes(at, len),
                    preview: FatPreview { geom: g, fat: (n - 1) as u64 },
                },
            ),
            None => before,
        }
    }
}

impl FatArea {
    /// This is the area of a volume with that geometry.
    pub open spec fn describes(self, g: Geom) -> bool {
        let len = match g.fat_len() {
            Some(len) => len,
            None => 0,
        };
        &&& self.copies == g.num_fats
        &&& self.sectors == g.fat_size
        &&& self.span == Span::of_bytes(g.fat_start, common::saturated(len * g.num_fats))
        &&& self.tables@ == tables_of(
            g,
            if g.num_fats < MAX_COPIES {
                g.num_fats as nat
            } else {
                MAX_COPIES as nat
            },
        )
        &&& self.mirror == if g.num_fats >= 2 {
            Some(FatMirror { geom: g })
        } else {
            None
        }
        &&& self.finding == if g.num_fats >= 2 {
            None
        } else {
            Some(Finding::OneFat)
        }
    }

    /// What the area is called.
    pub fn label(&self) -> (r: String)
        ensures
            r@ == "FAT area ("@ + text::dec(self.copies as int) + " copies x "@ + text::dec(
                self.sectors as int,
            ) + " sectors)"@,
    {
        Text::of("FAT area (").dec(self.copies).lit(" copies x ").dec(self.sectors).lit(
            " sectors)",
        ).done()
    }
}

/// Lay out the tables of a volume. Nothing is read until a part is expanded: each table
/// is megabytes on a real volume.
pub fn fat_area(g: &Geom) -> (r: FatArea)
    ensures
        r.describes(*g),
{
    let len: u64 = match g.fat_bytes() {
        Some(len) => len,
        None => 0,
    };
    let shown: u64 = min_u64(g.num_fats, MAX_COPIES);
    let mut tables: Vec<FatCopy> = Vec::new();
    let mut i: u64 = 0;
    while i < shown
        invariant
            i <= shown <= MAX_COPIES,
            len == match g.fat_len() {
                Some(len) => len,
                None => 0,
            },
            tables@ == tables_of(*g, i as nat),
        decreases shown - i,
    {
        if let Some(at) = g.fat_offset(i) {
            tables.push(
                FatCopy { span: Span::bytes(at, len), preview: FatPreview { geom: *g, fat: i } },
            );
        }
        i += 1;
    }
    let several: bool = g.num_fats >= 2;
    FatArea {
        copies: g.num_fats,
        sectors: g.fat_size,
        span: Span::bytes(g.fat_start, saturating_mul(len, g.num_fats)),
        tables,
        mirror: if several { Some(FatMirror { geom: *g }) } else { None },
        finding: if several { None } else { Some(Finding::OneFat) },
    }
}

} // verus!
