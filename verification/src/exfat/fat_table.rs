//! The FAT itself: two reserved entries and one row per cluster.

use crate::common;
use crate::common::{min_u64, saturating_mul, u32_or_zero, u32le};
use crate::exfat::chain::{FAT_BAD_CLUSTER, FAT_END_OF_CHAIN};
use crate::exfat::finding;
use crate::exfat::finding::{note, Finding};
use crate::exfat::geometry::Geometry;
use crate::extent::Span;
use crate::source::{BlockSource, Device, ReadOutcome};
use crate::text;
use crate::text::Text;
use vstd::prelude::*;

verus! {

/// How many FAT entries one expansion produces.
pub const MAX_FAT_NODES: u64 = 65536;

/// One FAT entry.
#[derive(Clone, Copy, Debug, PartialEq, Eq, Structural)]
pub struct FatRow {
    pub cluster: u64,
    pub value: u32,
    pub at: u64,
    pub finding: Option<Finding>,
}

impl FatRow {
    /// The row label.
    pub open spec fn named(self) -> Seq<char> {
        "["@ + text::dec(self.cluster as int) + if self.value == 0 {
            "] free"@
        } else if self.value == FAT_END_OF_CHAIN {
            "] end of chain"@
        } else if self.value == FAT_BAD_CLUSTER {
            "] BAD CLUSTER"@
        } else {
            "] -> "@ + text::dec(self.value as int)
        }
    }

    /// The row label.
    pub fn label(&self) -> (r: String)
        ensures
            r@ == self.named(),
    {
        let t = Text::of("[").dec(self.cluster);
        let t = if self.value == 0 {
            t.lit("] free")
        } else if self.value == FAT_END_OF_CHAIN {
            t.lit("] end of chain")
        } else if self.value == FAT_BAD_CLUSTER {
            t.lit("] BAD CLUSTER")
        } else {
            t.lit("] -> ").dec(self.value as u64)
        };
        assert(t@ =~= self.named());
        t.done()
    }
}

/// The entries for the heap's clusters, not read until someone asks.
#[derive(Clone, Copy, Debug, PartialEq, Eq, Structural)]
pub struct FatEntries {
    pub at: u64,
    pub count: u64,
}

/// What is wrong with one entry of a heap of `count` clusters.
pub open spec fn entry_finding(value: u32, count: u64) -> Option<Finding> {
    if value == FAT_BAD_CLUSTER {
        Some(Finding::BadCluster)
    } else if value != 0 && value != FAT_END_OF_CHAIN && (value < 2 || value > count + 1) {
        Some(Finding::EntryOutsideHeap { value, last: common::saturated(count + 1) })
    } else {
        None
    }
}

/// Row `i` of the entries whose first byte is at `start`.
pub open spec fn row_of(bytes: Seq<u8>, start: u64, count: u64, i: int) -> FatRow {
    let value = common::le32(bytes, 4 * i);
    FatRow {
        cluster: (i + 2) as u64,
        value,
        at: common::saturated(start + 4 * i),
        finding: entry_finding(value, count),
    }
}

impl FatEntries {
    /// Where the entry of cluster 2 is.
    pub open spec fn start(self) -> u64 {
        common::saturated(self.at + 8)
    }

    /// How many entries are read at once.
    pub open spec fn wanted(self) -> u64 {
        if self.count <= MAX_FAT_NODES {
            self.count
        } else {
            MAX_FAT_NODES
        }
    }

    /// The rows that expanding shows.
    pub open spec fn rows(self, dev: Device) -> Seq<FatRow> {
        let r = dev.read(self.start(), (4 * self.wanted()) as u64);
        if r.refused() {
            Seq::empty()
        } else {
            Seq::new(
                r.data.len() / 4,
                |i: int| row_of(r.data, self.start(), self.count, i),
            )
        }
    }

    /// What expanding says besides.
    pub open spec fn remarks(self, dev: Device) -> Seq<Finding> {
        if dev.read(self.start(), (4 * self.wanted()) as u64).refused() {
            seq![Finding::FatEntriesUnreadable { start: self.start() }]
        } else {
            finding::when(
                self.count > self.wanted(),
                Finding::MoreFatEntries {
                    rest: (self.count - self.wanted()) as u64,
                    total: self.count,
                },
            )
        }
    }

    /// How many entries there are, where the number fits.
    pub fn hint_len(&self) -> (r: Option<usize>)
        ensures
            r == if self.count <= usize::MAX {
                Some(self.count as usize)
            } else {
                None
            },
    {
        if self.count <= usize::MAX as u64 {
            Some(self.count as usize)
        } else {
            None
        }
    }

    /// Read the entries, up to the limit.
    pub fn expand<S: BlockSource>(&self, src: &S) -> (r: (Vec<FatRow>, Vec<Finding>))
        ensures
            r.0@ == self.rows(src.device()),
            r.1@ == self.remarks(src.device()),
    {
        let want: u64 = min_u64(self.count, MAX_FAT_NODES);
        let start: u64 = self.at.saturating_add(8);
        let (bytes, outcome) = src.read_vec(start, 4 * want);
        let mut rows: Vec<FatRow> = Vec::new();
        let mut findings: Vec<Finding> = Vec::new();
        if outcome == ReadOutcome::Unreadable {
            findings.push(Finding::FatEntriesUnreadable { start });
            assert(findings@ =~= self.remarks(src.device()));
            return (rows, findings);
        }
        let n: usize = bytes.len() / 4;
        let last: u64 = self.count.saturating_add(1);
        let mut i: usize = 0;
        while i < n
            invariant
                i <= n,
                n == bytes@.len() / 4,
                n <= 65536,
                last == common::saturated(self.count + 1),
                rows@ =~= Seq::new(i as nat, |j: int| row_of(bytes@, start, self.count, j)),
            decreases n - i,
        {
            let value: u32 = u32_or_zero(&bytes, 4 * i);
            let at: u64 = start.saturating_add(4 * i as u64);
            let finding = if value == FAT_BAD_CLUSTER {
                Some(Finding::BadCluster)
            } else if value != 0 && value != FAT_END_OF_CHAIN && (value < 2 || value as u64
                > last) {
                Some(Finding::EntryOutsideHeap { value, last })
            } else {
                None
            };
            rows.push(FatRow { cluster: i as u64 + 2, value, at, finding });
            i += 1;
        }
        note(
            &mut findings,
            self.count > want,
            Finding::MoreFatEntries { rest: self.count - want, total: self.count },
        );
        assert(findings@ =~= self.remarks(src.device()));
        (rows, findings)
    }
}

/// One FAT of a volume.
#[derive(Debug)]
pub struct FatTable {
    pub index: u64,
    /// How many FATs the volume has.
    pub of: u64,
    pub active: bool,
    /// `None` when the offset does not fit in 64 bits.
    pub extent: Option<Span>,
    /// Entry 0, the media type, where it could be read.
    pub media: Option<u32>,
    /// Entry 1, reserved, where it could be read.
    pub reserved: Option<u32>,
    /// Where the entries of the heap's clusters lie.
    pub entries: Option<(FatEntries, Span)>,
    pub findings: Vec<Finding>,
}

/// What a [`FatTable`] says.
pub struct FatTableModel {
    pub index: u64,
    pub of: u64,
    pub active: bool,
    pub extent: Option<Span>,
    pub media: Option<u32>,
    pub reserved: Option<u32>,
    pub entries: Option<(FatEntries, Span)>,
    pub findings: Seq<Finding>,
}

impl View for FatTable {
    type V = FatTableModel;

    open spec fn view(&self) -> FatTableModel {
        FatTableModel {
            index: self.index,
            of: self.of,
            active: self.active,
            extent: self.extent,
            media: self.media,
            reserved: self.reserved,
            entries: self.entries,
            findings: self.findings@,
        }
    }
}

/// The word at `off`, where there is one.
pub open spec fn word(s: Seq<u8>, off: int) -> Option<u32> {
    if common::holds(s, off, 4) {
        Some(common::le32(s, off))
    } else {
        None
    }
}

/// What the two reserved entries and the choice of FAT say.
pub open spec fn head_findings(head: Seq<u8>, active: bool, fats: u64) -> Seq<Finding> {
    Seq::<Finding>::empty() + finding::when(
        word(head, 0) != Some(0xFFFF_FFF8u32),
        Finding::MediaEntry { found: common::le32_or_zero(head, 0) },
    ) + finding::when(
        word(head, 4) != Some(0xFFFF_FFFFu32),
        Finding::ReservedEntry { found: common::le32_or_zero(head, 4) },
    ) + finding::when(!active && fats > 1, Finding::InactiveFat)
}

/// FAT number `index` of a volume.
pub open spec fn fat_of(dev: Device, g: Geometry, index: u64) -> FatTableModel {
    let active = index == g.active_fat;
    let len = common::saturated(g.fat_length * g.bytes_per_sector);
    match g.fat_at(index as int) {
        None => FatTableModel {
            index,
            of: g.number_of_fats,
            active,
            extent: None,
            media: None,
            reserved: None,
            entries: None,
            findings: seq![Finding::FatOffsetOverflow],
        },
        Some(at) => {
            let head = dev.read(at, 8);
            let room = if len >= 8 { (len - 8) as u64 } else { 0 };
            let rows = common::saturated(4 * g.cluster_count);
            FatTableModel {
                index,
                of: g.number_of_fats,
                active,
                extent: Some(Span::of_bytes(at, len)),
                media: if head.refused() { None } else { word(head.data, 0) },
                reserved: if head.refused() { None } else { word(head.data, 4) },
                entries: if head.refused() {
                    None
                } else {
                    Some(
                        (
                            FatEntries { at, count: g.cluster_count },
                            Span::of_bytes(
                                common::saturated(at + 8),
                                if rows <= room { rows } else { room },
                            ),
                        ),
                    )
                },
                findings: if head.refused() {
                    seq![Finding::FatUnreadable { at }]
                } else {
                    head_findings(head.data, active, g.number_of_fats)
                },
            }
        },
    }
}

/// Read one FAT's head. The entries for clusters 2 and up are left for later: on a
/// large volume they are millions of rows.
pub fn fat_table<S: BlockSource>(src: &S, geo: &Geometry, index: u64) -> (r: FatTable)
    ensures
        r@ == fat_of(src.device(), *geo, index),
{
    let active: bool = index == geo.active_fat;
    let mut findings: Vec<Finding> = Vec::new();
    let mut table = FatTable {
        index,
        of: geo.number_of_fats,
        active,
        extent: None,
        media: None,
        reserved: None,
        entries: None,
        findings: Vec::new(),
    };
    let at: u64 = match geo.fat_byte(index) {
        Some(at) => at,
        None => {
            findings.push(Finding::FatOffsetOverflow);
            assert(findings@ =~= fat_of(src.device(), *geo, index).findings);
            table.findings = findings;
            return table;
        },
    };
    let len: u64 = saturating_mul(geo.fat_length, geo.bytes_per_sector);
    table.extent = Some(Span::bytes(at, len));
    let (head, outcome) = src.read_vec(at, 8);
    if outcome == ReadOutcome::Unreadable {
        findings.push(Finding::FatUnreadable { at });
        assert(findings@ =~= fat_of(src.device(), *geo, index).findings);
        table.findings = findings;
        return table;
    }
    table.media = u32le(&head, 0);
    table.reserved = u32le(&head, 4);
    let found0: u32 = u32_or_zero(&head, 0);
    let found1: u32 = u32_or_zero(&head, 4);
    note(
        &mut findings,
        head.len() < 4 || found0 != 0xFFFF_FFF8,
        Finding::MediaEntry { found: found0 },
    );
    note(
        &mut findings,
        head.len() < 8 || found1 != 0xFFFF_FFFF,
        Finding::ReservedEntry { found: found1 },
    );
    note(&mut findings, !active && geo.number_of_fats > 1, Finding::InactiveFat);
    let rows: u64 = min_u64(saturating_mul(4, geo.cluster_count), len.saturating_sub(8));
    table.entries = Some(
        (FatEntries { at, count: geo.cluster_count }, Span::bytes(at.saturating_add(8), rows)),
    );
    table.findings = findings;
    table
}

impl FatTable {
    /// The row label. A table that cannot be located goes by its number.
    pub open spec fn named(self) -> Seq<char> {
        if self.extent is None {
            "FAT "@ + text::dec(self.index as int)
        } else if self.of > 1 {
            "FAT "@ + text::dec(self.index as int) + if self.active { " (active)"@ } else { ""@ }
        } else {
            "FAT"@
        }
    }

    /// The row label.
    pub fn label(&self) -> (r: String)
        ensures
            r@ == self.named(),
    {
        if self.extent.is_none() {
            Text::of("FAT ").dec(self.index).done()
        } else if self.of > 1 {
            Text::of("FAT ").dec(self.index).lit(if self.active { " (active)" } else { "" }).done()
        } else {
            Text::of("FAT").done()
        }
    }
}

} // verus!
