//! The up-case table: its checksum, and its mappings once someone asks for them.

use crate::checksum::ChecksumAlgo;
use crate::common;
use crate::common::min_u64;
use crate::exfat::chain;
use crate::exfat::chain::{abs_of, cluster_chain, cluster_runs, read_runs, runs_to_extent};
use crate::exfat::directory::MetaRef;
use crate::exfat::finding;
use crate::exfat::finding::{note, Finding};
use crate::exfat::geometry::Geometry;
use crate::extent::Span;
use crate::source::{BlockSource, Device};
use crate::text;
use crate::text::Text;
use vstd::prelude::*;

verus! {

/// The most bytes of a table that are read.
pub const MAX_UPCASE_BYTES: u64 = 0x4_0000;

/// How many mappings one expansion produces.
pub const MAX_MAPPINGS: usize = 65536;

/// The checksum over a whole table.
pub open spec fn table_sum(table: Seq<u8>) -> u64 {
    ChecksumAlgo::ExfatBootRegion.value(table, Seq::empty())
}

/// Compute the checksum over a whole table.
pub fn table_checksum(table: &[u8]) -> (r: u64)
    ensures
        r == table_sum(table@),
        r <= u32::MAX,
{
    let none: [(u64, u64); 0] = [];
    assert(none@ =~= Seq::empty());
    ChecksumAlgo::ExfatBootRegion.compute(table, &none)
}

// ------------------------------------------------------------------ mappings

/// One row of a decoded table.
#[derive(Clone, Copy, Debug, PartialEq, Eq, Structural)]
pub enum Mapping {
    /// A compressed run: `count` code units from `unit` map to themselves.
    Identity { unit: u32, count: u32, at: u64 },
    /// One code unit with an upper-case form of its own.
    Upper { unit: u32, upper: u16, at: u64 },
}

/// `a + b`, held at the top of the 32-bit range.
pub open spec fn saturated32(x: int) -> u32 {
    if x <= u32::MAX {
        x as u32
    } else {
        u32::MAX
    }
}

impl Mapping {
    /// The row label.
    pub open spec fn named(self) -> Seq<char> {
        match self {
            Mapping::Identity { unit, count, .. } => {
                let end = saturated32(unit + count);
                "U+"@ + text::hex_bare(unit as int, 4) + "..U+"@ + text::hex_bare(
                    if end == 0 { 0 } else { end - 1 },
                    4,
                ) + " identity"@
            },
            Mapping::Upper { unit, upper, .. } => "U+"@ + text::hex_bare(unit as int, 4)
                + " -> U+"@ + text::hex_bare(upper as int, 4),
        }
    }

    /// The row label.
    pub fn label(&self) -> (r: String)
        ensures
            r@ == self.named(),
    {
        match *self {
            Mapping::Identity { unit, count, .. } => {
                let end: u32 = unit.saturating_add(count).saturating_sub(1);
                Text::of("U+").hex_bare(unit as u64, 4).lit("..U+").hex_bare(end as u64, 4).lit(
                    " identity",
                ).done()
            },
            Mapping::Upper { unit, upper, .. } => Text::of("U+").hex_bare(unit as u64, 4).lit(
                " -> U+",
            ).hex_bare(upper as u64, 4).done(),
        }
    }
}

/// Offset of byte `i` of a run list, zero where it does not reach that far.
pub open spec fn byte_at(runs: Seq<(u64, u64)>, i: int) -> u64 {
    match chain::abs_from(runs, i as u64, 0) {
        Some(at) => at,
        None => 0,
    }
}

/// The mappings from byte `i` of the table on, the next code unit being `unit`, with
/// room for `room` more rows.
pub open spec fn decoded(
    table: Seq<u8>,
    runs: Seq<(u64, u64)>,
    i: int,
    unit: u32,
    room: int,
) -> Seq<Mapping>
    decreases table.len() - i,
{
    if i < 0 || i + 1 >= table.len() || room <= 0 {
        Seq::empty()
    } else {
        let v = common::le16(table, i);
        let at = byte_at(runs, i);
        if v == 0xFFFF && i + 3 < table.len() {
            let count = common::le16(table, i + 2) as u32;
            seq![Mapping::Identity { unit, count, at }] + decoded(
                table,
                runs,
                i + 4,
                saturated32(unit + count),
                room - 1,
            )
        } else if v != unit {
            seq![Mapping::Upper { unit, upper: v, at }] + decoded(
                table,
                runs,
                i + 2,
                saturated32(unit + 1),
                room - 1,
            )
        } else {
            decoded(table, runs, i + 2, saturated32(unit + 1), room)
        }
    }
}

/// The mappings of a table, not decoded until someone asks.
#[derive(Debug)]
pub struct UpcaseEntries {
    pub runs: Vec<(u64, u64)>,
    pub len: u64,
}

impl UpcaseEntries {
    /// The rows that expanding shows.
    pub open spec fn rows(self, dev: Device) -> Seq<Mapping> {
        decoded(
            chain::gather(dev, self.runs@, self.len, Seq::empty()).data,
            self.runs@,
            0,
            0,
            MAX_MAPPINGS as int,
        )
    }

    /// Decode the table.
    pub fn expand<S: BlockSource>(&self, src: &S) -> (r: (Vec<Mapping>, Vec<Finding>))
        ensures
            r.0@ == self.rows(src.device()),
            r.1@ == finding::when(r.0@.len() == 0, Finding::EmptyTable),
    {
        let (table, _unused) = read_runs(src, &self.runs, self.len);
        let mut out: Vec<Mapping> = Vec::new();
        let mut i: usize = 0;
        let mut unit: u32 = 0;
        let len: usize = table.len();
        let ghost whole = self.rows(src.device());
        assert(out@ =~= Seq::empty());
        while i < len && len - i > 1 && out.len() < MAX_MAPPINGS
            invariant
                len == table@.len(),
                i <= len,
                out@.len() <= MAX_MAPPINGS,
                whole =~= out@ + decoded(
                    table@,
                    self.runs@,
                    i as int,
                    unit,
                    MAX_MAPPINGS - out@.len(),
                ),
            decreases len - i,
        {
            let v: u16 = table[i] as u16 + 0x100 * (table[i + 1] as u16);
            let at: u64 = match abs_of(&self.runs, i as u64) {
                Some(at) => at,
                None => 0,
            };
            if v == 0xFFFF && len - i > 3 {
                let count: u32 = table[i + 2] as u32 + 0x100 * (table[i + 3] as u32);
                out.push(Mapping::Identity { unit, count, at });
                unit = unit.saturating_add(count);
                i += 4;
            } else {
                if v as u32 != unit {
                    out.push(Mapping::Upper { unit, upper: v, at });
                }
                unit = unit.saturating_add(1);
                i += 2;
            }
        }
        assert(out@ =~= whole);
        let mut findings: Vec<Finding> = Vec::new();
        note(&mut findings, out.len() == 0, Finding::EmptyTable);
        assert(findings@ =~= finding::when(out@.len() == 0, Finding::EmptyTable));
        (out, findings)
    }
}

// --------------------------------------------------------------------- table

/// The up-case table of a volume.
#[derive(Debug)]
pub struct UpcaseTable {
    pub extent: Vec<Span>,
    pub table_bytes: u64,
    pub code_units: u64,
    /// The checksum of the table, where all of it could be read.
    pub computed: Option<u64>,
    pub mappings: UpcaseEntries,
    pub findings: Vec<Finding>,
}

/// What an [`UpcaseTable`] says.
pub struct UpcaseModel {
    pub extent: Seq<Span>,
    pub table_bytes: u64,
    pub code_units: u64,
    pub computed: Option<u64>,
    pub mapping_runs: Seq<(u64, u64)>,
    pub mapping_len: u64,
    pub findings: Seq<Finding>,
}

impl View for UpcaseTable {
    type V = UpcaseModel;

    open spec fn view(&self) -> UpcaseModel {
        UpcaseModel {
            extent: self.extent@,
            table_bytes: self.table_bytes,
            code_units: self.code_units,
            computed: self.computed,
            mapping_runs: self.mappings.runs@,
            mapping_len: self.mappings.len,
            findings: self.findings@,
        }
    }
}

/// How the stored checksum compares with the table's own.
pub open spec fn sum_finding(stored: Option<u64>, table: Seq<u8>) -> Finding {
    if stored == Some(table_sum(table)) {
        Finding::UpcaseMatches
    } else {
        Finding::UpcaseMismatch {
            stored: match stored {
                Some(v) => v,
                None => 0,
            },
            computed: table_sum(table),
        }
    }
}

/// The up-case table that a root directory entry refers to.
pub open spec fn upcase_of(dev: Device, g: Geometry, r: MetaRef) -> UpcaseModel {
    let c = chain::chain_of(dev, g, r.first_cluster, false, Some(r.data_length));
    let runs = chain::runs_of(g, c.clusters);
    let read = chain::gather(dev, runs, r.data_length, Seq::empty());
    let fits = r.data_length <= MAX_UPCASE_BYTES;
    let complete = fits && read.data.len() == r.data_length && read.data.len() > 0;
    UpcaseModel {
        extent: chain::extent_of(runs),
        table_bytes: r.data_length,
        code_units: r.data_length / 2,
        computed: if complete { Some(table_sum(read.data)) } else { None },
        mapping_runs: runs,
        mapping_len: if fits { r.data_length } else { MAX_UPCASE_BYTES },
        findings: c.findings + if !fits {
            seq![Finding::UpcaseTooLong { declared: r.data_length }]
        } else {
            read.findings + if complete {
                seq![sum_finding(r.stored_checksum, read.data)]
            } else {
                finding::when(
                    runs.len() > 0,
                    Finding::UpcaseShort {
                        have: read.data.len() as u64,
                        declared: r.data_length,
                    },
                )
            }
        },
    }
}

/// Read and check the up-case table that a root directory entry refers to.
pub fn upcase_table<S: BlockSource>(src: &S, geo: &Geometry, r: MetaRef) -> (out: UpcaseTable)
    requires
        geo.well_formed(),
    ensures
        out@ == upcase_of(src.device(), *geo, r),
{
    let ghost whole = upcase_of(src.device(), *geo, r);
    let (clusters, mut findings) = cluster_chain(
        src,
        geo,
        r.first_cluster,
        false,
        Some(r.data_length),
    );
    let runs: Vec<(u64, u64)> = cluster_runs(geo, &clusters);
    let mut computed: Option<u64> = None;
    if r.data_length > MAX_UPCASE_BYTES {
        findings.push(Finding::UpcaseTooLong { declared: r.data_length });
        assert(findings@ =~= whole.findings);
    } else {
        let (table, mut read_findings) = read_runs(src, &runs, r.data_length);
        findings.append(&mut read_findings);
        let have: u64 = table.len() as u64;
        if have == r.data_length && have > 0 {
            let sum: u64 = table_checksum(&table);
            computed = Some(sum);
            let (same, stored): (bool, u64) = match r.stored_checksum {
                Some(v) => (v == sum, v),
                None => (false, 0),
            };
            findings.push(
                if same {
                    Finding::UpcaseMatches
                } else {
                    Finding::UpcaseMismatch { stored, computed: sum }
                },
            );
            assert(findings@ =~= whole.findings);
        } else {
            note(
                &mut findings,
                runs.len() > 0,
                Finding::UpcaseShort { have, declared: r.data_length },
            );
            assert(findings@ =~= whole.findings);
        }
    }
    UpcaseTable {
        extent: runs_to_extent(&runs),
        table_bytes: r.data_length,
        code_units: r.data_length / 2,
        computed,
        mappings: UpcaseEntries { runs, len: min_u64(r.data_length, MAX_UPCASE_BYTES) },
        findings,
    }
}

} // verus!
