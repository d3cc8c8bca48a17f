//! The extended boot record chain.
//!
//! The trap: entry 0 of each EBR describes a logical partition at an offset relative
//! to that EBR, while entry 1 points at the next EBR at an offset relative to the
//! start of the extended partition. Two different bases, and mixing them up is the
//! classic way to misread an extended layout.

use crate::common;
use crate::common::{lba_to_byte, saturating_mul, ChainGuard, Step};
use crate::desc::{read_desc_at, record_of, ReadCtx, Record, RecordModel};
use crate::mbr::desc;
use crate::mbr::entry;
use crate::mbr::entry::{read_entry, EntryFacts, PartSlot, PartSlotModel};
use crate::mbr::finding;
use crate::mbr::finding::{note, Finding};
use crate::mbr::types;
use crate::source::{BlockSource, Device};
use crate::text;
use crate::text::Text;
use vstd::prelude::*;

verus! {

/// Extended chains are short in practice. Anything past this is corruption.
pub const MAX_LOGICAL_PARTITIONS: usize = 128;

/// One extended boot record.
#[derive(Debug)]
pub struct Ebr {
    pub lba: u64,
    pub record: Record,
    /// The logical partition, the pointer to the next EBR, and two slots that must be
    /// zero.
    pub slots: Vec<PartSlot>,
}

/// What an [`Ebr`] says.
pub struct EbrModel {
    pub lba: u64,
    pub record: RecordModel,
    pub slots: Seq<PartSlotModel>,
}

impl View for Ebr {
    type V = EbrModel;

    open spec fn view(&self) -> EbrModel {
        EbrModel {
            lba: self.lba,
            record: self.record@,
            slots: entry::slot_models(self.slots@),
        }
    }
}

/// One link of the chain: an EBR, or the reason there is none.
#[derive(Debug)]
pub struct Link {
    pub label: String,
    pub finding: Option<Finding>,
    pub ebr: Option<Ebr>,
}

/// What a [`Link`] says.
pub struct LinkModel {
    pub label: Seq<char>,
    pub finding: Option<Finding>,
    pub ebr: Option<EbrModel>,
}

impl View for Link {
    type V = LinkModel;

    open spec fn view(&self) -> LinkModel {
        LinkModel {
            label: self.label@,
            finding: self.finding,
            ebr: match self.ebr {
                Some(e) => Some(e@),
                None => None,
            },
        }
    }
}

/// The models of a list of links.
pub open spec fn link_models(links: Seq<Link>) -> Seq<LinkModel> {
    Seq::new(links.len(), |i: int| links[i]@)
}

/// The label of the EBR at a sector.
pub open spec fn ebr_label(lba: u64) -> Seq<char> {
    "EBR @LBA "@ + text::dec(lba as int)
}

/// The logical partition that entry 0 of the EBR at sector `lba` describes, the
/// `n`-th of the chain. Its sector counts from that EBR.
pub open spec fn logical_of(
    dev: Device,
    lba: u64,
    at: u64,
    sector_size: u32,
    region: u64,
    n: int,
) -> PartSlotModel {
    let fx = entry::facts_of(entry::entry_bytes(dev, at));
    let abs = common::checked(lba + fx.lba_first);
    let placed = !fx.empty() && abs is Some;
    PartSlotModel {
        record: entry::entry_record(dev, at, region),
        facts: fx,
        label: "logical "@ + text::dec(n) + " ("@ + types::type_text(fx.part_type) + ")"@,
        findings: finding::when(
            placed,
            Finding::Resolved {
                relative: fx.lba_first,
                ebr: lba,
                absolute: common::saturated(lba + fx.lba_first),
            },
        ),
        volume: if placed {
            Some(
                (
                    common::saturated(lba + fx.lba_first),
                    common::checked((lba + fx.lba_first) * sector_size),
                ),
            )
        } else {
            None
        },
    }
}

/// Entry 1 of an EBR: the pointer to the next one.
pub open spec fn pointer_of(dev: Device, at: u64, region: u64) -> PartSlotModel {
    PartSlotModel {
        record: entry::entry_record(dev, at, region),
        facts: entry::facts_of(entry::entry_bytes(dev, at)),
        label: "next EBR"@,
        findings: Seq::empty(),
        volume: None,
    }
}

/// An entry of an EBR that must be zero.
pub open spec fn unused_of(dev: Device, at: u64, region: u64, label: Seq<char>) -> PartSlotModel {
    PartSlotModel {
        record: entry::entry_record(dev, at, region),
        facts: entry::facts_of(entry::entry_bytes(dev, at)),
        label,
        findings: finding::when(
            !entry::blank(entry::entry_bytes(dev, at)),
            Finding::UnusedSlotDirty,
        ),
        volume: None,
    }
}

/// The EBR at sector `lba` and offset `at`, the `n`-th of the chain.
pub open spec fn ebr_of(
    dev: Device,
    lba: u64,
    at: u64,
    sector_size: u32,
    region: u64,
    n: int,
) -> EbrModel {
    EbrModel {
        lba,
        record: record_of(dev, "EBR"@, 512, desc::ebr_header_fields(), at, region),
        slots: seq![
            logical_of(dev, lba, (at + 0x1BE) as u64, sector_size, region, n),
            pointer_of(dev, (at + 0x1CE) as u64, region),
            unused_of(dev, (at + 0x1DE) as u64, region, "unused [2]"@),
            unused_of(dev, (at + 0x1EE) as u64, region, "unused [3]"@),
        ],
    }
}

/// Where the pointer of the EBR at offset `at` leads: a sector counted from the start
/// of the extended partition, or nowhere.
pub open spec fn next_lba(dev: Device, ext_start: u64, at: u64) -> Option<u64> {
    let fx = entry::facts_of(entry::entry_bytes(dev, (at + 0x1CE) as u64));
    if fx.lba_first == 0 {
        None
    } else {
        common::checked(ext_start + fx.lba_first)
    }
}

/// The chain from sector `lba` on, of an extended partition that starts at sector
/// `ext_start`. `seen` holds the `n` sectors visited so far.
pub open spec fn chain_of(
    dev: Device,
    sector_size: u32,
    ext_start: u64,
    lba: u64,
    seen: Set<u64>,
    n: nat,
) -> Seq<LinkModel>
    decreases MAX_LOGICAL_PARTITIONS + 1 - n,
{
    let region = common::saturated(ext_start * sector_size);
    if n >= MAX_LOGICAL_PARTITIONS {
        seq![
            LinkModel {
                label: "chain too long"@,
                finding: Some(Finding::ChainTooLong),
                ebr: None,
            },
        ]
    } else if seen.contains(lba) {
        seq![
            LinkModel {
                label: "chain loops"@,
                finding: Some(Finding::ChainLoops { lba }),
                ebr: None,
            },
        ]
    } else {
        match common::checked(lba * sector_size) {
            None => Seq::empty(),
            Some(at) => if at >= dev.len {
                seq![
                    LinkModel {
                        label: ebr_label(lba),
                        finding: Some(Finding::EbrPastDevice),
                        ebr: None,
                    },
                ]
            } else {
                let this = LinkModel {
                    label: ebr_label(lba),
                    finding: None,
                    ebr: Some(ebr_of(dev, lba, at, sector_size, region, n as int + 1)),
                };
                match next_lba(dev, ext_start, at) {
                    None => seq![this],
                    Some(next) => seq![this] + chain_of(
                        dev,
                        sector_size,
                        ext_start,
                        next,
                        seen.insert(lba),
                        n + 1,
                    ),
                }
            },
        }
    }
}

/// However the EBRs point at each other, a chain ends: it has at most 129 links, and
/// no two of them are EBRs at the same sector.
pub proof fn lemma_chain_is_bounded(
    dev: Device,
    sector_size: u32,
    ext_start: u64,
    lba: u64,
    seen: Set<u64>,
    n: nat,
)
    requires
        n <= MAX_LOGICAL_PARTITIONS,
    ensures
        ({
            let c = chain_of(dev, sector_size, ext_start, lba, seen, n);
            &&& c.len() <= MAX_LOGICAL_PARTITIONS + 1 - n
            &&& forall|i: int|
                0 <= i < c.len() ==> ((#[trigger] c[i]).ebr matches Some(e) ==> !seen.contains(
                    e.lba,
                ))
            &&& forall|i: int, j: int|
                0 <= i < j < c.len() ==> ((#[trigger] c[i]).ebr matches Some(a) && (
                #[trigger] c[j]).ebr matches Some(b) ==> a.lba != b.lba)
        }),
    decreases MAX_LOGICAL_PARTITIONS + 1 - n,
{
    if n < MAX_LOGICAL_PARTITIONS && !seen.contains(lba) {
        if let Some(at) = common::checked(lba * sector_size) {
            if at < dev.len {
                if let Some(next) = next_lba(dev, ext_start, at) {
                    lemma_chain_is_bounded(
                        dev,
                        sector_size,
                        ext_start,
                        next,
                        seen.insert(lba),
                        n + 1,
                    );
                    let c = chain_of(dev, sector_size, ext_start, lba, seen, n);
                    let rest = chain_of(
                        dev,
                        sector_size,
                        ext_start,
                        next,
                        seen.insert(lba),
                        n + 1,
                    );
                    assert forall|i: int| 0 < i < c.len() implies c[i] == rest[i - 1] by {}
                }
            }
        }
    }
}

fn read_logical<S: BlockSource>(src: &S, lba: u64, at: u64, ctx: ReadCtx, n: usize) -> (r: PartSlot)
    ensures
        r@ == logical_of(
            src.device(),
            lba,
            at,
            src.device().sector_size,
            ctx.region_base,
            n as int,
        ),
{
    let (record, facts, _blank) = read_entry(src, at, ctx);
    let label: String = Text::of("logical ").dec(n as u64).lit(" (").lit(
        types::type_label(facts.part_type),
    ).lit(")").done();
    let mut findings: Vec<Finding> = Vec::new();
    let abs: u64 = lba.saturating_add(facts.lba_first);
    let placed: bool = !facts.is_empty() && lba.checked_add(facts.lba_first).is_some();
    note(
        &mut findings,
        placed,
        Finding::Resolved { relative: facts.lba_first, ebr: lba, absolute: abs },
    );
    let volume: Option<(u64, Option<u64>)> = if placed {
        Some((abs, lba_to_byte(abs, src.logical_sector_size())))
    } else {
        None
    };
    proof {
        assert(abs * src.device().sector_size >= 0) by (nonlinear_arith)
            requires
                abs >= 0,
                src.device().sector_size >= 0,
        ;
        assert(findings@ =~= finding::when(
            placed,
            Finding::Resolved { relative: facts.lba_first, ebr: lba, absolute: abs },
        ));
    }
    PartSlot { record, facts, label, findings, volume }
}

fn read_unused<S: BlockSource>(src: &S, at: u64, ctx: ReadCtx, label: &'static str) -> (r: PartSlot)
    ensures
        r@ == unused_of(src.device(), at, ctx.region_base, label@),
{
    let (record, facts, blank) = read_entry(src, at, ctx);
    let mut findings: Vec<Finding> = Vec::new();
    note(&mut findings, !blank, Finding::UnusedSlotDirty);
    assert(findings@ =~= finding::when(!blank, Finding::UnusedSlotDirty));
    PartSlot { record, facts, label: Text::of(label).done(), findings, volume: None }
}

fn read_ebr<S: BlockSource>(src: &S, lba: u64, at: u64, region: u64, n: usize) -> (r: Ebr)
    requires
        at + 0x1EE <= u64::MAX,
    ensures
        r@ == ebr_of(src.device(), lba, at, src.device().sector_size, region, n as int),
{
    let ctx = ReadCtx { base: at, region_base: region };
    let layout = desc::ebr_header();
    let record = read_desc_at(src, &layout, at, ctx);
    let logical = read_logical(src, lba, at + 0x1BE, ctx, n);
    let (next_record, next_facts, _blank) = read_entry(src, at + 0x1CE, ctx);
    let pointer = PartSlot {
        record: next_record,
        facts: next_facts,
        label: Text::of("next EBR").done(),
        findings: Vec::new(),
        volume: None,
    };
    let third = read_unused(src, at + 0x1DE, ctx, "unused [2]");
    let fourth = read_unused(src, at + 0x1EE, ctx, "unused [3]");
    let slots: Vec<PartSlot> = vec![logical, pointer, third, fourth];
    let r = Ebr { lba, record, slots };
    proof {
        let want = ebr_of(src.device(), lba, at, src.device().sector_size, region, n as int);
        assert(pointer@.findings =~= Seq::empty());
        assert(r@.slots =~= want.slots);
    }
    r
}

/// Walk the extended boot record chain of the extended partition that starts at
/// sector `ext_start`.
pub fn walk_ebr_chain<S: BlockSource>(src: &S, ext_start: u64) -> (r: Vec<Link>)
    requires
        src.device().len + 0x1ED <= u64::MAX,
    ensures
        link_models(r@) == chain_of(
            src.device(),
            src.device().sector_size,
            ext_start,
            ext_start,
            Set::empty(),
            0,
        ),
{
    let ghost dev = src.device();
    let ss: u32 = src.logical_sector_size();
    let region: u64 = saturating_mul(ext_start, ss as u64);
    let mut out: Vec<Link> = Vec::new();
    let mut guard = ChainGuard::new(MAX_LOGICAL_PARTITIONS);
    let mut lba: u64 = ext_start;
    let mut n: usize = 0;
    let ghost whole = chain_of(dev, ss, ext_start, ext_start, Set::empty(), 0);
    loop
        invariant_except_break
            whole =~= link_models(out@) + chain_of(dev, ss, ext_start, lba, guard.seen(), n as nat),
            guard.seen().len() == n,
            guard.seen().finite(),
        invariant
            dev == src.device(),
            ss == dev.sector_size,
            region == common::saturated(ext_start * ss),
            dev.len + 0x1ED <= u64::MAX,
            guard.limit() == MAX_LOGICAL_PARTITIONS,
            n <= MAX_LOGICAL_PARTITIONS,
        ensures
            link_models(out@) =~= whole,
        decreases MAX_LOGICAL_PARTITIONS + 1 - n,
    {
        let ghost before = link_models(out@);
        let ghost seen = guard.seen();
        assert(lba * ss >= 0) by (nonlinear_arith)
            requires
                lba >= 0,
                ss >= 0,
        ;
        match guard.visit(lba) {
            Step::Continue => {},
            Step::Loop => {
                out.push(
                    Link {
                        label: Text::of("chain loops").done(),
                        finding: Some(Finding::ChainLoops { lba }),
                        ebr: None,
                    },
                );
                assert(link_models(out@) =~= whole);
                break;
            },
            Step::TooLong => {
                out.push(
                    Link {
                        label: Text::of("chain too long").done(),
                        finding: Some(Finding::ChainTooLong),
                        ebr: None,
                    },
                );
                assert(link_models(out@) =~= whole);
                break;
            },
        }
        let at: u64 = match lba_to_byte(lba, ss) {
            Some(at) => at,
            None => {
                assert(link_models(out@) =~= whole);
                break;
            },
        };
        if at >= src.len() {
            out.push(
                Link {
                    label: Text::of("EBR @LBA ").dec(lba).done(),
                    finding: Some(Finding::EbrPastDevice),
                    ebr: None,
                },
            );
            assert(link_models(out@) =~= whole);
            break;
        }
        let ebr = read_ebr(src, lba, at, region, n + 1);
        assert(ebr@.slots.len() == ebr.slots@.len());
        let next: EntryFacts = ebr.slots[1].facts;
        assert(next == ebr@.slots[1].facts);
        out.push(Link { label: Text::of("EBR @LBA ").dec(lba).done(), finding: None, ebr: Some(ebr) });
        n += 1;
        proof {
            assert(link_models(out@).drop_last() =~= before);
        }
        if next.lba_first == 0 {
            assert(link_models(out@) =~= whole);
            break;
        }
        match ext_start.checked_add(next.lba_first) {
            Some(v) => {
                lba = v;
            },
            None => {
                assert(link_models(out@) =~= whole);
                break;
            },
        }
    }
    out
}

} // verus!
