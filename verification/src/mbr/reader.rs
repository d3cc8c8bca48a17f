//! Recognising an MBR, and reading everything in it.

use crate::desc::{read_desc_at, record_of, ReadCtx, Record, RecordModel};
use crate::mbr::desc;
use crate::mbr::ebr;
use crate::mbr::ebr::{walk_ebr_chain, Ebr, EbrModel, Link, LinkModel};
use crate::mbr::entry;
use crate::mbr::entry::{
    annotate_entry, find_overlaps, label_for_entry, note_overlaps, protective_info, read_entry,
    EntryFacts, PartSlot, PartSlotModel,
};
use crate::mbr::finding;
use crate::mbr::finding::{worst_of, Finding};
use crate::mbr::types;
use crate::source::{BlockSource, Device, ReadOutcome};
use crate::status::Status;
use vstd::prelude::*;

verus! {

// -------------------------------------------------------------------- the probe

/// Recognises MBR partition tables.
#[derive(Clone, Copy, Debug)]
pub struct MbrProbe;

/// The sectors of a device. A sector size of zero counts as one.
pub open spec fn sectors_of(dev: Device) -> u64 {
    if dev.sector_size == 0 {
        dev.len
    } else {
        dev.len / dev.sector_size as u64
    }
}

/// The bytes of entry `i` of a sector.
pub open spec fn slot_bytes(sector: Seq<u8>, i: int) -> Seq<u8> {
    sector.subrange(0x1BE + 16 * i, 0x1BE + 16 * i + 16)
}

/// The entry looks like one: it is properly empty, or its status is one of the two
/// and it fits the device.
pub open spec fn plausible(fx: EntryFacts, sectors: u64) -> bool {
    fx.empty() || (fx.status == 0x00 || fx.status == 0x80) && fx.num_sectors > 0 && fx.lba_first
        + fx.num_sectors <= if sectors == 0 {
        1
    } else {
        sectors as int
    }
}

/// How many of the first `n` entries look like entries.
pub open spec fn plausible_count(sector: Seq<u8>, sectors: u64, n: nat) -> nat
    decreases n,
{
    if n == 0 {
        0
    } else {
        plausible_count(sector, sectors, (n - 1) as nat) + if plausible(
            entry::facts_of(slot_bytes(sector, n - 1)),
            sectors,
        ) {
            1nat
        } else {
            0nat
        }
    }
}

/// How many of the first `n` entries are in use.
pub open spec fn populated_count(sector: Seq<u8>, n: nat) -> nat
    decreases n,
{
    if n == 0 {
        0
    } else {
        populated_count(sector, (n - 1) as nat) + if entry::facts_of(
            slot_bytes(sector, n - 1),
        ).empty() {
            0nat
        } else {
            1nat
        }
    }
}

/// The two bytes that end a boot sector of any kind.
pub open spec fn signed(sector: Seq<u8>) -> bool {
    sector[0x1FE] == 0x55 && sector[0x1FF] == 0xAA
}

/// What the four entries are worth.
pub open spec fn table_score(sector: Seq<u8>, sectors: u64) -> int {
    let plausible = plausible_count(sector, sectors, 4);
    let full: int = if plausible == 4 { 80 } else { 35 + 10 * plausible as int };
    if populated_count(sector, 4) == 0 && full > 40 {
        40
    } else {
        full
    }
}

/// How sure the bytes at `at` make one that this is an MBR. A sector that starts with
/// a jump instruction is more likely a volume's boot sector.
pub open spec fn score_of(dev: Device, at: u64) -> int {
    let r = dev.read(at, 512);
    if r.refused() || r.data.len() < 512 || !signed(r.data) {
        0
    } else {
        let score = table_score(r.data, sectors_of(dev));
        if r.data[0] == 0xEB || r.data[0] == 0xE9 {
            if score >= 25 {
                score - 25
            } else {
                0
            }
        } else {
            score
        }
    }
}

fn device_sectors<S: BlockSource>(src: &S) -> (r: u64)
    ensures
        r == sectors_of(src.device()),
{
    let ss: u32 = src.logical_sector_size();
    if ss == 0 {
        src.len()
    } else {
        src.len() / (ss as u64)
    }
}

impl MbrProbe {
    /// The identifier of the format.
    pub fn id(&self) -> (r: &'static str)
        ensures
            r@ == "mbr"@,
    {
        "mbr"
    }

    pub fn name(&self) -> (r: &'static str)
        ensures
            r@ == "MBR partition table"@,
    {
        "MBR partition table"
    }

    /// Score the bytes at `at`.
    ///
    /// 55 AA alone is weak: it is also on every FAT and NTFS boot sector. What
    /// distinguishes an MBR is four entries that look like partition entries. With
    /// four empty ones it could be an MBR and it could be a wiped boot sector, so it
    /// is said quietly rather than confidently.
    pub fn probe<S: BlockSource>(&self, src: &S, at: u64) -> (r: u8)
        ensures
            r == score_of(src.device(), at),
    {
        let (sector, outcome) = src.read_vec(at, 512);
        if sector.len() < 512 || outcome == ReadOutcome::Unreadable {
            return 0;
        }
        if sector[0x1FE] != 0x55 || sector[0x1FF] != 0xAA {
            return 0;
        }
        let sectors: u64 = device_sectors(src);
        let limit: u64 = if sectors == 0 { 1 } else { sectors };
        let mut plausible: u8 = 0;
        let mut populated: u8 = 0;
        let mut i: usize = 0;
        while i < 4
            invariant
                i <= 4,
                sector@.len() == 512,
                limit == if sectors == 0 { 1 } else { sectors },
                plausible == plausible_count(sector@, sectors, i as nat),
                populated == populated_count(sector@, i as nat),
                plausible <= i,
                populated <= i,
            decreases 4 - i,
        {
            let off: usize = 0x1BE + 16 * i;
            let e: &[u8] = vstd::slice::slice_subrange(&sector, off, off + 16);
            let fx = EntryFacts::from_bytes(e);
            assert(e@ == slot_bytes(sector@, i as int));
            if fx.is_empty() {
                plausible += 1;
            } else {
                populated += 1;
                let status_ok: bool = fx.status == 0x00 || fx.status == 0x80;
                let fits: bool = fx.num_sectors > 0 && fx.lba_first + fx.num_sectors <= limit;
                if status_ok && fits {
                    plausible += 1;
                }
            }
            i += 1;
        }
        let mut score: u8 = if plausible == 4 { 80 } else { 35 + 10 * plausible };
        if populated == 0 && score > 40 {
            score = 40;
        }
        if sector[0] == 0xEB || sector[0] == 0xE9 {
            score = if score >= 25 { score - 25 } else { 0 };
        }
        score
    }

    /// Open the table at `at`, whatever it scored.
    pub fn open<'a, S: BlockSource>(&self, src: &'a S, at: u64) -> (r: MbrReader<'a, S>)
        ensures
            r.source() == src,
            r.start() == at,
    {
        MbrReader::new(src, at)
    }
}

/// Without the boot signature a sector scores zero; a score is at most 80, which takes
/// four plausible entries, at least one of them in use.
pub proof fn lemma_confident_scores_need_entries(dev: Device, at: u64)
    ensures
        0 <= score_of(dev, at) <= 80,
        score_of(dev, at) > 0 ==> signed(dev.read(at, 512).data),
        score_of(dev, at) == 80 ==> plausible_count(dev.read(at, 512).data, sectors_of(dev), 4)
            == 4 && populated_count(dev.read(at, 512).data, 4) > 0,
{
    let data = dev.read(at, 512).data;
    reveal_with_fuel(plausible_count, 5);
}

// -------------------------------------------------------------------- the table

/// One of the four entries, with the chain it heads where it is extended.
#[derive(Debug)]
pub struct MbrEntry {
    pub slot: PartSlot,
    pub logicals: Vec<Link>,
}

/// What an [`MbrEntry`] says.
pub struct MbrEntryModel {
    pub slot: PartSlotModel,
    pub logicals: Seq<LinkModel>,
}

impl View for MbrEntry {
    type V = MbrEntryModel;

    open spec fn view(&self) -> MbrEntryModel {
        MbrEntryModel { slot: self.slot@, logicals: ebr::link_models(self.logicals@) }
    }
}

/// The models of a list of entries.
pub open spec fn entry_models(entries: Seq<MbrEntry>) -> Seq<MbrEntryModel> {
    Seq::new(entries.len(), |i: int| entries[i]@)
}

/// A whole MBR.
#[derive(Debug)]
pub struct Mbr {
    pub record: Record,
    pub entries: Vec<MbrEntry>,
    /// What is said of the table as a whole.
    pub finding: Option<Finding>,
}

/// What an [`Mbr`] says.
pub struct MbrModel {
    pub record: RecordModel,
    pub entries: Seq<MbrEntryModel>,
    pub finding: Option<Finding>,
}

impl View for Mbr {
    type V = MbrModel;

    open spec fn view(&self) -> MbrModel {
        MbrModel {
            record: self.record@,
            entries: entry_models(self.entries@),
            finding: self.finding,
        }
    }
}

/// Where entry `i` of the table at `base` is.
pub open spec fn entry_at(base: u64, i: int) -> u64 {
    (base + 0x1BE + 16 * i) as u64
}

/// The facts of the four entries of the table at `base`.
pub open spec fn table_facts(dev: Device, base: u64) -> Seq<EntryFacts> {
    Seq::new(4, |i: int| entry::facts_of(entry::entry_bytes(dev, entry_at(base, i))))
}

/// Entry `i` of the table at `base`.
pub open spec fn entry_of(dev: Device, base: u64, i: int) -> MbrEntryModel {
    let facts = table_facts(dev, base);
    let fx = facts[i];
    let at = entry_at(base, i);
    MbrEntryModel {
        slot: PartSlotModel {
            record: entry::entry_record(dev, at, base),
            facts: fx,
            label: entry::entry_label(i, fx),
            findings: entry::entry_findings(
                fx,
                !entry::blank(entry::entry_bytes(dev, at)),
                sectors_of(dev),
                dev.sector_size as u64,
            ) + entry::overlap_findings(facts, entry::overlaps_of(facts, 4), i),
            volume: None,
        },
        logicals: if types::extended(fx.part_type) && fx.num_sectors > 0 {
            ebr::chain_of(dev, dev.sector_size, fx.lba_first, fx.lba_first, Set::empty(), 0)
        } else {
            Seq::empty()
        },
    }
}

/// The MBR at `base`.
pub open spec fn mbr_of(dev: Device, base: u64) -> MbrModel {
    MbrModel {
        record: record_of(dev, "MBR"@, 512, desc::mbr_header_fields(), base, base),
        entries: Seq::new(4, |i: int| entry_of(dev, base, i)),
        finding: entry::protective_finding(table_facts(dev, base)),
    }
}

/// The entries of the table and of every EBR on the device have 64-bit offsets.
pub open spec fn addressable(dev: Device, base: u64) -> bool {
    base + 0x1EE <= u64::MAX && dev.len + 0x1ED <= u64::MAX
}

/// Reads the MBR at an offset of a device.
#[derive(Debug)]
pub struct MbrReader<'a, S: BlockSource> {
    src: &'a S,
    base: u64,
}

impl<'a, S: BlockSource> MbrReader<'a, S> {
    /// The device that is read.
    pub closed spec fn source(&self) -> &'a S {
        self.src
    }

    /// Where the table starts.
    pub closed spec fn start(&self) -> u64 {
        self.base
    }

    pub fn new(src: &'a S, base: u64) -> (r: MbrReader<'a, S>)
        ensures
            r.source() == src,
            r.start() == base,
    {
        MbrReader { src, base }
    }

    /// The identifier of the format.
    pub fn id(&self) -> (r: &'static str)
        ensures
            r@ == "mbr"@,
    {
        "mbr"
    }

    pub fn base(&self) -> (r: u64)
        ensures
            r == self.start(),
    {
        self.base
    }

    fn read_facts(&self) -> (r: Vec<EntryFacts>)
        requires
            addressable(self.source().device(), self.start()),
        ensures
            r@ == table_facts(self.source().device(), self.start()),
    {
        let ctx = ReadCtx::at(self.base);
        let mut facts: Vec<EntryFacts> = Vec::new();
        let mut i: usize = 0;
        while i < 4
            invariant
                i <= 4,
                addressable(self.src.device(), self.base),
                ctx == (ReadCtx { base: self.base, region_base: self.base }),
                facts@ =~= table_facts(self.src.device(), self.base).take(i as int),
            decreases 4 - i,
        {
            let at: u64 = self.base + 0x1BE + 16 * (i as u64);
            let (_record, fx, _blank) = read_entry(self.src, at, ctx);
            facts.push(fx);
            i += 1;
        }
        facts
    }

    fn read_one(&self, facts: &[EntryFacts], pairs: &[(usize, usize)], i: usize) -> (r: MbrEntry)
        requires
            addressable(self.source().device(), self.start()),
            facts@ == table_facts(self.source().device(), self.start()),
            pairs@ == entry::overlaps_of(facts@, 4),
            i < 4,
        ensures
            r@ == entry_of(self.source().device(), self.start(), i as int),
    {
        let ctx = ReadCtx::at(self.base);
        let at: u64 = self.base + 0x1BE + 16 * (i as u64);
        let (record, fx, blank) = read_entry(self.src, at, ctx);
        let mut findings: Vec<Finding> = annotate_entry(
            &fx,
            !blank,
            device_sectors(self.src),
            self.src.logical_sector_size() as u64,
        );
        proof {
            entry::lemma_overlaps_in_range(facts@, 4);
        }
        note_overlaps(&mut findings, facts, pairs, i);
        let logicals: Vec<Link> = if types::is_extended(fx.part_type) && fx.num_sectors > 0 {
            walk_ebr_chain(self.src, fx.lba_first)
        } else {
            Vec::new()
        };
        let label: String = label_for_entry(i, &fx);
        let r = MbrEntry {
            slot: PartSlot { record, facts: fx, label, findings, volume: None },
            logicals,
        };
        assert(r@.logicals =~= entry_of(self.src.device(), self.base, i as int).logicals);
        r
    }

    /// Read the table. The four entries are read whatever the sector looks like.
    pub fn root(&self) -> (r: Mbr)
        requires
            addressable(self.source().device(), self.start()),
        ensures
            r@ == mbr_of(self.source().device(), self.start()),
    {
        let layout = desc::mbr_header();
        let record = read_desc_at(self.src, &layout, self.base, ReadCtx::at(self.base));
        let facts: Vec<EntryFacts> = self.read_facts();
        let pairs: Vec<(usize, usize)> = find_overlaps(&facts);
        let mut entries: Vec<MbrEntry> = Vec::new();
        let mut i: usize = 0;
        while i < 4
            invariant
                i <= 4,
                addressable(self.src.device(), self.base),
                facts@ == table_facts(self.src.device(), self.base),
                pairs@ == entry::overlaps_of(facts@, 4),
                entry_models(entries@) =~= mbr_of(self.src.device(), self.base).entries.take(
                    i as int,
                ),
            decreases 4 - i,
        {
            let ghost before = entry_models(entries@);
            entries.push(self.read_one(&facts, &pairs, i));
            assert(entry_models(entries@) =~= before.push(entries@.last()@));
            i += 1;
        }
        let found = protective_info(&facts);
        assert(entry_models(entries@) =~= mbr_of(self.src.device(), self.base).entries);
        Mbr { record, entries, finding: found }
    }
}

// ----------------------------------------------------------------------- status

impl PartSlotModel {
    /// How serious what the entry says is.
    pub open spec fn severity(self) -> Status {
        self.record.severity().worse(finding::worst(self.findings))
    }
}

/// How serious the worst of a list of entries is.
pub open spec fn slots_severity(slots: Seq<PartSlotModel>) -> Status
    decreases slots.len(),
{
    if slots.len() == 0 {
        Status::Clean
    } else {
        slots_severity(slots.drop_last()).worse(slots.last().severity())
    }
}

impl EbrModel {
    /// How serious what the EBR and its entries say is.
    pub open spec fn severity(self) -> Status {
        self.record.severity().worse(slots_severity(self.slots))
    }
}

/// How serious a finding that may be absent is.
pub open spec fn finding_severity(f: Option<Finding>) -> Status {
    match f {
        Some(f) => f.severity(),
        None => Status::Clean,
    }
}

impl LinkModel {
    /// How serious what the link says is.
    pub open spec fn severity(self) -> Status {
        finding_severity(self.finding).worse(
            match self.ebr {
                Some(e) => e.severity(),
                None => Status::Clean,
            },
        )
    }
}

/// How serious the worst link of a chain is.
pub open spec fn links_severity(links: Seq<LinkModel>) -> Status
    decreases links.len(),
{
    if links.len() == 0 {
        Status::Clean
    } else {
        links_severity(links.drop_last()).worse(links.last().severity())
    }
}

/// How serious the worst entry of a table is.
pub open spec fn entries_severity(entries: Seq<MbrEntryModel>) -> Status
    decreases entries.len(),
{
    if entries.len() == 0 {
        Status::Clean
    } else {
        entries_severity(entries.drop_last()).worse(
            entries.last().slot.severity().worse(links_severity(entries.last().logicals)),
        )
    }
}

impl PartSlot {
    /// How serious what the entry says is.
    pub fn status(&self) -> (r: Status)
        ensures
            r == self@.severity(),
    {
        self.record.status().merge(worst_of(&self.findings))
    }
}

impl Ebr {
    fn status(&self) -> (r: Status)
        ensures
            r == self@.severity(),
    {
        let mut r = Status::Clean;
        let mut i: usize = 0;
        let ghost all = self@.slots;
        while i < self.slots.len()
            invariant
                i <= self.slots@.len(),
                all == self@.slots,
                r == slots_severity(all.take(i as int)),
            decreases self.slots@.len() - i,
        {
            assert(all.take(i + 1).drop_last() =~= all.take(i as int));
            r = r.merge(self.slots[i].status());
            i += 1;
        }
        assert(all.take(i as int) =~= all);
        self.record.status().merge(r)
    }
}

impl Link {
    fn status(&self) -> (r: Status)
        ensures
            r == self@.severity(),
    {
        let own = match self.finding {
            Some(f) => f.status(),
            None => Status::Clean,
        };
        let below = match &self.ebr {
            Some(e) => e.status(),
            None => Status::Clean,
        };
        own.merge(below)
    }
}

impl MbrEntry {
    fn status(&self) -> (r: Status)
        ensures
            r == self@.slot.severity().worse(links_severity(self@.logicals)),
    {
        let mut r = Status::Clean;
        let mut i: usize = 0;
        let ghost all = self@.logicals;
        while i < self.logicals.len()
            invariant
                i <= self.logicals@.len(),
                all == self@.logicals,
                r == links_severity(all.take(i as int)),
            decreases self.logicals@.len() - i,
        {
            assert(all.take(i + 1).drop_last() =~= all.take(i as int));
            r = r.merge(self.logicals[i].status());
            i += 1;
        }
        assert(all.take(i as int) =~= all);
        self.slot.status().merge(r)
    }
}

impl Mbr {
    /// How serious the worst thing anywhere in the table is.
    pub fn deep_status(&self) -> (r: Status)
        ensures
            r == self@.record.severity().worse(finding_severity(self@.finding)).worse(
                entries_severity(self@.entries),
            ),
    {
        let mut r = Status::Clean;
        let mut i: usize = 0;
        let ghost all = self@.entries;
        while i < self.entries.len()
            invariant
                i <= self.entries@.len(),
                all == self@.entries,
                r == entries_severity(all.take(i as int)),
            decreases self.entries@.len() - i,
        {
            assert(all.take(i + 1).drop_last() =~= all.take(i as int));
            r = r.merge(self.entries[i].status());
            i += 1;
        }
        assert(all.take(i as int) =~= all);
        let own = match self.finding {
            Some(f) => f.status(),
            None => Status::Clean,
        };
        self.record.status().merge(own).merge(r)
    }
}

} // verus!
