//! Directories: an array of 32-byte entries stored in ordinary clusters, and
//! everything left behind in it.

use crate::desc::{Record, RecordModel};
use crate::exfat::chain;
use crate::exfat::chain::{abs_of, cluster_chain, cluster_runs, read_runs, runs_to_extent};
use crate::exfat::desc;
use crate::exfat::entry;
use crate::exfat::entry::{is_zero_from, read_record, single_entry, SingleEntry, SingleModel};
use crate::exfat::finding;
use crate::exfat::finding::{note, Finding};
use crate::exfat::geometry::Geometry;
use crate::exfat::entry_set as sets;
use crate::exfat::entry_set::{entry_set, EntrySet, SetModel, Subdir};
use crate::exfat::types;
use crate::extent::Span;
use crate::source::{BlockSource, Device};
use crate::text;
use crate::text::Text;
use vstd::prelude::*;
use vstd::slice::slice_subrange;

verus! {

/// A directory longer than this is either enormous or corrupt; scanning stops here
/// and says so.
pub const MAX_DIR_ENTRIES: u64 = 8192;

/// What lies in a slot of a directory.
#[derive(Debug)]
pub enum Entry {
    /// The first entry with type 0x00.
    End(Record),
    /// A type byte of zero over 31 bytes that are not.
    ZeroedType(Record),
    Single(SingleEntry),
    File(EntrySet),
}

/// What an [`Entry`] says.
pub enum EntryModel {
    End(RecordModel),
    ZeroedType(RecordModel),
    Single(SingleModel),
    File(SetModel),
}

impl View for Entry {
    type V = EntryModel;

    open spec fn view(&self) -> EntryModel {
        match *self {
            Entry::End(r) => EntryModel::End(r@),
            Entry::ZeroedType(r) => EntryModel::ZeroedType(r@),
            Entry::Single(s) => EntryModel::Single(s@),
            Entry::File(s) => EntryModel::File(s@),
        }
    }
}

/// One row of a directory.
#[derive(Debug)]
pub struct Item {
    /// The slot it starts in, and the offset of that slot on the device.
    pub slot: u64,
    pub at: u64,
    pub type_byte: u8,
    /// True past the end-of-directory marker, where no driver looks.
    pub residue: bool,
    pub entry: Entry,
}

/// What an [`Item`] says.
pub struct ItemModel {
    pub slot: u64,
    pub at: u64,
    pub type_byte: u8,
    pub residue: bool,
    pub entry: EntryModel,
}

impl View for Item {
    type V = ItemModel;

    open spec fn view(&self) -> ItemModel {
        ItemModel {
            slot: self.slot,
            at: self.at,
            type_byte: self.type_byte,
            residue: self.residue,
            entry: self.entry@,
        }
    }
}

impl ItemModel {
    /// The row label.
    pub open spec fn named(self) -> Seq<char> {
        (if self.residue {
            "residue: "@
        } else {
            ""@
        }) + match self.entry {
            EntryModel::End(_) => "end of directory"@,
            EntryModel::ZeroedType(_) => "zeroed type byte"@,
            EntryModel::Single(s) => s.label,
            EntryModel::File(s) => s.named(),
        }
    }

    /// The row label says "deleted": it does for every row that is marked not-in-use,
    /// and for a row in use whose own name holds the word.
    pub open spec fn reads_deleted(self) -> bool {
        text::holds(self.named(), "deleted"@)
    }

    /// What is said of the row for where it lies.
    pub open spec fn place_findings(self) -> Seq<Finding> {
        finding::when(self.entry is End, Finding::EndMarker) + finding::when(
            self.residue,
            Finding::ResidueRecord { entry_type: types::restored(self.type_byte) },
        )
    }
}

/// The models of a list of rows.
pub open spec fn models(items: Seq<Item>) -> Seq<ItemModel> {
    Seq::new(items.len(), |i: int| items[i]@)
}

/// How many rows lie past the end-of-directory marker.
pub open spec fn residue_count(items: Seq<ItemModel>) -> nat
    decreases items.len(),
{
    if items.len() == 0 {
        0
    } else {
        residue_count(items.drop_last()) + if items.last().residue { 1nat } else { 0nat }
    }
}

/// A row whose records are marked not-in-use has a label that says "deleted".
pub proof fn lemma_rows_not_in_use_read_deleted(scan: Scan, k: int, past_end: bool)
    requires
        0 <= k < scan.slots,
        32 * scan.slots <= scan.flat.len(),
        scan.type_at(k) != types::END_OF_DIRECTORY,
        !types::in_use(scan.type_at(k)),
    ensures
        scan.item(k, past_end).reads_deleted(),
{
    let item = scan.item(k, past_end);
    let at: int = if past_end { 9 } else { 0 };
    reveal_strlit("");
    reveal_strlit("residue: ");
    reveal_strlit("deleted");
    reveal_strlit("deleted ");
    let b = slot_bytes(scan.flat, k);
    assert(b[0] == scan.type_at(k));
    if types::restored(scan.type_at(k)) == types::FILE {
        let set = sets::set_bytes(scan.flat, k, scan.slots);
        assert(set[0] == scan.type_at(k));
    }
    assert(item.named().subrange(at, at + 7) =~= "deleted"@);
    assert(text::stands_at(item.named(), "deleted"@, at));
}

/// How many rows have a label that says "deleted".
pub open spec fn deleted_count(items: Seq<ItemModel>) -> nat
    decreases items.len(),
{
    if items.len() == 0 {
        0
    } else {
        deleted_count(items.drop_last()) + if items.last().reads_deleted() { 1nat } else { 0nat }
    }
}

/// The 32 bytes of slot `k`.
pub open spec fn slot_bytes(flat: Seq<u8>, k: int) -> Seq<u8> {
    flat.subrange(32 * k, 32 * k + 32)
}

/// What is being scanned: the device and its geometry, the directory's bytes, and
/// where they came from.
pub struct Scan {
    pub dev: Device,
    pub geo: Geometry,
    pub flat: Seq<u8>,
    pub runs: Seq<(u64, u64)>,
    pub slots: int,
    pub depth: u32,
}

impl Scan {
    pub open spec fn type_at(self, k: int) -> u8 {
        self.flat[32 * k]
    }

    /// Slot `k` is an unallocated slot that holds nothing at all.
    pub open spec fn vacant(self, k: int, past_end: bool) -> bool {
        past_end && entry::zero_from(slot_bytes(self.flat, k), 0)
    }

    /// How many slots the row that starts at slot `k` takes.
    pub open spec fn width(self, k: int) -> int {
        if self.type_at(k) != 0 && types::restored(self.type_at(k)) == types::FILE {
            sets::set_total(self.flat[32 * k + 1] as u64, (self.slots - k - 1) as u64) as int
        } else {
            1
        }
    }

    /// The row that starts at slot `k`.
    pub open spec fn item(self, k: int, past_end: bool) -> ItemModel {
        let t = self.type_at(k);
        let at = sets::slot_at(self.runs, k);
        ItemModel {
            slot: k as u64,
            at,
            type_byte: t,
            residue: past_end,
            entry: if t == types::END_OF_DIRECTORY {
                let record = entry::record_with(
                    entry::generic_layout(),
                    slot_bytes(self.flat, k),
                    at,
                    self.geo.base,
                );
                if past_end {
                    EntryModel::ZeroedType(record)
                } else {
                    EntryModel::End(record)
                }
            } else if types::restored(t) == types::FILE {
                EntryModel::File(
                    sets::set_of(
                        self.dev,
                        self.geo,
                        self.flat,
                        self.runs,
                        k,
                        self.slots,
                        self.depth,
                    ),
                )
            } else {
                EntryModel::Single(
                    entry::single_of(slot_bytes(self.flat, k), at, self.geo.base),
                )
            },
        }
    }

    /// The rows from slot `k` on. Past the end-of-directory marker the same records
    /// are read the same way: a deleted set out there is still a set.
    pub open spec fn items(self, k: int, past_end: bool) -> Seq<ItemModel>
        decreases self.slots - k,
    {
        if k < 0 || k >= self.slots {
            Seq::empty()
        } else if self.vacant(k, past_end) {
            self.items(k + 1, past_end)
        } else {
            seq![self.item(k, past_end)] + self.items(
                k + self.width(k),
                past_end || self.type_at(k) == types::END_OF_DIRECTORY,
            )
        }
    }

    /// How many vacant slots there are from slot `k` on.
    pub open spec fn vacancies(self, k: int, past_end: bool) -> int
        decreases self.slots - k,
    {
        if k < 0 || k >= self.slots {
            0
        } else if self.vacant(k, past_end) {
            1 + self.vacancies(k + 1, past_end)
        } else {
            self.vacancies(
                k + self.width(k),
                past_end || self.type_at(k) == types::END_OF_DIRECTORY,
            )
        }
    }
}

/// A directory and what is in it.
#[derive(Debug)]
pub struct Directory {
    pub label: String,
    pub extent: Vec<Span>,
    pub items: Vec<Item>,
    /// Slots past the end-of-directory marker that are entirely zero.
    pub vacant_slots: u64,
    pub findings: Vec<Finding>,
}

/// What a [`Directory`] says.
pub struct DirectoryModel {
    pub label: Seq<char>,
    pub extent: Seq<Span>,
    pub items: Seq<ItemModel>,
    pub vacant_slots: u64,
    pub findings: Seq<Finding>,
}

impl View for Directory {
    type V = DirectoryModel;

    open spec fn view(&self) -> DirectoryModel {
        DirectoryModel {
            label: self.label@,
            extent: self.extent@,
            items: models(self.items@),
            vacant_slots: self.vacant_slots,
            findings: self.findings@,
        }
    }
}

/// Total length of a run list.
pub open spec fn run_bytes(runs: Seq<(u64, u64)>) -> int
    decreases runs.len(),
{
    if runs.len() == 0 {
        0
    } else {
        run_bytes(runs.drop_last()) + runs.last().1
    }
}

/// The most bytes of one directory that are scanned.
pub open spec fn scan_limit() -> u64 {
    (MAX_DIR_ENTRIES * 32) as u64
}

/// What scanning a directory says about it as a whole.
pub open spec fn summary_findings(items: Seq<ItemModel>, vacant: int) -> Seq<Finding> {
    Seq::<Finding>::empty() + finding::when(
        vacant > 0,
        Finding::ZeroSlots { count: vacant as u64 },
    ) + finding::when(
        residue_count(items) > 0,
        Finding::ResidueSurvives { count: residue_count(items) as u64 },
    ) + finding::when(
        deleted_count(items) > 0,
        Finding::NotInUseShown { count: deleted_count(items) as u64 },
    )
}

/// The directory that starts at `first_cluster`.
pub open spec fn directory_of(
    dev: Device,
    g: Geometry,
    first_cluster: u64,
    no_fat_chain: bool,
    byte_len: Option<u64>,
    label: Seq<char>,
    depth: u32,
) -> DirectoryModel {
    let c = chain::chain_of(dev, g, first_cluster, no_fat_chain, byte_len);
    let runs = chain::runs_of(g, c.clusters);
    if runs.len() == 0 {
        DirectoryModel {
            label,
            extent: Seq::empty(),
            items: Seq::empty(),
            vacant_slots: 0,
            findings: c.findings + seq![Finding::NoClustersResolved],
        }
    } else {
        let read = chain::gather(dev, runs, scan_limit(), Seq::empty());
        let scan = Scan {
            dev,
            geo: g,
            flat: read.data,
            runs,
            slots: read.data.len() as int / 32,
            depth,
        };
        DirectoryModel {
            label,
            extent: chain::extent_of(runs),
            items: scan.items(0, false),
            vacant_slots: scan.vacancies(0, false) as u64,
            findings: c.findings + read.findings + finding::when(
                run_bytes(runs) > scan_limit(),
                Finding::DirectoryTruncated {
                    total: run_bytes(runs) as u64,
                    limit: scan_limit(),
                },
            ) + summary_findings(scan.items(0, false), scan.vacancies(0, false)),
        }
    }
}

proof fn lemma_runs_bounded(g: Geometry, clusters: Seq<u64>)
    requires
        g.well_formed(),
    ensures
        run_bytes(chain::runs_of(g, clusters)) <= clusters.len() * g.cluster_size,
        forall|n: int|
            0 <= n <= chain::runs_of(g, clusters).len() ==> 0 <= #[trigger] run_bytes(
                chain::runs_of(g, clusters).take(n),
            ) <= clusters.len() * g.cluster_size,
    decreases clusters.len(),
{
    let runs = chain::runs_of(g, clusters);
    if clusters.len() > 0 {
        let before = chain::runs_of(g, clusters.drop_last());
        lemma_runs_bounded(g, clusters.drop_last());
        assert(clusters.len() * g.cluster_size == (clusters.len() - 1) * g.cluster_size
            + g.cluster_size) by (nonlinear_arith);
        assert((clusters.len() - 1) * g.cluster_size >= 0) by (nonlinear_arith)
            requires
                clusters.len() >= 1,
                g.cluster_size >= 0,
        ;
        assert(before.take(before.len() as int) =~= before);
        if before.len() > 0 {
            assert(before.drop_last() =~= before.take(before.len() - 1));
        }
        assert forall|n: int| 0 <= n <= runs.len() implies 0 <= #[trigger] run_bytes(
            runs.take(n),
        ) <= clusters.len() * g.cluster_size by {
            if n < runs.len() {
                if n <= before.len() {
                    assert(runs.take(n) =~= before.take(n));
                }
            } else {
                assert(runs.take(n) =~= runs);
                if runs != before {
                    assert(runs.drop_last() =~= before || runs.drop_last()
                        =~= before.drop_last());
                }
            }
        }
        assert(runs.take(runs.len() as int) =~= runs);
    } else {
        assert forall|n: int| 0 <= n <= runs.len() implies 0 <= #[trigger] run_bytes(
            runs.take(n),
        ) <= clusters.len() * g.cluster_size by {
            assert(runs.take(n).len() == 0);
        }
    }
}

fn total_bytes(geo: &Geometry, clusters: &[u64], runs: &[(u64, u64)]) -> (r: u64)
    requires
        geo.well_formed(),
        clusters@.len() <= chain::MAX_CLUSTER_CHAIN,
        runs@ == chain::runs_of(*geo, clusters@),
    ensures
        r == run_bytes(runs@),
{
    let mut total: u64 = 0;
    let mut i: usize = 0;
    proof {
        lemma_runs_bounded(*geo, clusters@);
        assert(clusters@.len() * geo.cluster_size <= 65536 * 0xFFFF_FFFF) by (nonlinear_arith)
            requires
                0 <= clusters@.len() <= 65536,
                0 <= geo.cluster_size <= 0xFFFF_FFFF,
        ;
    }
    while i < runs.len()
        invariant
            i <= runs@.len(),
            total == run_bytes(runs@.take(i as int)),
            forall|n: int|
                0 <= n <= runs@.len() ==> 0 <= #[trigger] run_bytes(runs@.take(n)) <= 65536
                    * 0xFFFF_FFFF,
        decreases runs@.len() - i,
    {
        assert(runs@.take(i + 1).drop_last() =~= runs@.take(i as int));
        assert(run_bytes(runs@.take(i + 1)) <= 65536 * 0xFFFF_FFFF);
        total += runs[i].1;
        i += 1;
    }
    assert(runs@.take(i as int) =~= runs@);
    total
}

/// What scanning a directory's slots gives.
struct Scanned {
    items: Vec<Item>,
    vacant: u64,
    residue: u64,
    deleted: u64,
}

fn read_item<S: BlockSource>(
    src: &S,
    geo: &Geometry,
    flat: &[u8],
    runs: &[(u64, u64)],
    k: usize,
    slots: usize,
    depth: u32,
    past_end: bool,
) -> (r: (Item, usize))
    requires
        geo.well_formed(),
        k < slots,
        32 * slots <= flat@.len(),
    ensures
        ({
            let scan = Scan {
                dev: src.device(),
                geo: *geo,
                flat: flat@,
                runs: runs@,
                slots: slots as int,
                depth,
            };
            &&& r.0@ == scan.item(k as int, past_end)
            &&& r.1 == scan.width(k as int)
            &&& 1 <= r.1 <= slots - k
        }),
{
    let len: usize = flat.len();
    let off: usize = 32 * k;
    let t: u8 = flat[off];
    let at: u64 = match abs_of(runs, off as u64) {
        Some(at) => at,
        None => 0,
    };
    if t == types::END_OF_DIRECTORY {
        let layout = desc::generic_entry();
        let record = read_record(&layout, slice_subrange(flat, off, off + 32), at, geo.base);
        let entry = if past_end { Entry::ZeroedType(record) } else { Entry::End(record) };
        (Item { slot: k as u64, at, type_byte: t, residue: past_end, entry }, 1)
    } else if types::undeleted(t) == types::FILE {
        let set = entry_set(src, geo, flat, runs, k, slots, depth);
        let used: usize = set.facts.total as usize;
        assert(sets::set_bytes(flat@, k as int, slots as int)[1] == flat@[32 * k + 1]);
        (
            Item {
                slot: k as u64,
                at,
                type_byte: t,
                residue: past_end,
                entry: Entry::File(set),
            },
            used,
        )
    } else {
        let single = single_entry(slice_subrange(flat, off, off + 32), at, geo.base);
        (
            Item {
                slot: k as u64,
                at,
                type_byte: t,
                residue: past_end,
                entry: Entry::Single(single),
            },
            1,
        )
    }
}

impl Item {
    /// True for a row whose label says "deleted".
    pub fn is_deleted(&self) -> (r: bool)
        ensures
            r == self@.reads_deleted(),
    {
        let label: String = self.label();
        text::is_holding(label.as_str(), "deleted")
    }

    /// What is said of the row for where it lies.
    pub fn place(&self) -> (out: Vec<Finding>)
        ensures
            out@ == self@.place_findings(),
    {
        let mut out: Vec<Finding> = Vec::new();
        let is_end: bool = match &self.entry {
            Entry::End(_) => true,
            _ => false,
        };
        note(&mut out, is_end, Finding::EndMarker);
        note(
            &mut out,
            self.residue,
            Finding::ResidueRecord { entry_type: types::undeleted(self.type_byte) },
        );
        assert(out@ =~= self@.place_findings());
        out
    }

    /// The row label.
    pub fn label(&self) -> (r: String)
        ensures
            r@ == self@.named(),
    {
        let t = Text::of(if self.residue { "residue: " } else { "" });
        match &self.entry {
            Entry::End(_) => t.lit("end of directory").done(),
            Entry::ZeroedType(_) => t.lit("zeroed type byte").done(),
            Entry::Single(s) => t.lit(s.label.as_str()).done(),
            Entry::File(s) => {
                let l: String = s.label();
                t.lit(l.as_str()).done()
            },
        }
    }
}

proof fn lemma_models_push(items: Seq<Item>, item: Item)
    ensures
        models(items.push(item)) =~= models(items).push(item@),
        models(items.push(item)).drop_last() =~= models(items),
{
}

fn scan_slots<S: BlockSource>(
    src: &S,
    geo: &Geometry,
    flat: &[u8],
    runs: &[(u64, u64)],
    slots: usize,
    depth: u32,
) -> (r: Scanned)
    requires
        geo.well_formed(),
        32 * slots <= flat@.len(),
    ensures
        ({
            let scan = Scan {
                dev: src.device(),
                geo: *geo,
                flat: flat@,
                runs: runs@,
                slots: slots as int,
                depth,
            };
            &&& models(r.items@) == scan.items(0, false)
            &&& r.vacant == scan.vacancies(0, false)
        }),
        r.residue == residue_count(models(r.items@)),
        r.deleted == deleted_count(models(r.items@)),
{
    let ghost scan = Scan {
        dev: src.device(),
        geo: *geo,
        flat: flat@,
        runs: runs@,
        slots: slots as int,
        depth,
    };
    let len: usize = flat.len();
    let mut items: Vec<Item> = Vec::new();
    let mut vacant: u64 = 0;
    let mut residue: u64 = 0;
    let mut deleted: u64 = 0;
    let mut past_end: bool = false;
    let mut k: usize = 0;
    assert(models(items@) =~= Seq::empty());
    while k < slots
        invariant
            geo.well_formed(),
            k <= slots,
            32 * slots <= len,
            len == flat@.len(),
            scan == (Scan {
                dev: src.device(),
                geo: *geo,
                flat: flat@,
                runs: runs@,
                slots: slots as int,
                depth,
            }),
            scan.items(0, false) =~= models(items@) + scan.items(k as int, past_end),
            scan.vacancies(0, false) == vacant + scan.vacancies(k as int, past_end),
            vacant <= k,
            residue == residue_count(models(items@)),
            deleted == deleted_count(models(items@)),
            residue <= k,
            deleted <= k,
        decreases slots - k,
    {
        let off: usize = 32 * k;
        if past_end && is_zero_from(slice_subrange(flat, off, off + 32), 0) {
            vacant += 1;
            k += 1;
        } else {
            let (item, used): (Item, usize) = read_item(
                src,
                geo,
                flat,
                runs,
                k,
                slots,
                depth,
                past_end,
            );
            if item.residue {
                residue += 1;
            }
            if item.is_deleted() {
                deleted += 1;
            }
            if item.type_byte == types::END_OF_DIRECTORY {
                past_end = true;
            }
            proof {
                lemma_models_push(items@, item);
            }
            items.push(item);
            k += used;
        }
    }
    Scanned { items, vacant, residue, deleted }
}

/// Read a directory: its cluster chain, its entries, and what survives in it.
pub fn directory<S: BlockSource>(
    src: &S,
    geo: &Geometry,
    first_cluster: u64,
    no_fat_chain: bool,
    byte_len: Option<u64>,
    label: String,
    depth: u32,
) -> (r: Directory)
    requires
        geo.well_formed(),
    ensures
        r@ == directory_of(
            src.device(),
            *geo,
            first_cluster,
            no_fat_chain,
            byte_len,
            label@,
            depth,
        ),
{
    let (clusters, mut findings) = cluster_chain(src, geo, first_cluster, no_fat_chain, byte_len);
    let runs: Vec<(u64, u64)> = cluster_runs(geo, &clusters);
    if runs.len() == 0 {
        findings.push(Finding::NoClustersResolved);
        let r = Directory {
            label,
            extent: Vec::new(),
            items: Vec::new(),
            vacant_slots: 0,
            findings,
        };
        assert(r@.items =~= Seq::empty());
        assert(r@.findings =~= chain::chain_of(
            src.device(),
            *geo,
            first_cluster,
            no_fat_chain,
            byte_len,
        ).findings + seq![Finding::NoClustersResolved]);
        return r;
    }
    let limit: u64 = MAX_DIR_ENTRIES * 32;
    let (flat, mut read_findings) = read_runs(src, &runs, limit);
    let slots: usize = flat.len() / 32;
    let total: u64 = total_bytes(geo, &clusters, &runs);
    let scanned = scan_slots(src, geo, &flat, &runs, slots, depth);
    findings.append(&mut read_findings);
    note(&mut findings, total > limit, Finding::DirectoryTruncated { total, limit });
    let mut summary: Vec<Finding> = Vec::new();
    note(&mut summary, scanned.vacant > 0, Finding::ZeroSlots { count: scanned.vacant });
    note(&mut summary, scanned.residue > 0, Finding::ResidueSurvives { count: scanned.residue });
    note(&mut summary, scanned.deleted > 0, Finding::NotInUseShown { count: scanned.deleted });
    findings.append(&mut summary);
    Directory {
        label,
        extent: runs_to_extent(&runs),
        items: scanned.items,
        vacant_slots: scanned.vacant,
        findings,
    }
}

impl Subdir {
    /// Read the subdirectory.
    pub fn expand<S: BlockSource>(&self, src: &S) -> (r: Directory)
        requires
            self.geo.well_formed(),
        ensures
            r@ == directory_of(
                src.device(),
                self.geo,
                self.first_cluster,
                self.no_fat_chain,
                self.byte_len,
                "contents of \""@ + self.name@ + "\""@,
                self.depth,
            ),
    {
        let label: String = Text::of("contents of \"").lit(self.name.as_str()).lit("\"").done();
        directory(
            src,
            &self.geo,
            self.first_cluster,
            self.no_fat_chain,
            self.byte_len,
            label,
            self.depth,
        )
    }
}

// ------------------------------------------------------------ root metadata

/// What a critical primary entry of the root directory points at.
#[derive(Clone, Copy, Debug, PartialEq, Eq, Structural)]
pub struct MetaRef {
    /// Which row of the directory it is.
    pub index: u64,
    pub first_cluster: u64,
    pub data_length: u64,
    pub stored_checksum: Option<u64>,
}

/// Where the root directory says the volume's own structures are.
#[derive(Clone, Copy, Debug, PartialEq, Eq, Structural)]
pub struct RootMeta {
    pub bitmap: Option<MetaRef>,
    pub upcase: Option<MetaRef>,
    pub has_label: bool,
}

/// The type byte of a row that is a record on its own, zero for any other.
pub open spec fn lone_type(item: ItemModel) -> u8 {
    match item.entry {
        EntryModel::Single(s) => s.type_byte,
        _ => 0,
    }
}

/// The reference that row `i` makes.
pub open spec fn reference(item: ItemModel, i: int) -> MetaRef {
    match item.entry {
        EntryModel::Single(s) => MetaRef {
            index: i as u64,
            first_cluster: s.first_cluster as u64,
            data_length: s.data_length,
            stored_checksum: if s.type_byte == types::UPCASE_TABLE {
                Some(s.table_checksum as u64)
            } else {
                None
            },
        },
        _ => MetaRef { index: i as u64, first_cluster: 0, data_length: 0, stored_checksum: None },
    }
}

/// The first row of type `t`, as a reference.
pub open spec fn first_of(items: Seq<ItemModel>, t: u8) -> Option<MetaRef>
    decreases items.len(),
{
    if items.len() == 0 {
        None
    } else {
        match first_of(items.drop_last(), t) {
            Some(r) => Some(r),
            None => if lone_type(items.last()) == t {
                Some(reference(items.last(), items.len() - 1))
            } else {
                None
            },
        }
    }
}

/// Where the rows of a root directory say the volume's own structures are.
pub open spec fn meta_of(items: Seq<ItemModel>) -> RootMeta {
    RootMeta {
        bitmap: first_of(items, types::ALLOCATION_BITMAP),
        upcase: first_of(items, types::UPCASE_TABLE),
        has_label: first_of(items, types::VOLUME_LABEL) is Some,
    }
}

/// Find the in-use bitmap, up-case table and volume label entries of a directory.
pub fn root_metadata(dir: &Directory) -> (r: RootMeta)
    ensures
        r == meta_of(dir@.items),
{
    let mut meta = RootMeta { bitmap: None, upcase: None, has_label: false };
    let mut i: usize = 0;
    while i < dir.items.len()
        invariant
            i <= dir.items@.len(),
            meta == meta_of(models(dir.items@.take(i as int))),
        decreases dir.items@.len() - i,
    {
        let ghost before = models(dir.items@.take(i as int));
        let ghost after = models(dir.items@.take(i + 1));
        assert(after.drop_last() =~= before);
        assert(after.last() == dir.items@[i as int]@);
        if let Entry::Single(s) = &dir.items[i].entry {
            let t: u8 = s.type_byte;
            let stored_checksum = if t == types::UPCASE_TABLE {
                Some(s.table_checksum as u64)
            } else {
                None
            };
            let r = MetaRef {
                index: i as u64,
                first_cluster: s.first_cluster as u64,
                data_length: s.data_length,
                stored_checksum,
            };
            if t == types::ALLOCATION_BITMAP && meta.bitmap.is_none() {
                meta.bitmap = Some(r);
            }
            if t == types::UPCASE_TABLE && meta.upcase.is_none() {
                meta.upcase = Some(r);
            }
            if t == types::VOLUME_LABEL {
                meta.has_label = true;
            }
        }
        i += 1;
    }
    assert(dir.items@.take(i as int) =~= dir.items@);
    meta
}

// --------------------------------------------------------------------- laws

/// Every slot of a directory is accounted for: it starts a row, belongs to the set
/// before it, or is vacant. Nothing is skipped.
pub proof fn lemma_every_slot_is_accounted_for(scan: Scan, k: int, past_end: bool)
    requires
        0 <= k <= scan.slots <= u64::MAX,
    ensures
        widths(scan, scan.items(k, past_end)) + scan.vacancies(k, past_end) == scan.slots - k,
    decreases scan.slots - k,
{
    if k < scan.slots {
        if scan.vacant(k, past_end) {
            lemma_every_slot_is_accounted_for(scan, k + 1, past_end);
        } else {
            let past = past_end || scan.type_at(k) == types::END_OF_DIRECTORY;
            lemma_every_slot_is_accounted_for(scan, k + scan.width(k), past);
            let item = scan.item(k, past_end);
            let rest = scan.items(k + scan.width(k), past);
            lemma_widths_cons(scan, item, rest);
        }
    }
}

/// How many slots a list of rows takes.
pub open spec fn widths(scan: Scan, items: Seq<ItemModel>) -> int
    decreases items.len(),
{
    if items.len() == 0 {
        0
    } else {
        scan.width(items[0].slot as int) + widths(scan, items.skip(1))
    }
}

proof fn lemma_widths_cons(scan: Scan, item: ItemModel, rest: Seq<ItemModel>)
    ensures
        widths(scan, seq![item] + rest) == scan.width(item.slot as int) + widths(scan, rest),
{
    assert((seq![item] + rest).skip(1) =~= rest);
}

} // verus!
