//! Directory listings.
//!
//! The rules that matter are all about what not to hide. A driver stops at a record
//! that starts with zero; everything after it is what the directory used to contain. A
//! deleted entry is shown and told apart from a never-used one. And a long-filename
//! fragment whose entry is gone is the strongest residue there is.

use crate::common;
use crate::common::min_u64;
use crate::fat::chain;
use crate::fat::chain::{chain_summary, follow_chain, ChainEnd, ChainSummary, ChainSummaryModel};
use crate::fat::desc;
use crate::fat::entry;
use crate::fat::entry::{
    file_entry, orphan_lfn, residue, FileEntry, FileEntryModel, OrphanLfn,
    OrphanLfnModel, Residue,
};
use crate::fat::finding::Finding;
use crate::fat::geometry::Geom;
use crate::desc::RecordModel;
use crate::scrub::{full_records, slots, Slot, SlotModel};
use crate::source::{BlockSource, Device, ReadOutcome};
use crate::status::Status;
use crate::text;
use crate::text::Text;
use vstd::prelude::*;
use vstd::slice::slice_subrange;

verus! {

/// Clusters a single directory may occupy before walking it stops.
pub const MAX_DIR_CLUSTERS: usize = 4096;

/// Records parsed from one directory.
pub const MAX_DIR_ENTRIES: usize = 16384;

/// Bytes of directory data read in one expansion.
pub const MAX_DIR_BYTES: u64 = 524288;

/// Where a directory's records are.
#[derive(Clone, Copy, Debug, PartialEq, Eq, Structural)]
pub enum DirSource {
    /// A cluster chain, starting here.
    Chain(u64),
    /// The fixed root of FAT12 and FAT16: an offset and a length.
    Fixed(u64, u64),
}

/// A directory, before it is listed.
#[derive(Clone, Copy, Debug, PartialEq, Eq, Structural)]
pub struct DirExpander {
    pub geom: Geom,
    pub source: DirSource,
    pub depth: u32,
}

// --------------------------------------------------------------------------- runs

/// The runs of the first `n` clusters, and how many bytes they cover. Contiguous
/// clusters are merged so the whole run is one read.
pub open spec fn runs_of(g: Geom, clusters: Seq<u64>, n: nat) -> (Seq<(u64, u64)>, u64)
    decreases n,
{
    if n == 0 {
        (Seq::empty(), 0)
    } else {
        let (runs, taken) = runs_of(g, clusters, (n - 1) as nat);
        if taken >= MAX_DIR_BYTES {
            (runs, taken)
        } else {
            match g.cluster_at(clusters[n - 1] as int) {
                None => (runs, taken),
                Some(at) => {
                    let more = common::saturated(taken + g.bytes_per_cluster);
                    if runs.len() > 0 && common::saturated(runs.last().0 + runs.last().1) == at {
                        (
                            runs.drop_last().push(
                                (
                                    runs.last().0,
                                    common::saturated(runs.last().1 + g.bytes_per_cluster),
                                ),
                            ),
                            more,
                        )
                    } else {
                        (runs.push((at, g.bytes_per_cluster)), more)
                    }
                },
            }
        }
    }
}

fn cluster_runs(g: &Geom, clusters: &[u64]) -> (r: Vec<(u64, u64)>)
    ensures
        r@ == runs_of(*g, clusters@, clusters@.len()).0,
{
    let mut runs: Vec<(u64, u64)> = Vec::new();
    let mut taken: u64 = 0;
    let mut i: usize = 0;
    while i < clusters.len()
        invariant
            i <= clusters@.len(),
            (runs@, taken) == runs_of(*g, clusters@, i as nat),
        decreases clusters@.len() - i,
    {
        let ghost before = runs@;
        if taken < MAX_DIR_BYTES {
            if let Some(at) = g.cluster_to_byte(clusters[i]) {
                taken = taken.saturating_add(g.bytes_per_cluster);
                let n: usize = runs.len();
                let mut joined: bool = false;
                if n > 0 {
                    let (start, len): (u64, u64) = runs[n - 1];
                    if start.saturating_add(len) == at {
                        runs.pop();
                        runs.push((start, len.saturating_add(g.bytes_per_cluster)));
                        joined = true;
                        assert(runs@ =~= before.drop_last().push(
                            (start, common::saturated(len + g.bytes_per_cluster)),
                        ));
                    }
                }
                if !joined {
                    runs.push((at, g.bytes_per_cluster));
                }
            }
        }
        i += 1;
    }
    runs
}

// ------------------------------------------------------------------------ records

/// The records of what was read at `off`, from record `i` on, after those there are.
pub open spec fn with_records(have: Seq<SlotModel>, off: u64, data: Seq<u8>, i: nat) -> Seq<
    SlotModel,
>
    decreases data.len() - 32 * i,
{
    if 32 * (i + 1) > data.len() || have.len() >= MAX_DIR_ENTRIES {
        have
    } else {
        with_records(
            have.push(
                SlotModel {
                    at: common::saturated(off + 32 * i),
                    data: data.subrange(32 * i as int, 32 * i as int + 32),
                },
            ),
            off,
            data,
            i + 1,
        )
    }
}

/// How much of a run is read.
pub open spec fn wanted(len: u64) -> u64 {
    if len < MAX_DIR_BYTES {
        len
    } else {
        MAX_DIR_BYTES
    }
}

/// The records of the runs, after those there are, and whether a read was refused.
pub open spec fn records_of(dev: Device, runs: Seq<(u64, u64)>, have: Seq<SlotModel>) -> (
    Seq<SlotModel>,
    bool,
)
    decreases runs.len(),
{
    if runs.len() == 0 || have.len() >= MAX_DIR_ENTRIES {
        (have, false)
    } else {
        let (off, len) = runs[0];
        let r = dev.read(off, wanted(len));
        if r.refused() {
            (have, true)
        } else {
            records_of(dev, runs.skip(1), with_records(have, off, r.data, 0))
        }
    }
}

proof fn lemma_with_records_full(have: Seq<SlotModel>, off: u64, data: Seq<u8>, i: nat)
    requires
        full_records(have),
    ensures
        full_records(with_records(have, off, data, i)),
    decreases data.len() - 32 * i,
{
    if !(32 * (i + 1) > data.len() || have.len() >= MAX_DIR_ENTRIES) {
        let now = have.push(
            SlotModel {
                at: common::saturated(off + 32 * i),
                data: data.subrange(32 * i as int, 32 * i as int + 32),
            },
        );
        assert(full_records(now));
        lemma_with_records_full(now, off, data, i + 1);
    }
}

fn add_records(out: &mut Vec<Slot>, off: u64, data: &[u8])
    requires
        data@.len() <= MAX_DIR_BYTES,
        full_records(slots(old(out)@)),
    ensures
        slots(final(out)@) == with_records(slots(old(out)@), off, data@, 0),
        full_records(slots(final(out)@)),
{
    proof {
        lemma_with_records_full(slots(out@), off, data@, 0);
    }
    let ghost whole = with_records(slots(out@), off, data@, 0);
    let mut i: usize = 0;
    while 32 * (i + 1) <= data.len() && out.len() < MAX_DIR_ENTRIES
        invariant
            32 * i <= data@.len() <= MAX_DIR_BYTES,
            whole == with_records(slots(out@), off, data@, i as nat),
        decreases data@.len() - 32 * i,
    {
        let ghost before = slots(out@);
        let part: &[u8] = slice_subrange(data, 32 * i, 32 * i + 32);
        let mut bytes: Vec<u8> = Vec::new();
        let mut k: usize = 0;
        while k < part.len()
            invariant
                k <= part@.len(),
                bytes@ =~= part@.take(k as int),
            decreases part@.len() - k,
        {
            bytes.push(part[k]);
            k += 1;
        }
        assert(bytes@ =~= data@.subrange(32 * i as int, 32 * i as int + 32));
        let slot = Slot { at: off.saturating_add(32 * (i as u64)), data: bytes };
        out.push(slot);
        assert(slots(out@) =~= before.push(slot@));
        i += 1;
    }
}

fn read_records<S: BlockSource>(src: &S, runs: &[(u64, u64)]) -> (r: (Vec<Slot>, bool))
    ensures
        (slots(r.0@), r.1) == records_of(src.device(), runs@, Seq::empty()),
        full_records(slots(r.0@)),
{
    let ghost dev = src.device();
    let ghost whole = records_of(dev, runs@, Seq::empty());
    let mut out: Vec<Slot> = Vec::new();
    assert(slots(out@) =~= Seq::empty());
    let mut i: usize = 0;
    assert(runs@.skip(0) =~= runs@);
    while i < runs.len() && out.len() < MAX_DIR_ENTRIES
        invariant
            i <= runs@.len(),
            dev == src.device(),
            whole == records_of(dev, runs@, Seq::empty()),
            whole == records_of(dev, runs@.skip(i as int), slots(out@)),
            full_records(slots(out@)),
        decreases runs@.len() - i,
    {
        let (off, len): (u64, u64) = runs[i];
        let want: u64 = min_u64(len, MAX_DIR_BYTES);
        assert(runs@.skip(i as int).skip(1) =~= runs@.skip(i + 1));
        let (buf, outcome) = src.read_vec(off, want);
        if outcome == ReadOutcome::Unreadable {
            return (out, true);
        }
        add_records(&mut out, off, &buf);
        i += 1;
    }
    (out, false)
}

// -------------------------------------------------------------------------- items

/// One row of a listing.
#[derive(Debug)]
pub enum DirItem {
    /// A fragment that lost its entry.
    Orphan(OrphanLfn),
    /// The record at which a driver stops, and whether it is all zero.
    End { at: u64, blank: bool },
    /// A record marked never-used that is not zero.
    Residue(Residue),
    File(FileEntry),
    /// Records past the marker that hold nothing at all.
    Unused { count: u64 },
}

/// What a [`DirItem`] says.
pub enum DirItemModel {
    Orphan(OrphanLfnModel),
    End { at: u64, blank: bool },
    Residue(RecordModel),
    File(FileEntryModel),
    Unused { count: nat },
}

impl View for DirItem {
    type V = DirItemModel;

    open spec fn view(&self) -> DirItemModel {
        match *self {
            DirItem::Orphan(o) => DirItemModel::Orphan(o@),
            DirItem::End { at, blank } => DirItemModel::End { at, blank },
            DirItem::Residue(r) => DirItemModel::Residue(r.record@),
            DirItem::File(f) => DirItemModel::File(f@),
            DirItem::Unused { count } => DirItemModel::Unused { count: count as nat },
        }
    }
}

/// The models of a list of rows.
pub open spec fn item_models(v: Seq<DirItem>) -> Seq<DirItemModel> {
    Seq::new(v.len(), |i: int| v[i]@)
}

/// Every byte of a record is zero.
pub open spec fn blank(b: Seq<u8>) -> bool {
    forall|i: int| 0 <= i < b.len() ==> #[trigger] b[i] == 0
}

/// The rows of fragments that lost their entry.
pub open spec fn orphans(g: Geom, pending: Seq<SlotModel>) -> Seq<DirItemModel> {
    Seq::new(pending.len(), |i: int| DirItemModel::Orphan(entry::orphan_of(g, pending[i])))
}

/// The rows of the records from `i` on. `pending` holds the fragments read since the
/// last entry, `ended` says that the end marker has been seen, and `blanks` counts the
/// records after it that hold nothing.
pub open spec fn items_from(
    dev: Device,
    g: Geom,
    depth: u32,
    recs: Seq<SlotModel>,
    i: nat,
    pending: Seq<SlotModel>,
    ended: bool,
    blanks: nat,
) -> Seq<DirItemModel>
    decreases recs.len() - i,
{
    if i >= recs.len() {
        orphans(g, pending) + if blanks > 0 {
            seq![DirItemModel::Unused { count: blanks }]
        } else {
            Seq::empty()
        }
    } else {
        let rec = recs[i as int];
        let b = rec.data;
        if b[0] == desc::FREE_MARK {
            let marker = if ended {
                Seq::empty()
            } else {
                seq![DirItemModel::End { at: rec.at, blank: blank(b) }]
            };
            let body = if blank(b) {
                Seq::empty()
            } else {
                seq![DirItemModel::Residue(entry::entry_record(g, rec))]
            };
            orphans(g, pending) + marker + body + items_from(
                dev,
                g,
                depth,
                recs,
                i + 1,
                Seq::empty(),
                true,
                if ended && blank(b) {
                    blanks + 1
                } else {
                    blanks
                },
            )
        } else if b[0x0B] % 64 == 15 {
            items_from(dev, g, depth, recs, i + 1, pending.push(rec), ended, blanks)
        } else {
            seq![DirItemModel::File(entry::file_of(dev, g, rec, pending, depth, ended))]
                + items_from(dev, g, depth, recs, i + 1, Seq::empty(), ended, blanks)
        }
    }
}

/// The rows of a directory's records.
pub open spec fn items_of(dev: Device, g: Geom, recs: Seq<SlotModel>, depth: u32) -> Seq<
    DirItemModel,
> {
    items_from(dev, g, depth, recs, 0, Seq::empty(), false, 0)
}

fn is_blank(b: &[u8]) -> (r: bool)
    ensures
        r == blank(b@),
{
    let mut i: usize = 0;
    while i < b.len()
        invariant
            i <= b@.len(),
            forall|j: int| 0 <= j < i ==> #[trigger] b@[j] == 0,
        decreases b@.len() - i,
    {
        if b[i] != 0 {
            return false;
        }
        i += 1;
    }
    true
}

fn flush(out: &mut Vec<DirItem>, g: &Geom, pending: &[Slot])
    requires
        full_records(slots(pending@)),
    ensures
        item_models(final(out)@) == item_models(old(out)@) + orphans(*g, slots(pending@)),
{
    let ghost all = slots(pending@);
    let ghost start = item_models(out@);
    let mut i: usize = 0;
    while i < pending.len()
        invariant
            i <= pending@.len(),
            all == slots(pending@),
            full_records(all),
            item_models(out@) =~= start + orphans(*g, all).take(i as int),
        decreases pending@.len() - i,
    {
        let ghost before = item_models(out@);
        assert(all[i as int].data.len() == 32);
        let o = DirItem::Orphan(orphan_lfn(g, &pending[i]));
        out.push(o);
        assert(item_models(out@) =~= before.push(o@));
        i += 1;
    }
    assert(orphans(*g, all).take(i as int) =~= orphans(*g, all));
}

fn push_item(out: &mut Vec<DirItem>, item: DirItem)
    ensures
        item_models(final(out)@) == item_models(old(out)@).push(item@),
{
    out.push(item);
    assert(item_models(out@) =~= item_models(old(out)@).push(item@));
}

fn copy_slot(s: &Slot) -> (r: Slot)
    ensures
        r@ == s@,
{
    let mut data: Vec<u8> = Vec::new();
    let mut i: usize = 0;
    while i < s.data.len()
        invariant
            i <= s.data@.len(),
            data@ =~= s.data@.take(i as int),
        decreases s.data@.len() - i,
    {
        data.push(s.data[i]);
        i += 1;
    }
    assert(data@ =~= s.data@);
    Slot { at: s.at, data }
}

/// Turn a flat run of records into rows, grouping long-filename runs with the entry
/// they name.
pub fn build_entries<S: BlockSource>(src: &S, g: &Geom, recs: &[Slot], depth: u32) -> (r: Vec<
    DirItem,
>)
    requires
        full_records(slots(recs@)),
    ensures
        item_models(r@) == items_of(src.device(), *g, slots(recs@), depth),
{
    let ghost dev = src.device();
    let ghost all = slots(recs@);
    let ghost whole = items_of(dev, *g, all, depth);
    let mut out: Vec<DirItem> = Vec::new();
    let mut pending: Vec<Slot> = Vec::new();
    let mut ended: bool = false;
    let mut blanks: u64 = 0;
    let mut i: usize = 0;
    assert(slots(pending@) =~= Seq::empty());
    assert(item_models(out@) =~= Seq::empty());
    while i < recs.len()
        invariant
            i <= recs@.len(),
            dev == src.device(),
            all == slots(recs@),
            full_records(all),
            full_records(slots(pending@)),
            blanks <= i,
            whole =~= item_models(out@) + items_from(
                dev,
                *g,
                depth,
                all,
                i as nat,
                slots(pending@),
                ended,
                blanks as nat,
            ),
        decreases recs@.len() - i,
    {
        let rec = &recs[i];
        assert(all[i as int].data.len() == 32);
        let ghost start = item_models(out@);
        let ghost held = slots(pending@);
        if rec.data[0] == desc::FREE_MARK {
            flush(&mut out, g, &pending);
            let zero: bool = is_blank(&rec.data);
            if !ended {
                push_item(&mut out, DirItem::End { at: rec.at, blank: zero });
            }
            if !zero {
                push_item(&mut out, DirItem::Residue(residue(g, rec)));
            }
            if ended && zero {
                blanks += 1;
            }
            ended = true;
            pending = Vec::new();
            assert(slots(pending@) =~= Seq::empty());
        } else if rec.data[0x0B] % 64 == 15 {
            pending.push(copy_slot(rec));
            assert(slots(pending@) =~= held.push(rec@));
        } else {
            push_item(&mut out, DirItem::File(file_entry(src, g, rec, &pending, depth, ended)));
            pending = Vec::new();
            assert(slots(pending@) =~= Seq::empty());
        }
        i += 1;
    }
    flush(&mut out, g, &pending);
    if blanks > 0 {
        push_item(&mut out, DirItem::Unused { count: blanks });
    }
    assert(item_models(out@) =~= whole);
    out
}

// ---------------------------------------------------------------------------- law

/// How many records a row stands for. A marker that is not blank is shown again as
/// residue.
pub open spec fn stands_for(item: DirItemModel) -> nat {
    match item {
        DirItemModel::Orphan(_) => 1,
        DirItemModel::End { blank, .. } => if blank {
            1
        } else {
            0
        },
        DirItemModel::Residue(_) => 1,
        DirItemModel::File(f) => 1 + f.fragments.len(),
        DirItemModel::Unused { count } => count,
    }
}

/// How many records a list of rows stands for.
pub open spec fn accounted(items: Seq<DirItemModel>) -> nat
    decreases items.len(),
{
    if items.len() == 0 {
        0
    } else {
        accounted(items.drop_last()) + stands_for(items.last())
    }
}

/// Nothing is hidden: the rows of a listing stand for every record of the directory,
/// past the end marker too, and for none twice.
pub proof fn lemma_every_record_is_accounted_for(
    dev: Device,
    g: Geom,
    recs: Seq<SlotModel>,
    depth: u32,
)
    ensures
        accounted(items_of(dev, g, recs, depth)) == recs.len(),
{
    lemma_rest_accounted(dev, g, depth, recs, 0, Seq::empty(), false, 0);
}

proof fn lemma_accounted_joins(a: Seq<DirItemModel>, b: Seq<DirItemModel>)
    ensures
        accounted(a + b) == accounted(a) + accounted(b),
    decreases b.len(),
{
    if b.len() == 0 {
        assert(a + b =~= a);
    } else {
        assert((a + b).drop_last() =~= a + b.drop_last());
        lemma_accounted_joins(a, b.drop_last());
    }
}

proof fn lemma_orphans_accounted(g: Geom, pending: Seq<SlotModel>)
    ensures
        accounted(orphans(g, pending)) == pending.len(),
    decreases pending.len(),
{
    if pending.len() > 0 {
        assert(orphans(g, pending).drop_last() =~= orphans(g, pending.drop_last()));
        lemma_orphans_accounted(g, pending.drop_last());
    }
}

proof fn lemma_one_accounted(item: DirItemModel)
    ensures
        accounted(seq![item]) == stands_for(item),
{
    assert(seq![item].drop_last() =~= Seq::empty());
    reveal_with_fuel(accounted, 2);
}

proof fn lemma_rest_accounted(
    dev: Device,
    g: Geom,
    depth: u32,
    recs: Seq<SlotModel>,
    i: nat,
    pending: Seq<SlotModel>,
    ended: bool,
    blanks: nat,
)
    requires
        i <= recs.len(),
    ensures
        accounted(items_from(dev, g, depth, recs, i, pending, ended, blanks)) == recs.len() - i
            + pending.len() + blanks,
    decreases recs.len() - i,
{
    lemma_orphans_accounted(g, pending);
    if i >= recs.len() {
        let tail = if blanks > 0 {
            seq![DirItemModel::Unused { count: blanks }]
        } else {
            Seq::empty()
        };
        if blanks > 0 {
            lemma_one_accounted(DirItemModel::Unused { count: blanks });
        }
        lemma_accounted_joins(orphans(g, pending), tail);
    } else {
        let rec = recs[i as int];
        let b = rec.data;
        if b[0] == desc::FREE_MARK {
            let marker = if ended {
                Seq::empty()
            } else {
                seq![DirItemModel::End { at: rec.at, blank: blank(b) }]
            };
            let body = if blank(b) {
                Seq::empty()
            } else {
                seq![DirItemModel::Residue(entry::entry_record(g, rec))]
            };
            let more = if ended && blank(b) { blanks + 1 } else { blanks };
            let rest = items_from(dev, g, depth, recs, i + 1, Seq::empty(), true, more);
            lemma_rest_accounted(dev, g, depth, recs, i + 1, Seq::empty(), true, more);
            if !ended {
                lemma_one_accounted(DirItemModel::End { at: rec.at, blank: blank(b) });
            }
            if !blank(b) {
                lemma_one_accounted(DirItemModel::Residue(entry::entry_record(g, rec)));
            }
            lemma_accounted_joins(orphans(g, pending), marker);
            lemma_accounted_joins(orphans(g, pending) + marker, body);
            lemma_accounted_joins(orphans(g, pending) + marker + body, rest);
        } else if b[0x0B] % 64 == 15 {
            lemma_rest_accounted(dev, g, depth, recs, i + 1, pending.push(rec), ended, blanks);
        } else {
            let item = DirItemModel::File(entry::file_of(dev, g, rec, pending, depth, ended));
            let rest = items_from(dev, g, depth, recs, i + 1, Seq::empty(), ended, blanks);
            lemma_rest_accounted(dev, g, depth, recs, i + 1, Seq::empty(), ended, blanks);
            lemma_one_accounted(item);
            lemma_accounted_joins(seq![item], rest);
        }
    }
}

/// However long its chain is, no more of a directory is read than the limit on its
/// records.
pub proof fn lemma_listings_are_bounded(dev: Device, runs: Seq<(u64, u64)>, have: Seq<SlotModel>)
    requires
        have.len() <= MAX_DIR_ENTRIES,
    ensures
        records_of(dev, runs, have).0.len() <= MAX_DIR_ENTRIES,
    decreases runs.len(),
{
    if runs.len() > 0 && have.len() < MAX_DIR_ENTRIES {
        let (off, len) = runs[0];
        let r = dev.read(off, wanted(len));
        if !r.refused() {
            lemma_with_records_bounded(have, off, r.data, 0);
            lemma_listings_are_bounded(dev, runs.skip(1), with_records(have, off, r.data, 0));
        }
    }
}

proof fn lemma_with_records_bounded(have: Seq<SlotModel>, off: u64, data: Seq<u8>, i: nat)
    requires
        have.len() <= MAX_DIR_ENTRIES,
    ensures
        with_records(have, off, data, i).len() <= MAX_DIR_ENTRIES,
    decreases data.len() - 32 * i,
{
    if !(32 * (i + 1) > data.len() || have.len() >= MAX_DIR_ENTRIES) {
        lemma_with_records_bounded(
            have.push(
                SlotModel {
                    at: common::saturated(off + 32 * i),
                    data: data.subrange(32 * i as int, 32 * i as int + 32),
                },
            ),
            off,
            data,
            i + 1,
        );
    }
}

// ------------------------------------------------------------------------ listing

/// A directory, listed.
#[derive(Debug)]
pub struct Listing {
    /// How the directory's chain ran, where it is one.
    pub summary: Option<ChainSummary>,
    /// What is said of the directory as a whole.
    pub finding: Option<Finding>,
    pub items: Vec<DirItem>,
}

/// What a [`Listing`] says.
pub struct ListingModel {
    pub summary: Option<ChainSummaryModel>,
    pub finding: Option<Finding>,
    pub items: Seq<DirItemModel>,
}

impl View for Listing {
    type V = ListingModel;

    open spec fn view(&self) -> ListingModel {
        ListingModel {
            summary: match self.summary {
                Some(s) => Some(s@),
                None => None,
            },
            finding: self.finding,
            items: item_models(self.items@),
        }
    }
}

impl DirExpander {
    /// The cluster that the directory starts in, zero for a fixed one.
    pub open spec fn first(self) -> u64 {
        match self.source {
            DirSource::Chain(start) => start,
            DirSource::Fixed(_, _) => 0,
        }
    }

    /// The cluster that the directory starts in, zero for a fixed one.
    pub fn start(&self) -> (r: u64)
        ensures
            r == self.first(),
    {
        match self.source {
            DirSource::Chain(start) => start,
            DirSource::Fixed(_, _) => 0,
        }
    }

    /// The chain of the directory, where it is one.
    pub open spec fn chain(self, dev: Device) -> Option<(Seq<u64>, ChainEnd)> {
        match self.source {
            DirSource::Chain(start) => Some(
                chain::chain_of(dev, self.geom, start, MAX_DIR_CLUSTERS as nat),
            ),
            DirSource::Fixed(_, _) => None,
        }
    }

    /// The runs of the directory.
    pub open spec fn runs(self, dev: Device) -> Seq<(u64, u64)> {
        match self.source {
            DirSource::Fixed(off, len) => seq![(off, len)],
            DirSource::Chain(start) => {
                let clusters = chain::chain_of(
                    dev,
                    self.geom,
                    start,
                    MAX_DIR_CLUSTERS as nat,
                ).0;
                runs_of(self.geom, clusters, clusters.len()).0
            },
        }
    }

    /// The listing of the directory.
    pub open spec fn listing(self, dev: Device) -> ListingModel {
        let summary = match self.chain(dev) {
            Some((clusters, end)) => Some(
                chain::summary_of(self.geom, clusters.len(), end, "directory"@),
            ),
            None => None,
        };
        let (recs, refused) = records_of(dev, self.runs(dev), Seq::empty());
        if self.runs(dev).len() == 0 {
            ListingModel { summary, finding: Some(Finding::NoExtent), items: Seq::empty() }
        } else {
            ListingModel {
                summary,
                finding: if refused {
                    Some(Finding::DirectoryUnreadable)
                } else {
                    None
                },
                items: items_of(dev, self.geom, recs, self.depth),
            }
        }
    }

    /// List the directory.
    pub fn expand<S: BlockSource>(&self, src: &S) -> (r: Listing)
        ensures
            r@ == self.listing(src.device()),
    {
        let mut summary: Option<ChainSummary> = None;
        let runs: Vec<(u64, u64)> = match self.source {
            DirSource::Fixed(off, len) => {
                let one: Vec<(u64, u64)> = vec![(off, len)];
                assert(one@ =~= seq![(off, len)]);
                one
            },
            DirSource::Chain(start) => {
                let (clusters, end): (Vec<u64>, ChainEnd) = follow_chain(
                    src,
                    &self.geom,
                    start,
                    MAX_DIR_CLUSTERS,
                );
                summary = Some(chain_summary(&self.geom, &clusters, end, "directory"));
                cluster_runs(&self.geom, &clusters)
            },
        };
        assert(runs@ == self.runs(src.device()));
        if runs.len() == 0 {
            let r = Listing { summary, finding: Some(Finding::NoExtent), items: Vec::new() };
            assert(r@.items =~= Seq::empty());
            return r;
        }
        let (recs, refused): (Vec<Slot>, bool) = read_records(src, &runs);
        let items: Vec<DirItem> = build_entries(src, &self.geom, &recs, self.depth);
        Listing {
            summary,
            finding: if refused { Some(Finding::DirectoryUnreadable) } else { None },
            items,
        }
    }
}

impl DirItem {
    /// What the row is called.
    pub fn label(&self) -> (r: String)
        ensures
            r@ == match *self {
                DirItem::Orphan(o) => "orphan LFN \""@ + o.chunk@ + "\""@,
                DirItem::End { at, .. } => "end of directory @"@ + text::hex(at as int, 10),
                DirItem::Residue(x) => "residue @"@ + text::hex(x.record.at as int, 10),
                DirItem::File(f) => f.label@,
                DirItem::Unused { count } => ""@ + text::dec(count as int)
                    + " unused entries (all zero)"@,
            },
    {
        match self {
            DirItem::Orphan(o) => o.label(),
            DirItem::End { at, .. } => Text::of("end of directory @").hex(*at, 10).done(),
            DirItem::Residue(x) => x.label(),
            DirItem::File(f) => Text::of(f.label.as_str()).done(),
            DirItem::Unused { count } => Text::of("").dec(*count).lit(
                " unused entries (all zero)",
            ).done(),
        }
    }
}

impl DirItemModel {
    /// What is said of the row as a whole.
    pub open spec fn verdict(self) -> Option<Finding> {
        match self {
            DirItemModel::Orphan(_) => Some(Finding::Orphan),
            DirItemModel::End { .. } => Some(Finding::EndMarker),
            DirItemModel::Residue(_) => Some(Finding::Residue),
            DirItemModel::File(_) => None,
            DirItemModel::Unused { .. } => None,
        }
    }

    /// How serious the worst thing about the row is.
    pub open spec fn severity(self) -> Status {
        match self {
            DirItemModel::Orphan(o) => o.record.severity().worse(Finding::Orphan.severity()),
            DirItemModel::End { .. } => Finding::EndMarker.severity(),
            DirItemModel::Residue(r) => r.severity().worse(Finding::Residue.severity()),
            DirItemModel::File(f) => f.severity(),
            DirItemModel::Unused { .. } => Status::Clean,
        }
    }
}

impl DirItem {
    /// What is said of the row as a whole. What is said of a file stands in its parts.
    pub fn finding(&self) -> (r: Option<Finding>)
        ensures
            r == self@.verdict(),
    {
        match self {
            DirItem::Orphan(o) => Some(o.finding()),
            DirItem::End { .. } => Some(Finding::EndMarker),
            DirItem::Residue(x) => Some(x.finding()),
            DirItem::File(_) => None,
            DirItem::Unused { .. } => None,
        }
    }

    /// How serious the worst thing about the row is.
    pub fn status(&self) -> (r: Status)
        ensures
            r == self@.severity(),
    {
        match self {
            DirItem::Orphan(o) => o.record.status().merge(o.finding().status()),
            DirItem::End { .. } => Finding::EndMarker.status(),
            DirItem::Residue(x) => x.record.status().merge(x.finding().status()),
            DirItem::File(f) => f.status(),
            DirItem::Unused { .. } => Status::Clean,
        }
    }
}

} // verus!
