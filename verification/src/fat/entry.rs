//! One directory entry, with the long-filename run in front of it.
//!
//! Deleting a file writes exactly one byte, 0xE5 over the first character of the name,
//! and releases the cluster chain. The size, the timestamps, the first cluster and any
//! long-filename fragments all survive.

use crate::common;
use crate::common::u16_or_zero;
use crate::desc::{read_struct, struct_of, ReadCtx, Record, RecordModel};
use crate::extent::Span;
use crate::fat::chain;
use crate::fat::chain::{fat_entry, ChainExpander};
use crate::fat::desc;
use crate::fat::directory::{DirExpander, DirSource};
use crate::fat::finding;
use crate::fat::finding::{note, worst_of, Finding};
use crate::fat::geometry::Geom;
use crate::fat::name;
use crate::fat::name::{
    attr_label, lfn_chunk, recover_first_char, short_name, short_name_checksum, AttrLabel,
};
use crate::scrub::{full_records, slots, Slot, SlotModel};
use crate::source::{BlockSource, Device, ReadOutcome};
use crate::status::Status;
use crate::text;
use crate::text::Text;
use vstd::prelude::*;
use vstd::slice::slice_subrange;

verus! {

/// Directory nesting followed before refusing to descend further.
pub const MAX_DIR_DEPTH: u32 = 64;

// ---------------------------------------------------------------- the bare record

/// The fields of the directory entry `rec`.
pub open spec fn entry_record(g: Geom, rec: SlotModel) -> RecordModel {
    struct_of(
        "FAT directory entry"@,
        desc::dir_entry_fields(),
        rec.data,
        false,
        rec.at,
        g.base,
    )
}

/// The fields of the long-filename fragment `rec`.
pub open spec fn fragment_record(g: Geom, rec: SlotModel) -> RecordModel {
    struct_of(
        "FAT long-filename entry"@,
        desc::lfn_entry_fields(),
        rec.data,
        false,
        rec.at,
        g.base,
    )
}

fn read_entry_record(g: &Geom, rec: &Slot) -> (r: Record)
    ensures
        r@ == entry_record(*g, rec@),
{
    let layout = desc::dir_entry();
    read_struct(
        &layout,
        &rec.data,
        ReadOutcome::Full,
        ReadCtx { base: rec.at, region_base: g.base },
    )
}

fn read_fragment_record(g: &Geom, rec: &Slot) -> (r: Record)
    ensures
        r@ == fragment_record(*g, rec@),
{
    let layout = desc::lfn_entry();
    read_struct(
        &layout,
        &rec.data,
        ReadOutcome::Full,
        ReadCtx { base: rec.at, region_base: g.base },
    )
}

// ---------------------------------------------------------------------- residue

/// A record marked never-used whose bytes are not zero.
#[derive(Debug)]
pub struct Residue {
    pub record: Record,
}

/// Read a record that is marked never-used.
pub fn residue(g: &Geom, rec: &Slot) -> (r: Residue)
    ensures
        r.record@ == entry_record(*g, rec@),
{
    Residue { record: read_entry_record(g, rec) }
}

impl Residue {
    /// What the record is called.
    pub fn label(&self) -> (r: String)
        ensures
            r@ == "residue @"@ + text::hex(self.record.at as int, 10),
    {
        Text::of("residue @").hex(self.record.at, 10).done()
    }

    /// What is said of it.
    pub fn finding(&self) -> (r: Finding)
        ensures
            r == Finding::Residue,
    {
        Finding::Residue
    }
}

// ----------------------------------------------------------------------- orphans

/// A long-filename fragment with no 8.3 entry after it.
#[derive(Debug)]
pub struct OrphanLfn {
    pub record: Record,
    /// What it spells.
    pub chunk: String,
    /// The checksum of the short entry that it belonged to.
    pub sum: u8,
}

/// What an [`OrphanLfn`] says.
pub struct OrphanLfnModel {
    pub record: RecordModel,
    pub chunk: Seq<char>,
    pub sum: u8,
}

impl View for OrphanLfn {
    type V = OrphanLfnModel;

    open spec fn view(&self) -> OrphanLfnModel {
        OrphanLfnModel { record: self.record@, chunk: self.chunk@, sum: self.sum }
    }
}

/// The orphan that a record is.
pub open spec fn orphan_of(g: Geom, rec: SlotModel) -> OrphanLfnModel {
    OrphanLfnModel {
        record: fragment_record(g, rec),
        chunk: name::chunk_text(rec.data),
        sum: rec.data[0x0D],
    }
}

/// Read a fragment that lost its entry.
pub fn orphan_lfn(g: &Geom, rec: &Slot) -> (r: OrphanLfn)
    requires
        rec.data@.len() == 32,
    ensures
        r@ == orphan_of(*g, rec@),
{
    OrphanLfn {
        record: read_fragment_record(g, rec),
        chunk: lfn_chunk(&rec.data),
        sum: rec.data[0x0D],
    }
}

impl OrphanLfn {
    /// What the fragment is called.
    pub fn label(&self) -> (r: String)
        ensures
            r@ == "orphan LFN \""@ + self.chunk@ + "\""@,
    {
        Text::of("orphan LFN \"").lit(self.chunk.as_str()).lit("\"").done()
    }

    /// What is said of it, in full.
    pub fn message(&self) -> (r: String)
        ensures
            r@ == "long-filename fragment with no 8.3 entry after it; it still spells \""@
                + self.chunk@ + "\" and its checksum "@ + text::hex(self.sum as int, 2)
                + " would identify the short entry it belonged to"@,
    {
        Text::of("long-filename fragment with no 8.3 entry after it; it still spells \"").lit(
            self.chunk.as_str(),
        ).lit("\" and its checksum ").hex(self.sum as u64, 2).lit(
            " would identify the short entry it belonged to",
        ).done()
    }

    /// What is said of it.
    pub fn finding(&self) -> (r: Finding)
        ensures
            r == Finding::Orphan,
    {
        Finding::Orphan
    }
}

// --------------------------------------------------------------------- fragments

/// One long-filename fragment of a run.
#[derive(Debug)]
pub struct Fragment {
    pub record: Record,
    pub label: String,
    /// The checksum that the fragment stores, and that of the entry after the run.
    pub stored: u8,
    pub computed: u8,
    pub findings: Vec<Finding>,
}

/// What a [`Fragment`] says.
pub struct FragmentModel {
    pub record: RecordModel,
    pub label: Seq<char>,
    pub stored: u8,
    pub computed: u8,
    pub findings: Seq<Finding>,
}

impl View for Fragment {
    type V = FragmentModel;

    open spec fn view(&self) -> FragmentModel {
        FragmentModel {
            record: self.record@,
            label: self.label@,
            stored: self.stored,
            computed: self.computed,
            findings: self.findings@,
        }
    }
}

/// The models of a list of fragments.
pub open spec fn fragment_models(v: Seq<Fragment>) -> Seq<FragmentModel> {
    Seq::new(v.len(), |i: int| v[i]@)
}

/// What is said of the order byte of fragment `i`. Fragments are stored in reverse, so
/// the first on disk carries the last-entry bit.
pub open spec fn order_findings(order: u8, i: int) -> Seq<Finding> {
    let last = (order / 64) % 2 == 1;
    if order == desc::DELETED_MARK {
        seq![Finding::SequenceLost]
    } else if i == 0 {
        finding::when(!last, Finding::NoLastBit)
    } else {
        finding::when(last, Finding::SplicedRun)
    }
}

/// What is said of a fragment's checksum against that of the entry after it.
pub open spec fn sum_findings(stored: u8, computed: u8, deleted: bool, recovered: Seq<u8>) -> Seq<
    Finding,
> {
    if stored == computed {
        Seq::empty()
    } else if deleted && recovered.len() == 1 {
        seq![
            Finding::SumRestorable {
                stored_sum: stored,
                computed_sum: computed,
                byte: recovered[0],
            },
        ]
    } else if deleted {
        seq![Finding::SumDestroyed { stored_sum: stored, computed_sum: computed }]
    } else {
        seq![Finding::SumAlien { stored_sum: stored, computed_sum: computed }]
    }
}

/// What fragment `rec`, the `i`-th of `total`, is called.
pub open spec fn fragment_label(rec: SlotModel, total: nat) -> Seq<char> {
    let order = rec.data[0];
    if order == desc::DELETED_MARK {
        "LFN ?/"@ + text::dec(total as int) + " \""@ + name::chunk_text(rec.data) + "\""@
    } else {
        "LFN "@ + text::dec((order % 32) as int) + "/"@ + text::dec(total as int) + " \""@
            + name::chunk_text(rec.data) + "\""@
    }
}

/// Fragment `i` of a run in front of an entry whose name has the checksum `sum`.
pub open spec fn fragment_of(
    g: Geom,
    run: Seq<SlotModel>,
    i: int,
    sum: u8,
    deleted: bool,
    recovered: Seq<u8>,
) -> FragmentModel {
    let rec = run[i];
    FragmentModel {
        record: fragment_record(g, rec),
        label: fragment_label(rec, run.len()),
        stored: rec.data[0x0D],
        computed: sum,
        findings: order_findings(rec.data[0], i) + sum_findings(
            rec.data[0x0D],
            sum,
            deleted,
            recovered,
        ),
    }
}

fn read_fragment(
    g: &Geom,
    rec: &Slot,
    i: usize,
    total: usize,
    sum: u8,
    deleted: bool,
    recovered: &[u8],
) -> (r: Fragment)
    requires
        rec.data@.len() == 32,
    ensures
        r@.record == fragment_record(*g, rec@),
        r@.label == fragment_label(rec@, total as nat),
        r@.stored == rec.data@[0x0D],
        r@.computed == sum,
        r@.findings == order_findings(rec.data@[0], i as int) + sum_findings(
            rec.data@[0x0D],
            sum,
            deleted,
            recovered@,
        ),
{
    let order: u8 = rec.data[0];
    let stored: u8 = rec.data[0x0D];
    let lost: bool = order == desc::DELETED_MARK;
    let last: bool = (order / 64) % 2 == 1;
    let chunk: String = lfn_chunk(&rec.data);
    let label: String = if lost {
        Text::of("LFN ?/").dec(total as u64).lit(" \"").lit(chunk.as_str()).lit("\"").done()
    } else {
        Text::of("LFN ").dec((order % 32) as u64).lit("/").dec(total as u64).lit(" \"").lit(
            chunk.as_str(),
        ).lit("\"").done()
    };
    let mut findings: Vec<Finding> = Vec::new();
    if lost {
        findings.push(Finding::SequenceLost);
    } else if i == 0 {
        note(&mut findings, !last, Finding::NoLastBit);
    } else {
        note(&mut findings, last, Finding::SplicedRun);
    }
    assert(findings@ =~= order_findings(order, i as int));
    if stored != sum {
        if deleted && recovered.len() == 1 {
            findings.push(
                Finding::SumRestorable {
                    stored_sum: stored,
                    computed_sum: sum,
                    byte: recovered[0],
                },
            );
        } else if deleted {
            findings.push(Finding::SumDestroyed { stored_sum: stored, computed_sum: sum });
        } else {
            findings.push(Finding::SumAlien { stored_sum: stored, computed_sum: sum });
        }
    }
    assert(findings@ =~= order_findings(order, i as int) + sum_findings(
        stored,
        sum,
        deleted,
        recovered@,
    ));
    Fragment { record: read_fragment_record(g, rec), label, stored, computed: sum, findings }
}

fn read_fragments(g: &Geom, run: &[Slot], sum: u8, deleted: bool, recovered: &[u8]) -> (r: Vec<
    Fragment,
>)
    requires
        full_records(slots(run@)),
    ensures
        fragment_models(r@) == Seq::new(
            run@.len(),
            |i: int| fragment_of(*g, slots(run@), i, sum, deleted, recovered@),
        ),
{
    let ghost all = slots(run@);
    let ghost want = Seq::new(
        run@.len(),
        |i: int| fragment_of(*g, all, i, sum, deleted, recovered@),
    );
    let mut out: Vec<Fragment> = Vec::new();
    let mut i: usize = 0;
    while i < run.len()
        invariant
            i <= run@.len(),
            all == slots(run@),
            full_records(all),
            want == Seq::new(
                run@.len(),
                |i: int| fragment_of(*g, all, i, sum, deleted, recovered@),
            ),
            fragment_models(out@) =~= want.take(i as int),
        decreases run@.len() - i,
    {
        let ghost before = fragment_models(out@);
        assert(all[i as int].data.len() == 32);
        let f = read_fragment(g, &run[i], i, run.len(), sum, deleted, recovered);
        assert(f@ == want[i as int]);
        out.push(f);
        assert(fragment_models(out@) =~= before.push(f@));
        i += 1;
    }
    assert(fragment_models(out@) =~= want);
    out
}

// ------------------------------------------------------------------ first cluster

/// The cluster number of an entry, which is split across two fields.
pub open spec fn cluster_of(b: Seq<u8>) -> u64 {
    (common::le16(b, 0x14) * 0x1_0000 + common::le16(b, 0x1A)) as u64
}

/// Where an entry points. The number is split across two fields, so it owns both
/// ranges rather than pretending to live in one.
#[derive(Clone, Copy, Debug, PartialEq, Eq, Structural)]
pub struct FirstCluster {
    pub high: Span,
    pub low: Span,
    pub cluster: u64,
    pub at: Option<u64>,
    pub finding: Option<Finding>,
}

/// What is said of where an entry points. For a deleted one, what the FAT says about
/// that cluster now is the difference between "the data is probably still there" and
/// "the chain has already been handed out again".
pub open spec fn cluster_finding(dev: Device, g: Geom, cluster: u64, deleted: bool) -> Option<
    Finding,
> {
    if cluster == 0 {
        None
    } else if !g.in_range(cluster as int) {
        Some(Finding::ClusterOutside { cluster, last: g.last() })
    } else if deleted {
        Some(
            match chain::entry_of(dev, g, 0, cluster as int) {
                Some(value) => if value == 0 {
                    Finding::ChainReleased { cluster }
                } else {
                    Finding::ChainKept { cluster, value }
                },
                None => Finding::ChainUnknown { cluster },
            },
        )
    } else {
        None
    }
}

/// Where the entry `rec` points.
pub open spec fn first_cluster_of(dev: Device, g: Geom, rec: SlotModel) -> FirstCluster {
    let b = rec.data;
    let cluster = cluster_of(b);
    FirstCluster {
        high: Span::of_bytes(common::saturated(rec.at + 0x14), 2),
        low: Span::of_bytes(common::saturated(rec.at + 0x1A), 2),
        cluster,
        at: g.cluster_at(cluster as int),
        finding: cluster_finding(dev, g, cluster, b[0] == desc::DELETED_MARK),
    }
}

pub(crate) fn read_cluster(b: &[u8]) -> (r: u64)
    requires
        b@.len() == 32,
    ensures
        r == cluster_of(b@),
{
    let hi: u64 = u16_or_zero(b, 0x14) as u64;
    let lo: u64 = u16_or_zero(b, 0x1A) as u64;
    hi * 0x1_0000 + lo
}

fn first_cluster<S: BlockSource>(src: &S, g: &Geom, rec: &Slot) -> (r: FirstCluster)
    requires
        rec.data@.len() == 32,
    ensures
        r == first_cluster_of(src.device(), *g, rec@),
{
    let b: &[u8] = rec.data.as_slice();
    let cluster: u64 = read_cluster(b);
    let deleted: bool = b[0] == desc::DELETED_MARK;
    let finding: Option<Finding> = if cluster == 0 {
        None
    } else if !g.cluster_in_range(cluster) {
        Some(Finding::ClusterOutside { cluster, last: g.last_cluster() })
    } else if deleted {
        match fat_entry(src, g, 0, cluster) {
            Some(value) => if value == 0 {
                Some(Finding::ChainReleased { cluster })
            } else {
                Some(Finding::ChainKept { cluster, value })
            },
            None => Some(Finding::ChainUnknown { cluster }),
        }
    } else {
        None
    };
    FirstCluster {
        high: Span::bytes(rec.at.saturating_add(0x14), 2),
        low: Span::bytes(rec.at.saturating_add(0x1A), 2),
        cluster,
        at: g.cluster_to_byte(cluster),
        finding,
    }
}

// -------------------------------------------------------------------- the contents

/// The directory that an entry names, before it is expanded.
#[derive(Clone, Copy, Debug, PartialEq, Eq, Structural)]
pub struct Contents {
    pub span: Span,
    pub dir: DirExpander,
}

impl Contents {
    /// What the row is called.
    pub fn label(&self) -> (r: String)
        ensures
            r@ == "contents (cluster "@ + text::dec(self.dir.first() as int) + ")"@,
    {
        Text::of("contents (cluster ").dec(self.dir.start()).lit(")").done()
    }
}

/// The name bytes of `.` or `..`.
pub open spec fn dot_bytes(b: Seq<u8>) -> bool {
    &&& b[0] == 0x2E
    &&& b[1] == 0x2E || b[1] == 0x20
    &&& forall|i: int| 2 <= i < 11 ==> #[trigger] b[i] == 0x20
}

fn is_dot_bytes(b: &[u8]) -> (r: bool)
    requires
        b@.len() == 32,
    ensures
        r == dot_bytes(b@),
{
    if b[0] != 0x2E || b[1] != 0x2E && b[1] != 0x20 {
        return false;
    }
    let mut i: usize = 2;
    while i < 11
        invariant
            2 <= i <= 11,
            b@.len() == 32,
            forall|j: int| 2 <= j < i ==> #[trigger] b@[j] == 0x20,
        decreases 11 - i,
    {
        if b[i] != 0x20 {
            return false;
        }
        i += 1;
    }
    true
}

/// The entry has data of its own to follow: a cluster that exists, and neither a dot
/// entry nor a volume label.
pub open spec fn has_chain(g: Geom, b: Seq<u8>) -> bool {
    let cluster = cluster_of(b);
    cluster != 0 && g.in_range(cluster as int) && !dot_bytes(b) && (b[0x0B] / 8) % 2 == 0
}

/// The chain of the entry with those bytes.
pub open spec fn chain_of_entry(g: Geom, b: Seq<u8>) -> Option<ChainExpander> {
    if has_chain(g, b) {
        Some(ChainExpander { geom: g, start: cluster_of(b) })
    } else {
        None
    }
}

/// The directory that the entry with those bytes names.
pub open spec fn contents_of(g: Geom, b: Seq<u8>, depth: u32) -> Option<Contents> {
    let cluster = cluster_of(b);
    if has_chain(g, b) && (b[0x0B] / 16) % 2 == 1 && depth < MAX_DIR_DEPTH {
        Some(
            Contents {
                span: Span::of_bytes(
                    match g.cluster_at(cluster as int) {
                        Some(at) => at,
                        None => 0,
                    },
                    g.bytes_per_cluster,
                ),
                dir: DirExpander {
                    geom: g,
                    source: DirSource::Chain(cluster),
                    depth: (depth + 1) as u32,
                },
            },
        )
    } else {
        None
    }
}

// -------------------------------------------------------------------- the entry

/// One 8.3 entry, plus the long-filename run in front of it when there is one.
#[derive(Debug)]
pub struct FileEntry {
    pub label: String,
    /// What the 8.3 entry itself is called.
    pub short_label: String,
    pub long: String,
    /// The eleven name bytes as they stand.
    pub name: String,
    pub deleted: bool,
    pub record: Record,
    pub first_cluster: FirstCluster,
    pub chain: Option<ChainExpander>,
    pub contents: Option<Contents>,
    /// What is said of the 8.3 entry.
    pub findings: Vec<Finding>,
    pub fragments: Vec<Fragment>,
    /// What is said of entry and run together.
    pub together: Vec<Finding>,
    /// The checksum that the run stores, and that of the name.
    pub run_sum: Option<u8>,
    pub sum: u8,
    /// The entry's record, then those of the run.
    pub spans: Vec<Span>,
}

/// What a [`FileEntry`] says.
pub struct FileEntryModel {
    pub label: Seq<char>,
    pub short_label: Seq<char>,
    pub long: Seq<char>,
    pub name: Seq<char>,
    pub deleted: bool,
    pub record: RecordModel,
    pub first_cluster: FirstCluster,
    pub chain: Option<ChainExpander>,
    pub contents: Option<Contents>,
    pub findings: Seq<Finding>,
    pub fragments: Seq<FragmentModel>,
    pub together: Seq<Finding>,
    pub run_sum: Option<u8>,
    pub sum: u8,
    pub spans: Seq<Span>,
}

impl View for FileEntry {
    type V = FileEntryModel;

    open spec fn view(&self) -> FileEntryModel {
        FileEntryModel {
            label: self.label@,
            short_label: self.short_label@,
            long: self.long@,
            name: self.name@,
            deleted: self.deleted,
            record: self.record@,
            first_cluster: self.first_cluster,
            chain: self.chain,
            contents: self.contents,
            findings: self.findings@,
            fragments: fragment_models(self.fragments@),
            together: self.together@,
            run_sum: self.run_sum,
            sum: self.sum,
            spans: self.spans@,
        }
    }
}

/// The long name that a run spells. The fragments are stored in reverse.
pub open spec fn long_text(run: Seq<SlotModel>) -> Seq<char>
    decreases run.len(),
{
    if run.len() == 0 {
        Seq::empty()
    } else {
        name::chunk_text(run.last().data) + long_text(run.drop_last())
    }
}

/// The checksum that a run stores.
pub open spec fn run_sum_of(run: Seq<SlotModel>) -> Option<u8> {
    if run.len() == 0 {
        None
    } else {
        Some(run[0].data[0x0D])
    }
}

/// The run belongs to the entry: there is none, or its checksum is the name's.
pub open spec fn belongs(b: Seq<u8>, run: Seq<SlotModel>) -> bool {
    run.len() == 0 || run[0].data[0x0D] == name::name_sum(b.take(11))
}

/// The first characters that would make a deleted entry's run belong to it.
pub open spec fn recovered_of(b: Seq<u8>, run: Seq<SlotModel>) -> Seq<u8> {
    if b[0] == desc::DELETED_MARK && !belongs(b, run) {
        name::candidates(b.take(11), run[0].data[0x0D], 0x100)
    } else {
        Seq::empty()
    }
}

/// A name that is `.` or `..` to look at.
pub open spec fn dotted(s: Seq<char>) -> bool {
    s == seq!['.'] || s == seq!['.', '.']
}

/// What is added to the name.
pub open spec fn suffix_of(b: Seq<u8>) -> Seq<char> {
    let deleted = b[0] == desc::DELETED_MARK;
    let kind = name::attr_label_of(b[0x0B]);
    if dotted(name::short_text(b)) {
        ""@
    } else if deleted {
        if kind == AttrLabel::Directory {
            " (deleted directory)"@
        } else {
            " (deleted)"@
        }
    } else {
        match kind {
            AttrLabel::Directory => "/"@,
            AttrLabel::VolumeLabel => " (volume label)"@,
            AttrLabel::Neither => ""@,
        }
    }
}

/// What the entry with those bytes and that run is called.
pub open spec fn label_of(b: Seq<u8>, run: Seq<SlotModel>) -> Seq<char> {
    (if long_text(run).len() == 0 {
        name::short_text(b)
    } else {
        long_text(run)
    }) + suffix_of(b)
}

/// What the 8.3 entry itself is called.
pub open spec fn short_label_of(b: Seq<u8>, run: Seq<SlotModel>) -> Seq<char> {
    if run.len() == 0 {
        label_of(b, run)
    } else if b[0] == desc::DELETED_MARK {
        name::short_text(b) + " (8.3)"@
    } else {
        name::short_text(b) + ""@
    }
}

/// What is said of the 8.3 entry.
pub open spec fn own_findings(b: Seq<u8>, past_end: bool) -> Seq<Finding> {
    let deleted = b[0] == desc::DELETED_MARK;
    finding::when(
        (b[0x0B] / 8) % 2 == 1 && cluster_of(b) != 0,
        Finding::LabelWithCluster,
    ) + finding::when(deleted, Finding::Deleted) + finding::when(
        past_end && !deleted,
        Finding::PastEnd,
    )
}

/// What is said of entry and run together.
pub open spec fn group_findings(b: Seq<u8>, run: Seq<SlotModel>) -> Seq<Finding> {
    let recovered = recovered_of(b, run);
    if run.len() == 0 {
        Seq::empty()
    } else if b[0] == desc::DELETED_MARK {
        seq![Finding::LongNameSurvives] + finding::when(
            recovered.len() == 1,
            Finding::FirstCharacter { byte: recovered[0], stored_sum: run[0].data[0x0D] },
        )
    } else {
        finding::when(!belongs(b, run), Finding::AlienLongName)
    }
}

/// The spans of an entry's record and those of its run.
pub open spec fn spans_of(rec: SlotModel, run: Seq<SlotModel>) -> Seq<Span> {
    seq![Span::of_bytes(rec.at, 32)] + Seq::new(
        run.len(),
        |i: int| Span::of_bytes(run[i].at, 32),
    )
}

/// The entry that `rec` is, with the run in front of it.
pub open spec fn file_of(
    dev: Device,
    g: Geom,
    rec: SlotModel,
    run: Seq<SlotModel>,
    depth: u32,
    past_end: bool,
) -> FileEntryModel {
    let b = rec.data;
    let sum = name::name_sum(b.take(11));
    FileEntryModel {
        label: label_of(b, run),
        short_label: short_label_of(b, run),
        long: long_text(run),
        name: text::ascii(text::trimmed(b.take(11))),
        deleted: b[0] == desc::DELETED_MARK,
        record: entry_record(g, rec),
        first_cluster: first_cluster_of(dev, g, rec),
        chain: chain_of_entry(g, b),
        contents: contents_of(g, b, depth),
        findings: own_findings(b, past_end),
        fragments: Seq::new(
            run.len(),
            |i: int|
                fragment_of(g, run, i, sum, b[0] == desc::DELETED_MARK, recovered_of(b, run)),
        ),
        together: group_findings(b, run),
        run_sum: run_sum_of(run),
        sum,
        spans: spans_of(rec, run),
    }
}

fn spell(run: &[Slot]) -> (r: String)
    requires
        full_records(slots(run@)),
    ensures
        r@ == long_text(slots(run@)),
{
    let ghost all = slots(run@);
    proof {
        reveal_strlit("");
    }
    let mut t = Text::of("");
    let mut n: usize = run.len();
    assert(all.take(n as int) =~= all);
    while n > 0
        invariant
            n <= run@.len(),
            all == slots(run@),
            full_records(all),
            long_text(all) =~= t@ + long_text(all.take(n as int)),
        decreases n,
    {
        assert(all.take(n as int).drop_last() =~= all.take(n - 1));
        assert(all[n - 1].data.len() == 32);
        let chunk: String = lfn_chunk(&run[n - 1].data);
        t = t.lit(chunk.as_str());
        n -= 1;
    }
    t.done()
}

fn is_dotted(s: &String) -> (r: bool)
    ensures
        r == dotted(s@),
{
    let n: usize = text::char_count(s);
    if n == 1 {
        let r: bool = text::char_at(s, 0) == '.';
        proof {
            if r {
                assert(s@ =~= seq!['.']);
            } else if dotted(s@) {
                assert(s@[0] == '.');
            }
        }
        r
    } else if n == 2 {
        let r: bool = text::char_at(s, 0) == '.' && text::char_at(s, 1) == '.';
        proof {
            if r {
                assert(s@ =~= seq!['.', '.']);
            } else if dotted(s@) {
                assert(s@[0] == '.' && s@[1] == '.');
            }
        }
        r
    } else {
        false
    }
}

fn suffix(b: &[u8], short: &String) -> (r: &'static str)
    requires
        b@.len() == 32,
        short@ == name::short_text(b@),
    ensures
        r@ == suffix_of(b@),
{
    let kind = attr_label(b[0x0B]);
    if is_dotted(short) {
        ""
    } else if b[0] == desc::DELETED_MARK {
        if kind == AttrLabel::Directory {
            " (deleted directory)"
        } else {
            " (deleted)"
        }
    } else {
        match kind {
            AttrLabel::Directory => "/",
            AttrLabel::VolumeLabel => " (volume label)",
            AttrLabel::Neither => "",
        }
    }
}

fn list_spans(rec: &Slot, run: &[Slot]) -> (r: Vec<Span>)
    ensures
        r@ == spans_of(rec@, slots(run@)),
{
    let ghost all = slots(run@);
    let mut out: Vec<Span> = vec![Span::bytes(rec.at, 32)];
    let mut i: usize = 0;
    while i < run.len()
        invariant
            i <= run@.len(),
            all == slots(run@),
            out@ =~= spans_of(rec@, all.take(i as int)),
        decreases run@.len() - i,
    {
        out.push(Span::bytes(run[i].at, 32));
        i += 1;
    }
    assert(all.take(i as int) =~= all);
    out
}

fn note_group(deleted: bool, recovered: &[u8], run_sum: Option<u8>, belongs: bool) -> (out: Vec<
    Finding,
>)
    ensures
        out@ == match run_sum {
            None => Seq::empty(),
            Some(s) => if deleted {
                seq![Finding::LongNameSurvives] + finding::when(
                    recovered@.len() == 1,
                    Finding::FirstCharacter { byte: recovered@[0], stored_sum: s },
                )
            } else {
                finding::when(!belongs, Finding::AlienLongName)
            },
        },
{
    let mut out: Vec<Finding> = Vec::new();
    if let Some(s) = run_sum {
        if deleted {
            out.push(Finding::LongNameSurvives);
            if recovered.len() == 1 {
                out.push(Finding::FirstCharacter { byte: recovered[0], stored_sum: s });
            }
        } else {
            note(&mut out, !belongs, Finding::AlienLongName);
        }
    }
    out
}

/// Read one 8.3 entry with the long-filename run in front of it.
pub fn file_entry<S: BlockSource>(
    src: &S,
    g: &Geom,
    rec: &Slot,
    run: &[Slot],
    depth: u32,
    past_end: bool,
) -> (r: FileEntry)
    requires
        rec.data@.len() == 32,
        full_records(slots(run@)),
    ensures
        r@ == file_of(src.device(), *g, rec@, slots(run@), depth, past_end),
{
    let ghost all = slots(run@);
    let ghost want = file_of(src.device(), *g, rec@, all, depth, past_end);
    let b: &[u8] = rec.data.as_slice();
    let deleted: bool = b[0] == desc::DELETED_MARK;
    let name11: &[u8] = slice_subrange(b, 0, 11);
    assert(name11@ =~= b@.take(11));
    let sum: u8 = short_name_checksum(name11);
    let run_sum: Option<u8> = if run.len() == 0 {
        None
    } else {
        assert(all[0].data.len() == 32);
        Some(run[0].data[0x0D])
    };
    let belongs: bool = match run_sum {
        Some(s) => s == sum,
        None => true,
    };
    let recovered: Vec<u8> = match run_sum {
        Some(s) => if deleted && !belongs {
            recover_first_char(name11, s)
        } else {
            Vec::new()
        },
        None => Vec::new(),
    };
    assert(recovered@ =~= recovered_of(b@, all));
    let short: String = short_name(b);
    let long: String = spell(run);
    let tail: &'static str = suffix(b, &short);
    let label: String = if text::char_count(&long) == 0 {
        Text::of(short.as_str()).lit(tail).done()
    } else {
        Text::of(long.as_str()).lit(tail).done()
    };
    let short_label: String = if run.len() == 0 {
        Text::of(label.as_str()).done()
    } else {
        Text::of(short.as_str()).lit(if deleted { " (8.3)" } else { "" }).done()
    };
    let first = first_cluster(src, g, rec);
    let attr: u8 = b[0x0B];
    let followed: bool = first.cluster != 0 && g.cluster_in_range(first.cluster) && !is_dot_bytes(
        b,
    ) && (attr / 8) % 2 == 0;
    let chain: Option<ChainExpander> = if followed {
        Some(ChainExpander { geom: *g, start: first.cluster })
    } else {
        None
    };
    let contents: Option<Contents> = if followed && (attr / 16) % 2 == 1 && depth < MAX_DIR_DEPTH {
        let at: u64 = match first.at {
            Some(at) => at,
            None => 0,
        };
        Some(
            Contents {
                span: Span::bytes(at, g.bytes_per_cluster),
                dir: DirExpander {
                    geom: *g,
                    source: DirSource::Chain(first.cluster),
                    depth: depth + 1,
                },
            },
        )
    } else {
        None
    };
    let mut findings: Vec<Finding> = Vec::new();
    note(&mut findings, (attr / 8) % 2 == 1 && first.cluster != 0, Finding::LabelWithCluster);
    note(&mut findings, deleted, Finding::Deleted);
    note(&mut findings, past_end && !deleted, Finding::PastEnd);
    assert(findings@ =~= own_findings(b@, past_end));
    let fragments: Vec<Fragment> = read_fragments(g, run, sum, deleted, &recovered);
    let together: Vec<Finding> = note_group(deleted, &recovered, run_sum, belongs);
    let r = FileEntry {
        label,
        short_label,
        long,
        name: text::ascii_trimmed(name11),
        deleted,
        record: read_entry_record(g, rec),
        first_cluster: first,
        chain,
        contents,
        findings,
        fragments,
        together,
        run_sum,
        sum,
        spans: list_spans(rec, run),
    };
    assert(r@.together =~= want.together);
    assert(r@.fragments =~= want.fragments);
    r
}

impl FileEntry {
    /// What is said of a deleted entry whose long name survives, in full.
    pub fn survivor_message(&self) -> (r: String)
        ensures
            r@ == "deleted file \""@ + self.long@
                + "\": the long-filename fragments survive in full, so the name is recoverable even though the 8.3 entry's first character is not"@,
    {
        Text::of("deleted file \"").lit(self.long.as_str()).lit(
            "\": the long-filename fragments survive in full, so the name is recoverable even though the 8.3 entry's first character is not",
        ).done()
    }

    /// What is said of a long name that belongs to another entry, in full.
    pub fn alien_message(&self) -> (r: String)
        ensures
            r@ == "the long name does not belong to this 8.3 entry: the run stores checksum "@
                + text::hex(
                match self.run_sum {
                    Some(s) => s as int,
                    None => 0,
                },
                2,
            ) + " but \""@ + self.name@ + "\" checksums to "@ + text::hex(self.sum as int, 2),
    {
        let stored: u64 = match self.run_sum {
            Some(s) => s as u64,
            None => 0,
        };
        Text::of("the long name does not belong to this 8.3 entry: the run stores checksum ").hex(
            stored,
            2,
        ).lit(" but \"").lit(self.name.as_str()).lit("\" checksums to ").hex(
            self.sum as u64,
            2,
        ).done()
    }
}

// ------------------------------------------------------------------------ status

/// How serious the worst of a list of fragments is.
pub open spec fn fragments_severity(v: Seq<FragmentModel>) -> Status
    decreases v.len(),
{
    if v.len() == 0 {
        Status::Clean
    } else {
        fragments_severity(v.drop_last()).worse(
            v.last().record.severity().worse(finding::worst(v.last().findings)),
        )
    }
}

impl FileEntryModel {
    /// How serious the worst thing about the entry and its run is.
    pub open spec fn severity(self) -> Status {
        self.record.severity().worse(finding::worst(self.findings)).worse(
            match self.first_cluster.finding {
                Some(f) => f.severity(),
                None => Status::Clean,
            },
        ).worse(fragments_severity(self.fragments)).worse(finding::worst(self.together))
    }
}

impl FileEntry {
    /// How serious the worst thing about the entry and its run is.
    pub fn status(&self) -> (r: Status)
        ensures
            r == self@.severity(),
    {
        let mut below = Status::Clean;
        let mut i: usize = 0;
        let ghost all = self@.fragments;
        while i < self.fragments.len()
            invariant
                i <= self.fragments@.len(),
                all == self@.fragments,
                below == fragments_severity(all.take(i as int)),
            decreases self.fragments@.len() - i,
        {
            assert(all.take(i + 1).drop_last() =~= all.take(i as int));
            let f = &self.fragments[i];
            below = below.merge(f.record.status().merge(worst_of(&f.findings)));
            i += 1;
        }
        assert(all.take(i as int) =~= all);
        let first = match self.first_cluster.finding {
            Some(f) => f.status(),
            None => Status::Clean,
        };
        self.record.status().merge(worst_of(&self.findings)).merge(first).merge(below).merge(
            worst_of(&self.together),
        )
    }
}

// -------------------------------------------------------------------------- laws

/// A record after a delete: its first byte is overwritten, nothing else.
pub open spec fn after_delete(rec: SlotModel) -> SlotModel {
    SlotModel { at: rec.at, data: rec.data.update(0, desc::DELETED_MARK) }
}

/// A run of records after a delete.
pub open spec fn run_after_delete(run: Seq<SlotModel>) -> Seq<SlotModel> {
    Seq::new(run.len(), |i: int| after_delete(run[i]))
}

/// A delete hides a file and removes nothing: the entry is still listed, marked deleted,
/// with its whole long name, its first cluster, its chain and, for a directory, its
/// contents; and the one character that was overwritten is the one that the checksum of
/// the long name gives back.
pub proof fn lemma_delete_removes_nothing(
    dev: Device,
    g: Geom,
    rec: SlotModel,
    run: Seq<SlotModel>,
    depth: u32,
    past_end: bool,
)
    requires
        rec.data.len() == 32,
        full_records(run),
        rec.data[0] >= 0x20,
        rec.data[0] != desc::DELETED_MARK,
        rec.data[0] != 0x2E,
        belongs(rec.data, run),
    ensures
        ({
            let live = file_of(dev, g, rec, run, depth, past_end);
            let gone = file_of(
                dev,
                g,
                after_delete(rec),
                run_after_delete(run),
                depth,
                past_end,
            );
            &&& !live.deleted && gone.deleted
            &&& gone.long == live.long
            &&& gone.first_cluster.cluster == live.first_cluster.cluster
            &&& gone.chain == live.chain
            &&& gone.contents == live.contents
            &&& gone.spans == live.spans
            &&& run.len() > 0 ==> recovered_of(
                after_delete(rec).data,
                run_after_delete(run),
            ) == seq![rec.data[0]]
        }),
{
    let b = rec.data;
    let d = after_delete(rec).data;
    let frags = run_after_delete(run);
    lemma_deleted_run_spells(run);
    assert(cluster_of(d) == cluster_of(b));
    assert(!dot_bytes(b) && !dot_bytes(d));
    assert(spans_of(after_delete(rec), frags) =~= spans_of(rec, run));
    if run.len() > 0 {
        assert(run[0].data.len() == 32);
        let want = run[0].data[0x0D];
        assert(frags[0].data[0x0D] == want);
        let name = d.take(11);
        assert(name.update(0, b[0]) =~= b.take(11));
        assert(name.update(0, desc::DELETED_MARK) =~= name);
        name::lemma_recovery_is_unique(name, want, b[0]);
        if belongs(d, frags) {
            name::lemma_recovery_is_unique(name, want, desc::DELETED_MARK);
            assert(name::candidates(name, want, 0x100)[0] == b[0]);
        }
    }
}

proof fn lemma_deleted_run_spells(run: Seq<SlotModel>)
    requires
        full_records(run),
    ensures
        long_text(run_after_delete(run)) == long_text(run),
    decreases run.len(),
{
    if run.len() > 0 {
        assert(run[run.len() - 1].data.len() == 32);
        assert(full_records(run.drop_last()));
        lemma_deleted_run_spells(run.drop_last());
        assert(run_after_delete(run).drop_last() =~= run_after_delete(run.drop_last()));
        lemma_deleted_chunk_spells(run.last().data, 0);
    }
}

proof fn lemma_deleted_chunk_spells(b: Seq<u8>, i: nat)
    requires
        b.len() == 32,
    ensures
        name::units_from(b.update(0, desc::DELETED_MARK), i) == name::units_from(b, i),
    decreases 13 - i,
{
    if i < 13 {
        lemma_deleted_chunk_spells(b, i + 1);
    }
}

/// Directories nest only so deep: what an entry leads to lies one level further down,
/// and never below the last level.
pub proof fn lemma_nesting_is_bounded(g: Geom, b: Seq<u8>, depth: u32)
    ensures
        contents_of(g, b, depth) matches Some(c) ==> c.dir.depth == depth + 1 && c.dir.depth
            <= MAX_DIR_DEPTH,
{
}

} // verus!
