//! Overwriting a recoverable exFAT record set.
//!
//! A delete clears one bit, `InUse`, in each record of a set, so a deleted file keeps
//! its complete name, both lengths, the first cluster, its timestamps and every
//! attribute. That is what makes scrubbing worth having.

use crate::common;
use crate::common::{u32_or_zero, u64_or_zero};
use crate::exfat::chain;
use crate::exfat::chain::cluster_chain;
use crate::exfat::geometry;
use crate::exfat::geometry::Geometry;
use crate::exfat::types;
use crate::exfat::volume::ExfatReader;
use crate::extent::Span;
use crate::scrub;
use crate::scrub::{
    Fill, Marker, RecordClass, ScrubMode, ScrubPlan, Selection, Slot, SlotModel, Warning, WhyNot,
};
use crate::source::{BlockSource, Device};
use crate::text;
use crate::text::Text;
use vstd::prelude::*;

verus! {

// --------------------------------------------------------------- directory runs

/// The offsets of a list of clusters.
pub open spec fn places(g: Geometry, clusters: Seq<u64>) -> Seq<Option<u64>> {
    Seq::new(clusters.len(), |i: int| g.cluster_at(clusters[i] as int))
}

/// The first clusters of a list, as many as are scanned.
pub open spec fn scanned(clusters: Seq<u64>) -> Seq<u64> {
    if clusters.len() <= scrub::MAX_SCAN_CLUSTERS {
        clusters
    } else {
        clusters.take(scrub::MAX_SCAN_CLUSTERS as int)
    }
}

/// The runs of the directory that holds `from`, starting there. A directory is always
/// chained through the FAT here.
pub open spec fn runs_from(dev: Device, g: Geometry, from: u64) -> Result<Seq<(u64, u64)>, WhyNot> {
    match g.heap_at() {
        None => Err(WhyNot::HeapNotLocatable),
        Some(heap) => {
            let cluster = (from - heap) / g.cluster_size as int + 2;
            if from < heap {
                Err(WhyNot::OutsideHeap)
            } else if !g.in_heap(cluster) {
                Err(WhyNot::ClusterOutsideHeap { cluster: common::saturated(cluster) })
            } else {
                let all = scanned(chain::chain_of(dev, g, cluster as u64, false, None).clusters);
                if all.len() == 0 {
                    Err(WhyNot::EmptyChain { cluster: cluster as u64 })
                } else {
                    Ok(scrub::joined_runs(places(g, all), g.cluster_size, from, all.len()))
                }
            }
        },
    }
}

/// Where a record that ends at `after` starts.
pub open spec fn record_before(after: u64) -> u64 {
    if after < scrub::RECORD_SIZE {
        0
    } else {
        (after - scrub::RECORD_SIZE) as u64
    }
}

/// The records in use after `after`, in the directory that holds the record ending
/// there. The directory is found from that record: when it is the last of its cluster,
/// what lies right behind it may be some other file's.
pub open spec fn use_after(dev: Device, g: Geometry, after: u64) -> Result<
    Option<(u64, u64)>,
    WhyNot,
> {
    if !g.trusted {
        Err(WhyNot::GeometryUnusable)
    } else {
        match runs_from(dev, g, record_before(after)) {
            Err(why) => Err(why),
            Ok(runs) => match scrub::directory_use(
                dev,
                Marker::Exfat,
                scrub::runs_past_record(runs, record_before(after)),
                scrub::no_use(),
            ) {
                Ok(st) => Ok(scrub::packed(st)),
                Err(at) => Err(WhyNot::Unreadable { at }),
            },
        }
    }
}

fn dir_runs_from<S: BlockSource>(src: &S, geo: &Geometry, from: u64) -> (r: Result<
    Vec<(u64, u64)>,
    WhyNot,
>)
    requires
        geo.well_formed(),
    ensures
        match runs_from(src.device(), *geo, from) {
            Ok(runs) => r matches Ok(v) && v@ == runs,
            Err(why) => r matches Err(w) && w == why,
        },
{
    let heap: u64 = match geo.heap_byte() {
        Some(h) => h,
        None => {
            return Err(WhyNot::HeapNotLocatable);
        },
    };
    if from < heap {
        return Err(WhyNot::OutsideHeap);
    }
    let index: u64 = (from - heap) / geo.cluster_size;
    let cluster: u64 = index.saturating_add(2);
    if !geo.cluster_in_heap(cluster) {
        return Err(WhyNot::ClusterOutsideHeap { cluster });
    }
    let (clusters, _findings) = cluster_chain(src, geo, cluster, false, None);
    let n: usize = if clusters.len() <= scrub::MAX_SCAN_CLUSTERS {
        clusters.len()
    } else {
        scrub::MAX_SCAN_CLUSTERS
    };
    if n == 0 {
        return Err(WhyNot::EmptyChain { cluster });
    }
    let ghost all = scanned(
        chain::chain_of(src.device(), *geo, cluster, false, None).clusters,
    );
    let mut at: Vec<Option<u64>> = Vec::new();
    let mut i: usize = 0;
    while i < n
        invariant
            i <= n <= clusters@.len(),
            n == all.len(),
            forall|j: int| 0 <= j < n ==> all[j] == clusters@[j],
            at@ =~= places(*geo, all).take(i as int),
        decreases n - i,
    {
        at.push(geo.cluster_byte(clusters[i]));
        i += 1;
    }
    assert(at@ =~= places(*geo, all));
    Ok(scrub::join_runs(&at, geo.cluster_size, from))
}

fn in_use_after<S: BlockSource>(src: &S, geo: &Geometry, after: u64) -> (r: Result<
    Option<(u64, u64)>,
    WhyNot,
>)
    requires
        geo.well_formed(),
    ensures
        r == use_after(src.device(), *geo, after),
{
    if !geo.trusted {
        return Err(WhyNot::GeometryUnusable);
    }
    let from: u64 = after.saturating_sub(scrub::RECORD_SIZE);
    match dir_runs_from(src, geo, from) {
        Err(why) => Err(why),
        Ok(runs) => match scrub::in_use(src, Marker::Exfat, &scrub::skip_record(runs, from)) {
            Ok(found) => Ok(found),
            Err(at) => Err(WhyNot::Unreadable { at }),
        },
    }
}

// --------------------------------------------------------------------- the names

/// What a record is called in a plan: its part of the name, or its type byte.
pub open spec fn record_label(b: Seq<u8>) -> Seq<char> {
    let name = text::utf16_text(text::until_nul(text::units_in(b, 2, 15)));
    if types::restored(b[0]) == types::FILE_NAME && name.len() > 0 {
        name
    } else {
        text::hex(b[0] as int, 2) + " record"@
    }
}

fn record_name(b: &[u8]) -> (r: String)
    requires
        b@.len() == 32,
    ensures
        r@ == record_label(b@),
{
    if types::undeleted(b[0]) == types::FILE_NAME {
        let units: Vec<u16> = text::units_at(b, 2, 15);
        let s: String = text::decode_until_nul(&units);
        if text::char_count(&s) > 0 {
            return s;
        }
    }
    let t = Text::of("").hex(b[0] as u64, 2).lit(" record");
    proof {
        reveal_strlit("");
    }
    assert(t@ =~= text::hex(b[0] as int, 2) + " record"@);
    t.done()
}

/// The names of the records of a class, or of all where no class is given.
pub open spec fn names_of(records: Seq<SlotModel>, only_deleted: bool) -> Seq<Seq<char>>
    decreases records.len(),
{
    if records.len() == 0 {
        Seq::empty()
    } else {
        let before = names_of(records.drop_last(), only_deleted);
        if only_deleted && Marker::Exfat.class_of(records.last().data) != RecordClass::Deleted {
            before
        } else {
            before.push(record_label(records.last().data))
        }
    }
}

fn record_names(records: &[Slot], only_deleted: bool) -> (r: Vec<String>)
    requires
        scrub::full_records(scrub::slots(records@)),
    ensures
        scrub::lines(r@) == names_of(scrub::slots(records@), only_deleted),
{
    let mut out: Vec<String> = scrub::no_lines();
    let mut i: usize = 0;
    while i < records.len()
        invariant
            i <= records@.len(),
            scrub::full_records(scrub::slots(records@)),
            scrub::lines(out@) == names_of(scrub::slots(records@).take(i as int), only_deleted),
        decreases records@.len() - i,
    {
        let ghost all = scrub::slots(records@);
        assert(all.take(i + 1).drop_last() =~= all.take(i as int));
        assert(all[i as int].data.len() == 32);
        if !only_deleted || Marker::Exfat.classify(&records[i].data) == RecordClass::Deleted {
            scrub::push_line(&mut out, record_name(&records[i].data));
        }
        i += 1;
    }
    assert(scrub::slots(records@).take(i as int) =~= scrub::slots(records@));
    out
}

// ------------------------------------------------------------- the directory plan

/// Some record is in use or deleted, and every such record has a type that a record
/// can have: what arbitrary data fails often enough to be a useful filter.
pub open spec fn directory_like(records: Seq<SlotModel>) -> bool {
    &&& forall|i: int|
        0 <= i < records.len() ==> {
            let b = (#[trigger] records[i]).data;
            b.len() >= 32 && (b[0] == types::END_OF_DIRECTORY || types::plausible(b[0]))
        }
    &&& exists|i: int| 0 <= i < records.len() && (#[trigger] records[i]).data[0] != 0
}

/// True when the bytes read as a directory rather than as file data.
pub fn looks_like_directory(records: &[Slot]) -> (r: bool)
    ensures
        r == directory_like(scrub::slots(records@)),
{
    let mut used: bool = false;
    let mut i: usize = 0;
    let ghost all = scrub::slots(records@);
    while i < records.len()
        invariant
            i <= records@.len(),
            all == scrub::slots(records@),
            forall|j: int|
                0 <= j < i ==> {
                    let b = (#[trigger] all[j]).data;
                    b.len() >= 32 && (b[0] == types::END_OF_DIRECTORY || types::plausible(b[0]))
                },
            used == exists|j: int| 0 <= j < i && (#[trigger] all[j]).data[0] != 0,
        decreases records@.len() - i,
    {
        let b: &Vec<u8> = &records[i].data;
        assert(all[i as int].data == b@);
        if b.len() < 32 {
            return false;
        }
        if b[0] != types::END_OF_DIRECTORY {
            if !types::is_plausible(b[0]) {
                return false;
            }
            used = true;
            assert(all[i as int].data[0] != 0);
        }
        i += 1;
    }
    used
}

/// The cluster at the selection's only span: the shape a directory's first cluster has.
pub open spec fn cluster_shaped(g: Geometry, spans: Seq<Span>) -> bool {
    &&& spans.len() == 1
    &&& g.heap_at() matches Some(heap) && spans[0].at >= heap && (spans[0].at - heap)
        % g.cluster_size as int == 0
    &&& spans[0].len == g.cluster_size
}

/// The records of the directory at the selection, where a plan for it can be made.
pub open spec fn directory_at(dev: Device, g: Geometry, spans: Seq<Span>) -> Option<Seq<SlotModel>> {
    if g.trusted && cluster_shaped(g, spans) {
        match runs_from(dev, g, spans[0].at) {
            Ok(runs) => match scrub::directory_records(dev, runs, Seq::empty()) {
                Some(records) => if records.len() > 0 && directory_like(records) {
                    Some(records)
                } else {
                    None
                },
                None => None,
            },
            Err(_) => None,
        }
    } else {
        None
    }
}

/// What a whole-directory scrub removes.
pub open spec fn directory_removes(deleted: nat, residue: nat) -> Seq<Seq<char>> {
    let first = seq![
        text::dec(deleted as int)
            + " deleted record(s), with their filenames, timestamps, lengths and cluster pointers"@,
    ];
    if residue > 0 {
        first.push(
            text::dec(residue as int)
                + " record(s) typed 0x00 whose bytes are not zero — entries overwritten rather than erased"@,
        )
    } else {
        first
    }
}

/// What a whole-directory scrub keeps.
pub open spec fn directory_keeps(mode: ScrubMode, live: nat, deleted: nat) -> Seq<Seq<char>> {
    seq![
        "all "@ + text::dec(live as int) + " record(s) still in use"@,
        match mode {
            ScrubMode::Compact => "nothing else: no cleared-InUse record remains, and every byte the survivors vacate is zeroed"@,
            _ => text::dec(deleted as int)
                + " cleared-InUse record(s) sitting between live ones"@,
        },
        "the files' data clusters, which this command does not reach"@,
        "the allocation bitmap, which the delete already updated"@,
    ]
}

/// What to read before a whole-directory scrub.
pub open spec fn directory_warnings(mode: ScrubMode, relocated: nat) -> Seq<scrub::WarningModel> {
    let last = scrub::warned(
        "this does not touch any file's data. Names and metadata go; contents stay where they are."@,
        "overwriting contents is sanitize's job"@,
    );
    if mode == ScrubMode::Compact && relocated > 0 {
        seq![
            scrub::warned(
                text::dec(relocated as int)
                    + " live record(s) move to close the gap, so the whole directory is rewritten rather than one sector"@,
                "entry sets stay contiguous because packing preserves order"@,
            ),
            last,
        ]
    } else {
        seq![last]
    }
}

/// How many live records a scrub moves: none, unless it compacts.
pub open spec fn relocated_by(records: Seq<SlotModel>, mode: ScrubMode) -> nat {
    if mode == ScrubMode::Compact {
        scrub::moved(Marker::Exfat, records, mode, records.len())
    } else {
        0
    }
}

/// The plan for a whole directory, where it changes anything.
pub open spec fn directory_plan(
    dev: Device,
    g: Geometry,
    label: Seq<char>,
    spans: Seq<Span>,
    mode: ScrubMode,
) -> Option<scrub::PlanModel> {
    match directory_at(dev, g, spans) {
        None => None,
        Some(records) => {
            let edits = scrub::layout_edits(Marker::Exfat, records, mode, records.len());
            let deleted = scrub::class_count(Marker::Exfat, records, RecordClass::Deleted);
            let live = scrub::class_count(Marker::Exfat, records, RecordClass::Live);
            if edits.len() == 0 {
                None
            } else {
                Some(
                    scrub::PlanModel {
                        label,
                        mode,
                        affected: names_of(records, true),
                        relocated: relocated_by(records, mode) as u64,
                        edits,
                        removes: directory_removes(
                            deleted,
                            scrub::residue_count(Marker::Exfat, records),
                        ),
                        keeps: directory_keeps(mode, live, deleted),
                        zero_refusal: None,
                        warnings: directory_warnings(mode, relocated_by(records, mode)),
                    },
                )
            }
        },
    }
}

fn list_removes(deleted: u64, residue: u64) -> (r: Vec<String>)
    ensures
        scrub::lines(r@) == directory_removes(deleted as nat, residue as nat),
{
    let mut out: Vec<String> = scrub::no_lines();
    proof {
        reveal_strlit("");
    }
    let first = Text::of("").dec(deleted).lit(
        " deleted record(s), with their filenames, timestamps, lengths and cluster pointers",
    );
    assert(first@ =~= text::dec(deleted as int)
        + " deleted record(s), with their filenames, timestamps, lengths and cluster pointers"@);
    scrub::push_line(&mut out, first.done());
    if residue > 0 {
        let second = Text::of("").dec(residue).lit(
            " record(s) typed 0x00 whose bytes are not zero — entries overwritten rather than erased",
        );
        assert(second@ =~= text::dec(residue as int)
            + " record(s) typed 0x00 whose bytes are not zero — entries overwritten rather than erased"@);
        scrub::push_line(&mut out, second.done());
    }
    assert(scrub::lines(out@) =~= directory_removes(deleted as nat, residue as nat));
    out
}

fn list_keeps(mode: ScrubMode, live: u64, deleted: u64) -> (r: Vec<String>)
    ensures
        scrub::lines(r@) == directory_keeps(mode, live as nat, deleted as nat),
{
    let mut out: Vec<String> = scrub::no_lines();
    proof {
        reveal_strlit("");
    }
    scrub::push_line(
        &mut out,
        Text::of("all ").dec(live).lit(" record(s) still in use").done(),
    );
    match mode {
        ScrubMode::Compact => scrub::push_text(
            &mut out,
            "nothing else: no cleared-InUse record remains, and every byte the survivors vacate is zeroed",
        ),
        _ => {
            let t = Text::of("").dec(deleted).lit(
                " cleared-InUse record(s) sitting between live ones",
            );
            assert(t@ =~= text::dec(deleted as int)
                + " cleared-InUse record(s) sitting between live ones"@);
            scrub::push_line(&mut out, t.done())
        },
    }
    scrub::push_text(&mut out, "the files' data clusters, which this command does not reach");
    scrub::push_text(&mut out, "the allocation bitmap, which the delete already updated");
    assert(scrub::lines(out@) =~= directory_keeps(mode, live as nat, deleted as nat));
    out
}

fn list_warnings(mode: ScrubMode, relocated: u64) -> (r: Vec<Warning>)
    ensures
        scrub::warnings(r@) == directory_warnings(mode, relocated as nat),
{
    let mut out: Vec<Warning> = scrub::no_warnings();
    proof {
        reveal_strlit("");
    }
    if mode == ScrubMode::Compact && relocated > 0 {
        let t = Text::of("").dec(relocated).lit(
            " live record(s) move to close the gap, so the whole directory is rewritten rather than one sector",
        );
        assert(t@ =~= text::dec(relocated as int)
            + " live record(s) move to close the gap, so the whole directory is rewritten rather than one sector"@);
        scrub::push_warning(
            &mut out,
            scrub::warn(
                t.done(),
                "entry sets stay contiguous because packing preserves order",
            ),
        );
    }
    scrub::push_warning(
        &mut out,
        scrub::warn(
            Text::of(
                "this does not touch any file's data. Names and metadata go; contents stay where they are.",
            ).done(),
            "overwriting contents is sanitize's job",
        ),
    );
    assert(scrub::warnings(out@) =~= directory_warnings(mode, relocated as nat));
    out
}

// ---------------------------------------------------------------- the record plan

/// How many records are file names.
pub open spec fn name_records(records: Seq<SlotModel>) -> nat
    decreases records.len(),
{
    if records.len() == 0 {
        0
    } else {
        name_records(records.drop_last()) + if types::restored(records.last().data[0])
            == types::FILE_NAME {
            1nat
        } else {
            0nat
        }
    }
}

/// The first record of a type, deleted or not.
pub open spec fn first_of_type(records: Seq<SlotModel>, t: u8) -> Option<Seq<u8>>
    decreases records.len(),
{
    if records.len() == 0 {
        None
    } else {
        match first_of_type(records.drop_last(), t) {
            Some(b) => Some(b),
            None => if types::restored(records.last().data[0]) == t {
                Some(records.last().data)
            } else {
                None
            },
        }
    }
}

/// What overwriting a stream extension removes.
pub open spec fn stream_removes(b: Seq<u8>) -> Seq<Seq<char>> {
    let two = seq![
        "the recorded size, "@ + text::dec(common::le64(b, 0x18) as int) + " bytes ("@ + text::dec(
            common::le64(b, 0x08) as int,
        ) + " valid)"@,
        "the name hash and name length"@,
    ];
    if common::le32(b, 0x14) >= 2 {
        two.push("the first cluster, "@ + text::dec(common::le32(b, 0x14) as int))
    } else {
        two
    }
}

/// What overwriting a list of records removes.
pub open spec fn record_removes(records: Seq<SlotModel>) -> Seq<Seq<char>> {
    let names = name_records(records);
    (if names > 0 {
        seq![
            "the filename, held in "@ + text::dec(names as int)
                + " name record(s) that survived the delete in full"@,
        ]
    } else {
        Seq::empty()
    }) + (if first_of_type(records, types::FILE) is Some {
        seq![
            "the file attributes"@,
            "the creation, last-modified and last-accessed timestamps, including their 10ms and UTC-offset fields"@,
        ]
    } else {
        Seq::empty()
    }) + (match first_of_type(records, types::STREAM_EXTENSION) {
        Some(b) => stream_removes(b),
        None => Seq::empty(),
    })
}

/// What overwriting a list of records keeps.
pub open spec fn record_keeps(fill: Fill) -> Seq<Seq<char>> {
    seq![
        match fill {
            Fill::Neutral => "the cleared-InUse type byte on each record: that something was deleted here stays visible, what it was does not"@,
            Fill::Zero => "nothing in these records; they will read as space that was never used"@,
        },
        "the file's data clusters, which this command does not reach"@,
        "the allocation bitmap, which the delete already updated and which this does not change"@,
    ]
}

/// ` at ` and an offset, where there is one.
pub open spec fn placed_at(at: Option<u64>) -> Seq<char> {
    match at {
        Some(a) => " at "@ + text::hex(a as int, 10),
        None => ""@,
    }
}

/// What to read before overwriting a list of records: where the file's data stays.
pub open spec fn record_warnings(g: Geometry, records: Seq<SlotModel>) -> Seq<scrub::WarningModel> {
    match first_of_type(records, types::STREAM_EXTENSION) {
        Some(b) if common::le32(b, 0x14) >= 2 => {
            let first = common::le32(b, 0x14);
            let place = placed_at(g.cluster_at(first as int));
            seq![
                if (b[1] / 2) % 2 == 1 {
                    scrub::warned(
                        "this does not touch the file's data. The record says NoFatChain, so the file was contiguous: "@
                            + text::dec(common::le64(b, 0x18) as int) + " bytes from cluster "@
                            + text::dec(first as int) + place
                            + " are still there, and losing this record makes them harder to find rather than gone."@,
                        "overwriting contents is sanitize's job"@,
                    )
                } else {
                    scrub::warned(
                        "this does not touch the file's data. Cluster "@ + text::dec(first as int)
                            + place + " and whatever followed it are unchanged."@,
                        "the chain was released by the delete, so only this first cluster is knowable from the metadata"@,
                    )
                },
            ]
        },
        _ => Seq::empty(),
    }
}

/// Where the last of a list of records ends.
pub open spec fn last_end(records: Seq<SlotModel>) -> u64 {
    common::saturated(records.last().at + 32)
}

/// The plan for the selected records.
pub open spec fn record_plan(
    dev: Device,
    g: Geometry,
    label: Seq<char>,
    spans: Seq<Span>,
    fill: Fill,
) -> Option<scrub::PlanModel> {
    let records = scrub::in_order(scrub::selected(dev, spans));
    let edits = scrub::fill_edits(records, fill, "scrub deleted exFAT record"@);
    if spans.len() > 0 && scrub::whole_records(spans) && scrub::all_deleted(
        dev,
        Marker::Exfat,
        spans,
    ) && edits.len() > 0 {
        Some(
            scrub::PlanModel {
                label,
                mode: ScrubMode::Record(fill),
                affected: names_of(records, false),
                relocated: 0,
                edits,
                removes: record_removes(records),
                keeps: record_keeps(fill),
                zero_refusal: scrub::refusal(use_after(dev, g, last_end(records))),
                warnings: record_warnings(g, records),
            },
        )
    } else {
        None
    }
}

fn count_names(records: &[Slot]) -> (r: u64)
    requires
        scrub::full_records(scrub::slots(records@)),
    ensures
        r == name_records(scrub::slots(records@)),
{
    let mut n: u64 = 0;
    let mut i: usize = 0;
    while i < records.len()
        invariant
            i <= records@.len(),
            scrub::full_records(scrub::slots(records@)),
            n == name_records(scrub::slots(records@).take(i as int)),
            n <= i,
        decreases records@.len() - i,
    {
        let ghost all = scrub::slots(records@);
        assert(all.take(i + 1).drop_last() =~= all.take(i as int));
        assert(all[i as int].data.len() == 32);
        if types::undeleted(records[i].data[0]) == types::FILE_NAME {
            n += 1;
        }
        i += 1;
    }
    assert(scrub::slots(records@).take(i as int) =~= scrub::slots(records@));
    n
}

fn find_type<'a>(records: &'a [Slot], t: u8) -> (r: Option<&'a Vec<u8>>)
    requires
        scrub::full_records(scrub::slots(records@)),
    ensures
        match first_of_type(scrub::slots(records@), t) {
            Some(b) => r matches Some(v) && v@ == b && b.len() == 32,
            None => r is None,
        },
{
    let ghost all = scrub::slots(records@);
    let mut i: usize = 0;
    while i < records.len()
        invariant
            i <= records@.len(),
            all == scrub::slots(records@),
            scrub::full_records(all),
            first_of_type(all.take(i as int), t) is None,
        decreases records@.len() - i,
    {
        assert(all.take(i + 1).drop_last() =~= all.take(i as int));
        assert(all[i as int].data.len() == 32);
        if types::undeleted(records[i].data[0]) == t {
            proof {
                lemma_first_stays(all, t, (i + 1) as nat, all.len());
                assert(all.take(all.len() as int) =~= all);
            }
            return Some(&records[i].data);
        }
        i += 1;
    }
    assert(all.take(i as int) =~= all);
    None
}

proof fn lemma_first_stays(records: Seq<SlotModel>, t: u8, i: nat, n: nat)
    requires
        i <= n <= records.len(),
        first_of_type(records.take(i as int), t) is Some,
    ensures
        first_of_type(records.take(n as int), t) == first_of_type(records.take(i as int), t),
    decreases n,
{
    if i < n {
        lemma_first_stays(records, t, i, (n - 1) as nat);
        assert(records.take(n as int).drop_last() =~= records.take(n - 1));
    }
}

fn describe_removes(records: &[Slot]) -> (r: Vec<String>)
    requires
        scrub::full_records(scrub::slots(records@)),
    ensures
        scrub::lines(r@) == record_removes(scrub::slots(records@)),
{
    let ghost all = scrub::slots(records@);
    let mut out: Vec<String> = scrub::no_lines();
    let names: u64 = count_names(records);
    if names > 0 {
        scrub::push_line(
            &mut out,
            Text::of("the filename, held in ").dec(names).lit(
                " name record(s) that survived the delete in full",
            ).done(),
        );
    }
    if find_type(records, types::FILE).is_some() {
        scrub::push_text(&mut out, "the file attributes");
        scrub::push_text(
            &mut out,
            "the creation, last-modified and last-accessed timestamps, including their 10ms and UTC-offset fields",
        );
    }
    let ghost before = scrub::lines(out@);
    match find_type(records, types::STREAM_EXTENSION) {
        Some(b) => {
            let length: u64 = u64_or_zero(b, 0x18);
            let valid: u64 = u64_or_zero(b, 0x08);
            let first: u32 = u32_or_zero(b, 0x14);
            scrub::push_line(
                &mut out,
                Text::of("the recorded size, ").dec(length).lit(" bytes (").dec(valid).lit(
                    " valid)",
                ).done(),
            );
            scrub::push_text(&mut out, "the name hash and name length");
            if first >= 2 {
                scrub::push_line(
                    &mut out,
                    Text::of("the first cluster, ").dec(first as u64).done(),
                );
            }
            assert(scrub::lines(out@) =~= before + stream_removes(b@));
        },
        None => {
            assert(scrub::lines(out@) =~= before + Seq::empty());
        },
    }
    assert(scrub::lines(out@) =~= record_removes(all));
    out
}

fn describe_keeps(fill: Fill) -> (r: Vec<String>)
    ensures
        scrub::lines(r@) == record_keeps(fill),
{
    let mut out: Vec<String> = scrub::no_lines();
    match fill {
        Fill::Neutral => scrub::push_text(
            &mut out,
            "the cleared-InUse type byte on each record: that something was deleted here stays visible, what it was does not",
        ),
        Fill::Zero => scrub::push_text(
            &mut out,
            "nothing in these records; they will read as space that was never used",
        ),
    }
    scrub::push_text(&mut out, "the file's data clusters, which this command does not reach");
    scrub::push_text(
        &mut out,
        "the allocation bitmap, which the delete already updated and which this does not change",
    );
    assert(scrub::lines(out@) =~= record_keeps(fill));
    out
}

fn push_place(t: Text, at: Option<u64>) -> (r: Text)
    ensures
        r@ == t@ + placed_at(at),
{
    match at {
        Some(a) => {
            let r = t.lit(" at ").hex(a, 10);
            assert(r@ =~= t@ + placed_at(at));
            r
        },
        None => t.lit(""),
    }
}

fn describe_warnings(geo: &Geometry, records: &[Slot]) -> (r: Vec<Warning>)
    requires
        scrub::full_records(scrub::slots(records@)),
    ensures
        scrub::warnings(r@) == record_warnings(*geo, scrub::slots(records@)),
{
    let ghost all = scrub::slots(records@);
    let mut out: Vec<Warning> = scrub::no_warnings();
    if let Some(b) = find_type(records, types::STREAM_EXTENSION) {
        let first: u32 = u32_or_zero(b, 0x14);
        if first >= 2 {
            let at = geo.cluster_byte(first as u64);
            let w = if (b[1] / 2) % 2 == 1 {
                let t = Text::of(
                    "this does not touch the file's data. The record says NoFatChain, so the file was contiguous: ",
                ).dec(u64_or_zero(b, 0x18)).lit(" bytes from cluster ").dec(first as u64);
                let t = push_place(t, at).lit(
                    " are still there, and losing this record makes them harder to find rather than gone.",
                );
                scrub::warn(t.done(), "overwriting contents is sanitize's job")
            } else {
                let t = Text::of("this does not touch the file's data. Cluster ").dec(
                    first as u64,
                );
                let t = push_place(t, at).lit(" and whatever followed it are unchanged.");
                scrub::warn(
                    t.done(),
                    "the chain was released by the delete, so only this first cluster is knowable from the metadata",
                )
            };
            scrub::push_warning(&mut out, w);
        }
    }
    assert(scrub::warnings(out@) =~= record_warnings(*geo, all));
    out
}

// ---------------------------------------------------------------------- planning

/// The geometry of the volume at `base`.
pub open spec fn volume_geometry(dev: Device, base: u64) -> Geometry {
    geometry::geometry_of(dev.read(base, 512).data, base, dev.sector_size)
}

impl<'a, S: BlockSource> ExfatReader<'a, S> {
    fn read_geometry(&self) -> (r: Geometry)
        ensures
            r == volume_geometry(self.source().device(), self.start()),
            r.well_formed(),
    {
        let src = self.device_source();
        let (boot, _outcome) = src.read_vec(self.base(), 512);
        let (geo, _findings) = Geometry::from_boot(&boot, self.base(), src.logical_sector_size());
        geo
    }

    fn plan_directory(&self, node: &Selection, mode: ScrubMode) -> (r: Option<ScrubPlan>)
        ensures
            match directory_plan(
                self.source().device(),
                volume_geometry(self.source().device(), self.start()),
                node.label@,
                node.spans@,
                mode,
            ) {
                Some(p) => r matches Some(v) && v@ == p,
                None => r is None,
            },
    {
        let src = self.device_source();
        let geo = self.read_geometry();
        if !geo.trusted || node.spans.len() != 1 {
            return None;
        }
        let span = node.spans[0];
        let heap: u64 = match geo.heap_byte() {
            Some(h) => h,
            None => {
                return None;
            },
        };
        if span.at < heap || span.len != geo.cluster_size || (span.at - heap) % geo.cluster_size
            != 0 {
            return None;
        }
        let runs: Vec<(u64, u64)> = match dir_runs_from(src, &geo, span.at) {
            Ok(runs) => runs,
            Err(_) => {
                return None;
            },
        };
        let records: Vec<Slot> = match scrub::read_records(src, &runs) {
            Some(v) => v,
            None => {
                return None;
            },
        };
        proof {
            scrub::lemma_directory_records_full(src.device(), runs@, Seq::empty());
        }
        // A cluster-sized, cluster-aligned span is also the shape of a file's first
        // cluster, and rewriting file data as directory records is the worst outcome
        // available here.
        if records.len() == 0 || !looks_like_directory(&records) {
            return None;
        }
        let (edits, changed): (Vec<scrub::ByteEdit>, u64) = scrub::layout_directory(
            Marker::Exfat,
            &records,
            mode,
        );
        assert(scrub::edits(edits@).len() == edits@.len());
        if edits.len() == 0 {
            return None;
        }
        let (deleted, live, residue): (u64, u64, u64) = scrub::figures(Marker::Exfat, &records);
        let relocated: u64 = if mode == ScrubMode::Compact { changed } else { 0 };
        Some(
            ScrubPlan {
                label: node.label.clone(),
                mode,
                affected: record_names(&records, true),
                relocated,
                edits,
                removes: list_removes(deleted, residue),
                keeps: list_keeps(mode, live, deleted),
                zero_refusal: None,
                warnings: list_warnings(mode, relocated),
            },
        )
    }

    fn plan_record(&self, node: &Selection, fill: Fill) -> (r: Option<ScrubPlan>)
        ensures
            match record_plan(
                self.source().device(),
                volume_geometry(self.source().device(), self.start()),
                node.label@,
                node.spans@,
                fill,
            ) {
                Some(p) => r matches Some(v) && v@ == p,
                None => r is None,
            },
    {
        let src = self.device_source();
        let geo = self.read_geometry();
        let records: Vec<Slot> = match scrub::read_selected(src, Marker::Exfat, &node.spans) {
            Some(v) => v,
            None => {
                return None;
            },
        };
        proof {
            scrub::lemma_selected_full(src.device(), Marker::Exfat, node.spans@);
        }
        let edits: Vec<scrub::ByteEdit> = scrub::scrub_edits(
            &records,
            fill,
            "scrub deleted exFAT record",
        );
        assert(scrub::edits(edits@).len() == edits@.len());
        if edits.len() == 0 {
            return None;
        }
        let end: u64 = records[records.len() - 1].at.saturating_add(32);
        let zero_refusal = scrub::refusal_of(in_use_after(src, &geo, end));
        Some(
            ScrubPlan {
                label: node.label.clone(),
                mode: ScrubMode::Record(fill),
                affected: record_names(&records, false),
                relocated: 0,
                edits,
                removes: describe_removes(&records),
                keeps: describe_keeps(fill),
                zero_refusal,
                warnings: describe_warnings(&geo, &records),
            },
        )
    }

    /// Plan a scrub. `None` when the selection is not one this can scrub, or when
    /// there is nothing to change.
    pub fn scrub_plan(&self, node: &Selection, mode: ScrubMode) -> (r: Option<ScrubPlan>)
        ensures
            match planned(
                self.source().device(),
                self.start(),
                node.label@,
                node.spans@,
                mode,
            ) {
                Some(p) => r matches Some(v) && v@ == p,
                None => r is None,
            },
    {
        match mode {
            ScrubMode::Record(fill) => self.plan_record(node, fill),
            _ => self.plan_directory(node, mode),
        }
    }
}

/// The plan that a selection gets.
pub open spec fn planned(
    dev: Device,
    base: u64,
    label: Seq<char>,
    spans: Seq<Span>,
    mode: ScrubMode,
) -> Option<scrub::PlanModel> {
    let g = volume_geometry(dev, base);
    match mode {
        ScrubMode::Record(fill) => record_plan(dev, g, label, spans, fill),
        _ => directory_plan(dev, g, label, spans, mode),
    }
}

/// A plan changes something, and each of its edits finds on the device what it says it
/// finds. A sweep finds no live record, and the edits of selected records leave nothing
/// of them but, at most, the marker byte.
pub proof fn lemma_plan_edits_are_sound(
    dev: Device,
    base: u64,
    label: Seq<char>,
    spans: Seq<Span>,
    mode: ScrubMode,
)
    ensures
        planned(dev, base, label, spans, mode) matches Some(p) ==> {
            &&& p.edits.len() > 0
            &&& forall|i: int|
                0 <= i < p.edits.len() ==> {
                    let e = #[trigger] p.edits[i];
                    &&& scrub::edit_is_sound(dev, e)
                    &&& mode == ScrubMode::Sweep ==> Marker::Exfat.class_of(e.old)
                        != RecordClass::Live
                    &&& mode matches ScrubMode::Record(fill) ==> e.new == scrub::filled(
                        e.old,
                        fill,
                    )
                }
        },
{
    let g = volume_geometry(dev, base);
    match mode {
        ScrubMode::Record(fill) => if scrub::all_deleted(dev, Marker::Exfat, spans) {
            let records = scrub::in_order(scrub::selected(dev, spans));
            scrub::lemma_selected_full(dev, Marker::Exfat, spans);
            scrub::lemma_selected_on_disk(dev, spans);
            scrub::lemma_fill_edits_are_sound(
                dev,
                records,
                fill,
                "scrub deleted exFAT record"@,
            );
        },
        _ => if let Some(records) = directory_at(dev, g, spans) {
            let runs = runs_from(dev, g, spans[0].at)->Ok_0;
            scrub::lemma_directory_records_full(dev, runs, Seq::empty());
            scrub::lemma_directory_on_disk(dev, runs, Seq::empty());
            scrub::lemma_layout_edits_are_sound(
                dev,
                Marker::Exfat,
                records,
                mode,
                records.len(),
            );
        },
    }
}

proof fn lemma_places_are_disjoint(g: Geometry, clusters: Seq<u64>)
    requires
        forall|i: int, j: int| 0 <= i < j < clusters.len() ==> clusters[i] != clusters[j],
    ensures
        scrub::places_disjoint(places(g, clusters), g.cluster_size),
{
    let p = places(g, clusters);
    let s = g.cluster_size as int;
    assert forall|i: int, j: int, x: int|
        0 <= i < j < p.len() && #[trigger] scrub::place_holds(
            p,
            g.cluster_size,
            i,
            x,
        ) implies !#[trigger] scrub::place_holds(p, g.cluster_size, j, x) by {
        let a = clusters[i] as int;
        let b = clusters[j] as int;
        assert(a < b ==> (a - 2) * s + s <= (b - 2) * s) by (nonlinear_arith)
            requires
                s >= 0,
        ;
        assert(b < a ==> (b - 2) * s + s <= (a - 2) * s) by (nonlinear_arith)
            requires
                s >= 0,
        ;
    }
}

/// The runs of a directory share no byte.
pub proof fn lemma_directory_runs_are_disjoint(dev: Device, g: Geometry, from: u64)
    requires
        g.well_formed(),
    ensures
        runs_from(dev, g, from) matches Ok(runs) ==> scrub::runs_disjoint(runs),
{
    if let Ok(runs) = runs_from(dev, g, from) {
        let heap = g.heap_at().unwrap();
        let s = g.cluster_size as int;
        let d = from - heap;
        let cluster = d / s + 2;
        let whole = chain::chain_of(dev, g, cluster as u64, false, None).clusters;
        let all = scanned(whole);
        chain::lemma_chain_is_sound(dev, g, cluster as u64, false, None);
        assert forall|i: int, j: int| 0 <= i < j < all.len() implies all[i] != all[j] by {
            assert(all[i] == whole[i] && all[j] == whole[j]);
        }
        lemma_places_are_disjoint(g, all);
        let q = d / s;
        assert(q * s <= d) by (nonlinear_arith)
            requires
                q == d / s,
                d >= 0,
                s > 0,
        ;
        assert(all[0] == whole[0] == cluster);
        assert(places(g, all)[0] == g.cluster_at(cluster));
        assert((cluster - 2) * s == q * s);
        scrub::lemma_joined_runs_are_disjoint(places(g, all), g.cluster_size, from, all.len());
    }
}

/// A compaction puts the records in use first, unchanged and in their order, and makes
/// every slot behind them zero. Its edits find what they say they find, change it, and
/// do not overlap.
pub proof fn lemma_compaction_closes_the_gaps(
    dev: Device,
    base: u64,
    label: Seq<char>,
    spans: Seq<Span>,
)
    requires
        planned(dev, base, label, spans, ScrubMode::Compact) is Some,
    ensures
        ({
            let p = planned(dev, base, label, spans, ScrubMode::Compact).unwrap();
            let records = directory_at(dev, volume_geometry(dev, base), spans).unwrap();
            let kept = scrub::survivors(Marker::Exfat, records);
            let after = scrub::scrubbed(Marker::Exfat, records, ScrubMode::Compact);
            &&& after.len() == records.len() && kept.len() <= records.len()
            &&& forall|i: int| 0 <= i < kept.len() ==> (#[trigger] after[i]).data == kept[i]
            &&& forall|i: int|
                kept.len() <= i < after.len() ==> (#[trigger] after[i]).data == Seq::new(
                    32,
                    |j: int| 0u8,
                )
            &&& forall|k: int|
                0 <= k < p.edits.len() ==> scrub::edit_is_sound(dev, #[trigger] p.edits[k])
                    && scrub::edits_a_slot(
                    Marker::Exfat,
                    records,
                    ScrubMode::Compact,
                    records.len(),
                    p.edits[k],
                )
            &&& forall|k: int, m: int|
                0 <= k < m < p.edits.len() ==> (#[trigger] p.edits[k]).offset + 32
                    <= (#[trigger] p.edits[m]).offset || p.edits[m].offset + 32
                    <= p.edits[k].offset
        }),
{
    let g = volume_geometry(dev, base);
    let records = directory_at(dev, g, spans).unwrap();
    let runs = runs_from(dev, g, spans[0].at)->Ok_0;
    let none = Seq::<SlotModel>::empty();
    lemma_plan_edits_are_sound(dev, base, label, spans, ScrubMode::Compact);
    geometry::lemma_geometry_bounds(dev.read(base, 512).data, base, dev.sector_size);
    lemma_directory_runs_are_disjoint(dev, g, spans[0].at);
    scrub::lemma_directory_records_full(dev, runs, none);
    scrub::lemma_directory_records_apart(dev, runs, none);
    scrub::lemma_survivors_are_live(Marker::Exfat, records);
    scrub::lemma_one_edit_a_changed_slot(
        Marker::Exfat,
        records,
        ScrubMode::Compact,
        records.len(),
    );
    let kept = scrub::survivors(Marker::Exfat, records);
    let after = scrub::scrubbed(Marker::Exfat, records, ScrubMode::Compact);
    assert forall|i: int| kept.len() <= i < after.len() implies (#[trigger] after[i]).data
        == Seq::new(32, |j: int| 0u8) by {
        assert(records[i].data.len() == 32);
        assert(after[i].data =~= Seq::new(32, |j: int| 0u8));
    }
}

/// Where the cluster heap begins.
pub open spec fn front_end(g: Geometry) -> int {
    match g.heap_at() {
        Some(heap) => heap as int,
        None => 0,
    }
}

/// The boot sector, and the entries that the active FAT holds for the heap's clusters,
/// end at or before the first byte of the heap.
pub open spec fn front_is_clear(g: Geometry) -> bool {
    &&& g.base + 512 <= front_end(g)
    &&& g.fat_at(g.active_fat as int) matches Some(at) ==> at + 4 * (g.cluster_count + 2)
        <= front_end(g)
}

/// On a volume whose active FAT exists, is long enough for its clusters and is not
/// overlapped by the heap, the boot sector and the FAT end before the heap begins.
pub proof fn lemma_front_is_clear(g: Geometry)
    requires
        g.bytes_per_sector >= 512,
        g.active_fat < g.number_of_fats,
        g.fat_length * g.bytes_per_sector >= 4 * (g.cluster_count + 2),
        g.cluster_heap_offset >= g.fat_offset + g.fat_length * g.number_of_fats,
        g.heap_at() is Some,
    ensures
        front_is_clear(g),
{
    let b = g.bytes_per_sector as int;
    let len = g.fat_length as int;
    let i = g.active_fat as int;
    let n = g.number_of_fats as int;
    let heap = g.cluster_heap_offset as int;
    assert(i * len + len <= len * n && i * len >= 0) by (nonlinear_arith)
        requires
            0 <= i < n,
            len >= 0,
    ;
    assert(len >= 1) by (nonlinear_arith)
        requires
            len * b >= 8,
            len >= 0,
            b >= 512,
    ;
    assert(heap * b >= 512) by (nonlinear_arith)
        requires
            heap >= 1,
            b >= 512,
    ;
    assert((i * len + g.fat_offset) * b + len * b <= heap * b) by (nonlinear_arith)
        requires
            i * len + g.fat_offset + len <= heap,
            b >= 0,
    ;
}

/// No run of a directory starts before the heap.
pub proof fn lemma_directory_runs_start_behind_the_front(dev: Device, g: Geometry, from: u64)
    ensures
        runs_from(dev, g, from) matches Ok(runs) ==> forall|k: int|
            0 <= k < runs.len() ==> front_end(g) <= (#[trigger] runs[k]).0,
{
    if let Ok(runs) = runs_from(dev, g, from) {
        let heap = g.heap_at().unwrap();
        let s = g.cluster_size as int;
        let cluster = (from - heap) / s + 2;
        let all = scanned(chain::chain_of(dev, g, cluster as u64, false, None).clusters);
        let p = places(g, all);
        assert forall|k: int| 0 <= k < p.len() implies (#[trigger] p[k] matches Some(at) ==> heap
            <= at) by {
            let c = all[k] as int;
            assert(c >= 2 ==> (c - 2) * s >= 0) by (nonlinear_arith)
                requires
                    s >= 0,
            ;
        }
        scrub::lemma_joined_runs_from(p, g.cluster_size, from, all.len(), heap as int);
    }
}

/// Sweeping or compacting a second time changes nothing: once the edits of the first
/// time are written, the directory gets no plan of that kind any more. The boot sector
/// and the FAT have to end where the heap begins, as [`lemma_front_is_clear`] says they
/// do, so that they are the same after the edits as before.
pub proof fn lemma_second_scrub_has_no_plan(
    dev: Device,
    after: Device,
    base: u64,
    label: Seq<char>,
    spans: Seq<Span>,
    mode: ScrubMode,
)
    requires
        mode == ScrubMode::Sweep || mode == ScrubMode::Compact,
        planned(dev, base, label, spans, mode) matches Some(p) && scrub::written(
            dev,
            after,
            p.edits,
        ),
        front_is_clear(volume_geometry(dev, base)),
    ensures
        planned(after, base, label, spans, mode) is None,
{
    let g = volume_geometry(dev, base);
    let from = spans[0].at;
    let records = directory_at(dev, g, spans).unwrap();
    let runs = runs_from(dev, g, from)->Ok_0;
    let none = Seq::<SlotModel>::empty();
    geometry::lemma_geometry_bounds(dev.read(base, 512).data, base, dev.sector_size);
    lemma_directory_runs_are_disjoint(dev, g, from);
    lemma_directory_runs_start_behind_the_front(dev, g, from);
    scrub::lemma_directory_records_apart(dev, runs, none);
    scrub::lemma_directory_records_from(dev, runs, none, front_end(g));
    scrub::lemma_front_is_untouched(Marker::Exfat, records, mode, base, 512);
    assert(after.read(base, 512) == dev.read(base, 512));
    assert(volume_geometry(after, base) == g);
    let heap = g.heap_at().unwrap();
    let cluster = (from - heap) / g.cluster_size as int + 2;
    if let Some(fat_at) = g.fat_at(g.active_fat as int) {
        assert(chain::same_fat(dev, after, g, fat_at)) by {
            assert forall|off: u64|
                fat_at <= off && off + 4 <= fat_at + 4 * (g.cluster_count
                    + 2) implies #[trigger] dev.read(off, 4) == after.read(off, 4) by {
                scrub::lemma_front_is_untouched(Marker::Exfat, records, mode, off, 4);
                assert(after.read(off, 4) == dev.read(off, 4));
            }
        }
        chain::lemma_walk_depends_on_the_fat(
            dev,
            after,
            g,
            fat_at,
            Seq::empty(),
            cluster as u64,
        );
    }
    assert(runs_from(after, g, from) == runs_from(dev, g, from));
    scrub::lemma_reading_back_a_scrub(dev, after, Marker::Exfat, runs, mode);
    scrub::lemma_scrub_is_final(Marker::Exfat, records, mode, records.len());
}

} // verus!
