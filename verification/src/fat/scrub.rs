//! Overwriting a recoverable FAT record.
//!
//! A delete changes one byte per record: the first byte of the 8.3 name, and the order
//! byte of each long-filename fragment, become 0xE5. The full long name, all three
//! timestamps, the attributes, the size and the first cluster survive. Scrubbing is what
//! actually removes them.

use crate::common;
use crate::common::{saturating_mul, u32_or_zero};
use crate::extent::Span;
use crate::fat::chain;
use crate::fat::chain::{follow_chain, ChainEnd};
use crate::fat::entry;
use crate::fat::geometry;
use crate::fat::geometry::Geom;
use crate::fat::volume;
use crate::fat::volume::FatReader;
use crate::scrub;
use crate::scrub::{
    Fill, Marker, RecordClass, ScrubMode, ScrubPlan, Selection, Slot, SlotModel, Warning, WhyNot,
};
use crate::source::{BlockSource, Device};
use crate::text;
use crate::text::Text;
use vstd::prelude::*;
use vstd::slice::slice_subrange;

verus! {

// --------------------------------------------------------------- directory runs

/// The offsets of a list of clusters.
pub open spec fn places(g: Geom, clusters: Seq<u64>) -> Seq<Option<u64>> {
    Seq::new(clusters.len(), |i: int| g.cluster_at(clusters[i] as int))
}

/// Where the fixed root directory ends.
pub open spec fn fixed_root_end(g: Geom) -> u64 {
    common::saturated(g.root_dir_start + common::saturated(g.root_entries * 32))
}

/// The cluster that holds `from`.
pub open spec fn cluster_holding(g: Geom, from: u64) -> int {
    (from - g.data_start) / g.bytes_per_cluster as int + 2
}

/// The runs of the directory that holds `from`, starting there. Only the remainder is
/// needed, so the directory's own start never has to be found.
pub open spec fn runs_from(dev: Device, g: Geom, from: u64) -> Result<Seq<(u64, u64)>, WhyNot> {
    let end = fixed_root_end(g);
    let cluster = cluster_holding(g, from);
    if g.root_entries > 0 && g.root_dir_start <= from < end {
        Ok(seq![(from, (end - from) as u64)])
    } else if from < g.data_start {
        Err(WhyNot::OutsideData)
    } else if !g.in_range(cluster) {
        Err(WhyNot::ClusterOutsideVolume { cluster: cluster as u64 })
    } else {
        let all = chain::chain_of(dev, g, cluster as u64, scrub::MAX_SCAN_CLUSTERS as nat).0;
        if all.len() == 0 {
            Err(WhyNot::EmptyChain { cluster: cluster as u64 })
        } else {
            Ok(scrub::joined_runs(places(g, all), g.bytes_per_cluster, from, all.len()))
        }
    }
}

/// Where a record that ends at `after` starts.
pub open spec fn record_before(after: u64) -> u64 {
    if after < scrub::RECORD_SIZE {
        0
    } else {
        (after - scrub::RECORD_SIZE) as u64
    }
}

/// The records in use after `after`, in the directory that holds the record ending
/// there. The directory is found from that record: when it is the last of its cluster,
/// what lies right behind it may be some other file's.
pub open spec fn use_after(dev: Device, g: Geom, after: u64) -> Result<
    Option<(u64, u64)>,
    WhyNot,
> {
    if !g.sane {
        Err(WhyNot::GeometryUnusable)
    } else {
        match runs_from(dev, g, record_before(after)) {
            Err(why) => Err(why),
            Ok(runs) => match scrub::directory_use(
                dev,
                Marker::Fat,
                scrub::runs_past_record(runs, record_before(after)),
                scrub::no_use(),
            ) {
                Ok(st) => Ok(scrub::packed(st)),
                Err(at) => Err(WhyNot::Unreadable { at }),
            },
        }
    }
}

fn dir_runs_from<S: BlockSource>(src: &S, g: &Geom, from: u64) -> (r: Result<
    Vec<(u64, u64)>,
    WhyNot,
>)
    requires
        g.bytes_per_cluster >= 512,
    ensures
        match runs_from(src.device(), *g, from) {
            Ok(runs) => r matches Ok(v) && v@ == runs,
            Err(why) => r matches Err(w) && w == why,
        },
{
    let end: u64 = g.root_dir_start.saturating_add(saturating_mul(g.root_entries, 32));
    if g.root_entries > 0 && from >= g.root_dir_start && from < end {
        let left: u64 = end - from;
        let one: Vec<(u64, u64)> = vec![(from, left)];
        assert(one@ =~= seq![(from, left)]);
        return Ok(one);
    }
    if from < g.data_start {
        return Err(WhyNot::OutsideData);
    }
    let index: u64 = (from - g.data_start) / g.bytes_per_cluster;
    proof {
        vstd::arithmetic::div_mod::lemma_div_is_ordered_by_denominator(
            from - g.data_start,
            512,
            g.bytes_per_cluster as int,
        );
    }
    let cluster: u64 = index + 2;
    if !g.cluster_in_range(cluster) {
        return Err(WhyNot::ClusterOutsideVolume { cluster });
    }
    let (clusters, _end): (Vec<u64>, ChainEnd) = follow_chain(
        src,
        g,
        cluster,
        scrub::MAX_SCAN_CLUSTERS,
    );
    if clusters.len() == 0 {
        return Err(WhyNot::EmptyChain { cluster });
    }
    let mut at: Vec<Option<u64>> = Vec::new();
    let mut i: usize = 0;
    while i < clusters.len()
        invariant
            i <= clusters@.len(),
            at@ =~= places(*g, clusters@).take(i as int),
        decreases clusters@.len() - i,
    {
        at.push(g.cluster_to_byte(clusters[i]));
        i += 1;
    }
    assert(at@ =~= places(*g, clusters@));
    Ok(scrub::join_runs(&at, g.bytes_per_cluster, from))
}

fn in_use_after<S: BlockSource>(src: &S, g: &Geom, after: u64) -> (r: Result<
    Option<(u64, u64)>,
    WhyNot,
>)
    requires
        g.sane ==> g.bytes_per_cluster >= 512,
    ensures
        r == use_after(src.device(), *g, after),
{
    if !g.sane {
        return Err(WhyNot::GeometryUnusable);
    }
    let from: u64 = after.saturating_sub(scrub::RECORD_SIZE);
    match dir_runs_from(src, g, from) {
        Err(why) => Err(why),
        Ok(runs) => match scrub::in_use(src, Marker::Fat, &scrub::skip_record(runs, from)) {
            Ok(found) => Ok(found),
            Err(at) => Err(WhyNot::Unreadable { at }),
        },
    }
}

// --------------------------------------------------------------------- the names

/// What a record is called in a plan: its 8.3 name as it stands.
pub open spec fn record_label(b: Seq<u8>) -> Seq<char> {
    let name = text::ascii(text::trimmed(b.take(11)));
    if name.len() == 0 {
        "(unnamed)"@
    } else {
        name
    }
}

fn record_name(b: &[u8]) -> (r: String)
    requires
        b@.len() == 32,
    ensures
        r@ == record_label(b@),
{
    let raw: &[u8] = slice_subrange(b, 0, 11);
    assert(raw@ =~= b@.take(11));
    let s: String = text::ascii_trimmed(raw);
    if text::char_count(&s) == 0 {
        Text::of("(unnamed)").done()
    } else {
        s
    }
}

/// The names of the deleted records.
pub open spec fn deleted_names(records: Seq<SlotModel>) -> Seq<Seq<char>>
    decreases records.len(),
{
    if records.len() == 0 {
        Seq::empty()
    } else {
        let before = deleted_names(records.drop_last());
        if Marker::Fat.class_of(records.last().data) == RecordClass::Deleted {
            before.push(record_label(records.last().data))
        } else {
            before
        }
    }
}

fn list_deleted(records: &[Slot]) -> (r: Vec<String>)
    requires
        scrub::full_records(scrub::slots(records@)),
    ensures
        scrub::lines(r@) == deleted_names(scrub::slots(records@)),
{
    let mut out: Vec<String> = scrub::no_lines();
    let mut i: usize = 0;
    while i < records.len()
        invariant
            i <= records@.len(),
            scrub::full_records(scrub::slots(records@)),
            scrub::lines(out@) == deleted_names(scrub::slots(records@).take(i as int)),
        decreases records@.len() - i,
    {
        let ghost all = scrub::slots(records@);
        assert(all.take(i + 1).drop_last() =~= all.take(i as int));
        assert(all[i as int].data.len() == 32);
        if Marker::Fat.classify(&records[i].data) == RecordClass::Deleted {
            scrub::push_line(&mut out, record_name(&records[i].data));
        }
        i += 1;
    }
    assert(scrub::slots(records@).take(i as int) =~= scrub::slots(records@));
    out
}

// ------------------------------------------------------------- the directory plan

/// A long-filename fragment, by its attributes.
pub open spec fn is_fragment(b: Seq<u8>) -> bool {
    b[0x0B] % 64 == 15
}

/// A record that a directory can hold: it is free, or its reserved attribute bits are
/// clear and, fragments aside, its name holds no control characters.
pub open spec fn plausible(b: Seq<u8>) -> bool {
    &&& b.len() >= 32
    &&& b[0] == 0 || {
        &&& b[0x0B] < 64
        &&& is_fragment(b) || forall|j: int| 1 <= j < 11 ==> #[trigger] b[j] >= 0x20
    }
}

/// Every record is plausible, and one is in use or deleted. Deliberately strict: a false
/// negative costs a refusal, a false positive rewrites a file as a directory.
pub open spec fn directory_like(records: Seq<SlotModel>) -> bool {
    &&& forall|i: int| 0 <= i < records.len() ==> plausible((#[trigger] records[i]).data)
    &&& exists|i: int| 0 <= i < records.len() && (#[trigger] records[i]).data[0] != 0
}

fn is_plausible(b: &[u8]) -> (r: bool)
    ensures
        r == plausible(b@),
{
    if b.len() < 32 {
        return false;
    }
    if b[0] == 0 {
        return true;
    }
    if b[0x0B] >= 64 {
        return false;
    }
    if b[0x0B] % 64 == 15 {
        return true;
    }
    let mut j: usize = 1;
    while j < 11
        invariant
            1 <= j <= 11,
            b@.len() >= 32,
            b@[0] != 0,
            !is_fragment(b@),
            forall|k: int| 1 <= k < j ==> #[trigger] b@[k] >= 0x20,
        decreases 11 - j,
    {
        if b[j] < 0x20 {
            return false;
        }
        j += 1;
    }
    true
}

/// True when the bytes read as a directory rather than as file data.
pub fn looks_like_directory(records: &[Slot]) -> (r: bool)
    ensures
        r == directory_like(scrub::slots(records@)),
{
    let mut used: bool = false;
    let mut i: usize = 0;
    let ghost all = scrub::slots(records@);
    while i < records.len()
        invariant
            i <= records@.len(),
            all == scrub::slots(records@),
            forall|j: int| 0 <= j < i ==> plausible((#[trigger] all[j]).data),
            used == exists|j: int| 0 <= j < i && (#[trigger] all[j]).data[0] != 0,
        decreases records@.len() - i,
    {
        let b: &Vec<u8> = &records[i].data;
        assert(all[i as int].data == b@);
        if !is_plausible(b) {
            return false;
        }
        if b[0] != 0 {
            used = true;
            assert(all[i as int].data[0] != 0);
        }
        i += 1;
    }
    used
}

/// The selection has the shape of a directory: the fixed root, or one cluster.
pub open spec fn directory_shaped(g: Geom, spans: Seq<Span>) -> bool {
    &&& spans.len() == 1
    &&& (g.root_entries > 0 && spans[0].at == g.root_dir_start) || {
        &&& spans[0].at >= g.data_start
        &&& spans[0].len == g.bytes_per_cluster
        &&& (spans[0].at - g.data_start) % g.bytes_per_cluster as int == 0
    }
}

/// The records of the directory at the selection, where a plan for it can be made.
pub open spec fn directory_at(dev: Device, g: Geom, spans: Seq<Span>) -> Option<Seq<SlotModel>> {
    if g.sane && directory_shaped(g, spans) {
        match runs_from(dev, g, spans[0].at) {
            Ok(runs) => match scrub::directory_records(dev, runs, Seq::empty()) {
                Some(records) => if records.len() > 0 && directory_like(records) {
                    Some(records)
                } else {
                    None
                },
                None => None,
            },
            Err(_) => None,
        }
    } else {
        None
    }
}

/// What a whole-directory scrub removes.
pub open spec fn directory_removes(deleted: nat, residue: nat) -> Seq<Seq<char>> {
    let first = seq![
        text::dec(deleted as int)
            + " deleted record(s) in this directory, with their names, timestamps, sizes and cluster pointers"@,
    ];
    if residue > 0 {
        first.push(
            text::dec(residue as int)
                + " record(s) marked never-used whose bytes are not zero — entries that were overwritten rather than erased"@,
        )
    } else {
        first
    }
}

/// What a whole-directory scrub keeps.
pub open spec fn directory_keeps(mode: ScrubMode, live: nat, deleted: nat) -> Seq<Seq<char>> {
    seq![
        "all "@ + text::dec(live as int) + " record(s) still in use"@,
        match mode {
            ScrubMode::Compact => "nothing else: no tombstone remains, and every byte the survivors vacate is zeroed"@,
            _ => text::dec(deleted as int)
                + " tombstone(s) where deleted records sit between live ones: that something was deleted stays visible, what it was does not"@,
        },
        "the files' data clusters, which this command does not reach"@,
    ]
}

/// What to read before a whole-directory scrub.
pub open spec fn directory_warnings(mode: ScrubMode, relocated: nat) -> Seq<scrub::WarningModel> {
    let last = scrub::warned(
        "this does not touch any file's data. Names and metadata go; contents stay where they are."@,
        "overwriting contents is sanitize's job"@,
    );
    if mode == ScrubMode::Compact && relocated > 0 {
        seq![
            scrub::warned(
                text::dec(relocated as int)
                    + " live record(s) move to close the gap, so the whole directory is rewritten rather than one sector"@,
                "safe because neither FAT nor exFAT has positional back-references — nothing points at a record's slot"@,
            ),
            last,
        ]
    } else {
        seq![last]
    }
}

/// How many live records a scrub moves: none, unless it compacts.
pub open spec fn relocated_by(records: Seq<SlotModel>, mode: ScrubMode) -> nat {
    if mode == ScrubMode::Compact {
        scrub::moved(Marker::Fat, records, mode, records.len())
    } else {
        0
    }
}

/// The plan for a whole directory, where it changes anything.
pub open spec fn directory_plan(
    dev: Device,
    g: Geom,
    label: Seq<char>,
    spans: Seq<Span>,
    mode: ScrubMode,
) -> Option<scrub::PlanModel> {
    match directory_at(dev, g, spans) {
        None => None,
        Some(records) => {
            let edits = scrub::layout_edits(Marker::Fat, records, mode, records.len());
            let deleted = scrub::class_count(Marker::Fat, records, RecordClass::Deleted);
            let live = scrub::class_count(Marker::Fat, records, RecordClass::Live);
            if edits.len() == 0 {
                None
            } else {
                Some(
                    scrub::PlanModel {
                        label,
                        mode,
                        affected: deleted_names(records),
                        relocated: relocated_by(records, mode) as u64,
                        edits,
                        removes: directory_removes(
                            deleted,
                            scrub::residue_count(Marker::Fat, records),
                        ),
                        keeps: directory_keeps(mode, live, deleted),
                        zero_refusal: None,
                        warnings: directory_warnings(mode, relocated_by(records, mode)),
                    },
                )
            }
        },
    }
}

fn list_removes(deleted: u64, residue: u64) -> (r: Vec<String>)
    ensures
        scrub::lines(r@) == directory_removes(deleted as nat, residue as nat),
{
    let mut out: Vec<String> = scrub::no_lines();
    proof {
        reveal_strlit("");
    }
    let first = Text::of("").dec(deleted).lit(
        " deleted record(s) in this directory, with their names, timestamps, sizes and cluster pointers",
    );
    assert(first@ =~= text::dec(deleted as int)
        + " deleted record(s) in this directory, with their names, timestamps, sizes and cluster pointers"@);
    scrub::push_line(&mut out, first.done());
    if residue > 0 {
        let second = Text::of("").dec(residue).lit(
            " record(s) marked never-used whose bytes are not zero — entries that were overwritten rather than erased",
        );
        assert(second@ =~= text::dec(residue as int)
            + " record(s) marked never-used whose bytes are not zero — entries that were overwritten rather than erased"@);
        scrub::push_line(&mut out, second.done());
    }
    assert(scrub::lines(out@) =~= directory_removes(deleted as nat, residue as nat));
    out
}

fn list_keeps(mode: ScrubMode, live: u64, deleted: u64) -> (r: Vec<String>)
    ensures
        scrub::lines(r@) == directory_keeps(mode, live as nat, deleted as nat),
{
    let mut out: Vec<String> = scrub::no_lines();
    proof {
        reveal_strlit("");
    }
    scrub::push_line(
        &mut out,
        Text::of("all ").dec(live).lit(" record(s) still in use").done(),
    );
    match mode {
        ScrubMode::Compact => scrub::push_text(
            &mut out,
            "nothing else: no tombstone remains, and every byte the survivors vacate is zeroed",
        ),
        _ => {
            let t = Text::of("").dec(deleted).lit(
                " tombstone(s) where deleted records sit between live ones: that something was deleted stays visible, what it was does not",
            );
            assert(t@ =~= text::dec(deleted as int)
                + " tombstone(s) where deleted records sit between live ones: that something was deleted stays visible, what it was does not"@);
            scrub::push_line(&mut out, t.done())
        },
    }
    scrub::push_text(&mut out, "the files' data clusters, which this command does not reach");
    assert(scrub::lines(out@) =~= directory_keeps(mode, live as nat, deleted as nat));
    out
}

fn list_warnings(mode: ScrubMode, relocated: u64) -> (r: Vec<Warning>)
    ensures
        scrub::warnings(r@) == directory_warnings(mode, relocated as nat),
{
    let mut out: Vec<Warning> = scrub::no_warnings();
    proof {
        reveal_strlit("");
    }
    if mode == ScrubMode::Compact && relocated > 0 {
        let t = Text::of("").dec(relocated).lit(
            " live record(s) move to close the gap, so the whole directory is rewritten rather than one sector",
        );
        assert(t@ =~= text::dec(relocated as int)
            + " live record(s) move to close the gap, so the whole directory is rewritten rather than one sector"@);
        scrub::push_warning(
            &mut out,
            scrub::warn(
                t.done(),
                "safe because neither FAT nor exFAT has positional back-references — nothing points at a record's slot",
            ),
        );
    }
    scrub::push_warning(
        &mut out,
        scrub::warn(
            Text::of(
                "this does not touch any file's data. Names and metadata go; contents stay where they are.",
            ).done(),
            "overwriting contents is sanitize's job",
        ),
    );
    assert(scrub::warnings(out@) =~= directory_warnings(mode, relocated as nat));
    out
}

// ---------------------------------------------------------------- the record plan

/// The first record that is not a long-filename fragment: the one that carries the 8.3
/// name.
pub open spec fn short_entry(records: Seq<SlotModel>) -> Option<Seq<u8>>
    decreases records.len(),
{
    if records.len() == 0 {
        None
    } else {
        match short_entry(records.drop_last()) {
            Some(b) => Some(b),
            None => if is_fragment(records.last().data) {
                None
            } else {
                Some(records.last().data)
            },
        }
    }
}

/// What overwriting the 8.3 entry removes.
pub open spec fn short_removes(b: Seq<u8>) -> Seq<Seq<char>> {
    let three = seq![
        "the attribute byte"@,
        "the creation, last-access and last-write timestamps"@,
        "the recorded size, "@ + text::dec(common::le32(b, 0x1C) as int) + " bytes"@,
    ];
    if entry::cluster_of(b) >= 2 {
        three.push("the first cluster, "@ + text::dec(entry::cluster_of(b) as int))
    } else {
        three
    }
}

/// What overwriting a list of records removes.
pub open spec fn record_removes(records: Seq<SlotModel>) -> Seq<Seq<char>> {
    let short = short_entry(records);
    let fragments = records.len() - if short is Some {
        1int
    } else {
        0
    };
    (if fragments > 0 {
        seq![
            "the long filename, held in "@ + text::dec(fragments)
                + " fragment(s) that survived the delete intact"@,
        ]
    } else {
        Seq::empty()
    }) + seq!["the 8.3 name, less its already-destroyed first character"@] + (match short {
        Some(b) => short_removes(b),
        None => Seq::empty(),
    })
}

/// What overwriting a list of records keeps.
pub open spec fn record_keeps(fill: Fill) -> Seq<Seq<char>> {
    seq![
        match fill {
            Fill::Neutral => "the 0xE5 marker on each record: that a file was deleted here stays visible, which file it was does not"@,
            Fill::Zero => "nothing in these records; they will read as space that was never used"@,
        },
        "the file's data clusters, which this command does not reach"@,
    ]
}

/// What to read before overwriting a list of records: where the file's data stays.
pub open spec fn record_warnings(g: Geom, records: Seq<SlotModel>) -> Seq<scrub::WarningModel> {
    match short_entry(records) {
        Some(b) if entry::cluster_of(b) >= 2 => {
            let first = entry::cluster_of(b) as int;
            seq![
                match g.cluster_at(first) {
                    Some(at) => scrub::warned(
                        "this does not touch the file's data. Cluster "@ + text::dec(first)
                            + " at "@ + text::hex(at as int, 10)
                            + " and whatever followed it are unchanged."@,
                        "overwriting contents is sanitize's job; the chain was released by the delete, so only this first cluster is even knowable from the metadata"@,
                    ),
                    None => scrub::remarked(
                        "first cluster "@ + text::dec(first)
                            + " is outside this volume; nothing to point at"@,
                    ),
                },
            ]
        },
        _ => Seq::empty(),
    }
}

/// What a list of records is called. Fragments hold UTF-16, which reads as nonsense if
/// taken for a name.
pub open spec fn records_label(records: Seq<SlotModel>) -> Seq<char> {
    match short_entry(records) {
        Some(b) => record_label(b),
        None => "(long-filename fragments only)"@,
    }
}

/// The plan for the selected records.
pub open spec fn record_plan(
    dev: Device,
    g: Geom,
    label: Seq<char>,
    spans: Seq<Span>,
    fill: Fill,
) -> Option<scrub::PlanModel> {
    let records = scrub::in_order(scrub::selected(dev, spans));
    let edits = scrub::fill_edits(records, fill, "scrub deleted FAT record"@);
    if spans.len() > 0 && scrub::whole_records(spans) && scrub::all_deleted(
        dev,
        Marker::Fat,
        spans,
    ) && edits.len() > 0 {
        Some(
            scrub::PlanModel {
                label,
                mode: ScrubMode::Record(fill),
                affected: seq![records_label(records)],
                relocated: 0,
                edits,
                removes: record_removes(records),
                keeps: record_keeps(fill),
                zero_refusal: scrub::refusal(
                    use_after(dev, g, common::saturated(records.last().at + 32)),
                ),
                warnings: record_warnings(g, records),
            },
        )
    } else {
        None
    }
}

fn find_short<'a>(records: &'a [Slot]) -> (r: Option<&'a Vec<u8>>)
    requires
        scrub::full_records(scrub::slots(records@)),
    ensures
        match short_entry(scrub::slots(records@)) {
            Some(b) => r matches Some(v) && v@ == b && b.len() == 32,
            None => r is None,
        },
{
    let ghost all = scrub::slots(records@);
    let mut i: usize = 0;
    while i < records.len()
        invariant
            i <= records@.len(),
            all == scrub::slots(records@),
            scrub::full_records(all),
            short_entry(all.take(i as int)) is None,
        decreases records@.len() - i,
    {
        assert(all.take(i + 1).drop_last() =~= all.take(i as int));
        assert(all[i as int].data.len() == 32);
        if records[i].data[0x0B] % 64 != 15 {
            proof {
                lemma_first_stays(all, (i + 1) as nat, all.len());
                assert(all.take(all.len() as int) =~= all);
            }
            return Some(&records[i].data);
        }
        i += 1;
    }
    assert(all.take(i as int) =~= all);
    None
}

proof fn lemma_first_stays(records: Seq<SlotModel>, i: nat, n: nat)
    requires
        i <= n <= records.len(),
        short_entry(records.take(i as int)) is Some,
    ensures
        short_entry(records.take(n as int)) == short_entry(records.take(i as int)),
    decreases n,
{
    if i < n {
        lemma_first_stays(records, i, (n - 1) as nat);
        assert(records.take(n as int).drop_last() =~= records.take(n - 1));
    }
}

fn describe_removes(records: &[Slot]) -> (r: Vec<String>)
    requires
        scrub::full_records(scrub::slots(records@)),
    ensures
        scrub::lines(r@) == record_removes(scrub::slots(records@)),
{
    let ghost all = scrub::slots(records@);
    let mut out: Vec<String> = scrub::no_lines();
    let short = find_short(records);
    proof {
        if all.len() == 0 {
            assert(short_entry(all) is None);
        }
    }
    let fragments: usize = if short.is_some() { records.len() - 1 } else { records.len() };
    if fragments > 0 {
        scrub::push_line(
            &mut out,
            Text::of("the long filename, held in ").dec(fragments as u64).lit(
                " fragment(s) that survived the delete intact",
            ).done(),
        );
    }
    scrub::push_text(&mut out, "the 8.3 name, less its already-destroyed first character");
    let ghost before = scrub::lines(out@);
    match short {
        Some(b) => {
            scrub::push_text(&mut out, "the attribute byte");
            scrub::push_text(&mut out, "the creation, last-access and last-write timestamps");
            scrub::push_line(
                &mut out,
                Text::of("the recorded size, ").dec(u32_or_zero(b, 0x1C) as u64).lit(
                    " bytes",
                ).done(),
            );
            let first: u64 = entry::read_cluster(b);
            if first >= 2 {
                scrub::push_line(&mut out, Text::of("the first cluster, ").dec(first).done());
            }
            assert(scrub::lines(out@) =~= before + short_removes(b@));
        },
        None => {
            assert(scrub::lines(out@) =~= before + Seq::empty());
        },
    }
    assert(scrub::lines(out@) =~= record_removes(all));
    out
}

fn describe_keeps(fill: Fill) -> (r: Vec<String>)
    ensures
        scrub::lines(r@) == record_keeps(fill),
{
    let mut out: Vec<String> = scrub::no_lines();
    match fill {
        Fill::Neutral => scrub::push_text(
            &mut out,
            "the 0xE5 marker on each record: that a file was deleted here stays visible, which file it was does not",
        ),
        Fill::Zero => scrub::push_text(
            &mut out,
            "nothing in these records; they will read as space that was never used",
        ),
    }
    scrub::push_text(&mut out, "the file's data clusters, which this command does not reach");
    assert(scrub::lines(out@) =~= record_keeps(fill));
    out
}

fn describe_warnings(g: &Geom, records: &[Slot]) -> (r: Vec<Warning>)
    requires
        scrub::full_records(scrub::slots(records@)),
    ensures
        scrub::warnings(r@) == record_warnings(*g, scrub::slots(records@)),
{
    let ghost all = scrub::slots(records@);
    let mut out: Vec<Warning> = scrub::no_warnings();
    if let Some(b) = find_short(records) {
        let first: u64 = entry::read_cluster(b);
        if first >= 2 {
            let w = match g.cluster_to_byte(first) {
                Some(at) => scrub::warn(
                    Text::of("this does not touch the file's data. Cluster ").dec(first).lit(
                        " at ",
                    ).hex(at, 10).lit(" and whatever followed it are unchanged.").done(),
                    "overwriting contents is sanitize's job; the chain was released by the delete, so only this first cluster is even knowable from the metadata",
                ),
                None => scrub::remark(
                    Text::of("first cluster ").dec(first).lit(
                        " is outside this volume; nothing to point at",
                    ).done(),
                ),
            };
            scrub::push_warning(&mut out, w);
        }
    }
    assert(scrub::warnings(out@) =~= record_warnings(*g, all));
    out
}

fn name_records(records: &[Slot]) -> (r: String)
    requires
        scrub::full_records(scrub::slots(records@)),
    ensures
        r@ == records_label(scrub::slots(records@)),
{
    match find_short(records) {
        Some(b) => record_name(b),
        None => Text::of("(long-filename fragments only)").done(),
    }
}

// ---------------------------------------------------------------------- planning

/// The geometry of the volume at `base`.
pub open spec fn volume_geometry(dev: Device, base: u64) -> Geom {
    volume::geometry_of(dev, dev.read(base, 512).data, base)
}

/// The plan that a selection gets.
pub open spec fn planned(
    dev: Device,
    base: u64,
    label: Seq<char>,
    spans: Seq<Span>,
    mode: ScrubMode,
) -> Option<scrub::PlanModel> {
    let g = volume_geometry(dev, base);
    match mode {
        ScrubMode::Record(fill) => record_plan(dev, g, label, spans, fill),
        _ => directory_plan(dev, g, label, spans, mode),
    }
}

fn is_directory_shaped(g: &Geom, spans: &[Span]) -> (r: bool)
    requires
        g.sane ==> g.bytes_per_cluster >= 512,
    ensures
        r == (g.sane && directory_shaped(*g, spans@)),
{
    if !g.sane || spans.len() != 1 {
        return false;
    }
    let span = spans[0];
    if g.root_entries > 0 && span.at == g.root_dir_start {
        return true;
    }
    span.at >= g.data_start && span.len == g.bytes_per_cluster && (span.at - g.data_start)
        % g.bytes_per_cluster == 0
}

impl<'a, S: BlockSource> FatReader<'a, S> {
    fn plan_directory(&self, node: &Selection, mode: ScrubMode) -> (r: Option<ScrubPlan>)
        ensures
            match directory_plan(
                self.source().device(),
                volume_geometry(self.source().device(), self.start()),
                node.label@,
                node.spans@,
                mode,
            ) {
                Some(p) => r matches Some(v) && v@ == p,
                None => r is None,
            },
    {
        let src = self.device_source();
        let g = self.geometry();
        if !is_directory_shaped(&g, &node.spans) {
            return None;
        }
        let runs: Vec<(u64, u64)> = match dir_runs_from(src, &g, node.spans[0].at) {
            Ok(runs) => runs,
            Err(_) => {
                return None;
            },
        };
        let records: Vec<Slot> = match scrub::read_records(src, &runs) {
            Some(v) => v,
            None => {
                return None;
            },
        };
        proof {
            scrub::lemma_directory_records_full(src.device(), runs@, Seq::empty());
        }
        // A cluster-sized, cluster-aligned span is also the shape of a file's first
        // cluster, so the bytes have to agree that they are a directory.
        if records.len() == 0 || !looks_like_directory(&records) {
            return None;
        }
        let (edits, changed): (Vec<scrub::ByteEdit>, u64) = scrub::layout_directory(
            Marker::Fat,
            &records,
            mode,
        );
        assert(scrub::edits(edits@).len() == edits@.len());
        if edits.len() == 0 {
            return None;
        }
        let (deleted, live, residue): (u64, u64, u64) = scrub::figures(Marker::Fat, &records);
        let relocated: u64 = if mode == ScrubMode::Compact { changed } else { 0 };
        Some(
            ScrubPlan {
                label: node.label.clone(),
                mode,
                affected: list_deleted(&records),
                relocated,
                edits,
                removes: list_removes(deleted, residue),
                keeps: list_keeps(mode, live, deleted),
                zero_refusal: None,
                warnings: list_warnings(mode, relocated),
            },
        )
    }

    fn plan_record(&self, node: &Selection, fill: Fill) -> (r: Option<ScrubPlan>)
        ensures
            match record_plan(
                self.source().device(),
                volume_geometry(self.source().device(), self.start()),
                node.label@,
                node.spans@,
                fill,
            ) {
                Some(p) => r matches Some(v) && v@ == p,
                None => r is None,
            },
    {
        let src = self.device_source();
        let g = self.geometry();
        let records: Vec<Slot> = match scrub::read_selected(src, Marker::Fat, &node.spans) {
            Some(v) => v,
            None => {
                return None;
            },
        };
        proof {
            scrub::lemma_selected_full(src.device(), Marker::Fat, node.spans@);
        }
        let edits: Vec<scrub::ByteEdit> = scrub::scrub_edits(
            &records,
            fill,
            "scrub deleted FAT record",
        );
        assert(scrub::edits(edits@).len() == edits@.len());
        if edits.len() == 0 {
            return None;
        }
        let end: u64 = records[records.len() - 1].at.saturating_add(32);
        let zero_refusal = scrub::refusal_of(in_use_after(src, &g, end));
        let mut affected: Vec<String> = scrub::no_lines();
        scrub::push_line(&mut affected, name_records(&records));
        assert(scrub::lines(affected@) =~= seq![records_label(scrub::slots(records@))]);
        Some(
            ScrubPlan {
                label: node.label.clone(),
                mode: ScrubMode::Record(fill),
                affected,
                relocated: 0,
                edits,
                removes: describe_removes(&records),
                keeps: describe_keeps(fill),
                zero_refusal,
                warnings: describe_warnings(&g, &records),
            },
        )
    }

    /// Plan a scrub. `None` when the selection is not one this can scrub, or when
    /// there is nothing to change.
    pub fn scrub_plan(&self, node: &Selection, mode: ScrubMode) -> (r: Option<ScrubPlan>)
        ensures
            match planned(
                self.source().device(),
                self.start(),
                node.label@,
                node.spans@,
                mode,
            ) {
                Some(p) => r matches Some(v) && v@ == p,
                None => r is None,
            },
    {
        match mode {
            ScrubMode::Record(fill) => self.plan_record(node, fill),
            _ => self.plan_directory(node, mode),
        }
    }
}

/// A plan changes something, and each of its edits finds on the device what it says it
/// finds. A sweep finds no live record, and the edits of selected records leave nothing
/// of them but, at most, the marker byte.
pub proof fn lemma_plan_edits_are_sound(
    dev: Device,
    base: u64,
    label: Seq<char>,
    spans: Seq<Span>,
    mode: ScrubMode,
)
    ensures
        planned(dev, base, label, spans, mode) matches Some(p) ==> {
            &&& p.edits.len() > 0
            &&& forall|i: int|
                0 <= i < p.edits.len() ==> {
                    let e = #[trigger] p.edits[i];
                    &&& scrub::edit_is_sound(dev, e)
                    &&& mode == ScrubMode::Sweep ==> Marker::Fat.class_of(e.old)
                        != RecordClass::Live
                    &&& mode matches ScrubMode::Record(fill) ==> e.new == scrub::filled(
                        e.old,
                        fill,
                    )
                }
        },
{
    let g = volume_geometry(dev, base);
    match mode {
        ScrubMode::Record(fill) => if scrub::all_deleted(dev, Marker::Fat, spans) {
            let records = scrub::in_order(scrub::selected(dev, spans));
            scrub::lemma_selected_full(dev, Marker::Fat, spans);
            scrub::lemma_selected_on_disk(dev, spans);
            scrub::lemma_fill_edits_are_sound(
                dev,
                records,
                fill,
                "scrub deleted FAT record"@,
            );
        },
        _ => if let Some(records) = directory_at(dev, g, spans) {
            let runs = runs_from(dev, g, spans[0].at)->Ok_0;
            scrub::lemma_directory_records_full(dev, runs, Seq::empty());
            scrub::lemma_directory_on_disk(dev, runs, Seq::empty());
            scrub::lemma_layout_edits_are_sound(
                dev,
                Marker::Fat,
                records,
                mode,
                records.len(),
            );
        },
    }
}

proof fn lemma_places_are_disjoint(g: Geom, clusters: Seq<u64>)
    requires
        forall|i: int, j: int| 0 <= i < j < clusters.len() ==> clusters[i] != clusters[j],
    ensures
        scrub::places_disjoint(places(g, clusters), g.bytes_per_cluster),
{
    let p = places(g, clusters);
    let s = g.bytes_per_cluster as int;
    assert forall|i: int, j: int, x: int|
        0 <= i < j < p.len() && #[trigger] scrub::place_holds(
            p,
            g.bytes_per_cluster,
            i,
            x,
        ) implies !#[trigger] scrub::place_holds(p, g.bytes_per_cluster, j, x) by {
        let a = clusters[i] as int;
        let b = clusters[j] as int;
        assert(a < b ==> (a - 2) * s + s <= (b - 2) * s) by (nonlinear_arith)
            requires
                s >= 0,
        ;
        assert(b < a ==> (b - 2) * s + s <= (a - 2) * s) by (nonlinear_arith)
            requires
                s >= 0,
        ;
    }
}

/// The runs of a directory share no byte.
pub proof fn lemma_directory_runs_are_disjoint(dev: Device, g: Geom, from: u64)
    requires
        g.bytes_per_cluster > 0,
    ensures
        runs_from(dev, g, from) matches Ok(runs) ==> scrub::runs_disjoint(runs),
{
    let cluster = cluster_holding(g, from);
    if let Ok(runs) = runs_from(dev, g, from) {
        if !(g.root_entries > 0 && g.root_dir_start <= from < fixed_root_end(g)) {
            let limit = scrub::MAX_SCAN_CLUSTERS as nat;
            let all = chain::chain_of(dev, g, cluster as u64, limit).0;
            chain::lemma_chain_is_sound(dev, g, cluster as u64, limit);
            lemma_places_are_disjoint(g, all);
            let d = from - g.data_start;
            let s = g.bytes_per_cluster as int;
            assert((d / s) * s <= d) by (nonlinear_arith)
                requires
                    d >= 0,
                    s > 0,
            ;
            assert(all[0] == cluster);
            scrub::lemma_joined_runs_are_disjoint(
                places(g, all),
                g.bytes_per_cluster,
                from,
                all.len(),
            );
        }
    }
}

/// A compaction puts the records in use first, unchanged and in their order, and makes
/// every slot behind them zero. Its edits find what they say they find, change it, and
/// do not overlap.
pub proof fn lemma_compaction_closes_the_gaps(
    dev: Device,
    base: u64,
    label: Seq<char>,
    spans: Seq<Span>,
)
    requires
        planned(dev, base, label, spans, ScrubMode::Compact) is Some,
    ensures
        ({
            let p = planned(dev, base, label, spans, ScrubMode::Compact).unwrap();
            let records = directory_at(dev, volume_geometry(dev, base), spans).unwrap();
            let kept = scrub::survivors(Marker::Fat, records);
            let after = scrub::scrubbed(Marker::Fat, records, ScrubMode::Compact);
            &&& after.len() == records.len() && kept.len() <= records.len()
            &&& forall|i: int| 0 <= i < kept.len() ==> (#[trigger] after[i]).data == kept[i]
            &&& forall|i: int|
                kept.len() <= i < after.len() ==> (#[trigger] after[i]).data == Seq::new(
                    32,
                    |j: int| 0u8,
                )
            &&& forall|k: int|
                0 <= k < p.edits.len() ==> scrub::edit_is_sound(dev, #[trigger] p.edits[k])
                    && scrub::edits_a_slot(
                    Marker::Fat,
                    records,
                    ScrubMode::Compact,
                    records.len(),
                    p.edits[k],
                )
            &&& forall|k: int, m: int|
                0 <= k < m < p.edits.len() ==> (#[trigger] p.edits[k]).offset + 32
                    <= (#[trigger] p.edits[m]).offset || p.edits[m].offset + 32
                    <= p.edits[k].offset
        }),
{
    let g = volume_geometry(dev, base);
    let records = directory_at(dev, g, spans).unwrap();
    let runs = runs_from(dev, g, spans[0].at)->Ok_0;
    let none = Seq::<SlotModel>::empty();
    lemma_plan_edits_are_sound(dev, base, label, spans, ScrubMode::Compact);
    geometry::lemma_sane_clusters_hold_a_sector(
        geometry::bpb_of(dev.read(base, 512).data),
        base,
    );
    lemma_directory_runs_are_disjoint(dev, g, spans[0].at);
    scrub::lemma_directory_records_full(dev, runs, none);
    scrub::lemma_directory_records_apart(dev, runs, none);
    scrub::lemma_survivors_are_live(Marker::Fat, records);
    scrub::lemma_one_edit_a_changed_slot(
        Marker::Fat,
        records,
        ScrubMode::Compact,
        records.len(),
    );
    let kept = scrub::survivors(Marker::Fat, records);
    let after = scrub::scrubbed(Marker::Fat, records, ScrubMode::Compact);
    assert forall|i: int| kept.len() <= i < after.len() implies (#[trigger] after[i]).data
        == Seq::new(32, |j: int| 0u8) by {
        assert(records[i].data.len() == 32);
        assert(after[i].data =~= Seq::new(32, |j: int| 0u8));
    }
}

/// The directory that holds `from` is the fixed root.
pub open spec fn in_fixed_root(g: Geom, from: u64) -> bool {
    g.root_entries > 0 && g.root_dir_start <= from < fixed_root_end(g)
}

/// Where the part of the volume that holds the directory at `from` begins.
pub open spec fn front_end(g: Geom, from: u64) -> int {
    if in_fixed_root(g, from) {
        g.root_dir_start as int
    } else {
        g.data_start as int
    }
}

/// The boot sector ends at or before the first byte that the directory at `from` can
/// occupy, and so does FAT #0 where the directory is chained through it.
pub open spec fn front_is_clear(g: Geom, from: u64) -> bool {
    &&& g.base + 512 <= front_end(g, from)
    &&& in_fixed_root(g, from) || (g.fat_len() matches Some(len) && g.fat_start + len
        <= front_end(g, from))
}

/// On every usable volume that has a FAT at all, the boot sector and the FAT end before
/// the directories begin.
pub proof fn lemma_front_is_clear(r: geometry::Bpb, base: u64, from: u64)
    requires
        r.fits(),
        geometry::geom_of(r, base).sane,
        geometry::geom_of(r, base).num_fats > 0,
    ensures
        front_is_clear(geometry::geom_of(r, base), from),
{
    let g = geometry::geom_of(r, base);
    let n = r.num_fats as int;
    let size = r.fat_size() as int;
    let b = r.bytes_per_sector as int;
    geometry::lemma_layout_bounds(r, base);
    assert(r.reserved_sectors * b + size * b <= r.front() * b) by (nonlinear_arith)
        requires
            r.front() == n * size + r.reserved_sectors,
            n >= 1,
            size >= 0,
            b >= 0,
    ;
    assert(size * b >= 512) by (nonlinear_arith)
        requires
            size >= 1,
            b >= 512,
    ;
    assert(r.reserved_sectors * b >= 0) by (nonlinear_arith)
        requires
            r.reserved_sectors >= 0,
            b >= 0,
    ;
}

/// No run of a directory starts before the part of the volume that holds it.
pub proof fn lemma_directory_runs_start_behind_the_front(dev: Device, g: Geom, from: u64)
    ensures
        runs_from(dev, g, from) matches Ok(runs) ==> forall|k: int|
            0 <= k < runs.len() ==> front_end(g, from) <= (#[trigger] runs[k]).0,
{
    if let Ok(runs) = runs_from(dev, g, from) {
        if !in_fixed_root(g, from) {
            let limit = scrub::MAX_SCAN_CLUSTERS as nat;
            let all = chain::chain_of(dev, g, cluster_holding(g, from) as u64, limit).0;
            let p = places(g, all);
            let s = g.bytes_per_cluster as int;
            assert forall|k: int| 0 <= k < p.len() implies (#[trigger] p[k] matches Some(at)
                ==> g.data_start <= at) by {
                let c = all[k] as int;
                assert(c >= 2 ==> (c - 2) * s >= 0) by (nonlinear_arith)
                    requires
                        s >= 0,
                ;
            }
            scrub::lemma_joined_runs_from(
                p,
                g.bytes_per_cluster,
                from,
                all.len(),
                g.data_start as int,
            );
        }
    }
}

/// Sweeping or compacting a second time changes nothing: once the edits of the first
/// time are written, the directory gets no plan of that kind any more. That is so on
/// every volume that has a FAT, and on one that states none as long as the edits cannot
/// reach what stands in front of the directory.
pub proof fn lemma_second_scrub_has_no_plan(
    dev: Device,
    after: Device,
    base: u64,
    label: Seq<char>,
    spans: Seq<Span>,
    mode: ScrubMode,
)
    requires
        mode == ScrubMode::Sweep || mode == ScrubMode::Compact,
        planned(dev, base, label, spans, mode) matches Some(p) && scrub::written(
            dev,
            after,
            p.edits,
        ),
        volume_geometry(dev, base).num_fats > 0 || front_is_clear(
            volume_geometry(dev, base),
            spans[0].at,
        ),
    ensures
        planned(after, base, label, spans, mode) is None,
{
    let g = volume_geometry(dev, base);
    let from = spans[0].at;
    let records = directory_at(dev, g, spans).unwrap();
    let runs = runs_from(dev, g, from)->Ok_0;
    let none = Seq::<SlotModel>::empty();
    geometry::lemma_sane_clusters_hold_a_sector(
        geometry::bpb_of(dev.read(base, 512).data),
        base,
    );
    if g.num_fats > 0 {
        lemma_front_is_clear(geometry::bpb_of(dev.read(base, 512).data), base, from);
    }
    lemma_directory_runs_are_disjoint(dev, g, from);
    lemma_directory_runs_start_behind_the_front(dev, g, from);
    scrub::lemma_directory_records_apart(dev, runs, none);
    scrub::lemma_directory_records_from(dev, runs, none, front_end(g, from));
    scrub::lemma_front_is_untouched(Marker::Fat, records, mode, base, 512);
    assert(after.read(base, 512) == dev.read(base, 512));
    assert(volume_geometry(after, base) == g);
    if !in_fixed_root(g, from) {
        let len = g.fat_len().unwrap();
        assert(g.fat_at(0) == Some(g.fat_start));
        assert(chain::same_fat(dev, after, g)) by {
            assert forall|off: u64|
                (g.fat_at(0) matches Some(at) && g.fat_len() matches Some(len) && at <= off && off
                    + g.entry_width() <= at + len) implies #[trigger] dev.read(off, g.entry_width())
                == after.read(off, g.entry_width()) by {
                scrub::lemma_front_is_untouched(
                    Marker::Fat,
                    records,
                    mode,
                    off,
                    g.entry_width(),
                );
                assert(after.read(off, g.entry_width()) == dev.read(off, g.entry_width()));
            }
        }
        chain::lemma_chain_depends_on_the_fat(
            dev,
            after,
            g,
            cluster_holding(g, from) as u64,
            scrub::MAX_SCAN_CLUSTERS as nat,
        );
    }
    assert(runs_from(after, g, from) == runs_from(dev, g, from));
    scrub::lemma_reading_back_a_scrub(dev, after, Marker::Fat, runs, mode);
    scrub::lemma_scrub_is_final(Marker::Fat, records, mode, records.len());
}

} // verus!
