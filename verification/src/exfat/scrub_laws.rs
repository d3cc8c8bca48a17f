//! What scrubbing an exFAT directory comes down to, said of the bytes on the device.

use crate::bytes::{lemma_numbers_are_little_endian, number};
use crate::exfat::chain;
use crate::exfat::geometry::Geometry;
use crate::exfat::scrub;
use crate::extent::Span;
use crate::runs;
use crate::scrub as plans;
use crate::scrub::{Fill, Marker, RecordClass, ScrubMode, SlotModel, WhyNot};
use crate::scrub_laws;
use crate::source::Device;
use vstd::arithmetic::div_mod;
use vstd::prelude::*;

verus! {

/// The type byte of a record is one that a directory can hold: nothing, or any type but
/// those with a code of zero, of which only the volume GUID and the stream extension are
/// known.
pub open spec fn possible_type(t: u8) -> bool {
    t == 0 || t % 32 != 0 || t == 0x20 || t == 0xA0 || t == 0x40 || t == 0xC0
}

/// A run of whole records is taken for a directory exactly when each has a possible type,
/// in use or deleted, and not all of them are free.
pub proof fn lemma_what_a_directory_looks_like(records: Seq<SlotModel>)
    requires
        plans::full_records(records),
    ensures
        scrub::directory_like(records) <==> {
            &&& forall|i: int| 0 <= i < records.len() ==> possible_type((#[trigger] records[i]).data[0])
            &&& exists|i: int| 0 <= i < records.len() && (#[trigger] records[i]).data[0] != 0
        },
{
    assert forall|i: int| 0 <= i < records.len() implies ({
        let b = (#[trigger] records[i]).data;
        b.len() >= 32 && (b[0] == 0 || crate::exfat::types::plausible(b[0]))
    } <==> possible_type(records[i].data[0])) by {}
}

spec fn slot_at(at: u64, k: int) -> u64 {
    (at + 32 * k) as u64
}

/// One directory of a single cluster, made of whole records with possible types, has a plan
/// in either whole-directory mode as soon as one deleted record in it still holds anything
/// behind its first byte. The plan rewrites that record: swept, all of it behind the first
/// byte reads as zeroes.
pub proof fn lemma_one_cluster_directory_is_scrubbed(
    dev: Device,
    base: u64,
    label: Seq<char>,
    cluster: u64,
    at: u64,
    i: int,
    j: int,
    mode: ScrubMode,
)
    requires
        mode == ScrubMode::Sweep || mode == ScrubMode::Compact,
        ({
            let g = scrub::volume_geometry(dev, base);
            let slot = |k: int| dev.read((at + 32 * k) as u64, 32);
            &&& one_cluster(dev, g, cluster, at)
            &&& forall|k: int|
                0 <= k && 32 * k < g.cluster_size ==> {
                    let b = (#[trigger] slot(k)).data;
                    !slot(k).refused() && b.len() == 32 && possible_type(b[0])
                }
            &&& 0 <= i && 32 * i < g.cluster_size
            &&& 1 <= j < 32
            &&& 0 < slot(i).data[0] < 128
            &&& slot(i).data[j] != 0
        }),
    ensures
        ({
            let g = scrub::volume_geometry(dev, base);
            let spans = seq![Span::of_bytes(at, g.cluster_size)];
            scrub::planned(dev, base, label, spans, mode) matches Some(plan) && exists|k: int|
                0 <= k < plan.edits.len() && {
                    let e = #[trigger] plan.edits[k];
                    &&& e.offset == at + 32 * i
                    &&& e.old == dev.read((at + 32 * i) as u64, 32).data
                    &&& mode == ScrubMode::Sweep ==> forall|x: int|
                        1 <= x < 32 ==> #[trigger] e.new[x] == 0
                }
        }),
{
    let g = scrub::volume_geometry(dev, base);
    let spans = seq![Span::of_bytes(at, g.cluster_size)];
    let slot = |k: int| dev.read((at + 32 * k) as u64, 32);
    lemma_one_cluster_is_one_run(dev, g, cluster, at);
    assert forall|k: int| 0 <= k && 32 * k < g.cluster_size implies {
        let b = dev.read(#[trigger] slot_at(at, k), 32);
        !b.refused() && b.data.len() == 32
    } by {
        assert(slot(k).data.len() == 32);
    }
    lemma_records_of_one_run(dev, at, g.cluster_size);
    let runs = seq![(at, g.cluster_size)];
    let records = plans::directory_records(dev, runs, Seq::empty())->0;
    assert forall|k: int| 0 <= k < records.len() implies possible_type(
        (#[trigger] records[k]).data[0],
    ) by {
        assert(slot(k).data == records[k].data);
    }
    assert(slot(i).data == records[i].data);
    assert(records[i].data[0] != 0);
    lemma_what_a_directory_looks_like(records);
    assert(scrub::directory_at(dev, g, spans) == Some(records));
    scrub_laws::lemma_deleted_record_is_rewritten(Marker::Exfat, records, mode, i, j);
    let plan = scrub::directory_plan(dev, g, label, spans, mode)->0;
    assert(plan.edits == plans::layout_edits(Marker::Exfat, records, mode, records.len()));
}

/// The cluster at `at` is a chain of its own in a trusted volume, and not too large for a
/// directory.
pub open spec fn one_cluster(dev: Device, g: Geometry, cluster: u64, at: u64) -> bool {
    &&& g.trusted
    &&& g.cluster_at(cluster as int) == Some(at)
    &&& 0 < g.cluster_size <= 524288
    &&& g.cluster_size % 32 == 0
    &&& at + g.cluster_size <= u64::MAX
    &&& g.fat_at(g.active_fat as int) matches Some(fat) && fat + 4 * cluster <= u64::MAX && {
        let r = dev.read((fat + 4 * cluster) as u64, 4);
        !r.refused() && r.data.len() == 4 && number(r.data, 0, 4) == 0xFFFF_FFFF
    }
}

proof fn lemma_one_cluster_is_one_run(dev: Device, g: Geometry, cluster: u64, at: u64)
    requires
        one_cluster(dev, g, cluster, at),
    ensures
        scrub::runs_from(dev, g, at) == Ok::<Seq<(u64, u64)>, WhyNot>(seq![(at, g.cluster_size)]),
        scrub::cluster_shaped(g, seq![Span::of_bytes(at, g.cluster_size)]),
{
    let size = g.cluster_size as int;
    let heap = g.heap_at()->0;
    let fat = g.fat_at(g.active_fat as int)->0;
    let r = dev.read((fat + 4 * cluster) as u64, 4);
    lemma_numbers_are_little_endian(r.data, 0);
    assert((cluster - 2) * size >= 0) by (nonlinear_arith)
        requires
            cluster >= 2,
            size >= 0,
    ;
    div_mod::lemma_fundamental_div_mod_converse(at - heap, size, cluster - 2, 0);
    let none = Seq::<u64>::empty();
    assert(chain::fat_walk(dev, g, fat, none, cluster).clusters =~= seq![cluster]);
    let all = scrub::scanned(chain::chain_of(dev, g, cluster, false, None).clusters);
    assert(all =~= seq![cluster]);
    assert(plans::joined_runs(scrub::places(g, all), g.cluster_size, at, 0) =~= Seq::<
        (u64, u64),
    >::empty());
    assert(scrub::places(g, all)[0] == Some(at));
    assert(scrub::runs_from(dev, g, at)->Ok_0 =~= seq![(at, g.cluster_size)]);
}

proof fn lemma_records_of_one_run(dev: Device, at: u64, size: u64)
    requires
        at + size <= u64::MAX,
        size % 32 == 0,
        size <= 524288,
        forall|k: int|
            0 <= k && 32 * k < size ==> {
                let b = dev.read(#[trigger] slot_at(at, k), 32);
                !b.refused() && b.data.len() == 32
            },
    ensures
        plans::directory_records(dev, seq![(at, size)], Seq::empty()) matches Some(records) && {
            &&& 32 * records.len() == size
            &&& plans::full_records(records)
            &&& forall|k: int|
                0 <= k < records.len() ==> (#[trigger] records[k]).at == at + 32 * k
                    && records[k].data == dev.read((at + 32 * k) as u64, 32).data
        },
{
    let runs = seq![(at, size)];
    assert(runs.skip(1) =~= Seq::<(u64, u64)>::empty());
    let held = runs::offsets_of(runs);
    assert(runs::offsets_of(runs.skip(1)) =~= Seq::<int>::empty());
    assert(held =~= runs::piece(at as int, size as int));
    assert forall|k: int| 0 <= k && 32 * k < held.len() implies !plans::unusable(
        dev.read(#[trigger] runs::record_at(runs, k), 32),
    ) by {
        assert(held[32 * k] == at + 32 * k);
        assert(slot_at(at, k) == runs::record_at(runs, k));
    }
    runs::lemma_directory_records_are_its_bytes(dev, runs);
    let records = plans::directory_records(dev, runs, Seq::empty())->0;
    assert forall|k: int| 0 <= k < records.len() implies (#[trigger] records[k]).at == at + 32 * k
        && records[k].data == dev.read((at + 32 * k) as u64, 32).data && records[k].data.len()
        == 32 by {
        assert(held[32 * k] == at + 32 * k);
        assert(slot_at(at, k) == records[k].at);
    }
}

/// Deleted records can be overwritten exactly when whole records are selected, each one
/// with the top bit of its type clear but a type at all, and there is something to
/// overwrite.
pub proof fn lemma_record_plan_exactly_when(
    dev: Device,
    g: Geometry,
    label: Seq<char>,
    spans: Seq<Span>,
    fill: Fill,
)
    ensures
        scrub::record_plan(dev, g, label, spans, fill) is Some <==> {
            &&& spans.len() > 0
            &&& forall|i: int|
                0 <= i < spans.len() ==> {
                    let b = dev.read((#[trigger] spans[i]).at, 32).data;
                    spans[i].len == 32 && spans[i].whole_bytes && b.len() == 32 && 0 < b[0] < 128
                }
            &&& fill == Fill::Zero || exists|i: int, j: int|
                0 <= i < spans.len() && 1 <= j < 32 && #[trigger] dev.read(spans[i].at, 32).data[j] != 0
        },
{
    let reason = "scrub deleted exFAT record"@;
    if spans.len() > 0 && plans::all_deleted(dev, Marker::Exfat, spans) {
        scrub_laws::lemma_something_to_overwrite_exactly_when(
            dev,
            Marker::Exfat,
            spans,
            fill,
            reason,
        );
    }
    if forall|i: int|
        0 <= i < spans.len() ==> {
            let b = dev.read((#[trigger] spans[i]).at, 32).data;
            spans[i].len == 32 && spans[i].whole_bytes && b.len() == 32 && 0 < b[0] < 128
        } {
        assert(plans::all_deleted(dev, Marker::Exfat, spans));
    }
}

/// From an offset in the heap a directory goes on to the end of its cluster, and then
/// through the clusters that the FAT chains behind it.
pub proof fn lemma_a_directory_goes_on_along_its_chain(
    dev: Device,
    g: Geometry,
    from: u64,
    heap: u64,
    cluster: u64,
    k: int,
    r: int,
)
    requires
        g.well_formed(),
        g.heap_at() == Some(heap),
        g.cluster_at(cluster as int) matches Some(at) && at <= from < at + g.cluster_size,
        ({
            let all = chain::chain_of(dev, g, cluster, false, None).clusters;
            &&& 0 < all.len() <= 4096
            &&& forall|i: int|
                0 <= i < all.len() ==> (g.cluster_at(#[trigger] all[i] as int) is Some
                    && g.cluster_at(all[i] as int)->0 + g.cluster_size <= u64::MAX)
            &&& 0 <= k < all.len()
            &&& 0 <= r < g.cluster_size
            &&& k == 0 ==> r >= from - g.cluster_at(cluster as int)->0
        }),
    ensures
        ({
            let all = chain::chain_of(dev, g, cluster, false, None).clusters;
            let skipped = from - g.cluster_at(cluster as int)->0;
            let size = g.cluster_size;
            scrub::runs_from(dev, g, from) matches Ok(runs) && {
                let held = runs::offsets_of(runs);
                &&& held.len() == all.len() * size - skipped
                &&& 0 <= k * size + r - skipped < held.len()
                &&& held[k * size + r - skipped] == g.cluster_at(all[k] as int)->0 + r
            }
        }),
{
    let at = g.cluster_at(cluster as int)->0;
    let size = g.cluster_size as int;
    let all = chain::chain_of(dev, g, cluster, false, None).clusters;
    chain::lemma_chain_is_sound(dev, g, cluster, false, None);
    assert((cluster - 2) * size >= 0) by (nonlinear_arith)
        requires
            cluster >= 2,
            size >= 0,
    ;
    div_mod::lemma_fundamental_div_mod_converse(from - heap, size, cluster - 2, from - at);
    assert(scrub::scanned(all) == all);
    let places = scrub::places(g, all);
    assert forall|i: int| 0 <= i < places.len() implies (#[trigger] places[i] is Some
        && places[i]->0 + g.cluster_size <= u64::MAX) by {
        assert(g.cluster_at(all[i] as int) is Some);
    }
    runs::lemma_joined_runs_hold_the_clusters(places, g.cluster_size, from, all.len(), k, r);
}

/// A whole directory is selected by its first cluster.
pub proof fn lemma_what_selects_a_directory(g: Geometry, spans: Seq<Span>, heap: u64)
    requires
        g.cluster_size > 0,
        g.heap_at() == Some(heap),
    ensures
        scrub::cluster_shaped(g, spans) <==> spans.len() == 1 && spans[0].len == g.cluster_size
            && exists|k: int| k >= 0 && spans[0].at == heap + #[trigger] (k * g.cluster_size),
{
    if spans.len() == 1 {
        let size = g.cluster_size as int;
        let d = spans[0].at - heap;
        if d >= 0 && d % size == 0 {
            div_mod::lemma_fundamental_div_mod(d, size);
            div_mod::lemma_div_pos_is_pos(d, size);
            let k = d / size;
            assert(size * k == k * size) by (nonlinear_arith);
            assert(spans[0].at == heap + k * g.cluster_size);
        }
        if exists|k: int| k >= 0 && spans[0].at == heap + #[trigger] (k * g.cluster_size) {
            let k = choose|k: int| k >= 0 && spans[0].at == heap + #[trigger] (k * g.cluster_size);
            div_mod::lemma_fundamental_div_mod_converse(d, size, k, 0);
            assert(k * size >= 0) by (nonlinear_arith)
                requires
                    k >= 0,
                    size >= 0,
            ;
        }
    }
}

/// What follows a record is told by the records behind it up to the first free one, `end`:
/// whether one of them is in use, how many, and where the first is.
pub proof fn lemma_what_follows_a_record(
    dev: Device,
    g: Geometry,
    at: u64,
    runs: Seq<(u64, u64)>,
    recs: Seq<SlotModel>,
    end: int,
)
    requires
        g.trusted,
        at + 32 <= u64::MAX,
        scrub::runs_from(dev, g, at) == Ok::<Seq<(u64, u64)>, WhyNot>(runs),
        plans::directory_records(dev, plans::runs_past_record(runs, at), Seq::empty()) == Some(recs),
        recs.len() <= u64::MAX,
        0 <= end <= recs.len(),
        forall|k: int| 0 <= k < end ==> (#[trigger] recs[k]).data[0] != 0,
        end < recs.len() ==> recs[end].data[0] == 0,
    ensures
        ({
            let found = scrub::use_after(dev, g, (at + 32) as u64);
            &&& found == Ok::<Option<(u64, u64)>, WhyNot>(None) <==> forall|k: int|
                0 <= k < end ==> (#[trigger] recs[k]).data[0] < 128
            &&& found matches Ok(Some((count, first))) ==> count == scrub_laws::live_before(
                Marker::Exfat,
                recs,
                end,
            ) && exists|i: int|
                0 <= i < end && (#[trigger] recs[i]).at == first && recs[i].data[0] >= 128 && forall|k: int|
                    0 <= k < i ==> (#[trigger] recs[k]).data[0] < 128
            &&& found is Ok
        }),
{
    let rest = plans::runs_past_record(runs, at);
    scrub_laws::lemma_use_is_what_the_records_say(dev, Marker::Exfat, rest, recs, end);
    assert(scrub::record_before((at + 32) as u64) == at);
    let st = plans::directory_use(dev, Marker::Exfat, rest, plans::no_use())->Ok_0;
    assert(forall|k: int|
        0 <= k < end ==> (Marker::Exfat.of_byte((#[trigger] recs[k]).data[0]) != RecordClass::Live
            <==> recs[k].data[0] < 128));
}

/// A scrub names the records it reaches in order: all of a selection, and the deleted ones of
/// a directory. The stream extension that counts is the first.
pub proof fn lemma_scrubs_are_named(records: Seq<SlotModel>, x: SlotModel)
    requires
        x.data.len() == 32,
    ensures
        scrub::names_of(Seq::empty(), true).len() == 0,
        scrub::names_of(records.push(x), false) == scrub::names_of(records, false).push(
            scrub::record_label(x.data),
        ),
        0 < x.data[0] < 128 ==> scrub::names_of(records.push(x), true) == scrub::names_of(
            records,
            true,
        ).push(scrub::record_label(x.data)),
        !(0 < x.data[0] < 128) ==> scrub::names_of(records.push(x), true) == scrub::names_of(
            records,
            true,
        ),
        scrub::name_records(records.push(x)) == scrub::name_records(records) + if x.data[0] % 128
            == 0x41 {
            1int
        } else {
            0
        },
        scrub::first_of_type(records, 0xC0) is Some ==> scrub::first_of_type(records.push(x), 0xC0)
            == scrub::first_of_type(records, 0xC0),
        scrub::first_of_type(records, 0xC0) is None ==> scrub::first_of_type(records.push(x), 0xC0)
            == if x.data[0] % 128 == 0x40 { Some(x.data) } else { None },
{
    assert(records.push(x).drop_last() =~= records);
}

/// What the plan for a directory says of it: the names that go, the records that move, and
/// an edit for each slot that changes. Nothing is refused. There is no plan exactly when no
/// slot changes.
pub proof fn lemma_what_a_directory_plan_says(
    dev: Device,
    g: Geometry,
    label: Seq<char>,
    spans: Seq<Span>,
    mode: ScrubMode,
    records: Seq<SlotModel>,
)
    requires
        scrub::directory_at(dev, g, spans) == Some(records),
        records.len() <= 16384,
        mode == ScrubMode::Sweep || mode == ScrubMode::Compact,
    ensures
        ({
            let after = plans::scrubbed(Marker::Exfat, records, mode);
            scrub::directory_plan(dev, g, label, spans, mode) is Some <==> exists|i: int|
                0 <= i < records.len() && (#[trigger] after[i]).data != records[i].data
        }),
        scrub::directory_plan(dev, g, label, spans, mode) matches Some(plan) ==> {
            &&& plan.label == label
            &&& plan.mode == mode
            &&& plan.affected == scrub::names_of(records, true)
            &&& plan.zero_refusal is None
            &&& mode == ScrubMode::Sweep ==> plan.relocated == 0
            &&& mode == ScrubMode::Compact ==> plan.relocated == plans::moved(
                Marker::Exfat,
                records,
                mode,
                records.len(),
            )
        },
{
    let after = plans::scrubbed(Marker::Exfat, records, mode);
    let n = records.len();
    scrub_laws::lemma_edits_exactly_when(Marker::Exfat, records, mode, n);
    scrub_laws::lemma_moved_bound(Marker::Exfat, records, mode, n);
    if exists|i: int| 0 <= i < records.len() && (#[trigger] after[i]).data != records[i].data {
        let i = choose|i: int| 0 <= i < records.len() && (#[trigger] after[i]).data != records[i].data;
        assert(scrub_laws::slot_changes(Marker::Exfat, records, mode, i));
    }
    if exists|i: int| 0 <= i < n && #[trigger] scrub_laws::slot_changes(Marker::Exfat, records, mode, i) {
        let i = choose|i: int|
            0 <= i < n && #[trigger] scrub_laws::slot_changes(Marker::Exfat, records, mode, i);
        assert(after[i].data != records[i].data);
    }
}

/// What the plan for selected records says: zeroing them is refused as what follows the last
/// of them demands.
pub proof fn lemma_what_a_record_plan_says(
    dev: Device,
    g: Geometry,
    label: Seq<char>,
    spans: Seq<Span>,
    fill: Fill,
)
    ensures
        scrub::record_plan(dev, g, label, spans, fill) matches Some(plan) ==> {
            let chosen = plans::in_order(plans::selected(dev, spans));
            &&& plan.label == label
            &&& plan.mode == ScrubMode::Record(fill)
            &&& plan.relocated == 0
            &&& chosen.last().at + 32 <= u64::MAX ==> plan.zero_refusal == plans::refusal(
                scrub::use_after(dev, g, (chosen.last().at + 32) as u64),
            )
            &&& forall|i: int|
                0 <= i < chosen.len() ==> (#[trigger] chosen[i]).at <= chosen.last().at
        },
{
    let chosen = plans::in_order(plans::selected(dev, spans));
    plans::lemma_in_order(plans::selected(dev, spans));
    assert forall|i: int| 0 <= i < chosen.len() implies (#[trigger] chosen[i]).at <= chosen.last().at by {
        assert(chosen[chosen.len() - 1] == chosen.last());
    }
}

} // verus!
