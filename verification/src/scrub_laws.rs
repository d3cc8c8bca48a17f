//! What scrubbing a directory comes down to, said of its records.

use crate::common;
use crate::extent::Span;
use crate::scrub;
use crate::scrub::{Fill, Marker, RecordClass, ScrubMode, SlotModel, UseModel};
use crate::source::Device;
use vstd::prelude::*;

verus! {

// ------------------------------------------------------------------------- classes

/// What the first byte of a record says. Zero is space that was never used. A FAT record
/// is deleted by 0xE5 in that byte; an exFAT record by clearing its top bit.
pub proof fn lemma_first_byte_classes(b: u8)
    ensures
        Marker::Fat.of_byte(b) == RecordClass::Free <==> b == 0,
        Marker::Fat.of_byte(b) == RecordClass::Deleted <==> b == 0xE5,
        Marker::Fat.of_byte(b) == RecordClass::Live <==> b != 0 && b != 0xE5,
        Marker::Exfat.of_byte(b) == RecordClass::Free <==> b == 0,
        Marker::Exfat.of_byte(b) == RecordClass::Deleted <==> 0 < b < 128,
        Marker::Exfat.of_byte(b) == RecordClass::Live <==> b >= 128,
{
}

/// The records in use are counted one by one.
pub proof fn lemma_records_are_counted(
    marker: Marker,
    records: Seq<SlotModel>,
    x: SlotModel,
    class: RecordClass,
)
    ensures
        scrub::class_count(marker, Seq::empty(), class) == 0,
        scrub::class_count(marker, records.push(x), class) == scrub::class_count(
            marker,
            records,
            class,
        ) + if marker.class_of(x.data) == class {
            1int
        } else {
            0
        },
{
    assert(records.push(x).drop_last() =~= records);
}

/// The survivors are the live records, all of them, in the order they stand in: live
/// record `i` is the survivor with as many before it as there are live records before `i`.
pub proof fn lemma_every_live_record_survives(marker: Marker, records: Seq<SlotModel>, i: int)
    requires
        0 <= i < records.len(),
        marker.class_of(records[i].data) == RecordClass::Live,
    ensures
        ({
            let kept = scrub::survivors(marker, records);
            let before = scrub::class_count(marker, records.take(i), RecordClass::Live) as int;
            &&& kept.len() == scrub::class_count(marker, records, RecordClass::Live)
            &&& before < kept.len()
            &&& kept[before] == records[i].data
        }),
    decreases records.len(),
{
    lemma_survivor_count(marker, records);
    lemma_survivor_count(marker, records.drop_last());
    let front = records.drop_last();
    if i < records.len() - 1 {
        lemma_every_live_record_survives(marker, front, i);
        assert(front.take(i) =~= records.take(i));
    } else {
        assert(records.take(i) =~= front);
    }
}

proof fn lemma_survivor_count(marker: Marker, records: Seq<SlotModel>)
    ensures
        scrub::survivors(marker, records).len() == scrub::class_count(
            marker,
            records,
            RecordClass::Live,
        ),
    decreases records.len(),
{
    if records.len() > 0 {
        lemma_survivor_count(marker, records.drop_last());
    }
}

/// Compacted, the live records stand at the front in their order and everything behind
/// them reads as zeroes.
pub proof fn lemma_compacted_directory(marker: Marker, records: Seq<SlotModel>, i: int, j: int)
    requires
        0 <= i < records.len(),
    ensures
        ({
            let live = scrub::class_count(marker, records, RecordClass::Live) as int;
            let after = scrub::scrubbed(marker, records, ScrubMode::Compact);
            &&& after.len() == records.len()
            &&& after[i].at == records[i].at
            &&& marker.class_of(records[i].data) == RecordClass::Live ==> after[scrub::class_count(
                marker,
                records.take(i),
                RecordClass::Live,
            ) as int].data == records[i].data
            &&& i >= live && 0 <= j < records[i].data.len() ==> after[i].data[j] == 0
        }),
{
    lemma_survivor_count(marker, records);
    lemma_count_bound(marker, records);
    if marker.class_of(records[i].data) == RecordClass::Live {
        lemma_every_live_record_survives(marker, records, i);
    }
}

proof fn lemma_count_bound(marker: Marker, records: Seq<SlotModel>)
    ensures
        scrub::class_count(marker, records, RecordClass::Live) <= records.len(),
    decreases records.len(),
{
    if records.len() > 0 {
        lemma_count_bound(marker, records.drop_last());
    }
}

/// A sweep hides nothing: a record in use with no free record before it has none before
/// it afterwards. What is not in use keeps at most its first byte, and that only where a
/// record in use follows.
pub proof fn lemma_sweep_hides_nothing(marker: Marker, records: Seq<SlotModel>, i: int)
    requires
        0 <= i < records.len(),
    ensures
        ({
            let after = scrub::scrubbed(marker, records, ScrubMode::Sweep);
            &&& marker.class_of(records[i].data) == RecordClass::Live ==> {
                &&& after[i] == records[i]
                &&& (forall|k: int|
                    0 <= k < i ==> marker.class_of((#[trigger] records[k]).data) != RecordClass::Free)
                    ==> forall|k: int|
                    0 <= k < i ==> marker.class_of((#[trigger] after[k]).data) != RecordClass::Free
            }
            &&& marker.class_of(records[i].data) != RecordClass::Live ==> {
                &&& forall|x: int| 1 <= x < records[i].data.len() ==> #[trigger] after[i].data[x] == 0
                &&& (forall|k: int|
                    i < k < records.len() ==> marker.class_of((#[trigger] records[k]).data)
                        != RecordClass::Live) ==> marker.class_of(after[i].data) == RecordClass::Free
            }
        }),
{
    let after = scrub::scrubbed(marker, records, ScrubMode::Sweep);
    if marker.class_of(records[i].data) == RecordClass::Live {
        assert forall|k: int|
            0 <= k < i && marker.class_of((#[trigger] records[k]).data) != RecordClass::Free implies marker.class_of(
            after[k].data,
        ) != RecordClass::Free by {
            assert(scrub::live_after(marker, records, k));
        }
    }
}

// --------------------------------------------------------------------------- edits

/// A whole-directory scrub has an edit for each slot whose bytes change.
pub proof fn lemma_changed_slot_has_its_edit(
    marker: Marker,
    records: Seq<SlotModel>,
    mode: ScrubMode,
    n: nat,
    i: int,
)
    requires
        0 <= i < n <= records.len(),
        records[i].data != scrub::laid_out(marker, records, mode, i),
    ensures
        exists|k: int|
            0 <= k < scrub::layout_edits(marker, records, mode, n).len() && (
            #[trigger] scrub::layout_edits(marker, records, mode, n)[k]) == scrub::edit_for(
                marker,
                records,
                mode,
                i,
            ),
    decreases n,
{
    let all = scrub::layout_edits(marker, records, mode, n);
    let before = scrub::layout_edits(marker, records, mode, (n - 1) as nat);
    if i < n - 1 {
        lemma_changed_slot_has_its_edit(marker, records, mode, (n - 1) as nat, i);
        let k = choose|k: int|
            0 <= k < before.len() && (#[trigger] before[k]) == scrub::edit_for(
                marker,
                records,
                mode,
                i,
            );
        assert(all[k] == before[k]);
    } else {
        assert(all[before.len() as int] == scrub::edit_for(marker, records, mode, i));
    }
}

/// A whole-directory scrub rewrites each deleted record that still holds anything behind
/// its first byte. Swept, all of it behind the first byte reads as zeroes.
pub proof fn lemma_deleted_record_is_rewritten(
    marker: Marker,
    records: Seq<SlotModel>,
    mode: ScrubMode,
    i: int,
    j: int,
)
    requires
        mode == ScrubMode::Sweep || mode == ScrubMode::Compact,
        scrub::full_records(records),
        0 <= i < records.len(),
        1 <= j < 32,
        marker.of_byte(records[i].data[0]) == RecordClass::Deleted,
        records[i].data[j] != 0,
    ensures
        exists|k: int|
            0 <= k < scrub::layout_edits(marker, records, mode, records.len()).len() && {
                let e = #[trigger] scrub::layout_edits(marker, records, mode, records.len())[k];
                &&& e.offset == records[i].at
                &&& e.old == records[i].data
                &&& mode == ScrubMode::Sweep ==> forall|x: int|
                    1 <= x < 32 ==> #[trigger] e.new[x] == 0
            },
{
    let fresh = scrub::laid_out(marker, records, mode, i);
    scrub::lemma_survivors_are_live(marker, records);
    let kept = scrub::survivors(marker, records);
    if i < kept.len() {
        assert(marker.class_of(kept[i]) == RecordClass::Live);
    }
    assert(records[i].data != fresh) by {
        if records[i].data == fresh {
            assert(fresh[j] == records[i].data[j]);
        }
    }
    lemma_changed_slot_has_its_edit(marker, records, mode, records.len(), i);
    let all = scrub::layout_edits(marker, records, mode, records.len());
    let k = choose|k: int|
        0 <= k < all.len() && (#[trigger] all[k]) == scrub::edit_for(marker, records, mode, i);
    assert(all[k].new == fresh);
    if mode == ScrubMode::Sweep {
        assert(marker.class_of(records[i].data) == RecordClass::Deleted);
        assert forall|x: int| 1 <= x < 32 implies #[trigger] fresh[x] == 0 by {}
    }
}

/// Overwriting selected records edits each of them that changes: to its first byte and
/// zeroes, or to zeroes alone.
pub proof fn lemma_fill_reaches_every_record(
    records: Seq<SlotModel>,
    fill: Fill,
    reason: Seq<char>,
    i: int,
    j: int,
)
    requires
        0 <= i < records.len(),
        records[i].data.len() == 32,
        0 <= j < 32,
        fill == Fill::Neutral ==> j >= 1,
        records[i].data[j] != 0,
    ensures
        exists|k: int|
            0 <= k < scrub::fill_edits(records, fill, reason).len() && {
                let e = #[trigger] scrub::fill_edits(records, fill, reason)[k];
                &&& e.offset == records[i].at
                &&& e.old == records[i].data
                &&& e.new.len() == 32
                &&& e.new[0] == if fill == Fill::Neutral { records[i].data[0] } else { 0 }
                &&& forall|x: int| 1 <= x < 32 ==> #[trigger] e.new[x] == 0
            },
    decreases records.len(),
{
    let all = scrub::fill_edits(records, fill, reason);
    let front = records.drop_last();
    let before = scrub::fill_edits(front, fill, reason);
    if i < records.len() - 1 {
        lemma_fill_reaches_every_record(front, fill, reason, i, j);
        let k = choose|k: int|
            0 <= k < before.len() && {
                let e = #[trigger] before[k];
                &&& e.offset == front[i].at
                &&& e.old == front[i].data
                &&& e.new.len() == 32
                &&& e.new[0] == if fill == Fill::Neutral { front[i].data[0] } else { 0 }
                &&& forall|x: int| 1 <= x < 32 ==> #[trigger] e.new[x] == 0
            };
        assert(all[k] == before[k]);
    } else {
        let old = records[i].data;
        assert(scrub::filled(old, fill)[j] == 0);
        assert(old != scrub::filled(old, fill));
        let e = all[before.len() as int];
        assert(e.new == scrub::filled(old, fill));
        assert(forall|x: int| 1 <= x < 32 ==> #[trigger] e.new[x] == 0);
    }
}

/// Ordering a selection keeps each record of it.
pub proof fn lemma_selected_record_is_kept(dev: Device, spans: Seq<Span>, i: int)
    requires
        0 <= i < spans.len(),
    ensures
        exists|k: int|
            0 <= k < spans.len() && (#[trigger] scrub::in_order(scrub::selected(dev, spans))[k]).at
                == spans[i].at && scrub::in_order(scrub::selected(dev, spans))[k].data == dev.read(
                spans[i].at,
                32,
            ).data,
{
    broadcast use vstd::seq_lib::group_to_multiset_ensures;

    let s = scrub::selected(dev, spans);
    let t = scrub::in_order(s);
    scrub::lemma_in_order(s);
    assert(s.contains(s[i]));
    assert(s.to_multiset().count(s[i]) > 0);
    assert(t.to_multiset().count(s[i]) > 0);
    assert(t.contains(s[i]));
    let k = choose|k: int| 0 <= k < t.len() && t[k] == s[i];
    assert(t[k].at == spans[i].at);
}

proof fn lemma_ordered_record_was_selected(dev: Device, spans: Seq<Span>, k: int)
    requires
        0 <= k < spans.len(),
    ensures
        exists|i: int|
            0 <= i < spans.len() && scrub::in_order(scrub::selected(dev, spans))[k].at == (
            #[trigger] spans[i]).at && scrub::in_order(scrub::selected(dev, spans))[k].data
                == dev.read(spans[i].at, 32).data,
{
    broadcast use vstd::seq_lib::group_to_multiset_ensures;

    let s = scrub::selected(dev, spans);
    let t = scrub::in_order(s);
    scrub::lemma_in_order(s);
    assert(t.contains(t[k]));
    assert(t.to_multiset().count(t[k]) > 0);
    assert(s.to_multiset().count(t[k]) > 0);
    assert(s.contains(t[k]));
    let i = choose|i: int| 0 <= i < s.len() && s[i] == t[k];
    assert(s[i].at == spans[i].at);
}

proof fn lemma_some_record_changes(records: Seq<SlotModel>, fill: Fill, reason: Seq<char>)
    requires
        scrub::fill_edits(records, fill, reason).len() > 0,
    ensures
        exists|i: int|
            0 <= i < records.len() && (#[trigger] records[i]).data != scrub::filled(
                records[i].data,
                fill,
            ),
    decreases records.len(),
{
    if records.len() > 0 {
        let front = records.drop_last();
        if scrub::fill_edits(front, fill, reason).len() > 0 {
            lemma_some_record_changes(front, fill, reason);
            let i = choose|i: int|
                0 <= i < front.len() && (#[trigger] front[i]).data != scrub::filled(
                    front[i].data,
                    fill,
                );
            assert(records[i] == front[i]);
        } else {
            assert(records[records.len() - 1] == records.last());
        }
    }
}

/// A selection of deleted records has something to overwrite exactly when zeroing is
/// asked for, or when one of them holds anything behind its first byte.
pub proof fn lemma_something_to_overwrite_exactly_when(
    dev: Device,
    marker: Marker,
    spans: Seq<Span>,
    fill: Fill,
    reason: Seq<char>,
)
    requires
        spans.len() > 0,
        forall|i: int|
            0 <= i < spans.len() ==> {
                let b = dev.read((#[trigger] spans[i]).at, 32).data;
                b.len() == 32 && marker.of_byte(b[0]) == RecordClass::Deleted
            },
    ensures
        scrub::fill_edits(scrub::in_order(scrub::selected(dev, spans)), fill, reason).len() > 0 <==> {
            ||| fill == Fill::Zero
            ||| exists|i: int, j: int|
                0 <= i < spans.len() && 1 <= j < 32 && #[trigger] dev.read(spans[i].at, 32).data[j] != 0
        },
{
    let t = scrub::in_order(scrub::selected(dev, spans));
    scrub::lemma_in_order(scrub::selected(dev, spans));
    let all = scrub::fill_edits(t, fill, reason);
    if fill == Fill::Zero {
        lemma_selected_record_is_kept(dev, spans, 0);
        let k = choose|k: int|
            0 <= k < spans.len() && (#[trigger] t[k]).at == spans[0].at && t[k].data == dev.read(
                spans[0].at,
                32,
            ).data;
        lemma_fill_reaches_every_record(t, fill, reason, k, 0);
    } else if exists|i: int, j: int|
        0 <= i < spans.len() && 1 <= j < 32 && #[trigger] dev.read(spans[i].at, 32).data[j] != 0 {
        let (i, j) = choose|i: int, j: int|
            0 <= i < spans.len() && 1 <= j < 32 && #[trigger] dev.read(spans[i].at, 32).data[j] != 0;
        lemma_selected_record_is_kept(dev, spans, i);
        let k = choose|k: int|
            0 <= k < spans.len() && (#[trigger] t[k]).at == spans[i].at && t[k].data == dev.read(
                spans[i].at,
                32,
            ).data;
        lemma_fill_reaches_every_record(t, fill, reason, k, j);
    } else if all.len() > 0 {
        lemma_some_record_changes(t, fill, reason);
        let k = choose|k: int|
            0 <= k < t.len() && (#[trigger] t[k]).data != scrub::filled(t[k].data, fill);
        lemma_ordered_record_was_selected(dev, spans, k);
        let i = choose|i: int|
            0 <= i < spans.len() && t[k].at == (#[trigger] spans[i]).at && t[k].data == dev.read(
                spans[i].at,
                32,
            ).data;
        let b = t[k].data;
        assert forall|j: int| 0 <= j < 32 implies b[j] == scrub::filled(b, fill)[j] by {
            if j > 0 {
                assert(dev.read(spans[i].at, 32).data[j] == 0);
            }
        }
        assert(b =~= scrub::filled(b, fill));
    }
}

/// Each selected record that holds anything behind its first byte is overwritten.
pub proof fn lemma_selected_record_is_overwritten(
    dev: Device,
    spans: Seq<Span>,
    fill: Fill,
    reason: Seq<char>,
    i: int,
    j: int,
)
    requires
        0 <= i < spans.len(),
        1 <= j < 32,
        dev.read(spans[i].at, 32).data.len() == 32,
        dev.read(spans[i].at, 32).data[j] != 0,
    ensures
        ({
            let edits = scrub::fill_edits(
                scrub::in_order(scrub::selected(dev, spans)),
                fill,
                reason,
            );
            let b = dev.read(spans[i].at, 32).data;
            exists|k: int|
                0 <= k < edits.len() && {
                    let e = #[trigger] edits[k];
                    &&& e.offset == spans[i].at
                    &&& e.old == b
                    &&& e.new.len() == 32
                    &&& e.new[0] == if fill == Fill::Neutral { b[0] } else { 0 }
                    &&& forall|x: int| 1 <= x < 32 ==> #[trigger] e.new[x] == 0
                }
        }),
{
    let t = scrub::in_order(scrub::selected(dev, spans));
    scrub::lemma_in_order(scrub::selected(dev, spans));
    lemma_selected_record_is_kept(dev, spans, i);
    let k = choose|k: int|
        0 <= k < spans.len() && (#[trigger] t[k]).at == spans[i].at && t[k].data == dev.read(
            spans[i].at,
            32,
        ).data;
    lemma_fill_reaches_every_record(t, fill, reason, k, j);
}

// --------------------------------------------------------------------- what follows

spec fn folded(marker: Marker, recs: Seq<SlotModel>) -> UseModel
    decreases recs.len(),
{
    if recs.len() == 0 {
        scrub::no_use()
    } else {
        scrub::use_step(
            folded(marker, recs.drop_last()),
            marker.of_byte(recs.last().data[0]),
            recs.last().at,
        )
    }
}

proof fn lemma_run_folds(dev: Device, marker: Marker, off: int, end: int, have: Seq<SlotModel>)
    requires
        scrub::run_records(dev, off, end, have) is Some,
    ensures
        scrub::run_use(dev, marker, off, end, folded(marker, have)) == Ok::<UseModel, u64>(
            folded(marker, scrub::run_records(dev, off, end, have)->0),
        ),
    decreases end - off,
{
    if off + 32 <= end {
        let x = SlotModel { at: off as u64, data: dev.read(off as u64, 32).data };
        assert(have.push(x).drop_last() =~= have);
        lemma_run_folds(dev, marker, off + 32, end, have.push(x));
    }
}

proof fn lemma_directory_folds(
    dev: Device,
    marker: Marker,
    runs: Seq<(u64, u64)>,
    have: Seq<SlotModel>,
)
    requires
        scrub::directory_records(dev, runs, have) is Some,
    ensures
        scrub::directory_use(dev, marker, runs, folded(marker, have)) == Ok::<UseModel, u64>(
            folded(marker, scrub::directory_records(dev, runs, have)->0),
        ),
    decreases runs.len(),
{
    if runs.len() > 0 {
        let end = common::saturated(runs[0].0 + runs[0].1);
        lemma_run_folds(dev, marker, runs[0].0 as int, end as int, have);
        let now = scrub::run_records(dev, runs[0].0 as int, end as int, have)->0;
        lemma_directory_folds(dev, marker, runs.skip(1), now);
    }
}

/// What follows in a directory is judged by its records up to the first free one, `end`:
/// as many are in use as are live before it, and the first of them is named. None is
/// found exactly when no record before `end` is live.
pub proof fn lemma_use_is_what_the_records_say(
    dev: Device,
    marker: Marker,
    runs: Seq<(u64, u64)>,
    recs: Seq<SlotModel>,
    end: int,
)
    requires
        scrub::directory_records(dev, runs, Seq::empty()) == Some(recs),
        recs.len() <= u64::MAX,
        0 <= end <= recs.len(),
        forall|k: int| 0 <= k < end ==> marker.of_byte((#[trigger] recs[k]).data[0]) != RecordClass::Free,
        end < recs.len() ==> marker.of_byte(recs[end].data[0]) == RecordClass::Free,
    ensures
        scrub::directory_use(dev, marker, runs, scrub::no_use()) matches Ok(st) && {
            &&& st.count == live_before(marker, recs, end)
            &&& st.first_at is None <==> forall|k: int|
                0 <= k < end ==> marker.of_byte((#[trigger] recs[k]).data[0]) != RecordClass::Live
            &&& st.first_at matches Some(at) ==> exists|i: int|
                0 <= i < end && (#[trigger] recs[i]).at == at && marker.of_byte(recs[i].data[0])
                    == RecordClass::Live && forall|k: int|
                    0 <= k < i ==> marker.of_byte((#[trigger] recs[k]).data[0]) != RecordClass::Live
            &&& scrub::packed(st) is None <==> st.first_at is None
        },
{
    lemma_directory_folds(dev, marker, runs, Seq::empty());
    lemma_fold_front(marker, recs, end);
    assert(recs.take(recs.len() as int) =~= recs);
    lemma_fold_rest(marker, recs, end, recs.len() as int);
}

/// How many of the first `n` records are live.
pub open spec fn live_before(marker: Marker, recs: Seq<SlotModel>, n: int) -> int
    decreases n,
{
    if n <= 0 {
        0
    } else {
        live_before(marker, recs, n - 1) + if marker.of_byte(recs[n - 1].data[0])
            == RecordClass::Live {
            1int
        } else {
            0
        }
    }
}

proof fn lemma_fold_front(marker: Marker, recs: Seq<SlotModel>, n: int)
    requires
        0 <= n <= recs.len() <= u64::MAX,
        forall|k: int| 0 <= k < n ==> marker.of_byte((#[trigger] recs[k]).data[0]) != RecordClass::Free,
    ensures
        ({
            let st = folded(marker, recs.take(n));
            &&& !st.past_end
            &&& 0 <= live_before(marker, recs, n) <= n
            &&& st.count == live_before(marker, recs, n)
            &&& st.first_at is None <==> st.count == 0
            &&& st.first_at is None <==> forall|k: int|
                0 <= k < n ==> marker.of_byte((#[trigger] recs[k]).data[0]) != RecordClass::Live
            &&& st.first_at matches Some(at) ==> exists|i: int|
                0 <= i < n && (#[trigger] recs[i]).at == at && marker.of_byte(recs[i].data[0])
                    == RecordClass::Live && forall|k: int|
                    0 <= k < i ==> marker.of_byte((#[trigger] recs[k]).data[0]) != RecordClass::Live
        }),
    decreases n,
{
    if n > 0 {
        lemma_fold_front(marker, recs, n - 1);
        assert(recs.take(n).drop_last() =~= recs.take(n - 1));
        assert(recs.take(n).last() == recs[n - 1]);
    }
}

proof fn lemma_fold_rest(marker: Marker, recs: Seq<SlotModel>, end: int, n: int)
    requires
        0 <= end <= n <= recs.len(),
        end < recs.len() ==> marker.of_byte(recs[end].data[0]) == RecordClass::Free,
    ensures
        ({
            let st = folded(marker, recs.take(n));
            let at_end = folded(marker, recs.take(end));
            &&& st.count == at_end.count
            &&& st.first_at == at_end.first_at
            &&& n > end ==> st.past_end
        }),
    decreases n - end,
{
    if n > end {
        lemma_fold_rest(marker, recs, end, n - 1);
        assert(recs.take(n).drop_last() =~= recs.take(n - 1));
        assert(recs.take(n).last() == recs[n - 1]);
    }
}

/// Zeroing is refused exactly when a record in use follows or that could not be told.
pub proof fn lemma_zero_refused_exactly_when(found: Result<Option<(u64, u64)>, scrub::WhyNot>)
    ensures
        scrub::refusal(found) is None <==> found == Ok::<Option<(u64, u64)>, scrub::WhyNot>(None),
        found matches Ok(Some((count, first_at))) ==> scrub::refusal(found) == Some(
            scrub::ZeroRefusal::InUseRecordsFollow { count, first_at },
        ),
        found matches Err(why) ==> scrub::refusal(found) == Some(
            scrub::ZeroRefusal::CouldNotVerify(why),
        ),
{
}

/// The live records that compaction moves are those whose slot then holds something else,
/// counted one by one.
pub proof fn lemma_moved_records_are_counted(marker: Marker, records: Seq<SlotModel>, n: nat)
    requires
        n < records.len(),
    ensures
        scrub::moved(marker, records, ScrubMode::Compact, 0) == 0,
        ({
            let after = scrub::scrubbed(marker, records, ScrubMode::Compact);
            scrub::moved(marker, records, ScrubMode::Compact, n + 1) == scrub::moved(
                marker,
                records,
                ScrubMode::Compact,
                n,
            ) + if marker.class_of(records[n as int].data) == RecordClass::Live && after[n as int].data
                != records[n as int].data {
                1int
            } else {
                0
            }
        }),
{
}

/// Free records that hold anything are counted as residue, one by one.
pub proof fn lemma_residue_is_counted(marker: Marker, records: Seq<SlotModel>, x: SlotModel)
    requires
        x.data.len() == 32,
    ensures
        scrub::residue_count(marker, Seq::empty()) == 0,
        scrub::residue_count(marker, records.push(x)) == scrub::residue_count(marker, records)
            + if x.data[0] == 0 && exists|i: int| 0 <= i < 32 && #[trigger] x.data[i] != 0 {
            1int
        } else {
            0
        },
{
    assert(records.push(x).drop_last() =~= records);
    assert(marker.class_of(x.data) == RecordClass::Free <==> x.data[0] == 0);
    assert(!scrub::is_blank(x.data) <==> exists|i: int| 0 <= i < 32 && #[trigger] x.data[i] != 0);
}

/// Scrubbing changes slot `i`.
pub open spec fn slot_changes(
    marker: Marker,
    records: Seq<SlotModel>,
    mode: ScrubMode,
    i: int,
) -> bool {
    records[i].data != scrub::laid_out(marker, records, mode, i)
}

/// There are edits exactly when a slot changes.
pub proof fn lemma_edits_exactly_when(
    marker: Marker,
    records: Seq<SlotModel>,
    mode: ScrubMode,
    n: nat,
)
    requires
        n <= records.len(),
    ensures
        scrub::layout_edits(marker, records, mode, n).len() > 0 <==> exists|i: int|
            0 <= i < n && #[trigger] slot_changes(marker, records, mode, i),
    decreases n,
{
    if n > 0 {
        lemma_edits_exactly_when(marker, records, mode, (n - 1) as nat);
        if slot_changes(marker, records, mode, n - 1) {
            assert(scrub::layout_edits(marker, records, mode, n).len() > 0);
        } else if exists|i: int| 0 <= i < n && #[trigger] slot_changes(marker, records, mode, i) {
            let i = choose|i: int| 0 <= i < n && #[trigger] slot_changes(marker, records, mode, i);
            assert(i < n - 1);
        }
    }
}

/// No more records move than there are.
pub proof fn lemma_moved_bound(marker: Marker, records: Seq<SlotModel>, mode: ScrubMode, n: nat)
    ensures
        scrub::moved(marker, records, mode, n) <= n,
    decreases n,
{
    if n > 0 {
        lemma_moved_bound(marker, records, mode, (n - 1) as nat);
    }
}

} // verus!
