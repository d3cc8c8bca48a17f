//! Runs of a directory, seen as the bytes they hold.

use crate::scrub;
use crate::scrub::SlotModel;
use crate::source::Device;
use vstd::prelude::*;

verus! {

/// The offsets of `len` bytes from `at` on.
pub open spec fn piece(at: int, len: int) -> Seq<int> {
    Seq::new(len as nat, |k: int| at + k)
}

/// The offsets of the bytes of the runs, run by run.
pub open spec fn offsets_of(runs: Seq<(u64, u64)>) -> Seq<int>
    decreases runs.len(),
{
    if runs.len() == 0 {
        Seq::empty()
    } else {
        piece(runs[0].0 as int, runs[0].1 as int) + offsets_of(runs.skip(1))
    }
}

/// One more run adds its bytes at the end.
pub proof fn lemma_offsets_push(runs: Seq<(u64, u64)>, x: (u64, u64))
    ensures
        offsets_of(runs.push(x)) == offsets_of(runs) + piece(x.0 as int, x.1 as int),
    decreases runs.len(),
{
    let more = runs.push(x);
    if runs.len() == 0 {
        assert(more.skip(1) =~= Seq::<(u64, u64)>::empty());
        assert(offsets_of(more.skip(1)) =~= Seq::<int>::empty());
        assert(offsets_of(more) =~= piece(x.0 as int, x.1 as int));
        assert(offsets_of(runs) =~= Seq::<int>::empty());
        assert(offsets_of(runs) + piece(x.0 as int, x.1 as int) =~= piece(x.0 as int, x.1 as int));
    } else {
        lemma_offsets_push(runs.skip(1), x);
        assert(more.skip(1) =~= runs.skip(1).push(x));
        assert(more[0] == runs[0]);
        assert(offsets_of(more) =~= offsets_of(runs) + piece(x.0 as int, x.1 as int));
    }
}

/// A last run that grows by what follows it directly adds just those bytes.
pub proof fn lemma_offsets_grow(runs: Seq<(u64, u64)>, len: u64)
    requires
        runs.len() > 0,
        runs.last().1 + len <= u64::MAX,
    ensures
        offsets_of(runs.drop_last().push((runs.last().0, (runs.last().1 + len) as u64)))
            == offsets_of(runs) + piece(runs.last().0 + runs.last().1, len as int),
{
    let front = runs.drop_last();
    let (at, have) = runs.last();
    let grown = (at, (have + len) as u64);
    lemma_offsets_push(front, grown);
    lemma_offsets_push(front, runs.last());
    assert(front.push(runs.last()) =~= runs);
    assert(piece(at as int, have + len) =~= piece(at as int, have as int) + piece(
        at + have,
        len as int,
    ));
    assert(offsets_of(front.push(grown)) =~= offsets_of(runs) + piece(at + have, len as int));
}

/// Every run ends inside the 64-bit offsets and holds whole records.
pub open spec fn tidy(runs: Seq<(u64, u64)>) -> bool {
    forall|i: int|
        0 <= i < runs.len() ==> (#[trigger] runs[i]).0 + runs[i].1 <= u64::MAX && runs[i].1 % 32
            == 0
}

// ------------------------------------------------------------------------- joining

/// Every cluster has a place, and ends inside the 64-bit offsets.
pub open spec fn all_placed(places: Seq<Option<u64>>, size: u64) -> bool {
    forall|i: int|
        0 <= i < places.len() ==> (#[trigger] places[i] is Some && places[i]->0 + size <= u64::MAX)
}

/// Clusters joined into runs hold the same bytes in the same order: those of the first
/// from `from` on, and then all of each of the others.
pub proof fn lemma_joined_runs_hold_the_clusters(
    places: Seq<Option<u64>>,
    size: u64,
    from: u64,
    n: nat,
    k: int,
    r: int,
)
    requires
        n <= places.len(),
        all_placed(places, size),
        places.len() > 0,
        places[0]->0 <= from < places[0]->0 + size,
        0 <= k < n,
        0 <= r < size,
        k == 0 ==> r >= from - places[0]->0,
    ensures
        ({
            let held = offsets_of(scrub::joined_runs(places, size, from, n));
            let skipped = from - places[0]->0;
            &&& held.len() == n * size - skipped
            &&& 0 <= k * size + r - skipped < held.len()
            &&& held[k * size + r - skipped] == places[k]->0 + r
        }),
    decreases n,
{
    lemma_joined_len(places, size, from, n);
    let held = offsets_of(scrub::joined_runs(places, size, from, n));
    let skipped = from - places[0]->0;
    assert(0 <= k * size + r - skipped < n * size - skipped) by (nonlinear_arith)
        requires
            0 <= k < n,
            0 <= r < size,
            k == 0 ==> r >= skipped,
            0 <= skipped < size,
    ;
    let before = scrub::joined_runs(places, size, from, (n - 1) as nat);
    if k < n - 1 {
        lemma_joined_runs_hold_the_clusters(places, size, from, (n - 1) as nat, k, r);
        lemma_joined_step(places, size, from, n);
        assert(held[k * size + r - skipped] == offsets_of(before)[k * size + r - skipped]);
    } else {
        lemma_joined_step(places, size, from, n);
        if n > 1 {
            lemma_joined_len(places, size, from, (n - 1) as nat);
            assert(offsets_of(before).len() == k * size - skipped);
        }
    }
}

proof fn lemma_joined_len(places: Seq<Option<u64>>, size: u64, from: u64, n: nat)
    requires
        0 < n <= places.len(),
        all_placed(places, size),
        places[0]->0 <= from < places[0]->0 + size,
    ensures
        offsets_of(scrub::joined_runs(places, size, from, n)).len() == n * size - (from
            - places[0]->0),
        ({
            let runs = scrub::joined_runs(places, size, from, n);
            runs.len() > 0 && runs.last().0 + runs.last().1 <= u64::MAX
        }),
    decreases n,
{
    if n > 1 {
        lemma_joined_len(places, size, from, (n - 1) as nat);
    }
    lemma_joined_step(places, size, from, n);
    assert(n * size == (n - 1) * size + size) by (nonlinear_arith);
    if n == 1 {
        assert(n * size == size) by (nonlinear_arith)
            requires
                n == 1,
        ;
    }
}

proof fn lemma_joined_step(places: Seq<Option<u64>>, size: u64, from: u64, n: nat)
    requires
        0 < n <= places.len(),
        all_placed(places, size),
        places[0]->0 <= from < places[0]->0 + size,
    ensures
        ({
            let runs = scrub::joined_runs(places, size, from, n);
            let before = scrub::joined_runs(places, size, from, (n - 1) as nat);
            let skipped = from - places[0]->0;
            &&& runs.len() > 0
            &&& runs.last().0 + runs.last().1 <= u64::MAX
            &&& offsets_of(runs) == offsets_of(before) + if n == 1 {
                piece(from as int, size - skipped)
            } else {
                piece(places[n - 1]->0 as int, size as int)
            }
        }),
    decreases n,
{
    let before = scrub::joined_runs(places, size, from, (n - 1) as nat);
    let at = places[n - 1]->0;
    if n > 1 {
        lemma_joined_step(places, size, from, (n - 1) as nat);
    }
    let (start, len): (u64, u64) = if n == 1 {
        (from, (size - (from - at)) as u64)
    } else {
        (at, size)
    };
    assert(places[n - 1] is Some);
    if before.len() > 0 && before.last().0 + before.last().1 == start {
        lemma_offsets_grow(before, len);
    } else {
        lemma_offsets_push(before, (start, len));
    }
}

// ------------------------------------------------------------------------- records

/// The device gives the 32 bytes of each record of the runs.
pub open spec fn readable(dev: Device, runs: Seq<(u64, u64)>) -> bool {
    forall|i: int|
        0 <= i && 32 * i < offsets_of(runs).len() ==> !scrub::unusable(
            dev.read(#[trigger] record_at(runs, i), 32),
        )
}

/// Where record `i` of the runs starts.
pub open spec fn record_at(runs: Seq<(u64, u64)>, i: int) -> u64 {
    offsets_of(runs)[32 * i] as u64
}

/// The records of a directory are the bytes of its runs, 32 at a time and in order:
/// all of them, where the device gives them and there are no more than 16384.
pub proof fn lemma_directory_records_are_its_bytes(dev: Device, runs: Seq<(u64, u64)>)
    requires
        tidy(runs),
        readable(dev, runs),
        offsets_of(runs).len() <= 32 * 16384,
    ensures
        scrub::directory_records(dev, runs, Seq::empty()) matches Some(recs) && {
            &&& 32 * recs.len() == offsets_of(runs).len()
            &&& forall|i: int|
                0 <= i < recs.len() ==> (#[trigger] recs[i]).at == offsets_of(runs)[32 * i]
                    && recs[i].data == dev.read(recs[i].at, 32).data
        },
{
    lemma_records_behind(dev, runs, Seq::empty());
}

proof fn lemma_records_behind(dev: Device, runs: Seq<(u64, u64)>, have: Seq<SlotModel>)
    requires
        tidy(runs),
        readable(dev, runs),
        32 * have.len() + offsets_of(runs).len() <= 32 * 16384,
    ensures
        scrub::directory_records(dev, runs, have) matches Some(recs) && {
            &&& 32 * recs.len() == 32 * have.len() + offsets_of(runs).len()
            &&& forall|i: int| 0 <= i < have.len() ==> #[trigger] recs[i] == have[i]
            &&& forall|i: int|
                have.len() <= i < recs.len() ==> (#[trigger] recs[i]).at == offsets_of(runs)[32 * (i
                    - have.len())] && recs[i].data == dev.read(recs[i].at, 32).data
        },
    decreases runs.len(),
{
    if runs.len() > 0 {
        let (at, len) = runs[0];
        let rest = runs.skip(1);
        let all = offsets_of(runs);
        assert(runs[0].0 + runs[0].1 <= u64::MAX);
        assert forall|i: int| 0 <= i && 32 * i < len implies !scrub::unusable(
            dev.read(#[trigger] at_record(at, i), 32),
        ) by {
            assert(all[32 * i] == at + 32 * i);
            assert(record_at(runs, i) == at_record(at, i));
        }
        lemma_run_behind(dev, at as int, 0, len as int, have);
        let now = scrub::run_records(dev, at as int, at + len, have)->0;
        assert forall|i: int| 0 <= i < rest.len() implies (#[trigger] rest[i]).0 + rest[i].1
            <= u64::MAX && rest[i].1 % 32 == 0 by {
            assert(rest[i] == runs[i + 1]);
        }
        assert forall|i: int| 0 <= i && 32 * i < offsets_of(rest).len() implies !scrub::unusable(
            dev.read(#[trigger] record_at(rest, i), 32),
        ) by {
            let j = i + len / 32;
            assert(all[32 * j] == offsets_of(rest)[32 * i]);
            assert(record_at(runs, j) == record_at(rest, i));
        }
        lemma_records_behind(dev, rest, now);
        let recs = scrub::directory_records(dev, rest, now)->0;
        assert(now.len() == have.len() + len / 32);
        assert forall|i: int| have.len() <= i < recs.len() implies (#[trigger] recs[i]).at
            == offsets_of(runs)[32 * (i - have.len())] && recs[i].data == dev.read(
            recs[i].at,
            32,
        ).data by {
            if i < now.len() {
                assert(recs[i] == now[i]);
                assert(now[i].at == at + 32 * (i - have.len()));
            } else {
                let d = 32 * (i - now.len());
                assert(offsets_of(rest)[d] == all[len + d]);
            }
        }
        assert forall|i: int| 0 <= i < have.len() implies #[trigger] recs[i] == have[i] by {
            assert(recs[i] == now[i]);
        }
    }
}

spec fn at_record(at: u64, i: int) -> u64 {
    (at + 32 * i) as u64
}

proof fn lemma_run_behind(dev: Device, at: int, i: int, len: int, have: Seq<SlotModel>)
    requires
        0 <= at,
        at + len <= u64::MAX,
        len % 32 == 0,
        0 <= 32 * i <= len,
        32 * have.len() + len - 32 * i <= 32 * 16384,
        forall|j: int|
            0 <= j && 32 * j < len ==> !scrub::unusable(
                dev.read(#[trigger] at_record(at as u64, j), 32),
            ),
    ensures
        scrub::run_records(dev, at + 32 * i, at + len, have) matches Some(recs) && {
            &&& 32 * recs.len() == 32 * have.len() + len - 32 * i
            &&& forall|j: int| 0 <= j < have.len() ==> #[trigger] recs[j] == have[j]
            &&& forall|j: int|
                have.len() <= j < recs.len() ==> (#[trigger] recs[j]).at == at + 32 * (i + j
                    - have.len()) && recs[j].data == dev.read(recs[j].at, 32).data
        },
    decreases len - 32 * i,
{
    if 32 * i < len {
        let off = at + 32 * i;
        assert(at_record(at as u64, i) == off);
        let r = dev.read(off as u64, 32);
        let now = have.push(SlotModel { at: off as u64, data: r.data });
        lemma_run_behind(dev, at, i + 1, len, now);
        let recs = scrub::run_records(dev, at + 32 * (i + 1), at + len, now)->0;
        assert(off + 32 == at + 32 * (i + 1));
        assert(recs[have.len() as int] == now[have.len() as int]);
        assert forall|j: int| 0 <= j < have.len() implies #[trigger] recs[j] == have[j] by {
            assert(recs[j] == now[j]);
        }
    }
}

/// Leaving out the record that the runs start with leaves all the bytes behind it.
pub proof fn lemma_past_the_first_record(runs: Seq<(u64, u64)>)
    requires
        runs.len() > 0,
        runs[0].1 >= 32,
        runs[0].0 + runs[0].1 <= u64::MAX,
    ensures
        offsets_of(scrub::runs_past_record(runs, runs[0].0)) == offsets_of(runs).skip(32),
{
    let (at, len) = runs[0];
    let rest = scrub::runs_past_record(runs, at);
    assert(rest.skip(1) =~= runs.skip(1));
    assert(rest[0] == ((at + 32) as u64, (len - 32) as u64));
    assert(offsets_of(rest) =~= offsets_of(runs).skip(32));
}

} // verus!
