//! What listing a FAT directory comes down to, said of its records.

use crate::common;
use crate::fat::directory;
use crate::fat::directory::{DirItemModel, DirSource};
use crate::fat::entry;
use crate::fat::finding::Finding;
use crate::fat::geometry::Geom;
use crate::fat::name;
use crate::runs;
use crate::scrub::{holds_image, SlotModel};
use crate::source::{clipped_read, window, Device};
use vstd::prelude::*;

verus! {

// ------------------------------------------------------------------------- records

/// The records of a directory are the bytes of its runs, 32 at a time and in order: on a
/// device that holds an image, the image's bytes, up to 16384 records.
pub proof fn lemma_listing_reads_every_record(dev: Device, image: Seq<u8>, runs: Seq<(u64, u64)>)
    requires
        holds_image(dev, image),
        image.len() <= u64::MAX,
        runs::tidy(runs),
        forall|i: int|
            0 <= i < runs.len() ==> (#[trigger] runs[i]).0 + runs[i].1 <= image.len() && runs[i].1
                <= 524288,
        runs::offsets_of(runs).len() <= 32 * 16384,
    ensures
        ({
            let (recs, refused) = directory::records_of(dev, runs, Seq::empty());
            &&& !refused
            &&& 32 * recs.len() == runs::offsets_of(runs).len()
            &&& forall|i: int|
                0 <= i < recs.len() ==> (#[trigger] recs[i]).at == runs::offsets_of(runs)[32 * i]
                    && recs[i].data == image.subrange(recs[i].at as int, recs[i].at + 32)
        }),
{
    lemma_records_behind(dev, image, runs, Seq::empty());
}

proof fn lemma_records_behind(
    dev: Device,
    image: Seq<u8>,
    runs: Seq<(u64, u64)>,
    have: Seq<SlotModel>,
)
    requires
        holds_image(dev, image),
        image.len() <= u64::MAX,
        runs::tidy(runs),
        forall|i: int|
            0 <= i < runs.len() ==> (#[trigger] runs[i]).0 + runs[i].1 <= image.len() && runs[i].1
                <= 524288,
        32 * have.len() + runs::offsets_of(runs).len() <= 32 * 16384,
    ensures
        ({
            let (recs, refused) = directory::records_of(dev, runs, have);
            &&& !refused
            &&& 32 * recs.len() == 32 * have.len() + runs::offsets_of(runs).len()
            &&& forall|i: int| 0 <= i < have.len() ==> #[trigger] recs[i] == have[i]
            &&& forall|i: int|
                have.len() <= i < recs.len() ==> (#[trigger] recs[i]).at == runs::offsets_of(
                    runs,
                )[32 * (i - have.len())] && recs[i].data == image.subrange(
                    recs[i].at as int,
                    recs[i].at + 32,
                )
        }),
    decreases runs.len(),
{
    if runs.len() > 0 {
        let (at, len) = runs[0];
        let rest = runs.skip(1);
        let all = runs::offsets_of(runs);
        assert(runs[0].0 + runs[0].1 <= image.len());
        assert(all =~= runs::piece(at as int, len as int) + runs::offsets_of(rest));
        assert forall|i: int| 0 <= i < rest.len() implies (#[trigger] rest[i]).0 + rest[i].1
            <= image.len() && rest[i].1 <= 524288 && rest[i].1 % 32 == 0 by {
            assert(rest[i] == runs[i + 1]);
        }
        if have.len() < 16384 {
            let r = dev.read(at, len);
            assert(r == clipped_read(image, at, len));
            let data = window(image, at as int, len as int);
            assert(data.len() == len);
            assert(directory::wanted(len) == len);
            lemma_with_records(have, at, data, 0);
            let now = directory::with_records(have, at, data, 0);
            assert(now.len() == have.len() + len / 32);
            lemma_records_behind(dev, image, rest, now);
            let recs = directory::records_of(dev, rest, now).0;
            assert forall|i: int| have.len() <= i < recs.len() implies (#[trigger] recs[i]).at
                == all[32 * (i - have.len())] && recs[i].data == image.subrange(
                recs[i].at as int,
                recs[i].at + 32,
            ) by {
                if i < now.len() {
                    let o = 32 * (i - have.len());
                    assert(recs[i] == now[i]);
                    assert(now[i].data =~= image.subrange(at + o, at + o + 32));
                } else {
                    let d = 32 * (i - now.len());
                    assert(runs::offsets_of(rest)[d] == all[len + d]);
                }
            }
            assert forall|i: int| 0 <= i < have.len() implies #[trigger] recs[i] == have[i] by {
                assert(recs[i] == now[i]);
            }
        } else {
            assert(all.len() == 0);
        }
    }
}

proof fn lemma_with_records(have: Seq<SlotModel>, off: u64, data: Seq<u8>, i: nat)
    requires
        data.len() % 32 == 0,
        32 * i <= data.len(),
        off + data.len() <= u64::MAX,
        32 * have.len() + data.len() - 32 * i <= 32 * 16384,
    ensures
        ({
            let now = directory::with_records(have, off, data, i);
            &&& 32 * now.len() == 32 * have.len() + data.len() - 32 * i
            &&& forall|j: int| 0 <= j < have.len() ==> #[trigger] now[j] == have[j]
            &&& forall|j: int|
                have.len() <= j < now.len() ==> (#[trigger] now[j]).at == off + 32 * (i + j
                    - have.len()) && now[j].data == data.subrange(
                    32 * (i + j - have.len()),
                    32 * (i + j - have.len()) + 32,
                )
        }),
    decreases data.len() - 32 * i,
{
    if 32 * i < data.len() {
        let x = SlotModel {
            at: common::saturated(off + 32 * i),
            data: data.subrange(32 * i as int, 32 * i as int + 32),
        };
        let more = have.push(x);
        lemma_with_records(more, off, data, i + 1);
        let now = directory::with_records(more, off, data, i + 1);
        assert(now[have.len() as int] == more[have.len() as int]);
        assert forall|j: int| 0 <= j < have.len() implies #[trigger] now[j] == have[j] by {
            assert(now[j] == more[j]);
        }
    }
}

// ---------------------------------------------------------------------------- rows

/// A record is free: nothing was ever stored there, or it ends the directory.
pub open spec fn free(rec: SlotModel) -> bool {
    rec.data[0] == 0
}

/// A record holds a part of a long name.
pub open spec fn fragment(rec: SlotModel) -> bool {
    rec.data[0] != 0 && (rec.data[11] == 0x0F || rec.data[11] == 0x4F || rec.data[11] == 0x8F
        || rec.data[11] == 0xCF)
}

/// Some record before `k` is free.
pub open spec fn ended_before(recs: Seq<SlotModel>, k: int) -> bool {
    exists|j: int| 0 <= j < k && free(#[trigger] recs[j])
}

/// The fragments that stand directly before record `k` are those from `s` on.
pub open spec fn run_before(recs: Seq<SlotModel>, s: int, k: int) -> bool {
    &&& 0 <= s <= k
    &&& forall|j: int| s <= j < k ==> fragment(#[trigger] recs[j])
    &&& s > 0 ==> !fragment(recs[s - 1])
}

/// Every record that is neither free nor a fragment has a row of its own, with the
/// fragments that stand directly before it, whether it is in use or deleted. It is marked
/// as lying past the end exactly when a free record comes before it.
pub proof fn lemma_every_name_has_its_row(
    dev: Device,
    g: Geom,
    recs: Seq<SlotModel>,
    depth: u32,
    s: int,
    k: int,
)
    requires
        0 <= k < recs.len(),
        !free(recs[k]),
        !fragment(recs[k]),
        run_before(recs, s, k),
    ensures
        directory::items_of(dev, g, recs, depth).contains(
            DirItemModel::File(
                entry::file_of(
                    dev,
                    g,
                    recs[k],
                    recs.subrange(s, k),
                    depth,
                    ended_before(recs, k),
                ),
            ),
        ),
{
    assert(recs.subrange(0, 0) =~= Seq::<SlotModel>::empty());
    lemma_row_from(dev, g, recs, depth, 0, 0, false, 0, s, k);
}

proof fn lemma_row_from(
    dev: Device,
    g: Geom,
    recs: Seq<SlotModel>,
    depth: u32,
    p: int,
    i: int,
    ended: bool,
    blanks: nat,
    s: int,
    k: int,
)
    requires
        0 <= i <= k < recs.len(),
        run_before(recs, p, i),
        ended == ended_before(recs, i),
        !free(recs[k]),
        !fragment(recs[k]),
        run_before(recs, s, k),
    ensures
        directory::items_from(dev, g, depth, recs, i as nat, recs.subrange(p, i), ended, blanks).contains(
            DirItemModel::File(
                entry::file_of(
                    dev,
                    g,
                    recs[k],
                    recs.subrange(s, k),
                    depth,
                    ended_before(recs, k),
                ),
            ),
        ),
    decreases k - i,
{
    broadcast use vstd::seq_lib::lemma_seq_concat_contains_all_elements;

    let rec = recs[i];
    let row = DirItemModel::File(
        entry::file_of(dev, g, recs[k], recs.subrange(s, k), depth, ended_before(recs, k)),
    );
    assert(rec.data[11] % 64 == 15 <==> rec.data[11] == 0x0F || rec.data[11] == 0x4F || rec.data[11]
        == 0x8F || rec.data[11] == 0xCF);
    if i == k {
        assert(s == p) by {
            if s < p {
                assert(fragment(recs[p - 1]));
            }
            if p < s {
                assert(fragment(recs[s - 1]));
            }
        }
        let rest = directory::items_from(
            dev,
            g,
            depth,
            recs,
            (i + 1) as nat,
            Seq::empty(),
            ended,
            blanks,
        );
        let all = seq![row] + rest;
        assert(all[0] == row);
        assert(all.contains(row));
    } else {
        assert(ended_before(recs, i + 1) == (ended || free(rec))) by {
            if free(rec) {
                assert(free(recs[i]));
            }
            if ended_before(recs, i) {
                let j = choose|j: int| 0 <= j < i && free(#[trigger] recs[j]);
                assert(free(recs[j]));
            }
        }
        if free(rec) {
            assert(recs.subrange(i + 1, i + 1) =~= Seq::<SlotModel>::empty());
            assert(run_before(recs, i + 1, i + 1));
            lemma_row_from(
                dev,
                g,
                recs,
                depth,
                i + 1,
                i + 1,
                true,
                if ended && directory::blank(rec.data) { blanks + 1 } else { blanks },
                s,
                k,
            );
        } else if fragment(rec) {
            assert(recs.subrange(p, i).push(rec) =~= recs.subrange(p, i + 1));
            lemma_row_from(dev, g, recs, depth, p, i + 1, ended, blanks, s, k);
        } else {
            assert(recs.subrange(i + 1, i + 1) =~= Seq::<SlotModel>::empty());
            assert(run_before(recs, i + 1, i + 1));
            lemma_row_from(dev, g, recs, depth, i + 1, i + 1, ended, blanks, s, k);
        }
    }
}

/// The first free record is shown as the end of the directory, and whatever a free record
/// still holds is shown as residue.
pub proof fn lemma_free_records_are_shown(
    dev: Device,
    g: Geom,
    recs: Seq<SlotModel>,
    depth: u32,
    k: int,
    x: int,
)
    requires
        0 <= k < recs.len(),
        free(recs[k]),
    ensures
        !ended_before(recs, k) ==> directory::items_of(dev, g, recs, depth).contains(
            DirItemModel::End { at: recs[k].at, blank: directory::blank(recs[k].data) },
        ),
        0 <= x < recs[k].data.len() && recs[k].data[x] != 0 ==> directory::items_of(
            dev,
            g,
            recs,
            depth,
        ).contains(DirItemModel::Residue(entry::entry_record(g, recs[k]))),
{
    assert(recs.subrange(0, 0) =~= Seq::<SlotModel>::empty());
    lemma_free_from(dev, g, recs, depth, Seq::empty(), 0, false, 0, k, x);
}

proof fn lemma_free_from(
    dev: Device,
    g: Geom,
    recs: Seq<SlotModel>,
    depth: u32,
    pending: Seq<SlotModel>,
    i: int,
    ended: bool,
    blanks: nat,
    k: int,
    x: int,
)
    requires
        0 <= i <= k < recs.len(),
        ended == ended_before(recs, i),
        free(recs[k]),
    ensures
        !ended_before(recs, k) ==> directory::items_from(
            dev,
            g,
            depth,
            recs,
            i as nat,
            pending,
            ended,
            blanks,
        ).contains(DirItemModel::End { at: recs[k].at, blank: directory::blank(recs[k].data) }),
        0 <= x < recs[k].data.len() && recs[k].data[x] != 0 ==> directory::items_from(
            dev,
            g,
            depth,
            recs,
            i as nat,
            pending,
            ended,
            blanks,
        ).contains(DirItemModel::Residue(entry::entry_record(g, recs[k]))),
    decreases k - i,
{
    broadcast use vstd::seq_lib::lemma_seq_concat_contains_all_elements;

    let rec = recs[i];
    if i == k {
        let end = DirItemModel::End { at: recs[k].at, blank: directory::blank(recs[k].data) };
        let left = DirItemModel::Residue(entry::entry_record(g, recs[k]));
        assert(seq![end][0] == end);
        assert(seq![end].contains(end));
        assert(seq![left][0] == left);
        assert(seq![left].contains(left));
    } else {
        assert(ended_before(recs, i + 1) == (ended || free(rec))) by {
            if free(rec) {
                assert(free(recs[i]));
            }
            if ended_before(recs, i) {
                let j = choose|j: int| 0 <= j < i && free(#[trigger] recs[j]);
                assert(free(recs[j]));
            }
        }
        if free(rec) {
            lemma_free_from(
                dev,
                g,
                recs,
                depth,
                Seq::empty(),
                i + 1,
                true,
                if ended && directory::blank(rec.data) { blanks + 1 } else { blanks },
                k,
                x,
            );
        } else if rec.data[11] % 64 == 15 {
            lemma_free_from(dev, g, recs, depth, pending.push(rec), i + 1, ended, blanks, k, x);
        } else {
            lemma_free_from(dev, g, recs, depth, Seq::empty(), i + 1, ended, blanks, k, x);
        }
    }
}

// --------------------------------------------------------------------------- files

/// What a record says of its file: where its contents start, whether it is deleted, and
/// whether they are followed as a chain or entered as a directory. A directory's own two
/// entries and a volume label lead nowhere, and nothing is entered below 64 levels.
pub proof fn lemma_what_a_record_says(
    dev: Device,
    g: Geom,
    rec: SlotModel,
    run: Seq<SlotModel>,
    depth: u32,
    past_end: bool,
)
    requires
        rec.data.len() == 32,
    ensures
        ({
            let b = rec.data;
            let f = entry::file_of(dev, g, rec, run, depth, past_end);
            let c = b[26] + 256 * b[27] + 65536 * b[20] + 16777216 * b[21];
            let label = (b[11] / 8) % 2 == 1;
            let directory = (b[11] / 16) % 2 == 1;
            let dots = b[0] == '.' as u8 && (b[1] == '.' as u8 || b[1] == ' ' as u8)
                && b.subrange(2, 11) == Seq::new(9, |i: int| ' ' as u8);
            &&& f.deleted <==> b[0] == 0xE5
            &&& f.first_cluster.cluster == c
            &&& f.first_cluster.at == g.cluster_at(c)
            &&& f.chain is Some <==> g.sane && 2 <= c <= g.last() && !label && !dots
            &&& f.chain matches Some(x) ==> x.start == c && x.geom == g
            &&& f.contents is Some <==> f.chain is Some && directory && depth < 64
            &&& f.contents matches Some(x) ==> x.dir.source == DirSource::Chain(c as u64) && x.dir.depth
                == depth + 1 && x.dir.geom == g
            &&& f.spans.len() == 1 + run.len()
            &&& f.spans[0].at == rec.at && f.spans[0].len == 32
            &&& f.findings.contains(Finding::Deleted) <==> f.deleted
            &&& f.findings.contains(Finding::PastEnd) <==> past_end && !f.deleted
            &&& f.findings.contains(Finding::LabelWithCluster) <==> label && c != 0
        }),
{
    broadcast use vstd::seq_lib::lemma_seq_concat_contains_all_elements;
    broadcast use lemma_when;

    let b = rec.data;
    let pad = Seq::new(9, |i: int| ' ' as u8);
    let tail = b.subrange(2, 11);
    assert(forall|i: int| 2 <= i < 11 ==> #[trigger] b[i] == tail[i - 2]);
    if forall|i: int| 2 <= i < 11 ==> #[trigger] b[i] == 0x20 {
        assert(tail =~= pad);
    }
    if tail == pad {
        assert forall|i: int| 2 <= i < 11 implies #[trigger] b[i] == 0x20 by {
            assert(pad[i - 2] == 0x20);
        }
    }
}

broadcast proof fn lemma_when(cond: bool, f: Finding, g: Finding)
    ensures
        #[trigger] crate::fat::finding::when(cond, f).contains(g) <==> cond && g == f,
{
    if cond && g == f {
        assert(crate::fat::finding::when(cond, f)[0] == g);
    }
}

/// A deleted record is told what the FAT says of the cluster it names: released, kept, or
/// not to be read. One outside the volume is told so, deleted or not.
pub proof fn lemma_first_cluster_is_judged(dev: Device, g: Geom, c: u64, deleted: bool)
    ensures
        ({
            let told = entry::cluster_finding(dev, g, c, deleted);
            let v = crate::fat::chain::entry_of(dev, g, 0, c as int);
            let inside = g.sane && 2 <= c <= g.last();
            &&& told is Some && told->0 is ClusterOutside <==> c != 0 && !inside
            &&& told == Some(Finding::ChainReleased { cluster: c }) <==> inside && deleted && v == Some(
                0u32,
            )
            &&& told is Some && told->0 is ChainKept <==> inside && deleted && v is Some && v != Some(
                0u32,
            )
            &&& told == Some(Finding::ChainUnknown { cluster: c }) <==> inside && deleted && v is None
            &&& told is None <==> c == 0 || (inside && !deleted)
        }),
{
}

// --------------------------------------------------------------------------- names

/// The text of a short name: its base, and where it has an extension a dot and that, each
/// without the spaces that pad it. A name whose first byte the delete overwrote shows a
/// question mark there.
pub proof fn lemma_short_name_is_base_dot_extension(b: Seq<u8>, k: nat, m: nat)
    requires
        b.len() == 32,
        (b[11] / 8) % 2 == 0,
        1 <= k <= 8,
        m <= 3,
        b[0] != 0x05,
        b[0] == 0xE5 || 0x21 <= b[0] <= 0x7E,
        forall|i: int| 1 <= i < k ==> 0x20 <= #[trigger] b[i] <= 0x7E,
        k > 1 ==> b[k - 1] != 0x20,
        forall|i: int| k <= i < 8 ==> #[trigger] b[i] == 0x20,
        forall|i: int| 8 <= i < 8 + m ==> 0x20 <= #[trigger] b[i] <= 0x7E,
        m > 0 ==> b[7 + m as int] != 0x20,
        forall|i: int| 8 + m <= i < 11 ==> #[trigger] b[i] == 0x20,
    ensures
        ({
            let base = Seq::new(k, |i: int| if i == 0 && b[0] == 0xE5 { '?' } else { b[i] as char });
            let ext = Seq::new(m, |i: int| b[8 + i] as char);
            name::short_text(b) == if m == 0 { base } else { base + seq!['.'] + ext }
        }),
{
    reveal_strlit(".");
    let n = b.take(11).update(0, name::shown_first(b[0]));
    let x = n.subrange(0, 8);
    let y = n.subrange(8, 11);
    assert forall|i: int| k <= i < 8 implies #[trigger] x[i] == 0x20 by {
        assert(x[i] == b[i]);
    }
    assert(x[k - 1] != 0x20) by {
        if k == 1 {
            assert(x[0] == name::shown_first(b[0]));
        } else {
            assert(x[k - 1] == b[k - 1]);
        }
    }
    lemma_unpadded(x, k);
    assert forall|i: int| m <= i < 3 implies #[trigger] y[i] == 0x20 by {
        assert(y[i] == b[8 + i]);
    }
    if m > 0 {
        assert(y[m - 1] == b[7 + m as int]);
    }
    lemma_unpadded(y, m);
    let base = Seq::new(k, |i: int| if i == 0 && b[0] == 0xE5 { '?' } else { b[i] as char });
    let ext = Seq::new(m, |i: int| b[8 + i] as char);
    assert forall|i: int| 0 <= i < k implies name::part_text(x)[i] == base[i] by {
        assert(x.take(k as int)[i] == x[i]);
        if i > 0 {
            assert(x[i] == b[i]);
        }
    }
    assert(name::part_text(x) =~= base);
    assert forall|i: int| 0 <= i < m implies name::part_text(y)[i] == ext[i] by {
        assert(y.take(m as int)[i] == y[i]);
        assert(y[i] == b[8 + i]);
    }
    assert(name::part_text(y) =~= ext);
    assert("."@ =~= seq!['.']);
}

proof fn lemma_unpadded(x: Seq<u8>, k: nat)
    requires
        k <= x.len(),
        forall|i: int| k <= i < x.len() ==> #[trigger] x[i] == 0x20,
        k > 0 ==> x[k - 1] != 0x20,
    ensures
        name::unpadded(x) == x.take(k as int),
    decreases x.len(),
{
    if k < x.len() {
        assert(x.last() == x[x.len() - 1]);
        lemma_unpadded(x.drop_last(), k);
        assert(x.drop_last().take(k as int) =~= x.take(k as int));
    } else {
        assert(x.take(k as int) =~= x);
    }
}

/// Where the thirteen code units of a fragment stand.
pub open spec fn unit_places() -> Seq<int> {
    seq![1, 3, 5, 7, 9, 14, 16, 18, 20, 22, 24, 28, 30]
}

/// A fragment spells its thirteen code units in their places, low byte first, up to the
/// first that is all zeroes or all ones.
pub proof fn lemma_fragment_units_in_their_places(b: Seq<u8>)
    requires
        b.len() == 32,
    ensures
        ({
            let units = name::units_from(b, 0);
            &&& units.len() <= 13
            &&& forall|i: int|
                0 <= i < units.len() ==> (#[trigger] units[i] == b[unit_places()[i]] + 256
                    * b[unit_places()[i] + 1] && units[i] != 0 && units[i] != 0xFFFF)
            &&& units.len() < 13 ==> {
                let at = unit_places()[units.len() as int];
                (b[at] == 0 && b[at + 1] == 0) || (b[at] == 0xFF && b[at + 1] == 0xFF)
            }
        }),
{
    lemma_units_from(b, 0);
}

proof fn lemma_units_from(b: Seq<u8>, i: nat)
    requires
        b.len() == 32,
        i <= 13,
    ensures
        ({
            let units = name::units_from(b, i);
            &&& i + units.len() <= 13
            &&& forall|j: int|
                0 <= j < units.len() ==> (#[trigger] units[j] == b[unit_places()[i + j]] + 256
                    * b[unit_places()[i + j] + 1] && units[j] != 0 && units[j] != 0xFFFF)
            &&& i + units.len() < 13 ==> {
                let at = unit_places()[i + units.len() as int];
                (b[at] == 0 && b[at + 1] == 0) || (b[at] == 0xFF && b[at + 1] == 0xFF)
            }
        }),
    decreases 13 - i,
{
    if i < 13 {
        lemma_units_from(b, i + 1);
        assert(unit_places()[i as int] == name::unit_offset(i as int));
        let rest = name::units_from(b, i + 1);
        let all = name::units_from(b, i);
        if all.len() > 0 {
            assert(all.len() == 1 + rest.len());
            assert forall|j: int| 0 <= j < all.len() implies (#[trigger] all[j] == b[unit_places()[i
                + j]] + 256 * b[unit_places()[i + j] + 1] && all[j] != 0 && all[j] != 0xFFFF) by {
                if j > 0 {
                    assert(all[j] == rest[j - 1]);
                }
            }
        }
    }
}

/// A long name is spelled by its fragments from the last to the first: one more in front of
/// the name's own record comes at the front of the text.
pub proof fn lemma_long_name_runs_backwards(run: Seq<SlotModel>, x: SlotModel)
    ensures
        entry::long_text(Seq::empty()) == Seq::<char>::empty(),
        entry::long_text(run.push(x)) == name::chunk_text(x.data) + entry::long_text(run),
{
    assert(run.push(x).drop_last() =~= run);
}

/// The bytes that could have been the first of a deleted name are all those, from the
/// space up, with which the name has the sum that its fragments carry.
pub proof fn lemma_candidates_are_all(n: Seq<u8>, want: u8, c: u8)
    ensures
        name::candidates(n, want, 0x100).contains(c) <==> c >= 0x20 && name::name_sum(n.update(0, c))
            == want,
{
    lemma_candidates_below(n, want, 0x100, c);
}

proof fn lemma_candidates_below(n: Seq<u8>, want: u8, top: int, c: u8)
    requires
        top <= 0x100,
    ensures
        name::candidates(n, want, top).contains(c) <==> 0x20 <= c < top && name::name_sum(
            n.update(0, c),
        ) == want,
    decreases top,
{
    if top > 0x20 {
        lemma_candidates_below(n, want, top - 1, c);
        let before = name::candidates(n, want, top - 1);
        let all = name::candidates(n, want, top);
        if name::name_sum(n.update(0, (top - 1) as u8)) == want {
            assert(all == before.push((top - 1) as u8));
            assert(all[before.len() as int] == top - 1);
            if before.contains(c) {
                let i = choose|i: int| 0 <= i < before.len() && before[i] == c;
                assert(all[i] == c);
            }
            if all.contains(c) {
                let i = choose|i: int| 0 <= i < all.len() && all[i] == c;
                if i < before.len() {
                    assert(before[i] == c);
                }
            }
        }
    } else {
        assert(name::candidates(n, want, top) =~= Seq::<u8>::empty());
    }
}

/// A volume label is all eleven bytes, without the spaces at the end and without a dot.
pub proof fn lemma_volume_label_is_one_text(b: Seq<u8>, k: nat)
    requires
        b.len() == 32,
        (b[11] / 8) % 2 == 1,
        b[11] % 64 != 15,
        1 <= k <= 11,
        b[0] != 0xE5,
        b[0] != 0x05,
        forall|i: int| 0 <= i < k ==> 0x20 <= #[trigger] b[i] <= 0x7E,
        b[k - 1] != 0x20,
        forall|i: int| k <= i < 11 ==> #[trigger] b[i] == 0x20,
    ensures
        name::short_text(b) == Seq::new(k, |i: int| b[i] as char),
{
    let n = b.take(11).update(0, name::shown_first(b[0]));
    assert(n =~= b.take(11));
    assert forall|i: int| k <= i < 11 implies #[trigger] n[i] == 0x20 by {
        assert(n[i] == b[i]);
    }
    assert(n[k - 1] == b[k - 1]);
    lemma_unpadded(n, k);
    let want = Seq::new(k, |i: int| b[i] as char);
    assert forall|i: int| 0 <= i < k implies name::part_text(n)[i] == want[i] by {
        assert(n.take(k as int)[i] == n[i]);
        assert(n[i] == b[i]);
    }
    assert(name::part_text(n) =~= want);
}

/// What a row is called: the long name where there is one and the short name where not, with
/// a slash behind a directory and a word behind what is deleted or a label.
pub proof fn lemma_row_labels(b: Seq<u8>, run: Seq<SlotModel>)
    requires
        b.len() == 32,
        !entry::dotted(name::short_text(b)),
    ensures
        ({
            let shown = if entry::long_text(run).len() > 0 {
                entry::long_text(run)
            } else {
                name::short_text(b)
            };
            let label = (b[11] / 8) % 2 == 1;
            let directory = !label && (b[11] / 16) % 2 == 1;
            let deleted = b[0] == 0xE5;
            &&& deleted && directory ==> entry::label_of(b, run) == shown + " (deleted directory)"@
            &&& deleted && !directory ==> entry::label_of(b, run) == shown + " (deleted)"@
            &&& !deleted && directory ==> entry::label_of(b, run) == shown + "/"@
            &&& !deleted && label ==> entry::label_of(b, run) == shown + " (volume label)"@
            &&& !deleted && !label && !directory ==> entry::label_of(b, run) == shown
        }),
{
    reveal_strlit("");
    let shown = if entry::long_text(run).len() > 0 {
        entry::long_text(run)
    } else {
        name::short_text(b)
    };
    assert(shown + ""@ =~= shown);
}

/// What a fragment is told of its place: a deleted one has lost its number; the first that is
/// stored carries the mark of the last, and no other does.
pub proof fn lemma_fragment_places_are_judged(order: u8, i: int)
    requires
        i >= 0,
    ensures
        ({
            let told = entry::order_findings(order, i);
            let last = (order / 64) % 2 == 1;
            &&& told.contains(Finding::SequenceLost) <==> order == 0xE5
            &&& told.contains(Finding::NoLastBit) <==> order != 0xE5 && i == 0 && !last
            &&& told.contains(Finding::SplicedRun) <==> order != 0xE5 && i > 0 && last
        }),
{
    broadcast use lemma_when;

    assert(seq![Finding::SequenceLost][0] == Finding::SequenceLost);
}

/// A fragment's sum is held against the sum of the short name. Where it is not the same, a
/// name in use has somebody else's fragment; a deleted one has lost its first letter, which
/// comes back when only one letter gives that sum.
pub proof fn lemma_fragment_sums_are_judged(stored: u8, sum: u8, deleted: bool, found: Seq<u8>)
    ensures
        ({
            let told = entry::sum_findings(stored, sum, deleted, found);
            &&& told.len() == 0 <==> stored == sum
            &&& told.len() == 1 && told[0] is SumRestorable <==> stored != sum && deleted && found.len()
                == 1
            &&& told.len() == 1 && told[0] is SumDestroyed <==> stored != sum && deleted && found.len()
                != 1
            &&& told.len() == 1 && told[0] is SumAlien <==> stored != sum && !deleted
            &&& told.len() == 1 && told[0] is SumRestorable ==> told[0]->SumRestorable_byte == found[0]
        }),
{
}

/// A name with fragments is told that they survive its delete, which letter it lost where
/// that is sure, and when they are not its own.
pub proof fn lemma_groups_are_judged(b: Seq<u8>, run: Seq<SlotModel>)
    requires
        b.len() == 32,
        run.len() > 0,
    ensures
        ({
            let told = entry::group_findings(b, run);
            let deleted = b[0] == 0xE5;
            let own = run[0].data[13] == name::name_sum(b.take(11));
            let found = name::candidates(b.take(11), run[0].data[13], 0x100);
            &&& told.contains(Finding::LongNameSurvives) <==> deleted
            &&& told.contains(Finding::AlienLongName) <==> !deleted && !own
            &&& deleted && !own && found.len() == 1 ==> told.contains(
                Finding::FirstCharacter { byte: found[0], stored_sum: run[0].data[13] },
            )
            &&& entry::recovered_of(b, run) == if deleted && !own { found } else { Seq::empty() }
        }),
        entry::group_findings(b, Seq::empty()).len() == 0,
{
    broadcast use vstd::seq_lib::lemma_seq_concat_contains_all_elements;
    broadcast use lemma_when;

    assert(seq![Finding::LongNameSurvives][0] == Finding::LongNameSurvives);
    let recovered = entry::recovered_of(b, run);
    let told = entry::group_findings(b, run);
    if b[0] == 0xE5 {
        assert(seq![Finding::LongNameSurvives].contains(Finding::LongNameSurvives));
        assert(told == seq![Finding::LongNameSurvives] + crate::fat::finding::when(
            recovered.len() == 1,
            Finding::FirstCharacter { byte: recovered[0], stored_sum: run[0].data[0x0D] },
        ));
        assert(!seq![Finding::LongNameSurvives].contains(Finding::AlienLongName));
    }
}

// -------------------------------------------------------------------- orphans and lists

/// A fragment that no name follows is shown as an orphan, with what it spells and the sum it
/// carries: where a free record or the end of the directory comes behind its run.
pub proof fn lemma_fragments_without_a_name_are_shown(
    dev: Device,
    g: Geom,
    recs: Seq<SlotModel>,
    depth: u32,
    k: int,
    e: int,
)
    requires
        0 <= k < e <= recs.len(),
        forall|j: int| k <= j < e ==> fragment(#[trigger] recs[j]),
        e < recs.len() ==> free(recs[e]),
    ensures
        directory::items_of(dev, g, recs, depth).contains(
            DirItemModel::Orphan(entry::orphan_of(g, recs[k])),
        ),
        entry::orphan_of(g, recs[k]).sum == recs[k].data[13],
        entry::orphan_of(g, recs[k]).chunk == name::chunk_text(recs[k].data),
{
    lemma_orphan_from(dev, g, recs, depth, Seq::empty(), 0, false, 0, k, e);
}

proof fn lemma_orphan_from(
    dev: Device,
    g: Geom,
    recs: Seq<SlotModel>,
    depth: u32,
    pending: Seq<SlotModel>,
    i: int,
    ended: bool,
    blanks: nat,
    k: int,
    e: int,
)
    requires
        0 <= i <= e,
        0 <= k < e <= recs.len(),
        forall|j: int| k <= j < e ==> fragment(#[trigger] recs[j]),
        e < recs.len() ==> free(recs[e]),
        i > k ==> pending.contains(recs[k]),
    ensures
        directory::items_from(dev, g, depth, recs, i as nat, pending, ended, blanks).contains(
            DirItemModel::Orphan(entry::orphan_of(g, recs[k])),
        ),
    decreases e - i,
{
    broadcast use vstd::seq_lib::lemma_seq_concat_contains_all_elements;

    let row = DirItemModel::Orphan(entry::orphan_of(g, recs[k]));
    if i == e {
        let x = choose|x: int| 0 <= x < pending.len() && pending[x] == recs[k];
        let shown = directory::orphans(g, pending);
        assert(shown[x] == row);
        assert(shown.contains(row));
    } else {
        let rec = recs[i];
        assert(rec.data[11] % 64 == 15 <==> rec.data[11] == 0x0F || rec.data[11] == 0x4F || rec.data[11]
            == 0x8F || rec.data[11] == 0xCF);
        if free(rec) {
            assert(i < k) by {
                if i >= k {
                    assert(fragment(recs[i]));
                }
            }
            lemma_orphan_from(
                dev,
                g,
                recs,
                depth,
                Seq::empty(),
                i + 1,
                true,
                if ended && directory::blank(rec.data) { blanks + 1 } else { blanks },
                k,
                e,
            );
        } else if fragment(rec) {
            let more = pending.push(rec);
            if i == k {
                assert(more[pending.len() as int] == recs[k]);
            } else if i > k {
                let x = choose|x: int| 0 <= x < pending.len() && pending[x] == recs[k];
                assert(more[x] == recs[k]);
            }
            lemma_orphan_from(dev, g, recs, depth, more, i + 1, ended, blanks, k, e);
        } else {
            assert(i < k) by {
                if i >= k {
                    assert(fragment(recs[i]));
                }
            }
            lemma_orphan_from(dev, g, recs, depth, Seq::empty(), i + 1, ended, blanks, k, e);
        }
    }
}

/// A directory's listing is the rows of the records it holds; it says when the directory is
/// nowhere, and when a part of it could not be read.
pub proof fn lemma_listing_of_a_directory(d: directory::DirExpander, dev: Device)
    ensures
        ({
            let l = d.listing(dev);
            let (recs, refused) = directory::records_of(dev, d.runs(dev), Seq::empty());
            &&& d.runs(dev).len() == 0 ==> l.finding == Some(Finding::NoExtent) && l.items.len() == 0
            &&& d.runs(dev).len() > 0 ==> l.items == directory::items_of(dev, d.geom, recs, d.depth)
                && (l.finding == Some(Finding::DirectoryUnreadable) <==> refused) && (l.finding is None
                <==> !refused)
        }),
        d.source matches DirSource::Fixed(off, len) ==> d.runs(dev) == seq![(off, len)],
        d.source matches DirSource::Chain(start) ==> {
            let clusters = crate::fat::chain::chain_of(dev, d.geom, start, 4096).0;
            d.runs(dev) == directory::runs_of(d.geom, clusters, clusters.len()).0
        },
{
}

/// The bytes that make up a row: the record of the name, and each of its fragments.
pub proof fn lemma_bytes_of_a_row(
    dev: Device,
    g: Geom,
    rec: SlotModel,
    run: Seq<SlotModel>,
    depth: u32,
    past_end: bool,
    i: int,
)
    requires
        rec.at + 32 <= u64::MAX,
        0 <= i < run.len(),
    ensures
        ({
            let f = entry::file_of(dev, g, rec, run, depth, past_end);
            &&& f.spans[i + 1].at == run[i].at
            &&& f.spans[i + 1].len == 32
            &&& f.spans[i + 1].whole_bytes
            &&& f.fragments.len() == run.len()
            &&& f.fragments[i].stored == run[i].data[13]
            &&& f.fragments[i].computed == name::name_sum(rec.data.take(11))
            &&& f.run_sum == Some(run[0].data[13])
            &&& f.first_cluster.high.at == rec.at + 20
            &&& f.first_cluster.low.at == rec.at + 26
        }),
{
}

} // verus!
