//! Overwriting recoverable directory records.
//!
//! Nothing here writes. A plan describes what would change, what goes, what stays
//! and what to read first; whoever holds the device carries it out.

use crate::bytes;
use crate::common;
use crate::extent::Span;
use crate::source::{clipped_read, window, BlockSource, Device, ReadOutcome, Reading};
use crate::status::Status;
use crate::text;
use crate::text::Text;
use vstd::prelude::*;

verus! {

/// Directory records of every format here are this long.
pub const RECORD_SIZE: u64 = 32;

/// A directory longer than this is corrupt or hostile; the scan behind the zero guard
/// has to terminate either way.
pub const MAX_SCAN_CLUSTERS: usize = 4096;

/// A directory holding more records than this is not one to rewrite at once.
pub const MAX_DIR_RECORDS: usize = 16384;

/// What a deleted record is overwritten with.
#[derive(Clone, Copy, Debug, PartialEq, Eq, Structural)]
pub enum Fill {
    /// The marker byte stays, the rest becomes zero.
    Neutral,
    /// Everything becomes zero.
    Zero,
}

/// What to scrub.
#[derive(Clone, Copy, Debug, PartialEq, Eq, Structural)]
pub enum ScrubMode {
    /// The selected records.
    Record(Fill),
    /// Every deleted record of a directory, in place.
    Sweep,
    /// Every deleted record of a directory, closing the gaps.
    Compact,
}

/// How a record reads right now.
#[derive(Clone, Copy, Debug, PartialEq, Eq, Structural)]
pub enum RecordClass {
    Free,
    Deleted,
    Live,
}

/// Which byte of a record says what it is.
#[derive(Clone, Copy, Debug, PartialEq, Eq, Structural)]
pub enum Marker {
    /// 0x00 is free, 0xE5 is deleted, anything else is live.
    Fat,
    /// 0x00 is free; bit 7 tells live from deleted.
    Exfat,
}

impl Marker {
    /// The class of a record with this first byte.
    pub open spec fn of_byte(self, b: u8) -> RecordClass {
        if b == 0 {
            RecordClass::Free
        } else {
            match self {
                Marker::Fat => if b == 0xE5 {
                    RecordClass::Deleted
                } else {
                    RecordClass::Live
                },
                Marker::Exfat => if b >= 0x80 {
                    RecordClass::Live
                } else {
                    RecordClass::Deleted
                },
            }
        }
    }

    /// The class of a record.
    pub open spec fn class_of(self, record: Seq<u8>) -> RecordClass {
        if record.len() == 0 {
            RecordClass::Free
        } else {
            self.of_byte(record[0])
        }
    }

    /// How a record reads right now. Only the marker byte distinguishes a live record
    /// from a deleted one, so the conservative reading is the safe one.
    pub fn classify(&self, record: &[u8]) -> (r: RecordClass)
        ensures
            r == self.class_of(record@),
    {
        if record.len() == 0 {
            return RecordClass::Free;
        }
        let b: u8 = record[0];
        if b == 0 {
            RecordClass::Free
        } else {
            match *self {
                Marker::Fat => if b == 0xE5 {
                    RecordClass::Deleted
                } else {
                    RecordClass::Live
                },
                Marker::Exfat => if b >= 0x80 {
                    RecordClass::Live
                } else {
                    RecordClass::Deleted
                },
            }
        }
    }
}

// -------------------------------------------------------------------- records

/// A record and where it lies.
#[derive(Debug)]
pub struct Slot {
    pub at: u64,
    pub data: Vec<u8>,
}

/// What a [`Slot`] says.
pub struct SlotModel {
    pub at: u64,
    pub data: Seq<u8>,
}

impl View for Slot {
    type V = SlotModel;

    open spec fn view(&self) -> SlotModel {
        SlotModel { at: self.at, data: self.data@ }
    }
}

/// The models of a list of records.
pub open spec fn slots(s: Seq<Slot>) -> Seq<SlotModel> {
    Seq::new(s.len(), |i: int| s[i]@)
}

/// A read that did not give a whole record.
pub open spec fn unusable(r: Reading) -> bool {
    r.refused() || r.data.len() != RECORD_SIZE
}

/// The records from `off` up to `end`, after `have`. `None` when one of them cannot be
/// read, or when there are too many.
pub open spec fn run_records(dev: Device, off: int, end: int, have: Seq<SlotModel>) -> Option<
    Seq<SlotModel>,
>
    decreases end - off,
{
    if off + RECORD_SIZE > end {
        Some(have)
    } else if have.len() >= MAX_DIR_RECORDS {
        None
    } else {
        let r = dev.read(off as u64, RECORD_SIZE);
        if unusable(r) {
            None
        } else {
            run_records(
                dev,
                off + RECORD_SIZE,
                end,
                have.push(SlotModel { at: off as u64, data: r.data }),
            )
        }
    }
}

/// The records of all the runs, after `have`.
pub open spec fn directory_records(
    dev: Device,
    runs: Seq<(u64, u64)>,
    have: Seq<SlotModel>,
) -> Option<Seq<SlotModel>>
    decreases runs.len(),
{
    if runs.len() == 0 {
        Some(have)
    } else {
        let end = common::saturated(runs[0].0 + runs[0].1);
        match run_records(dev, runs[0].0 as int, end as int, have) {
            Some(now) => directory_records(dev, runs.skip(1), now),
            None => None,
        }
    }
}

proof fn lemma_slots_push(s: Seq<Slot>, x: Slot)
    ensures
        slots(s.push(x)) =~= slots(s).push(x@),
{
}

fn read_run<S: BlockSource>(src: &S, at: u64, end: u64, out: &mut Vec<Slot>) -> (ok: bool)
    ensures
        match run_records(src.device(), at as int, end as int, slots(old(out)@)) {
            Some(now) => ok && slots(final(out)@) == now,
            None => !ok,
        },
{
    let ghost whole = run_records(src.device(), at as int, end as int, slots(old(out)@));
    let mut off: u64 = at;
    while end >= RECORD_SIZE && off <= end - RECORD_SIZE
        invariant_except_break
            whole == run_records(src.device(), off as int, end as int, slots(out@)),
        invariant
            whole == run_records(src.device(), at as int, end as int, slots(old(out)@)),
        ensures
            whole == Some(slots(out@)),
        decreases end - off,
    {
        if out.len() >= MAX_DIR_RECORDS {
            return false;
        }
        let (b, outcome) = src.read_vec(off, RECORD_SIZE);
        if outcome == ReadOutcome::Unreadable || b.len() as u64 != RECORD_SIZE {
            return false;
        }
        let slot = Slot { at: off, data: b };
        proof {
            lemma_slots_push(out@, slot);
        }
        out.push(slot);
        if off > u64::MAX - RECORD_SIZE {
            break;
        }
        off = off + RECORD_SIZE;
    }
    true
}

/// Read every record of a directory, end marker or not. `None` when one of them cannot
/// be read, or when there are more than [`MAX_DIR_RECORDS`]: rewriting a directory that
/// was not read in full is not on.
pub fn read_records<S: BlockSource>(src: &S, runs: &[(u64, u64)]) -> (r: Option<Vec<Slot>>)
    ensures
        match directory_records(src.device(), runs@, Seq::empty()) {
            Some(all) => r matches Some(v) && slots(v@) == all,
            None => r is None,
        },
{
    let mut out: Vec<Slot> = Vec::new();
    let ghost whole = directory_records(src.device(), runs@, Seq::empty());
    let mut i: usize = 0;
    assert(slots(out@) =~= Seq::empty());
    assert(runs@.skip(0) =~= runs@);
    while i < runs.len()
        invariant
            i <= runs@.len(),
            whole == directory_records(src.device(), runs@, Seq::empty()),
            whole == directory_records(src.device(), runs@.skip(i as int), slots(out@)),
        decreases runs@.len() - i,
    {
        assert(runs@.skip(i as int).skip(1) =~= runs@.skip(i + 1));
        let (at, len): (u64, u64) = runs[i];
        if !read_run(src, at, at.saturating_add(len), &mut out) {
            return None;
        }
        i += 1;
    }
    Some(out)
}

// ----------------------------------------------------------------- in use after

/// How far a scan for records in use has come.
pub struct UseModel {
    pub count: u64,
    pub first_at: Option<u64>,
    /// An end-of-directory marker has been passed.
    pub past_end: bool,
}

/// One more record seen.
pub open spec fn use_step(st: UseModel, class: RecordClass, at: u64) -> UseModel {
    match class {
        RecordClass::Free => UseModel { past_end: true, ..st },
        RecordClass::Deleted => st,
        RecordClass::Live => if st.past_end {
            st
        } else {
            UseModel {
                count: common::saturated(st.count + 1),
                first_at: match st.first_at {
                    Some(v) => Some(v),
                    None => Some(at),
                },
                ..st
            }
        },
    }
}

/// The records in use from `off` up to `end`. `Err` holds the offset of a record that
/// cannot be read.
pub open spec fn run_use(dev: Device, marker: Marker, off: int, end: int, st: UseModel) -> Result<
    UseModel,
    u64,
>
    decreases end - off,
{
    if off + RECORD_SIZE > end {
        Ok(st)
    } else {
        let r = dev.read(off as u64, RECORD_SIZE);
        if unusable(r) {
            Err(off as u64)
        } else {
            run_use(
                dev,
                marker,
                off + RECORD_SIZE,
                end,
                use_step(st, marker.of_byte(r.data[0]), off as u64),
            )
        }
    }
}

/// The records in use in all the runs.
pub open spec fn directory_use(
    dev: Device,
    marker: Marker,
    runs: Seq<(u64, u64)>,
    st: UseModel,
) -> Result<UseModel, u64>
    decreases runs.len(),
{
    if runs.len() == 0 {
        Ok(st)
    } else {
        let end = common::saturated(runs[0].0 + runs[0].1);
        match run_use(dev, marker, runs[0].0 as int, end as int, st) {
            Ok(now) => directory_use(dev, marker, runs.skip(1), now),
            Err(at) => Err(at),
        }
    }
}

/// A scan that has seen nothing.
pub open spec fn no_use() -> UseModel {
    UseModel { count: 0, first_at: None, past_end: false }
}

/// How many records are in use, and where the first is.
#[derive(Clone, Copy, Debug, PartialEq, Eq, Structural)]
struct InUse {
    count: u64,
    first_at: Option<u64>,
    past_end: bool,
}

impl InUse {
    spec fn model(self) -> UseModel {
        UseModel { count: self.count, first_at: self.first_at, past_end: self.past_end }
    }
}

/// A count and a first place, where there is something to count.
pub open spec fn packed(st: UseModel) -> Option<(u64, u64)> {
    match st.first_at {
        Some(at) if st.count > 0 => Some((st.count, at)),
        _ => None,
    }
}

/// A count and a first place, where there is something to count.
pub fn pack(count: u64, first_at: Option<u64>) -> (r: Option<(u64, u64)>)
    ensures
        r == match first_at {
            Some(at) if count > 0 => Some((count, at)),
            _ => None,
        },
{
    match first_at {
        Some(at) => if count > 0 {
            Some((count, at))
        } else {
            None
        },
        None => None,
    }
}

fn scan_run<S: BlockSource>(
    src: &S,
    marker: Marker,
    at: u64,
    end: u64,
    st: InUse,
) -> (r: Result<InUse, u64>)
    ensures
        match run_use(src.device(), marker, at as int, end as int, st.model()) {
            Ok(now) => r matches Ok(v) && v.model() == now,
            Err(bad) => r == Err::<InUse, u64>(bad),
        },
{
    let ghost whole = run_use(src.device(), marker, at as int, end as int, st.model());
    let mut now = st;
    let mut off: u64 = at;
    while end >= RECORD_SIZE && off <= end - RECORD_SIZE
        invariant
            whole == run_use(src.device(), marker, at as int, end as int, st.model()),
            whole == run_use(src.device(), marker, off as int, end as int, now.model()),
        decreases end - off,
    {
        let (b, outcome) = src.read_vec(off, RECORD_SIZE);
        if outcome == ReadOutcome::Unreadable || b.len() as u64 != RECORD_SIZE {
            return Err(off);
        }
        match marker.classify(&b) {
            RecordClass::Free => {
                now.past_end = true;
            },
            RecordClass::Deleted => {},
            RecordClass::Live => if !now.past_end {
                now.count = now.count.saturating_add(1);
                if now.first_at.is_none() {
                    now.first_at = Some(off);
                }
            },
        }
        off = off + RECORD_SIZE;
    }
    Ok(now)
}

/// Scan a directory's runs for records in use. The scan does not stop at the
/// end-of-directory marker, but what lies past it is already invisible to a driver
/// and is not counted. `Err` holds the offset of a record that cannot be read.
pub fn in_use<S: BlockSource>(src: &S, marker: Marker, runs: &[(u64, u64)]) -> (r: Result<
    Option<(u64, u64)>,
    u64,
>)
    ensures
        match directory_use(src.device(), marker, runs@, no_use()) {
            Ok(st) => r == Ok::<Option<(u64, u64)>, u64>(packed(st)),
            Err(at) => r == Err::<Option<(u64, u64)>, u64>(at),
        },
{
    let ghost whole = directory_use(src.device(), marker, runs@, no_use());
    let mut st = InUse { count: 0, first_at: None, past_end: false };
    let mut i: usize = 0;
    assert(runs@.skip(0) =~= runs@);
    while i < runs.len()
        invariant
            i <= runs@.len(),
            whole == directory_use(src.device(), marker, runs@, no_use()),
            whole == directory_use(src.device(), marker, runs@.skip(i as int), st.model()),
        decreases runs@.len() - i,
    {
        assert(runs@.skip(i as int).skip(1) =~= runs@.skip(i + 1));
        let (at, len): (u64, u64) = runs[i];
        match scan_run(src, marker, at, at.saturating_add(len), st) {
            Ok(now) => {
                st = now;
            },
            Err(at) => {
                return Err(at);
            },
        }
        i += 1;
    }
    Ok(pack(st.count, st.first_at))
}

// ------------------------------------------------------------------------ runs

/// The runs of the first `n` clusters of a directory, entered at `from`. `places`
/// holds the offset of each cluster, and a cluster without one is left out.
pub open spec fn joined_runs(places: Seq<Option<u64>>, size: u64, from: u64, n: nat) -> Seq<
    (u64, u64),
>
    decreases n,
{
    if n == 0 {
        Seq::empty()
    } else {
        let before = joined_runs(places, size, from, (n - 1) as nat);
        match places[n - 1] {
            None => before,
            Some(at) => {
                let within: u64 = if from > at { (from - at) as u64 } else { 0 };
                let (start, len): (u64, u64) = if n == 1 {
                    (from, if size > within { (size - within) as u64 } else { 0 })
                } else {
                    (at, size)
                };
                if before.len() > 0 && before.last().0 + before.last().1 == start {
                    before.drop_last().push(
                        (before.last().0, common::saturated(before.last().1 + len)),
                    )
                } else {
                    before.push((start, len))
                }
            },
        }
    }
}

/// Join the clusters of a directory into runs, starting at `from` inside the first.
pub fn join_runs(places: &[Option<u64>], size: u64, from: u64) -> (r: Vec<(u64, u64)>)
    ensures
        r@ == joined_runs(places@, size, from, places@.len()),
{
    let mut runs: Vec<(u64, u64)> = Vec::new();
    let mut i: usize = 0;
    while i < places.len()
        invariant
            i <= places@.len(),
            runs@ =~= joined_runs(places@, size, from, i as nat),
        decreases places@.len() - i,
    {
        if let Some(at) = places[i] {
            let (start, len): (u64, u64) = if i == 0 {
                // The first cluster is entered part-way through, at the record itself.
                (from, size.saturating_sub(from.saturating_sub(at)))
            } else {
                (at, size)
            };
            let n: usize = runs.len();
            let adjoins: bool = n > 0 && runs[n - 1].0 <= start && start - runs[n - 1].0 == runs[n
                - 1].1;
            if adjoins {
                let (o, l): (u64, u64) = runs[n - 1];
                runs[n - 1] = (o, l.saturating_add(len));
            } else {
                runs.push((start, len));
            }
        }
        i += 1;
    }
    runs
}

/// The runs of a directory entered at the record at `from`, that record left out.
pub open spec fn runs_past_record(runs: Seq<(u64, u64)>, from: u64) -> Seq<(u64, u64)> {
    if runs.len() > 0 && runs[0].0 == from {
        let skip: u64 = if runs[0].1 < RECORD_SIZE { runs[0].1 } else { RECORD_SIZE };
        runs.update(0, (common::saturated(from + skip), (runs[0].1 - skip) as u64))
    } else {
        runs
    }
}

/// Leave out the record at `from`, at which the directory was entered.
pub fn skip_record(runs: Vec<(u64, u64)>, from: u64) -> (r: Vec<(u64, u64)>)
    ensures
        r@ == runs_past_record(runs@, from),
{
    let mut out: Vec<(u64, u64)> = runs;
    if out.len() > 0 && out[0].0 == from {
        let len: u64 = out[0].1;
        let skip: u64 = if len < RECORD_SIZE { len } else { RECORD_SIZE };
        out[0] = (from.saturating_add(skip), len - skip);
    }
    out
}

// ---------------------------------------------------------------------- layout

/// A record with its marker byte kept and the rest zero.
pub open spec fn emptied(record: Seq<u8>) -> Seq<u8> {
    Seq::new(record.len(), |i: int| if i == 0 { record[0] } else { 0u8 })
}

/// A record that is all zero.
pub open spec fn blank(record: Seq<u8>) -> Seq<u8> {
    Seq::new(record.len(), |i: int| 0u8)
}

/// What a fill makes of a record.
pub open spec fn filled(record: Seq<u8>, fill: Fill) -> Seq<u8> {
    match fill {
        Fill::Neutral => emptied(record),
        Fill::Zero => blank(record),
    }
}

/// A live record lies after slot `i`.
pub open spec fn live_after(marker: Marker, records: Seq<SlotModel>, i: int) -> bool {
    exists|j: int|
        i < j < records.len() && marker.class_of((#[trigger] records[j]).data) == RecordClass::Live
}

/// The live records, in order.
pub open spec fn survivors(marker: Marker, records: Seq<SlotModel>) -> Seq<Seq<u8>>
    decreases records.len(),
{
    if records.len() == 0 {
        Seq::empty()
    } else {
        let before = survivors(marker, records.drop_last());
        if marker.class_of(records.last().data) == RecordClass::Live {
            before.push(records.last().data)
        } else {
            before
        }
    }
}

/// What slot `i` holds after a scrub of the whole directory.
pub open spec fn laid_out(
    marker: Marker,
    records: Seq<SlotModel>,
    mode: ScrubMode,
    i: int,
) -> Seq<u8> {
    let old = records[i].data;
    match mode {
        ScrubMode::Compact => {
            let kept = survivors(marker, records);
            if i < kept.len() {
                kept[i]
            } else {
                blank(old)
            }
        },
        _ => match marker.class_of(old) {
            RecordClass::Live => old,
            RecordClass::Free => blank(old),
            RecordClass::Deleted => if live_after(marker, records, i) {
                emptied(old)
            } else {
                blank(old)
            },
        },
    }
}

/// One edit: bytes to find, and bytes to put in their place.
#[derive(Debug)]
pub struct ByteEdit {
    pub offset: u64,
    pub old: Vec<u8>,
    pub new: Vec<u8>,
    pub reason: &'static str,
}

/// What a [`ByteEdit`] says.
pub struct EditModel {
    pub offset: u64,
    pub old: Seq<u8>,
    pub new: Seq<u8>,
    pub reason: Seq<char>,
}

impl View for ByteEdit {
    type V = EditModel;

    open spec fn view(&self) -> EditModel {
        EditModel { offset: self.offset, old: self.old@, new: self.new@, reason: self.reason@ }
    }
}

/// The models of a list of edits.
pub open spec fn edits(e: Seq<ByteEdit>) -> Seq<EditModel> {
    Seq::new(e.len(), |i: int| e[i]@)
}

/// The reason that is given for rewriting a directory.
pub open spec fn mode_reason(mode: ScrubMode) -> Seq<char> {
    match mode {
        ScrubMode::Compact => "compact directory"@,
        ScrubMode::Sweep => "sweep directory"@,
        ScrubMode::Record(_) => "scrub directory"@,
    }
}

/// The edits that the first `n` slots need.
pub open spec fn layout_edits(
    marker: Marker,
    records: Seq<SlotModel>,
    mode: ScrubMode,
    n: nat,
) -> Seq<EditModel>
    decreases n,
{
    if n == 0 {
        Seq::empty()
    } else {
        let before = layout_edits(marker, records, mode, (n - 1) as nat);
        let fresh = laid_out(marker, records, mode, n - 1);
        if records[n - 1].data == fresh {
            before
        } else {
            before.push(
                EditModel {
                    offset: records[n - 1].at,
                    old: records[n - 1].data,
                    new: fresh,
                    reason: mode_reason(mode),
                },
            )
        }
    }
}

/// The edits that a fill needs on a list of records.
pub open spec fn fill_edits(records: Seq<SlotModel>, fill: Fill, reason: Seq<char>) -> Seq<
    EditModel,
>
    decreases records.len(),
{
    if records.len() == 0 {
        Seq::empty()
    } else {
        let before = fill_edits(records.drop_last(), fill, reason);
        let old = records.last().data;
        if old == filled(old, fill) {
            before
        } else {
            before.push(
                EditModel { offset: records.last().at, old, new: filled(old, fill), reason },
            )
        }
    }
}

fn same_bytes(a: &[u8], b: &[u8]) -> (r: bool)
    ensures
        r == (a@ == b@),
{
    if a.len() != b.len() {
        return false;
    }
    let mut i: usize = 0;
    while i < a.len()
        invariant
            i <= a@.len(),
            a@.len() == b@.len(),
            forall|j: int| 0 <= j < i ==> #[trigger] a@[j] == b@[j],
        decreases a@.len() - i,
    {
        if a[i] != b[i] {
            return false;
        }
        i += 1;
    }
    assert(a@ =~= b@);
    true
}

fn copy_bytes(a: &[u8]) -> (r: Vec<u8>)
    ensures
        r@ == a@,
{
    vstd::slice::slice_to_vec(a)
}

fn fill_record(record: &[u8], fill: Fill) -> (r: Vec<u8>)
    ensures
        r@ == filled(record@, fill),
{
    let mut out: Vec<u8> = Vec::new();
    let mut i: usize = 0;
    while i < record.len()
        invariant
            i <= record@.len(),
            out@ =~= filled(record@, fill).take(i as int),
        decreases record@.len() - i,
    {
        out.push(
            if i == 0 && fill == Fill::Neutral {
                record[0]
            } else {
                0
            },
        );
        i += 1;
    }
    assert(out@ =~= filled(record@, fill));
    out
}

fn has_live_after(marker: Marker, records: &[Slot], i: usize) -> (r: bool)
    requires
        i < records@.len(),
    ensures
        r == live_after(marker, slots(records@), i as int),
{
    let len: usize = records.len();
    let mut j: usize = i + 1;
    while j < records.len()
        invariant
            i < j <= records@.len(),
            forall|m: int|
                i < m < j ==> marker.class_of((#[trigger] slots(records@)[m]).data)
                    != RecordClass::Live,
        decreases records@.len() - j,
    {
        if marker.classify(&records[j].data) == RecordClass::Live {
            assert(marker.class_of(slots(records@)[j as int].data) == RecordClass::Live);
            return true;
        }
        j += 1;
    }
    false
}

/// The indices of the live records, in order.
fn live_indices(marker: Marker, records: &[Slot]) -> (r: Vec<usize>)
    ensures
        r@.len() == survivors(marker, slots(records@)).len(),
        r@.len() <= records@.len(),
        forall|k: int|
            0 <= k < r@.len() ==> (#[trigger] r@[k]) < records@.len() && records@[r@[k] as int].data@
                == survivors(marker, slots(records@))[k],
{
    let mut out: Vec<usize> = Vec::new();
    let mut i: usize = 0;
    while i < records.len()
        invariant
            i <= records@.len(),
            out@.len() <= i,
            out@.len() == survivors(marker, slots(records@).take(i as int)).len(),
            forall|k: int|
                0 <= k < out@.len() ==> (#[trigger] out@[k]) < records@.len()
                    && records@[out@[k] as int].data@ == survivors(
                    marker,
                    slots(records@).take(i as int),
                )[k],
        decreases records@.len() - i,
    {
        assert(slots(records@).take(i + 1).drop_last() =~= slots(records@).take(i as int));
        if marker.classify(&records[i].data) == RecordClass::Live {
            out.push(i);
        }
        i += 1;
    }
    assert(slots(records@).take(i as int) =~= slots(records@));
    out
}

fn lay_out(marker: Marker, records: &[Slot], live: &[usize], mode: ScrubMode, i: usize) -> (r: Vec<
    u8,
>)
    requires
        i < records@.len(),
        live@.len() == survivors(marker, slots(records@)).len(),
        forall|k: int|
            0 <= k < live@.len() ==> (#[trigger] live@[k]) < records@.len()
                && records@[live@[k] as int].data@ == survivors(marker, slots(records@))[k],
    ensures
        r@ == laid_out(marker, slots(records@), mode, i as int),
{
    let old: &Vec<u8> = &records[i].data;
    match mode {
        ScrubMode::Compact => if i < live.len() {
            copy_bytes(&records[live[i]].data)
        } else {
            fill_record(old, Fill::Zero)
        },
        _ => match marker.classify(old) {
            RecordClass::Live => copy_bytes(old),
            RecordClass::Free => fill_record(old, Fill::Zero),
            RecordClass::Deleted => if has_live_after(marker, records, i) {
                fill_record(old, Fill::Neutral)
            } else {
                fill_record(old, Fill::Zero)
            },
        },
    }
}

fn reason_for(mode: ScrubMode) -> (r: &'static str)
    ensures
        r@ == mode_reason(mode),
{
    match mode {
        ScrubMode::Compact => "compact directory",
        ScrubMode::Sweep => "sweep directory",
        ScrubMode::Record(_) => "scrub directory",
    }
}

/// How many of the first `n` slots are live and change.
pub open spec fn moved(marker: Marker, records: Seq<SlotModel>, mode: ScrubMode, n: nat) -> nat
    decreases n,
{
    if n == 0 {
        0
    } else {
        moved(marker, records, mode, (n - 1) as nat) + if marker.class_of(records[n - 1].data)
            == RecordClass::Live && records[n - 1].data != laid_out(marker, records, mode, n - 1) {
            1nat
        } else {
            0nat
        }
    }
}

/// Work out what a scrub of the whole directory changes: the edits, and how many live
/// records change place.
pub fn layout_directory(marker: Marker, records: &[Slot], mode: ScrubMode) -> (r: (
    Vec<ByteEdit>,
    u64,
))
    ensures
        edits(r.0@) == layout_edits(marker, slots(records@), mode, records@.len()),
        r.1 == moved(marker, slots(records@), mode, records@.len()),
{
    let live: Vec<usize> = live_indices(marker, records);
    let mut out: Vec<ByteEdit> = Vec::new();
    let mut relocated: u64 = 0;
    let mut i: usize = 0;
    assert(edits(out@) =~= Seq::empty());
    while i < records.len()
        invariant
            i <= records@.len(),
            live@.len() == survivors(marker, slots(records@)).len(),
            forall|k: int|
                0 <= k < live@.len() ==> (#[trigger] live@[k]) < records@.len()
                    && records@[live@[k] as int].data@ == survivors(marker, slots(records@))[k],
            edits(out@) =~= layout_edits(marker, slots(records@), mode, i as nat),
            relocated == moved(marker, slots(records@), mode, i as nat),
            relocated <= i,
        decreases records@.len() - i,
    {
        let fresh: Vec<u8> = lay_out(marker, records, &live, mode, i);
        if !same_bytes(&records[i].data, &fresh) {
            if marker.classify(&records[i].data) == RecordClass::Live {
                relocated += 1;
            }
            let ghost before = out@;
            let edit = ByteEdit {
                offset: records[i].at,
                old: copy_bytes(&records[i].data),
                new: fresh,
                reason: reason_for(mode),
            };
            out.push(edit);
            assert(edits(out@) =~= edits(before).push(edit@));
        }
        i += 1;
    }
    (out, relocated)
}

/// The edits that overwrite a list of records.
pub fn scrub_edits(records: &[Slot], fill: Fill, reason: &'static str) -> (r: Vec<ByteEdit>)
    ensures
        edits(r@) == fill_edits(slots(records@), fill, reason@),
{
    let mut out: Vec<ByteEdit> = Vec::new();
    let mut i: usize = 0;
    assert(edits(out@) =~= Seq::empty());
    while i < records.len()
        invariant
            i <= records@.len(),
            edits(out@) =~= fill_edits(slots(records@).take(i as int), fill, reason@),
        decreases records@.len() - i,
    {
        assert(slots(records@).take(i + 1).drop_last() =~= slots(records@).take(i as int));
        let fresh: Vec<u8> = fill_record(&records[i].data, fill);
        if !same_bytes(&records[i].data, &fresh) {
            let ghost before = out@;
            let edit = ByteEdit {
                offset: records[i].at,
                old: copy_bytes(&records[i].data),
                new: fresh,
                reason,
            };
            out.push(edit);
            assert(edits(out@) =~= edits(before).push(edit@));
        }
        i += 1;
    }
    assert(slots(records@).take(i as int) =~= slots(records@));
    out
}

// ------------------------------------------------------------- selected records

/// Every span is one whole record.
pub open spec fn whole_records(spans: Seq<Span>) -> bool {
    forall|i: int|
        0 <= i < spans.len() ==> (#[trigger] spans[i]).len == RECORD_SIZE && spans[i].whole_bytes
}

/// Every record can be read in full, and is deleted.
pub open spec fn all_deleted(dev: Device, marker: Marker, spans: Seq<Span>) -> bool {
    forall|i: int|
        0 <= i < spans.len() ==> {
            let r = dev.read((#[trigger] spans[i]).at, RECORD_SIZE);
            r.data.len() == RECORD_SIZE && marker.class_of(r.data) == RecordClass::Deleted
        }
}

/// The records at the spans, in the order of the selection.
pub open spec fn selected(dev: Device, spans: Seq<Span>) -> Seq<SlotModel> {
    Seq::new(
        spans.len(),
        |i: int| SlotModel { at: spans[i].at, data: dev.read(spans[i].at, RECORD_SIZE).data },
    )
}

/// `x` put behind everything in `t` that does not lie after it.
pub open spec fn placed(t: Seq<SlotModel>, x: SlotModel) -> Seq<SlotModel>
    decreases t.len(),
{
    if t.len() == 0 || t.last().at <= x.at {
        t.push(x)
    } else {
        placed(t.drop_last(), x).push(t.last())
    }
}

/// The records in on-disk order; equal offsets keep the order of the selection.
pub open spec fn in_order(s: Seq<SlotModel>) -> Seq<SlotModel>
    decreases s.len(),
{
    if s.len() == 0 {
        Seq::empty()
    } else {
        placed(in_order(s.drop_last()), s.last())
    }
}

/// No record lies before its predecessor.
pub open spec fn ascending(s: Seq<SlotModel>) -> bool {
    forall|i: int, j: int| 0 <= i <= j < s.len() ==> (#[trigger] s[i]).at <= (#[trigger] s[j]).at
}

proof fn lemma_placed_at(t: Seq<SlotModel>, x: SlotModel, p: int)
    requires
        0 <= p <= t.len(),
        forall|i: int| p <= i < t.len() ==> (#[trigger] t[i]).at > x.at,
        p > 0 ==> t[p - 1].at <= x.at,
    ensures
        placed(t, x) =~= t.insert(p, x),
    decreases t.len() - p,
{
    if p < t.len() {
        assert(t[t.len() - 1].at > x.at);
        lemma_placed_at(t.drop_last(), x, p);
    }
}

/// Ordering the records loses none, adds none, and puts them in on-disk order.
pub proof fn lemma_in_order(s: Seq<SlotModel>)
    ensures
        ascending(in_order(s)),
        in_order(s).to_multiset() == s.to_multiset(),
        in_order(s).len() == s.len(),
    decreases s.len(),
{
    broadcast use vstd::seq_lib::group_to_multiset_ensures;

    if s.len() > 0 {
        let t = in_order(s.drop_last());
        lemma_in_order(s.drop_last());
        lemma_placed(t, s.last());
        assert(s.drop_last().push(s.last()) =~= s);
        assert(t.push(s.last()).to_multiset() == s.to_multiset());
    }
}

proof fn lemma_placed(t: Seq<SlotModel>, x: SlotModel)
    requires
        ascending(t),
    ensures
        ascending(placed(t, x)),
        placed(t, x).to_multiset() == t.push(x).to_multiset(),
        placed(t, x).len() == t.len() + 1,
        forall|i: int|
            0 <= i < placed(t, x).len() ==> (#[trigger] placed(t, x)[i]).at <= x.at || (t.len() > 0
                && placed(t, x)[i].at <= t.last().at),
    decreases t.len(),
{
    broadcast use vstd::seq_lib::group_to_multiset_ensures;

    if !(t.len() == 0 || t.last().at <= x.at) {
        lemma_placed(t.drop_last(), x);
        let p = placed(t.drop_last(), x);
        assert(ascending(p.push(t.last()))) by {
            assert forall|i: int| 0 <= i < p.len() implies (#[trigger] p[i]).at <= t.last().at by {
                if t.len() > 1 {
                    assert(t[t.len() - 2].at <= t[t.len() - 1].at);
                }
            }
        }
        assert(t.drop_last().push(t.last()) =~= t);
    } else {
        assert forall|i: int, j: int| 0 <= i <= j < t.push(x).len() implies (#[trigger] t.push(
            x,
        )[i]).at <= (#[trigger] t.push(x)[j]).at by {
            if j == t.len() && i < t.len() {
                assert(t[i].at <= t[t.len() - 1].at);
            }
        }
    }
}

/// Read the selected records in on-disk order. `None` unless there is a selection, each
/// span is a whole record, and each record is deleted: a live record is not this
/// command's business.
pub fn read_selected<S: BlockSource>(src: &S, marker: Marker, spans: &[Span]) -> (r: Option<
    Vec<Slot>,
>)
    ensures
        r is Some <==> spans@.len() > 0 && whole_records(spans@) && all_deleted(
            src.device(),
            marker,
            spans@,
        ),
        r matches Some(v) ==> slots(v@) == in_order(selected(src.device(), spans@)) && v@.len()
            == spans@.len(),
{
    if spans.len() == 0 {
        return None;
    }
    let mut i: usize = 0;
    while i < spans.len()
        invariant
            i <= spans@.len(),
            whole_records(spans@.take(i as int)),
        decreases spans@.len() - i,
    {
        let s = spans[i];
        if s.len != RECORD_SIZE || !s.whole_bytes {
            assert(!whole_records(spans@)) by {
                assert(spans@[i as int].len != RECORD_SIZE || !spans@[i as int].whole_bytes);
            }
            return None;
        }
        i += 1;
    }
    assert(spans@.take(i as int) =~= spans@);
    let mut out: Vec<Slot> = Vec::new();
    let mut k: usize = 0;
    let ghost all = selected(src.device(), spans@);
    assert(slots(out@) =~= Seq::empty());
    while k < spans.len()
        invariant
            k <= spans@.len(),
            all == selected(src.device(), spans@),
            all_deleted(src.device(), marker, spans@.take(k as int)),
            slots(out@) =~= in_order(all.take(k as int)),
            out@.len() == k,
            ascending(slots(out@)),
        decreases spans@.len() - k,
    {
        let at: u64 = spans[k].at;
        let (b, _outcome) = src.read_vec(at, RECORD_SIZE);
        if b.len() as u64 != RECORD_SIZE || marker.classify(&b) != RecordClass::Deleted {
            assert(!all_deleted(src.device(), marker, spans@)) by {
                let r = src.device().read(spans@[k as int].at, RECORD_SIZE);
                assert(!(r.data.len() == RECORD_SIZE && marker.class_of(r.data)
                    == RecordClass::Deleted));
            }
            return None;
        }
        let slot = Slot { at, data: b };
        let mut p: usize = out.len();
        while p > 0 && out[p - 1].at > at
            invariant
                p <= out@.len(),
                forall|i: int| p <= i < out@.len() ==> (#[trigger] slots(out@)[i]).at > at,
            decreases p,
        {
            p -= 1;
        }
        proof {
            assert(p > 0 ==> slots(out@)[p - 1].at <= at);
            lemma_placed_at(slots(out@), slot@, p as int);
            lemma_placed(slots(out@), slot@);
            assert(slots(out@.insert(p as int, slot)) =~= slots(out@).insert(p as int, slot@));
            assert(all.take(k + 1).drop_last() =~= all.take(k as int));
            assert(all.take(k + 1).last() == slot@);
        }
        out.insert(p, slot);
        assert(all_deleted(src.device(), marker, spans@.take(k + 1))) by {
            assert forall|i: int| 0 <= i < k + 1 implies {
                let r = src.device().read((#[trigger] spans@.take(k + 1)[i]).at, RECORD_SIZE);
                r.data.len() == RECORD_SIZE && marker.class_of(r.data) == RecordClass::Deleted
            } by {
                if i < k {
                    assert(spans@.take(k as int)[i] == spans@.take(k + 1)[i]);
                }
            }
        }
        k += 1;
    }
    assert(spans@.take(k as int) =~= spans@);
    assert(all.take(k as int) =~= all);
    Some(out)
}

// ------------------------------------------------------------------------ plans

/// Why nothing could be said about the records that follow.
#[derive(Clone, Copy, Debug, PartialEq, Eq, Structural)]
pub enum WhyNot {
    GeometryUnusable,
    HeapNotLocatable,
    OutsideHeap,
    OutsideData,
    ClusterOutsideHeap { cluster: u64 },
    ClusterOutsideVolume { cluster: u64 },
    EmptyChain { cluster: u64 },
    Unreadable { at: u64 },
}

impl WhyNot {
    /// The reason, in words.
    pub open spec fn text(self) -> Seq<char> {
        match self {
            WhyNot::GeometryUnusable => "the volume geometry is not usable"@,
            WhyNot::HeapNotLocatable => "the cluster heap is not locatable"@,
            WhyNot::OutsideHeap => "the record is not inside the cluster heap"@,
            WhyNot::OutsideData => "the record is not inside the data area"@,
            WhyNot::ClusterOutsideHeap { cluster } => "cluster "@ + text::dec(cluster as int)
                + " is outside the heap"@,
            WhyNot::ClusterOutsideVolume { cluster } => "cluster "@ + text::dec(cluster as int)
                + " is outside this volume"@,
            WhyNot::EmptyChain { cluster } => "the chain from cluster "@ + text::dec(
                cluster as int,
            ) + " is empty"@,
            WhyNot::Unreadable { at } => "the directory could not be read at "@ + text::hex(
                at as int,
                10,
            ),
        }
    }

    /// The reason, in words.
    pub fn message(&self) -> (r: String)
        ensures
            r@ == self.text(),
    {
        match *self {
            WhyNot::GeometryUnusable => Text::of("the volume geometry is not usable").done(),
            WhyNot::HeapNotLocatable => Text::of("the cluster heap is not locatable").done(),
            WhyNot::OutsideHeap => Text::of("the record is not inside the cluster heap").done(),
            WhyNot::OutsideData => Text::of("the record is not inside the data area").done(),
            WhyNot::ClusterOutsideHeap { cluster } => Text::of("cluster ").dec(cluster).lit(
                " is outside the heap",
            ).done(),
            WhyNot::ClusterOutsideVolume { cluster } => Text::of("cluster ").dec(cluster).lit(
                " is outside this volume",
            ).done(),
            WhyNot::EmptyChain { cluster } => Text::of("the chain from cluster ").dec(
                cluster,
            ).lit(" is empty").done(),
            WhyNot::Unreadable { at } => Text::of("the directory could not be read at ").hex(
                at,
                10,
            ).done(),
        }
    }
}

/// What zeroing a record would cost: a zeroed first byte ends the directory for a
/// driver, so whatever is in use after it disappears from view.
#[derive(Clone, Copy, Debug, PartialEq, Eq, Structural)]
pub enum ZeroRefusal {
    InUseRecordsFollow { count: u64, first_at: u64 },
    /// An unverifiable guarantee is not one.
    CouldNotVerify(WhyNot),
}

/// What a scan for records in use says about zeroing.
pub open spec fn refusal(found: Result<Option<(u64, u64)>, WhyNot>) -> Option<ZeroRefusal> {
    match found {
        Ok(None) => None,
        Ok(Some((count, first_at))) => Some(ZeroRefusal::InUseRecordsFollow { count, first_at }),
        Err(why) => Some(ZeroRefusal::CouldNotVerify(why)),
    }
}

/// What a scan for records in use says about zeroing.
pub fn refusal_of(found: Result<Option<(u64, u64)>, WhyNot>) -> (r: Option<ZeroRefusal>)
    ensures
        r == refusal(found),
{
    match found {
        Ok(None) => None,
        Ok(Some((count, first_at))) => Some(ZeroRefusal::InUseRecordsFollow { count, first_at }),
        Err(why) => Some(ZeroRefusal::CouldNotVerify(why)),
    }
}

/// Something to read before going ahead.
#[derive(Debug)]
pub struct Warning {
    pub status: Status,
    pub message: String,
    pub hint: Option<String>,
}

/// What a [`Warning`] says.
pub struct WarningModel {
    pub status: Status,
    pub message: Seq<char>,
    pub hint: Option<Seq<char>>,
}

impl View for Warning {
    type V = WarningModel;

    open spec fn view(&self) -> WarningModel {
        WarningModel {
            status: self.status,
            message: self.message@,
            hint: match self.hint {
                Some(h) => Some(h@),
                None => None,
            },
        }
    }
}

/// A warning with a hint.
pub open spec fn warned(message: Seq<char>, hint: Seq<char>) -> WarningModel {
    WarningModel { status: Status::Warn, message, hint: Some(hint) }
}

/// A remark.
pub open spec fn remarked(message: Seq<char>) -> WarningModel {
    WarningModel { status: Status::Info, message, hint: None }
}

/// A remark.
pub fn remark(message: String) -> (r: Warning)
    ensures
        r@ == remarked(message@),
{
    Warning { status: Status::Info, message, hint: None }
}

/// A warning with a hint.
pub fn warn(message: String, hint: &str) -> (r: Warning)
    ensures
        r@ == warned(message@, hint@),
{
    Warning { status: Status::Warn, message, hint: Some(Text::of(hint).done()) }
}

/// The contents of a list of strings.
pub open spec fn lines(v: Seq<String>) -> Seq<Seq<char>> {
    Seq::new(v.len(), |i: int| v[i]@)
}

/// The models of a list of warnings.
pub open spec fn warnings(v: Seq<Warning>) -> Seq<WarningModel> {
    Seq::new(v.len(), |i: int| v[i]@)
}

/// Add a line.
pub fn push_line(v: &mut Vec<String>, line: String)
    ensures
        lines(final(v)@) == lines(old(v)@).push(line@),
{
    v.push(line);
    assert(lines(v@) =~= lines(old(v)@).push(line@));
}

/// Add a literal line.
pub fn push_text(v: &mut Vec<String>, line: &str)
    ensures
        lines(final(v)@) == lines(old(v)@).push(line@),
{
    push_line(v, Text::of(line).done());
}

/// Add a warning.
pub fn push_warning(v: &mut Vec<Warning>, w: Warning)
    ensures
        warnings(final(v)@) == warnings(old(v)@).push(w@),
{
    v.push(w);
    assert(warnings(v@) =~= warnings(old(v)@).push(w@));
}

/// No lines at all.
pub fn no_lines() -> (r: Vec<String>)
    ensures
        lines(r@) == Seq::<Seq<char>>::empty(),
{
    let v: Vec<String> = Vec::new();
    assert(lines(v@) =~= Seq::<Seq<char>>::empty());
    v
}

/// No warnings at all.
pub fn no_warnings() -> (r: Vec<Warning>)
    ensures
        warnings(r@) == Seq::<WarningModel>::empty(),
{
    let v: Vec<Warning> = Vec::new();
    assert(warnings(v@) =~= Seq::<WarningModel>::empty());
    v
}

/// What the user selected: a row, and the bytes it stands for.
#[derive(Debug)]
pub struct Selection {
    pub label: String,
    pub spans: Vec<Span>,
}

/// A scrub that has not been carried out.
#[derive(Debug)]
pub struct ScrubPlan {
    pub label: String,
    pub mode: ScrubMode,
    /// The records that go, by name.
    pub affected: Vec<String>,
    /// How many live records change place.
    pub relocated: u64,
    pub edits: Vec<ByteEdit>,
    pub removes: Vec<String>,
    pub keeps: Vec<String>,
    pub zero_refusal: Option<ZeroRefusal>,
    pub warnings: Vec<Warning>,
}

/// What a [`ScrubPlan`] says.
pub struct PlanModel {
    pub label: Seq<char>,
    pub mode: ScrubMode,
    pub affected: Seq<Seq<char>>,
    pub relocated: u64,
    pub edits: Seq<EditModel>,
    pub removes: Seq<Seq<char>>,
    pub keeps: Seq<Seq<char>>,
    pub zero_refusal: Option<ZeroRefusal>,
    pub warnings: Seq<WarningModel>,
}

impl View for ScrubPlan {
    type V = PlanModel;

    open spec fn view(&self) -> PlanModel {
        PlanModel {
            label: self.label@,
            mode: self.mode,
            affected: lines(self.affected@),
            relocated: self.relocated,
            edits: edits(self.edits@),
            removes: lines(self.removes@),
            keeps: lines(self.keeps@),
            zero_refusal: self.zero_refusal,
            warnings: warnings(self.warnings@),
        }
    }
}

impl ScrubPlan {
    /// How many records the plan overwrites.
    pub fn records(&self) -> (r: usize)
        ensures
            r == self@.edits.len(),
    {
        self.edits.len()
    }

    /// True when zeroing hides nothing.
    pub fn zero_is_free(&self) -> (r: bool)
        ensures
            r == (self.zero_refusal is None),
    {
        self.zero_refusal.is_none()
    }
}

/// How many records are of a class.
pub open spec fn class_count(marker: Marker, records: Seq<SlotModel>, class: RecordClass) -> nat
    decreases records.len(),
{
    if records.len() == 0 {
        0
    } else {
        class_count(marker, records.drop_last(), class) + if marker.class_of(
            records.last().data,
        ) == class {
            1nat
        } else {
            0nat
        }
    }
}

/// Every byte of the record is zero.
pub open spec fn is_blank(record: Seq<u8>) -> bool {
    forall|i: int| 0 <= i < record.len() ==> #[trigger] record[i] == 0
}

/// How many records are free without being blank: overwritten rather than erased.
pub open spec fn residue_count(marker: Marker, records: Seq<SlotModel>) -> nat
    decreases records.len(),
{
    if records.len() == 0 {
        0
    } else {
        residue_count(marker, records.drop_last()) + if marker.class_of(records.last().data)
            == RecordClass::Free && !is_blank(records.last().data) {
            1nat
        } else {
            0nat
        }
    }
}

fn blank_record(record: &[u8]) -> (r: bool)
    ensures
        r == is_blank(record@),
{
    let mut i: usize = 0;
    while i < record.len()
        invariant
            i <= record@.len(),
            forall|j: int| 0 <= j < i ==> #[trigger] record@[j] == 0,
        decreases record@.len() - i,
    {
        if record[i] != 0 {
            return false;
        }
        i += 1;
    }
    true
}

/// The figures of a directory that a plan speaks of: deleted, live, and free but not
/// blank.
pub fn figures(marker: Marker, records: &[Slot]) -> (r: (u64, u64, u64))
    ensures
        r.0 == class_count(marker, slots(records@), RecordClass::Deleted),
        r.1 == class_count(marker, slots(records@), RecordClass::Live),
        r.2 == residue_count(marker, slots(records@)),
{
    let mut deleted: u64 = 0;
    let mut live: u64 = 0;
    let mut residue: u64 = 0;
    let mut i: usize = 0;
    while i < records.len()
        invariant
            i <= records@.len(),
            deleted == class_count(
                marker,
                slots(records@).take(i as int),
                RecordClass::Deleted,
            ),
            live == class_count(marker, slots(records@).take(i as int), RecordClass::Live),
            residue == residue_count(marker, slots(records@).take(i as int)),
            deleted <= i,
            live <= i,
            residue <= i,
        decreases records@.len() - i,
    {
        assert(slots(records@).take(i + 1).drop_last() =~= slots(records@).take(i as int));
        match marker.classify(&records[i].data) {
            RecordClass::Deleted => {
                deleted += 1;
            },
            RecordClass::Live => {
                live += 1;
            },
            RecordClass::Free => {
                if !blank_record(&records[i].data) {
                    residue += 1;
                }
            },
        }
        i += 1;
    }
    assert(slots(records@).take(i as int) =~= slots(records@));
    (deleted, live, residue)
}

// ------------------------------------------------------------------- full records

/// Every record is 32 bytes long.
pub open spec fn full_records(records: Seq<SlotModel>) -> bool {
    forall|i: int| 0 <= i < records.len() ==> (#[trigger] records[i]).data.len() == 32
}

proof fn lemma_run_records_full(dev: Device, off: int, end: int, have: Seq<SlotModel>)
    requires
        full_records(have),
    ensures
        run_records(dev, off, end, have) matches Some(r) ==> full_records(r),
    decreases end - off,
{
    if off + 32 <= end {
        let r = dev.read(off as u64, 32);
        let now = have.push(SlotModel { at: off as u64, data: r.data });
        if !unusable(r) {
            assert(full_records(now));
            if have.len() < MAX_DIR_RECORDS {
                lemma_run_records_full(dev, off + 32, end, now);
            }
        }
    }
}

/// The records that were read of a directory are full.
pub proof fn lemma_directory_records_full(dev: Device, runs: Seq<(u64, u64)>, have: Seq<SlotModel>)
    requires
        full_records(have),
    ensures
        directory_records(dev, runs, have) matches Some(r) ==> full_records(r),
    decreases runs.len(),
{
    if runs.len() > 0 {
        let end = common::saturated(runs[0].0 + runs[0].1);
        lemma_run_records_full(dev, runs[0].0 as int, end as int, have);
        if let Some(now) = run_records(dev, runs[0].0 as int, end as int, have) {
            lemma_directory_records_full(dev, runs.skip(1), now);
        }
    }
}

/// Records that were read and found deleted are full.
pub proof fn lemma_selected_full(dev: Device, marker: Marker, spans: Seq<Span>)
    requires
        all_deleted(dev, marker, spans),
    ensures
        full_records(in_order(selected(dev, spans))),
{
    let s = selected(dev, spans);
    assert(full_records(s)) by {
        assert forall|i: int| 0 <= i < s.len() implies (#[trigger] s[i]).data.len() == 32 by {
            assert(dev.read(spans[i].at, 32).data.len() == 32);
        }
    }
    lemma_in_order_full(s);
}

proof fn lemma_in_order_full(s: Seq<SlotModel>)
    requires
        full_records(s),
    ensures
        full_records(in_order(s)),
    decreases s.len(),
{
    if s.len() > 0 {
        assert(full_records(s.drop_last()));
        lemma_in_order_full(s.drop_last());
        assert(s.last().data.len() == 32);
        lemma_placed_full(in_order(s.drop_last()), s.last());
    }
}

proof fn lemma_placed_full(t: Seq<SlotModel>, x: SlotModel)
    requires
        full_records(t),
        x.data.len() == 32,
    ensures
        full_records(placed(t, x)),
    decreases t.len(),
{
    if !(t.len() == 0 || t.last().at <= x.at) {
        assert(t.last().data.len() == 32);
        assert(full_records(t.drop_last()));
        lemma_placed_full(t.drop_last(), x);
    }
}

// ------------------------------------------------------------------------- laws

/// A directory after a scrub.
pub open spec fn scrubbed(marker: Marker, records: Seq<SlotModel>, mode: ScrubMode) -> Seq<
    SlotModel,
> {
    Seq::new(
        records.len(),
        |i: int| SlotModel { at: records[i].at, data: laid_out(marker, records, mode, i) },
    )
}

/// Every record that a compaction keeps is one in use, and there are no more of them
/// than there were slots.
pub proof fn lemma_survivors_are_live(marker: Marker, records: Seq<SlotModel>)
    ensures
        survivors(marker, records).len() <= records.len(),
        forall|k: int|
            0 <= k < survivors(marker, records).len() ==> marker.class_of(
                #[trigger] survivors(marker, records)[k],
            ) == RecordClass::Live,
    decreases records.len(),
{
    if records.len() > 0 {
        lemma_survivors_are_live(marker, records.drop_last());
    }
}

proof fn lemma_blank_is_free(marker: Marker, record: Seq<u8>)
    ensures
        marker.class_of(blank(record)) == RecordClass::Free,
{
}

/// A sweep touches no live record.
pub proof fn lemma_sweep_touches_no_live_record(marker: Marker, records: Seq<SlotModel>, i: int)
    requires
        0 <= i < records.len(),
        marker.class_of(records[i].data) == RecordClass::Live,
    ensures
        laid_out(marker, records, ScrubMode::Sweep, i) == records[i].data,
{
}

/// Whole-directory scrubs lose no live record: the same ones are there afterwards, in
/// the same order.
pub proof fn lemma_scrub_keeps_every_live_record(
    marker: Marker,
    records: Seq<SlotModel>,
    mode: ScrubMode,
)
    ensures
        survivors(marker, scrubbed(marker, records, mode)) == survivors(marker, records),
{
    let after = scrubbed(marker, records, mode);
    assert(after.take(after.len() as int) =~= after);
    assert(records.take(records.len() as int) =~= records);
    if mode == ScrubMode::Compact {
        lemma_survivors_are_live(marker, records);
        lemma_compacted(marker, records, records.len());
        let kept = survivors(marker, records);
        assert(kept.take(kept.len() as int) =~= kept);
    } else {
        lemma_swept(marker, records, mode, records.len());
    }
}

proof fn lemma_compacted(marker: Marker, records: Seq<SlotModel>, n: nat)
    requires
        n <= records.len(),
    ensures
        ({
            let kept = survivors(marker, records);
            survivors(marker, scrubbed(marker, records, ScrubMode::Compact).take(n as int))
                == kept.take(if n <= kept.len() { n as int } else { kept.len() as int })
        }),
    decreases n,
{
    let after = scrubbed(marker, records, ScrubMode::Compact);
    let kept = survivors(marker, records);
    lemma_survivors_are_live(marker, records);
    if n > 0 {
        lemma_compacted(marker, records, (n - 1) as nat);
        assert(after.take(n as int).drop_last() =~= after.take(n - 1));
        assert(after.take(n as int).last() == after[n - 1]);
        if n <= kept.len() {
            assert(after[n - 1].data == kept[n - 1]);
            assert(kept.take(n - 1).push(kept[n - 1]) =~= kept.take(n as int));
        } else {
            lemma_blank_is_free(marker, records[n - 1].data);
        }
    } else {
        assert(kept.take(0) =~= Seq::empty());
    }
}

proof fn lemma_swept(marker: Marker, records: Seq<SlotModel>, mode: ScrubMode, n: nat)
    requires
        n <= records.len(),
        mode != ScrubMode::Compact,
    ensures
        survivors(marker, scrubbed(marker, records, mode).take(n as int)) == survivors(
            marker,
            records.take(n as int),
        ),
    decreases n,
{
    let after = scrubbed(marker, records, mode);
    if n > 0 {
        lemma_swept(marker, records, mode, (n - 1) as nat);
        assert(after.take(n as int).drop_last() =~= after.take(n - 1));
        assert(records.take(n as int).drop_last() =~= records.take(n - 1));
        lemma_blank_is_free(marker, records[n - 1].data);
    }
}

/// After a whole-directory scrub nothing is left of a record that was not live: it is
/// gone entirely, or only its marker byte remains.
pub proof fn lemma_scrub_leaves_no_residue(
    marker: Marker,
    records: Seq<SlotModel>,
    mode: ScrubMode,
    i: int,
)
    requires
        0 <= i < records.len(),
    ensures
        ({
            let after = laid_out(marker, records, mode, i);
            marker.class_of(after) == RecordClass::Live || forall|j: int|
                1 <= j < after.len() ==> #[trigger] after[j] == 0
        }),
        mode == ScrubMode::Compact ==> marker.class_of(laid_out(marker, records, mode, i))
            != RecordClass::Deleted,
{
    lemma_survivors_are_live(marker, records);
    lemma_blank_is_free(marker, records[i].data);
}

/// Overwriting a deleted record leaves it deleted or makes it free; either way none of
/// its content is left.
pub proof fn lemma_fill_removes_content(marker: Marker, record: Seq<u8>, fill: Fill)
    requires
        record.len() > 0,
        marker.class_of(record) == RecordClass::Deleted,
    ensures
        filled(record, fill).len() == record.len(),
        forall|j: int| 1 <= j < record.len() ==> #[trigger] filled(record, fill)[j] == 0,
        fill == Fill::Neutral ==> filled(record, fill)[0] == record[0],
        fill == Fill::Zero ==> filled(record, fill)[0] == 0,
        marker.class_of(filled(record, fill)) != RecordClass::Live,
{
}

/// The records are the bytes that the device holds where they lie.
pub open spec fn on_disk(dev: Device, records: Seq<SlotModel>) -> bool {
    forall|i: int|
        0 <= i < records.len() ==> (#[trigger] records[i]).data == dev.read(
            records[i].at,
            RECORD_SIZE,
        ).data
}

proof fn lemma_run_on_disk(dev: Device, off: int, end: int, have: Seq<SlotModel>)
    requires
        0 <= off,
        end <= u64::MAX,
        on_disk(dev, have),
    ensures
        run_records(dev, off, end, have) matches Some(r) ==> on_disk(dev, r),
    decreases end - off,
{
    if off + RECORD_SIZE <= end {
        let r = dev.read(off as u64, RECORD_SIZE);
        let now = have.push(SlotModel { at: off as u64, data: r.data });
        assert(on_disk(dev, now));
        if !unusable(r) && have.len() < MAX_DIR_RECORDS {
            lemma_run_on_disk(dev, off + RECORD_SIZE, end, now);
        }
    }
}

/// The records that were read of a directory are what the device holds.
pub proof fn lemma_directory_on_disk(dev: Device, runs: Seq<(u64, u64)>, have: Seq<SlotModel>)
    requires
        on_disk(dev, have),
    ensures
        directory_records(dev, runs, have) matches Some(r) ==> on_disk(dev, r),
    decreases runs.len(),
{
    if runs.len() > 0 {
        let end = common::saturated(runs[0].0 + runs[0].1);
        lemma_run_on_disk(dev, runs[0].0 as int, end as int, have);
        if let Some(now) = run_records(dev, runs[0].0 as int, end as int, have) {
            lemma_directory_on_disk(dev, runs.skip(1), now);
        }
    }
}

/// The selected records are what the device holds.
pub proof fn lemma_selected_on_disk(dev: Device, spans: Seq<Span>)
    ensures
        on_disk(dev, in_order(selected(dev, spans))),
{
    lemma_in_order_on_disk(dev, selected(dev, spans));
}

proof fn lemma_in_order_on_disk(dev: Device, s: Seq<SlotModel>)
    requires
        on_disk(dev, s),
    ensures
        on_disk(dev, in_order(s)),
    decreases s.len(),
{
    if s.len() > 0 {
        assert(on_disk(dev, s.drop_last()));
        lemma_in_order_on_disk(dev, s.drop_last());
        assert(s[s.len() - 1].data == dev.read(s[s.len() - 1].at, RECORD_SIZE).data);
        lemma_placed_on_disk(dev, in_order(s.drop_last()), s.last());
    }
}

proof fn lemma_placed_on_disk(dev: Device, t: Seq<SlotModel>, x: SlotModel)
    requires
        on_disk(dev, t),
        x.data == dev.read(x.at, RECORD_SIZE).data,
    ensures
        on_disk(dev, placed(t, x)),
    decreases t.len(),
{
    if !(t.len() == 0 || t.last().at <= x.at) {
        assert(t[t.len() - 1].data == dev.read(t[t.len() - 1].at, RECORD_SIZE).data);
        assert(on_disk(dev, t.drop_last()));
        lemma_placed_on_disk(dev, t.drop_last(), x);
    }
}

/// An edit finds what it says it finds, and changes it.
pub open spec fn edit_is_sound(dev: Device, e: EditModel) -> bool {
    &&& e.old == dev.read(e.offset, RECORD_SIZE).data
    &&& e.old.len() == RECORD_SIZE
    &&& e.new.len() == RECORD_SIZE
    &&& e.new != e.old
}

proof fn lemma_survivors_full(marker: Marker, records: Seq<SlotModel>)
    requires
        full_records(records),
    ensures
        forall|k: int|
            0 <= k < survivors(marker, records).len() ==> (#[trigger] survivors(
                marker,
                records,
            )[k]).len() == RECORD_SIZE,
    decreases records.len(),
{
    if records.len() > 0 {
        assert(full_records(records.drop_last()));
        assert(records[records.len() - 1].data.len() == RECORD_SIZE);
        lemma_survivors_full(marker, records.drop_last());
        let before = survivors(marker, records.drop_last());
        assert forall|k: int| 0 <= k < survivors(marker, records).len() implies (
        #[trigger] survivors(marker, records)[k]).len() == RECORD_SIZE by {
            if k < before.len() {
                assert(survivors(marker, records)[k] == before[k]);
            }
        }
    }
}

/// The edits of a whole-directory scrub find what they say they find. Those of a sweep
/// find no live record.
pub proof fn lemma_layout_edits_are_sound(
    dev: Device,
    marker: Marker,
    records: Seq<SlotModel>,
    mode: ScrubMode,
    n: nat,
)
    requires
        full_records(records),
        on_disk(dev, records),
        n <= records.len(),
    ensures
        forall|i: int|
            0 <= i < layout_edits(marker, records, mode, n).len() ==> {
                let e = #[trigger] layout_edits(marker, records, mode, n)[i];
                edit_is_sound(dev, e) && (mode == ScrubMode::Sweep ==> marker.class_of(e.old)
                    != RecordClass::Live)
            },
    decreases n,
{
    if n > 0 {
        lemma_layout_edits_are_sound(dev, marker, records, mode, (n - 1) as nat);
        lemma_survivors_full(marker, records);
        let r = records[n - 1];
        assert(r.data.len() == RECORD_SIZE && r.data == dev.read(r.at, RECORD_SIZE).data);
    }
}

/// The edits that overwrite records find what they say they find.
pub proof fn lemma_fill_edits_are_sound(
    dev: Device,
    records: Seq<SlotModel>,
    fill: Fill,
    reason: Seq<char>,
)
    requires
        full_records(records),
        on_disk(dev, records),
    ensures
        forall|i: int|
            0 <= i < fill_edits(records, fill, reason).len() ==> {
                let e = #[trigger] fill_edits(records, fill, reason)[i];
                edit_is_sound(dev, e) && e.new == filled(e.old, fill)
            },
    decreases records.len(),
{
    if records.len() > 0 {
        assert(full_records(records.drop_last()));
        assert(on_disk(dev, records.drop_last()));
        lemma_fill_edits_are_sound(dev, records.drop_last(), fill, reason);
        let r = records[records.len() - 1];
        assert(r.data.len() == RECORD_SIZE && r.data == dev.read(r.at, RECORD_SIZE).data);
        let before = fill_edits(records.drop_last(), fill, reason);
        let now = fill_edits(records, fill, reason);
        assert forall|i: int| 0 <= i < now.len() implies edit_is_sound(dev, #[trigger] now[i])
            && now[i].new == filled(now[i].old, fill) by {
            if i < before.len() {
                assert(now[i] == before[i]);
            }
        }
    }
}

// ------------------------------------------------------------- where records lie

/// The byte at `x` belongs to the run.
pub open spec fn run_holds(run: (u64, u64), x: int) -> bool {
    run.0 <= x < run.0 + run.1
}

/// No byte belongs to two of the runs.
pub open spec fn runs_disjoint(runs: Seq<(u64, u64)>) -> bool {
    forall|i: int, j: int, x: int|
        0 <= i < j < runs.len() && #[trigger] run_holds(runs[i], x) ==> !#[trigger] run_holds(
            runs[j],
            x,
        )
}

/// The byte at `x` belongs to cluster `k` of a list of places.
pub open spec fn place_holds(places: Seq<Option<u64>>, size: u64, k: int, x: int) -> bool {
    places[k] matches Some(at) && at <= x < at + size
}

/// No byte belongs to two of the clusters.
pub open spec fn places_disjoint(places: Seq<Option<u64>>, size: u64) -> bool {
    forall|i: int, j: int, x: int|
        0 <= i < j < places.len() && #[trigger] place_holds(places, size, i, x)
            ==> !#[trigger] place_holds(places, size, j, x)
}

/// No two records overlap.
pub open spec fn records_apart(records: Seq<SlotModel>) -> bool {
    forall|i: int, j: int|
        0 <= i < j < records.len() ==> (#[trigger] records[i]).at + RECORD_SIZE
            <= (#[trigger] records[j]).at || records[j].at + RECORD_SIZE <= records[i].at
}

/// Clusters that share no byte are joined into runs that share none.
pub proof fn lemma_joined_runs_are_disjoint(
    places: Seq<Option<u64>>,
    size: u64,
    from: u64,
    n: nat,
)
    requires
        n <= places.len(),
        places_disjoint(places, size),
        places.len() > 0 ==> (places[0] matches Some(at) ==> at <= from),
    ensures
        runs_disjoint(joined_runs(places, size, from, n)),
        forall|r: int, x: int|
            0 <= r < joined_runs(places, size, from, n).len() && #[trigger] run_holds(
                joined_runs(places, size, from, n)[r],
                x,
            ) ==> exists|k: int| 0 <= k < n && #[trigger] place_holds(places, size, k, x),
    decreases n,
{
    if n > 0 {
        lemma_joined_runs_are_disjoint(places, size, from, (n - 1) as nat);
        let before = joined_runs(places, size, from, (n - 1) as nat);
        let runs = joined_runs(places, size, from, n);
        if let Some(at) = places[n - 1] {
            let within: u64 = if from > at { (from - at) as u64 } else { 0 };
            let (start, len): (u64, u64) = if n == 1 {
                (from, if size > within { (size - within) as u64 } else { 0 })
            } else {
                (at, size)
            };
            let joins = before.len() > 0 && before.last().0 + before.last().1 == start;
            let last = runs.len() - 1;
            assert forall|x: int| #[trigger] run_holds(runs[last], x) implies place_holds(
                places,
                size,
                n - 1,
                x,
            ) || (joins && run_holds(before[last], x)) by {}
            assert forall|r: int, x: int|
                0 <= r < runs.len() && #[trigger] run_holds(runs[r], x) implies exists|k: int|
                0 <= k < n && #[trigger] place_holds(places, size, k, x) by {
                if r < last {
                    assert(runs[r] == before[r]);
                    assert(run_holds(before[r], x));
                }
            }
            assert forall|i: int, j: int, x: int|
                0 <= i < j < runs.len() && #[trigger] run_holds(runs[i], x) implies !#[trigger] run_holds(
                runs[j],
                x,
            ) by {
                assert(runs[i] == before[i]);
                assert(run_holds(before[i], x));
                let k = choose|k: int| 0 <= k < n - 1 && #[trigger] place_holds(places, size, k, x);
                assert(!place_holds(places, size, n - 1, x));
                if j < last {
                    assert(runs[j] == before[j]);
                    assert(!run_holds(before[j], x));
                } else if joins {
                    assert(!run_holds(before[last], x));
                }
            }
        } else {
            assert forall|r: int, x: int|
                0 <= r < runs.len() && #[trigger] run_holds(runs[r], x) implies exists|k: int|
                0 <= k < n && #[trigger] place_holds(places, size, k, x) by {
                let k = choose|k: int| 0 <= k < n - 1 && #[trigger] place_holds(places, size, k, x);
                assert(place_holds(places, size, k, x));
            }
        }
    }
}

/// The record shares no byte with the run.
spec fn record_clear_of(record: SlotModel, run: (u64, u64)) -> bool {
    forall|x: int| record.at <= x < record.at + RECORD_SIZE ==> !#[trigger] run_holds(run, x)
}

proof fn lemma_run_records_apart(
    dev: Device,
    run: (u64, u64),
    off: int,
    end: int,
    have: Seq<SlotModel>,
    old_len: nat,
)
    requires
        run.0 <= off <= end,
        end <= run.0 + run.1,
        end <= u64::MAX,
        old_len <= have.len(),
        records_apart(have),
        forall|i: int| 0 <= i < old_len ==> record_clear_of(#[trigger] have[i], run),
        forall|i: int|
            old_len <= i < have.len() ==> run.0 <= (#[trigger] have[i]).at && have[i].at
                + RECORD_SIZE <= off,
    ensures
        run_records(dev, off, end, have) matches Some(r) ==> {
            &&& records_apart(r)
            &&& have.len() <= r.len()
            &&& forall|i: int| 0 <= i < have.len() ==> #[trigger] r[i] == have[i]
            &&& forall|i: int|
                old_len <= i < r.len() ==> run.0 <= (#[trigger] r[i]).at && r[i].at + RECORD_SIZE
                    <= run.0 + run.1
        },
    decreases end - off,
{
    if off + RECORD_SIZE <= end && have.len() < MAX_DIR_RECORDS {
        let r = dev.read(off as u64, RECORD_SIZE);
        let slot = SlotModel { at: off as u64, data: r.data };
        let now = have.push(slot);
        if !unusable(r) {
            assert forall|i: int, j: int| 0 <= i < j < now.len() implies (#[trigger] now[i]).at
                + RECORD_SIZE <= (#[trigger] now[j]).at || now[j].at + RECORD_SIZE <= now[i].at by {
                if j == have.len() && i < old_len {
                    assert(record_clear_of(have[i], run));
                    let x: int = if have[i].at >= off { have[i].at as int } else { off };
                    if x < have[i].at + RECORD_SIZE && x < off + RECORD_SIZE {
                        assert(run_holds(run, x));
                    }
                }
            }
            assert forall|i: int| 0 <= i < old_len implies record_clear_of(
                #[trigger] now[i],
                run,
            ) by {
                assert(now[i] == have[i]);
            }
            lemma_run_records_apart(dev, run, off + RECORD_SIZE, end, now, old_len);
            if let Some(all) = run_records(dev, off, end, have) {
                assert forall|i: int| 0 <= i < have.len() implies #[trigger] all[i] == have[i] by {
                    assert(all[i] == now[i]);
                }
            }
        }
    }
}

/// The records of a directory whose runs share no byte do not overlap.
pub proof fn lemma_directory_records_apart(dev: Device, runs: Seq<(u64, u64)>, have: Seq<SlotModel>)
    requires
        runs_disjoint(runs),
        records_apart(have),
        forall|i: int, k: int, x: int|
            0 <= i < have.len() && 0 <= k < runs.len() && (#[trigger] have[i]).at <= x < have[i].at
                + RECORD_SIZE ==> !#[trigger] run_holds(runs[k], x),
    ensures
        directory_records(dev, runs, have) matches Some(r) ==> records_apart(r),
    decreases runs.len(),
{
    if runs.len() > 0 {
        let run = runs[0];
        let end = common::saturated(run.0 + run.1);
        assert forall|i: int| 0 <= i < have.len() implies record_clear_of(
            #[trigger] have[i],
            run,
        ) by {}
        lemma_run_records_apart(dev, run, run.0 as int, end as int, have, have.len());
        if let Some(now) = run_records(dev, run.0 as int, end as int, have) {
            let rest = runs.skip(1);
            assert forall|i: int, j: int, x: int|
                0 <= i < j < rest.len() && #[trigger] run_holds(rest[i], x) implies !#[trigger] run_holds(
                rest[j],
                x,
            ) by {
                assert(run_holds(runs[i + 1], x));
                assert(!run_holds(runs[j + 1], x));
            }
            assert forall|i: int, k: int, x: int|
                0 <= i < now.len() && 0 <= k < rest.len() && (#[trigger] now[i]).at <= x
                    < now[i].at + RECORD_SIZE implies !#[trigger] run_holds(rest[k], x) by {
                if i < have.len() {
                    assert(now[i] == have[i]);
                    assert(!run_holds(runs[k + 1], x));
                } else {
                    assert(run_holds(runs[0], x));
                    assert(!run_holds(runs[k + 1], x));
                }
            }
            lemma_directory_records_apart(dev, rest, now);
        }
    }
}

// ------------------------------------------------------------- carrying out a plan

/// The edit that slot `i` gets, where it gets one.
pub open spec fn edit_for(
    marker: Marker,
    records: Seq<SlotModel>,
    mode: ScrubMode,
    i: int,
) -> EditModel {
    EditModel {
        offset: records[i].at,
        old: records[i].data,
        new: laid_out(marker, records, mode, i),
        reason: mode_reason(mode),
    }
}

/// The edit is the one that a slot among the first `n` gets because it changes.
pub open spec fn edits_a_slot(
    marker: Marker,
    records: Seq<SlotModel>,
    mode: ScrubMode,
    n: nat,
    e: EditModel,
) -> bool {
    exists|i: int|
        0 <= i < n && e == #[trigger] edit_for(marker, records, mode, i) && records[i].data
            != laid_out(marker, records, mode, i)
}

/// A whole-directory scrub has one edit for each slot that changes, none for the
/// others, and so no two at one offset.
pub proof fn lemma_one_edit_a_changed_slot(
    marker: Marker,
    records: Seq<SlotModel>,
    mode: ScrubMode,
    n: nat,
)
    requires
        n <= records.len(),
        records_apart(records),
    ensures
        ({
            let edits = layout_edits(marker, records, mode, n);
            &&& forall|k: int|
                0 <= k < edits.len() ==> edits_a_slot(marker, records, mode, n, #[trigger] edits[k])
            &&& forall|i: int|
                0 <= i < n && records[i].data != laid_out(marker, records, mode, i) ==> edits.contains(
                    #[trigger] edit_for(marker, records, mode, i),
                )
            &&& forall|k: int, m: int|
                0 <= k < m < edits.len() ==> (#[trigger] edits[k]).offset + RECORD_SIZE
                    <= (#[trigger] edits[m]).offset || edits[m].offset + RECORD_SIZE
                    <= edits[k].offset
        }),
    decreases n,
{
    if n > 0 {
        lemma_one_edit_a_changed_slot(marker, records, mode, (n - 1) as nat);
        let before = layout_edits(marker, records, mode, (n - 1) as nat);
        let edits = layout_edits(marker, records, mode, n);
        let fresh = edit_for(marker, records, mode, n - 1);
        assert forall|k: int| 0 <= k < edits.len() implies edits_a_slot(
            marker,
            records,
            mode,
            n,
            #[trigger] edits[k],
        ) by {
            if k < before.len() {
                assert(edits[k] == before[k]);
                assert(edits_a_slot(marker, records, mode, (n - 1) as nat, before[k]));
            } else {
                assert(edits[k] == fresh);
            }
        }
        if records[n - 1].data != laid_out(marker, records, mode, n - 1) {
            assert(edits =~= before.push(fresh));
            assert forall|i: int|
                0 <= i < n && records[i].data != laid_out(
                    marker,
                    records,
                    mode,
                    i,
                ) implies edits.contains(#[trigger] edit_for(marker, records, mode, i)) by {
                if i == n - 1 {
                    assert(edits[before.len() as int] == fresh);
                } else {
                    let e = edit_for(marker, records, mode, i);
                    let k = choose|k: int| 0 <= k < before.len() && before[k] == e;
                    assert(edits[k] == e);
                }
            }
            assert forall|k: int, m: int| 0 <= k < m < edits.len() implies (
            #[trigger] edits[k]).offset + RECORD_SIZE <= (#[trigger] edits[m]).offset
                || edits[m].offset + RECORD_SIZE <= edits[k].offset by {
                assert(edits[k] == before[k]);
                if m < before.len() {
                    assert(edits[m] == before[m]);
                } else {
                    assert(edits_a_slot(marker, records, mode, (n - 1) as nat, before[k]));
                    let i = choose|i: int|
                        0 <= i < n - 1 && before[k] == #[trigger] edit_for(marker, records, mode, i)
                            && records[i].data != laid_out(marker, records, mode, i);
                    assert(records[i].at == edits[k].offset);
                    assert(records[n - 1].at == edits[m].offset);
                }
            }
        }
    }
}

/// The edit covers a byte of the `n` bytes at `at`. An edit covers one record.
pub open spec fn touches(e: EditModel, at: u64, n: u64) -> bool {
    e.offset < at + n && at < e.offset + RECORD_SIZE
}

/// None of the edits covers a byte of the `n` bytes at `at`.
pub open spec fn untouched(edits: Seq<EditModel>, at: u64, n: u64) -> bool {
    forall|k: int| 0 <= k < edits.len() ==> !touches(#[trigger] edits[k], at, n)
}

/// `after` is `before` with the edits written to it: what an edit covers reads as the
/// edit says, and everything that no edit covers reads as it did.
pub open spec fn written(before: Device, after: Device, edits: Seq<EditModel>) -> bool {
    &&& after.len == before.len
    &&& after.sector_size == before.sector_size
    &&& forall|k: int|
        0 <= k < edits.len() ==> after.read((#[trigger] edits[k]).offset, RECORD_SIZE) == (Reading {
            data: edits[k].new,
            outcome: ReadOutcome::Full,
        })
    &&& forall|at: u64, n: u64|
        untouched(edits, at, n) ==> #[trigger] after.read(at, n) == before.read(at, n)
}

/// Every record can be read in full.
pub open spec fn all_readable(dev: Device, records: Seq<SlotModel>) -> bool {
    forall|i: int|
        0 <= i < records.len() ==> !unusable(dev.read((#[trigger] records[i]).at, RECORD_SIZE))
}

/// No record lies before `low`.
pub open spec fn all_from(records: Seq<SlotModel>, low: int) -> bool {
    forall|i: int| 0 <= i < records.len() ==> low <= (#[trigger] records[i]).at
}

proof fn lemma_run_records_from(dev: Device, off: int, end: int, have: Seq<SlotModel>, low: int)
    requires
        0 <= off,
        low <= off,
        end <= u64::MAX,
        all_from(have, low),
        all_readable(dev, have),
    ensures
        run_records(dev, off, end, have) matches Some(r) ==> all_from(r, low) && all_readable(
            dev,
            r,
        ),
    decreases end - off,
{
    if off + RECORD_SIZE <= end && have.len() < MAX_DIR_RECORDS {
        let r = dev.read(off as u64, RECORD_SIZE);
        if !unusable(r) {
            let now = have.push(SlotModel { at: off as u64, data: r.data });
            assert(all_from(now, low));
            assert(all_readable(dev, now));
            lemma_run_records_from(dev, off + RECORD_SIZE, end, now, low);
        }
    }
}

/// The records of a directory can all be read, and lie no earlier than its runs.
pub proof fn lemma_directory_records_from(
    dev: Device,
    runs: Seq<(u64, u64)>,
    have: Seq<SlotModel>,
    low: int,
)
    requires
        forall|k: int| 0 <= k < runs.len() ==> low <= (#[trigger] runs[k]).0,
        all_from(have, low),
        all_readable(dev, have),
    ensures
        directory_records(dev, runs, have) matches Some(r) ==> all_from(r, low) && all_readable(
            dev,
            r,
        ),
    decreases runs.len(),
{
    if runs.len() > 0 {
        let end = common::saturated(runs[0].0 + runs[0].1);
        lemma_run_records_from(dev, runs[0].0 as int, end as int, have, low);
        if let Some(now) = run_records(dev, runs[0].0 as int, end as int, have) {
            assert forall|k: int| 0 <= k < runs.skip(1).len() implies low <= (
            #[trigger] runs.skip(1)[k]).0 by {
                assert(runs[k + 1].0 >= low);
            }
            lemma_directory_records_from(dev, runs.skip(1), now, low);
        }
    }
}

/// Joining clusters into runs starts none before the first of the clusters.
pub proof fn lemma_joined_runs_from(
    places: Seq<Option<u64>>,
    size: u64,
    from: u64,
    n: nat,
    low: int,
)
    requires
        n <= places.len(),
        low <= from,
        forall|k: int|
            0 <= k < places.len() ==> (#[trigger] places[k] matches Some(at) ==> low <= at),
    ensures
        forall|k: int|
            0 <= k < joined_runs(places, size, from, n).len() ==> low <= (#[trigger] joined_runs(
                places,
                size,
                from,
                n,
            )[k]).0,
    decreases n,
{
    if n > 0 {
        lemma_joined_runs_from(places, size, from, (n - 1) as nat, low);
        let before = joined_runs(places, size, from, (n - 1) as nat);
        let runs = joined_runs(places, size, from, n);
        assert(places[n - 1] matches Some(at) ==> low <= at);
        assert forall|k: int| 0 <= k < runs.len() implies low <= (#[trigger] runs[k]).0 by {
            if k < before.len() {
                assert(low <= before[k].0);
            }
        }
    }
}

/// What lies in front of every record of a directory reads the same once a scrub of the
/// directory is written.
pub proof fn lemma_front_is_untouched(
    marker: Marker,
    records: Seq<SlotModel>,
    mode: ScrubMode,
    at: u64,
    n: u64,
)
    requires
        records_apart(records),
        all_from(records, at + n),
    ensures
        untouched(layout_edits(marker, records, mode, records.len()), at, n),
{
    let edits = layout_edits(marker, records, mode, records.len());
    lemma_one_edit_a_changed_slot(marker, records, mode, records.len());
    assert forall|k: int| 0 <= k < edits.len() implies !touches(#[trigger] edits[k], at, n) by {
        assert(edits_a_slot(marker, records, mode, records.len(), edits[k]));
        let m = choose|m: int|
            0 <= m < records.len() && edits[k] == #[trigger] edit_for(marker, records, mode, m)
                && records[m].data != laid_out(marker, records, mode, m);
        assert(records[m].at >= at + n);
    }
}

proof fn lemma_slot_after(
    before: Device,
    after: Device,
    marker: Marker,
    records: Seq<SlotModel>,
    mode: ScrubMode,
    i: int,
)
    requires
        records_apart(records),
        on_disk(before, records),
        all_readable(before, records),
        full_records(records),
        0 <= i < records.len(),
        written(before, after, layout_edits(marker, records, mode, records.len())),
    ensures
        !unusable(after.read(records[i].at, RECORD_SIZE)),
        after.read(records[i].at, RECORD_SIZE).data == laid_out(marker, records, mode, i),
{
    let edits = layout_edits(marker, records, mode, records.len());
    lemma_one_edit_a_changed_slot(marker, records, mode, records.len());
    lemma_survivors_full(marker, records);
    let fresh = edit_for(marker, records, mode, i);
    assert(records[i].data.len() == RECORD_SIZE);
    assert(fresh.new.len() == RECORD_SIZE);
    if records[i].data != laid_out(marker, records, mode, i) {
        assert(edits.contains(fresh));
        let k = choose|k: int| 0 <= k < edits.len() && edits[k] == fresh;
        assert(edits[k].offset == records[i].at);
    } else {
        assert forall|k: int| 0 <= k < edits.len() implies !touches(
            #[trigger] edits[k],
            records[i].at,
            RECORD_SIZE,
        ) by {
            assert(edits_a_slot(marker, records, mode, records.len(), edits[k]));
            let m = choose|m: int|
                0 <= m < records.len() && edits[k] == #[trigger] edit_for(marker, records, mode, m)
                    && records[m].data != laid_out(marker, records, mode, m);
            assert(m != i);
            assert(records[m].at + RECORD_SIZE <= records[i].at || records[i].at + RECORD_SIZE
                <= records[m].at);
        }
        assert(untouched(edits, records[i].at, RECORD_SIZE));
    }
}

/// The records re-read at the places of `r`, from slot `from` on.
spec fn reread(after: Device, r: Seq<SlotModel>, from: nat, have: Seq<SlotModel>) -> Seq<SlotModel> {
    Seq::new(
        r.len(),
        |i: int|
            if i < from {
                have[i]
            } else {
                SlotModel { at: r[i].at, data: after.read(r[i].at, RECORD_SIZE).data }
            },
    )
}

proof fn lemma_run_reread(
    dev: Device,
    after: Device,
    off: int,
    end: int,
    have: Seq<SlotModel>,
    now: Seq<SlotModel>,
)
    requires
        0 <= off,
        end <= u64::MAX,
        have.len() == now.len(),
        run_records(dev, off, end, have) matches Some(r) && forall|i: int|
            have.len() <= i < r.len() ==> !unusable(
                after.read((#[trigger] r[i]).at, RECORD_SIZE),
            ),
    ensures
        run_records(dev, off, end, have) matches Some(r) && have.len() <= r.len() && run_records(
            after,
            off,
            end,
            now,
        ) == Some(reread(after, r, have.len(), now)) && forall|i: int|
            0 <= i < have.len() ==> #[trigger] r[i] == have[i],
    decreases end - off,
{
    let r = run_records(dev, off, end, have).unwrap();
    if off + RECORD_SIZE > end {
        assert(reread(after, r, have.len(), now) =~= now);
    } else {
        let old_slot = SlotModel {
            at: off as u64,
            data: dev.read(off as u64, RECORD_SIZE).data,
        };
        let new_slot = SlotModel {
            at: off as u64,
            data: after.read(off as u64, RECORD_SIZE).data,
        };
        lemma_run_prefix(dev, off + RECORD_SIZE, end, have.push(old_slot));
        assert(r[have.len() as int] == have.push(old_slot)[have.len() as int]);
        assert(!unusable(after.read(r[have.len() as int].at, RECORD_SIZE)));
        lemma_run_reread(
            dev,
            after,
            off + RECORD_SIZE,
            end,
            have.push(old_slot),
            now.push(new_slot),
        );
        assert forall|i: int| 0 <= i < have.len() implies #[trigger] r[i] == have[i] by {
            assert(r[i] == have.push(old_slot)[i]);
        }
        assert(reread(after, r, have.len() + 1, now.push(new_slot)) =~= reread(
            after,
            r,
            have.len(),
            now,
        ));
    }
}

proof fn lemma_run_prefix(dev: Device, off: int, end: int, have: Seq<SlotModel>)
    ensures
        run_records(dev, off, end, have) matches Some(r) ==> have.len() <= r.len() && forall|i: int|
            0 <= i < have.len() ==> #[trigger] r[i] == have[i],
    decreases end - off,
{
    if off + RECORD_SIZE <= end && have.len() < MAX_DIR_RECORDS {
        let r = dev.read(off as u64, RECORD_SIZE);
        if !unusable(r) {
            let now = have.push(SlotModel { at: off as u64, data: r.data });
            lemma_run_prefix(dev, off + RECORD_SIZE, end, now);
            if let Some(all) = run_records(dev, off, end, have) {
                assert forall|i: int| 0 <= i < have.len() implies #[trigger] all[i] == have[i] by {
                    assert(all[i] == now[i]);
                }
            }
        }
    }
}

proof fn lemma_directory_prefix(dev: Device, runs: Seq<(u64, u64)>, have: Seq<SlotModel>)
    ensures
        directory_records(dev, runs, have) matches Some(r) ==> have.len() <= r.len()
            && forall|i: int| 0 <= i < have.len() ==> #[trigger] r[i] == have[i],
    decreases runs.len(),
{
    if runs.len() > 0 {
        let end = common::saturated(runs[0].0 + runs[0].1);
        lemma_run_prefix(dev, runs[0].0 as int, end as int, have);
        if let Some(now) = run_records(dev, runs[0].0 as int, end as int, have) {
            lemma_directory_prefix(dev, runs.skip(1), now);
            if let Some(all) = directory_records(dev, runs, have) {
                assert forall|i: int| 0 <= i < have.len() implies #[trigger] all[i] == have[i] by {
                    assert(all[i] == now[i]);
                }
            }
        }
    }
}

proof fn lemma_directory_reread(
    dev: Device,
    after: Device,
    runs: Seq<(u64, u64)>,
    have: Seq<SlotModel>,
    now: Seq<SlotModel>,
)
    requires
        have.len() == now.len(),
        directory_records(dev, runs, have) matches Some(r) && forall|i: int|
            have.len() <= i < r.len() ==> !unusable(
                after.read((#[trigger] r[i]).at, RECORD_SIZE),
            ),
    ensures
        directory_records(dev, runs, have) matches Some(r) && directory_records(after, runs, now)
            == Some(reread(after, r, have.len(), now)),
    decreases runs.len(),
{
    let r = directory_records(dev, runs, have).unwrap();
    if runs.len() == 0 {
        assert(reread(after, r, have.len(), now) =~= now);
    } else {
        let at = runs[0].0 as int;
        let end = common::saturated(runs[0].0 + runs[0].1) as int;
        let mid = run_records(dev, at, end, have).unwrap();
        lemma_run_prefix(dev, at, end, have);
        lemma_directory_prefix(dev, runs.skip(1), mid);
        assert forall|i: int| have.len() <= i < mid.len() implies !unusable(
            after.read((#[trigger] mid[i]).at, RECORD_SIZE),
        ) by {
            assert(r[i] == mid[i]);
        }
        lemma_run_reread(dev, after, at, end, have, now);
        let mid2 = reread(after, mid, have.len(), now);
        lemma_directory_reread(dev, after, runs.skip(1), mid, mid2);
        assert(reread(after, r, mid.len(), mid2) =~= reread(after, r, have.len(), now));
    }
}

proof fn lemma_sweep_keeps_live_after(
    marker: Marker,
    records: Seq<SlotModel>,
    mode: ScrubMode,
    i: int,
)
    requires
        mode != ScrubMode::Compact,
        0 <= i < records.len(),
    ensures
        live_after(marker, scrubbed(marker, records, mode), i) == live_after(marker, records, i),
{
    let after = scrubbed(marker, records, mode);
    assert forall|j: int| 0 <= j < records.len() implies (marker.class_of(
        (#[trigger] after[j]).data,
    ) == RecordClass::Live) == (marker.class_of(records[j].data) == RecordClass::Live) by {
        lemma_blank_is_free(marker, records[j].data);
    }
    if live_after(marker, records, i) {
        let j = choose|j: int|
            i < j < records.len() && marker.class_of((#[trigger] records[j]).data)
                == RecordClass::Live;
        assert(marker.class_of(after[j].data) == RecordClass::Live);
    }
    if live_after(marker, after, i) {
        let j = choose|j: int|
            i < j < after.len() && marker.class_of((#[trigger] after[j]).data) == RecordClass::Live;
        assert(marker.class_of(records[j].data) == RecordClass::Live);
    }
}

/// Scrubbing a directory again in the way it has just been scrubbed changes nothing.
pub proof fn lemma_scrub_is_final(
    marker: Marker,
    records: Seq<SlotModel>,
    mode: ScrubMode,
    n: nat,
)
    requires
        n <= records.len(),
    ensures
        layout_edits(marker, scrubbed(marker, records, mode), mode, n).len() == 0,
    decreases n,
{
    lemma_scrub_keeps_every_live_record(marker, records, mode);
    if n > 0 {
        lemma_scrub_is_final(marker, records, mode, (n - 1) as nat);
        let after = scrubbed(marker, records, mode);
        let now = after[n - 1].data;
        if mode == ScrubMode::Compact {
            if n - 1 >= survivors(marker, records).len() {
                assert(blank(now) =~= now);
            }
        } else {
            lemma_sweep_keeps_live_after(marker, records, mode, n - 1);
            match marker.class_of(records[n - 1].data) {
                RecordClass::Live => {},
                RecordClass::Free => {
                    assert(blank(now) =~= now);
                },
                RecordClass::Deleted => {
                    if live_after(marker, records, n - 1) {
                        assert(emptied(now) =~= now);
                    } else {
                        assert(blank(now) =~= now);
                    }
                },
            }
        }
    }
}

/// Once the edits of a whole-directory scrub are written, reading the directory again
/// gives what the scrub made of it.
pub proof fn lemma_reading_back_a_scrub(
    before: Device,
    after: Device,
    marker: Marker,
    runs: Seq<(u64, u64)>,
    mode: ScrubMode,
)
    requires
        runs_disjoint(runs),
        directory_records(before, runs, Seq::empty()) matches Some(records) && written(
            before,
            after,
            layout_edits(marker, records, mode, records.len()),
        ),
    ensures
        directory_records(before, runs, Seq::empty()) matches Some(records) && records_apart(
            records,
        ) && directory_records(after, runs, Seq::empty()) == Some(
            scrubbed(marker, records, mode),
        ),
{
    let none = Seq::<SlotModel>::empty();
    let records = directory_records(before, runs, none).unwrap();
    lemma_directory_records_apart(before, runs, none);
    lemma_directory_on_disk(before, runs, none);
    lemma_directory_records_full(before, runs, none);
    lemma_directory_records_from(before, runs, none, 0);
    assert forall|i: int| 0 <= i < records.len() implies !unusable(
        after.read((#[trigger] records[i]).at, RECORD_SIZE),
    ) && after.read(records[i].at, RECORD_SIZE).data == laid_out(marker, records, mode, i) by {
        lemma_slot_after(before, after, marker, records, mode, i);
    }
    lemma_directory_reread(before, after, runs, none, none);
    assert(reread(after, records, 0, none) =~= scrubbed(marker, records, mode));
}

/// An image with the edits written to it, one after the other.
pub open spec fn spliced(image: Seq<u8>, edits: Seq<EditModel>) -> Seq<u8>
    decreases edits.len(),
{
    if edits.len() == 0 {
        image
    } else {
        bytes::put(
            spliced(image, edits.drop_last()),
            edits.last().offset as int,
            edits.last().new,
        )
    }
}

/// The device holds the image, and reading past its end is a short read.
pub open spec fn holds_image(dev: Device, image: Seq<u8>) -> bool {
    &&& dev.len == image.len()
    &&& forall|at: u64, n: u64| #[trigger] dev.read(at, n) == clipped_read(image, at, n)
}

/// No two edits overlap, and each replaces one whole record of the image.
pub open spec fn edits_fit(image: Seq<u8>, edits: Seq<EditModel>) -> bool {
    &&& forall|k: int|
        0 <= k < edits.len() ==> (#[trigger] edits[k]).new.len() == RECORD_SIZE && edits[k].offset
            + RECORD_SIZE <= image.len()
    &&& forall|k: int, m: int|
        0 <= k < m < edits.len() ==> (#[trigger] edits[k]).offset + RECORD_SIZE
            <= (#[trigger] edits[m]).offset || edits[m].offset + RECORD_SIZE <= edits[k].offset
}

proof fn lemma_spliced_bytes(image: Seq<u8>, edits: Seq<EditModel>)
    requires
        edits_fit(image, edits),
    ensures
        spliced(image, edits).len() == image.len(),
        forall|k: int, j: int|
            0 <= k < edits.len() && 0 <= j < RECORD_SIZE ==> #[trigger] spliced(
                image,
                edits,
            )[edits[k].offset + j] == edits[k].new[j],
        forall|x: int|
            0 <= x < image.len() && (forall|k: int|
                0 <= k < edits.len() ==> !((#[trigger] edits[k]).offset <= x < edits[k].offset
                    + RECORD_SIZE)) ==> #[trigger] spliced(image, edits)[x] == image[x],
    decreases edits.len(),
{
    if edits.len() > 0 {
        let front = edits.drop_last();
        let last = edits.len() - 1;
        assert(edits_fit(image, front)) by {
            assert forall|k: int| 0 <= k < front.len() implies (#[trigger] front[k]).new.len()
                == RECORD_SIZE && front[k].offset + RECORD_SIZE <= image.len() by {
                assert(front[k] == edits[k]);
            }
            assert forall|k: int, m: int| 0 <= k < m < front.len() implies (
            #[trigger] front[k]).offset + RECORD_SIZE <= (#[trigger] front[m]).offset
                || front[m].offset + RECORD_SIZE <= front[k].offset by {
                assert(front[k] == edits[k] && front[m] == edits[m]);
            }
        }
        lemma_spliced_bytes(image, front);
        let before = spliced(image, front);
        let now = spliced(image, edits);
        let e = edits[last];
        assert(e.new.len() == RECORD_SIZE && e.offset + RECORD_SIZE <= image.len());
        assert forall|k: int, j: int|
            0 <= k < edits.len() && 0 <= j < RECORD_SIZE implies #[trigger] now[edits[k].offset + j]
            == edits[k].new[j] by {
            assert(edits[k].offset + RECORD_SIZE <= image.len());
            if k < last {
                assert(front[k] == edits[k]);
                assert(before[front[k].offset + j] == front[k].new[j]);
            }
        }
        assert forall|x: int|
            0 <= x < image.len() && (forall|k: int|
                0 <= k < edits.len() ==> !((#[trigger] edits[k]).offset <= x < edits[k].offset
                    + RECORD_SIZE)) implies #[trigger] now[x] == image[x] by {
            assert(!(e.offset <= x < e.offset + RECORD_SIZE));
            assert forall|k: int| 0 <= k < front.len() implies !((#[trigger] front[k]).offset <= x
                < front[k].offset + RECORD_SIZE) by {
                assert(front[k] == edits[k]);
            }
            assert(before[x] == image[x]);
        }
    }
}

/// Writing the edits to an image is what [`written`] describes: a device that holds the
/// image with the edits in it is the device that held the image, with the edits
/// written.
pub proof fn lemma_spliced_image_is_written(
    before: Device,
    after: Device,
    image: Seq<u8>,
    edits: Seq<EditModel>,
)
    requires
        edits_fit(image, edits),
        holds_image(before, image),
        holds_image(after, spliced(image, edits)),
        after.sector_size == before.sector_size,
    ensures
        written(before, after, edits),
{
    let now = spliced(image, edits);
    lemma_spliced_bytes(image, edits);
    assert forall|k: int| 0 <= k < edits.len() implies after.read(
        (#[trigger] edits[k]).offset,
        RECORD_SIZE,
    ) == (Reading { data: edits[k].new, outcome: ReadOutcome::Full }) by {
        let at = edits[k].offset as int;
        assert forall|j: int| 0 <= j < RECORD_SIZE implies now.subrange(at, at + 32)[j]
            == edits[k].new[j] by {
            assert(now[edits[k].offset + j] == edits[k].new[j]);
        }
        assert(now.subrange(at, at + 32) =~= edits[k].new);
        assert(after.read(edits[k].offset, RECORD_SIZE) == clipped_read(
            now,
            edits[k].offset,
            RECORD_SIZE,
        ));
    }
    assert forall|at: u64, n: u64| untouched(edits, at, n) implies #[trigger] after.read(at, n)
        == before.read(at, n) by {
        assert forall|x: int| at <= x < at + n && x < image.len() implies now[x] == image[x] by {
            assert forall|k: int| 0 <= k < edits.len() implies !((#[trigger] edits[k]).offset <= x
                < edits[k].offset + RECORD_SIZE) by {
                assert(!touches(edits[k], at, n));
            }
        }
        assert(window(now, at as int, n as int) =~= window(image, at as int, n as int));
        assert(after.read(at, n) == clipped_read(now, at, n));
        assert(before.read(at, n) == clipped_read(image, at, n));
    }
}

} // verus!
