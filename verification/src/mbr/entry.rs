//! One partition entry, and what four of them say together.

use crate::common;
use crate::common::{u32_or_zero, u8_or_zero};
use crate::desc::{read_desc_at, record_of, ReadCtx, Record, RecordModel};
use crate::mbr::desc;
use crate::mbr::finding;
use crate::mbr::finding::{note, Finding};
use crate::mbr::types;
use crate::source::{BlockSource, Device};
use crate::text;
use crate::text::Text;
use vstd::prelude::*;

verus! {

/// The handful of numbers from an entry that traversal and checks need.
#[derive(Clone, Copy, Debug, PartialEq, Eq, Structural)]
pub struct EntryFacts {
    pub status: u64,
    pub part_type: u64,
    pub lba_first: u64,
    pub num_sectors: u64,
}

/// The facts that an entry's bytes state. What was not read counts as zero.
pub open spec fn facts_of(b: Seq<u8>) -> EntryFacts {
    EntryFacts {
        status: common::byte_or_zero(b, 0) as u64,
        part_type: common::byte_or_zero(b, 4) as u64,
        lba_first: common::le32_or_zero(b, 8) as u64,
        num_sectors: common::le32_or_zero(b, 12) as u64,
    }
}

impl EntryFacts {
    /// The facts that an entry's bytes state.
    pub fn from_bytes(b: &[u8]) -> (r: EntryFacts)
        ensures
            r == facts_of(b@),
    {
        EntryFacts {
            status: u8_or_zero(b, 0) as u64,
            part_type: u8_or_zero(b, 4) as u64,
            lba_first: u32_or_zero(b, 8) as u64,
            num_sectors: u32_or_zero(b, 12) as u64,
        }
    }

    /// The slot describes nothing.
    pub open spec fn empty(self) -> bool {
        self.part_type == 0 && self.lba_first == 0 && self.num_sectors == 0
    }

    pub fn is_empty(&self) -> (r: bool)
        ensures
            r == self.empty(),
    {
        self.part_type == 0 && self.lba_first == 0 && self.num_sectors == 0
    }

    /// The first sector after the partition.
    pub open spec fn end(self) -> Option<u64> {
        common::checked(self.lba_first + self.num_sectors)
    }

    pub fn end_lba(&self) -> (r: Option<u64>)
        ensures
            r == self.end(),
    {
        self.lba_first.checked_add(self.num_sectors)
    }

    /// The first sector after the partition, or the last sector there can be.
    pub open spec fn end_or_max(self) -> u64 {
        common::saturated(self.lba_first + self.num_sectors)
    }
}

// ----------------------------------------------------------------------- labels

/// What slot `i` of the table is called.
pub open spec fn entry_label(i: int, fx: EntryFacts) -> Seq<char> {
    if fx.empty() {
        "["@ + text::dec(i) + "] --"@
    } else {
        "["@ + text::dec(i) + "] "@ + text::hex_bare(fx.part_type as int, 2) + " "@
            + types::type_text(fx.part_type)
    }
}

pub fn label_for_entry(i: usize, fx: &EntryFacts) -> (r: String)
    ensures
        r@ == entry_label(i as int, *fx),
{
    if fx.is_empty() {
        Text::of("[").dec(i as u64).lit("] --").done()
    } else {
        Text::of("[").dec(i as u64).lit("] ").hex_bare(fx.part_type, 2).lit(" ").lit(
            types::type_label(fx.part_type),
        ).done()
    }
}

// ------------------------------------------------------------- one entry's checks

/// Everything a single entry can be wrong about on its own. `leftover` says that some
/// byte of it is not zero.
pub open spec fn entry_findings(
    fx: EntryFacts,
    leftover: bool,
    device_sectors: u64,
    sector_size: u64,
) -> Seq<Finding> {
    if fx.empty() {
        finding::when(leftover, Finding::Leftover)
    } else {
        Seq::<Finding>::empty() + finding::when(fx.num_sectors == 0, Finding::ZeroLength)
            + finding::when(fx.end() is None, Finding::EndOverflow) + finding::when(
            fx.end() matches Some(end) && device_sectors > 0 && end > device_sectors,
            Finding::PastDevice { end: fx.end_or_max(), device_sectors, sector_size },
        ) + finding::when(
            fx.status != 0x00 && fx.status != 0x80,
            Finding::OddStatus { status: fx.status },
        ) + finding::when(
            fx.part_type == types::TYPE_GPT_PROTECTIVE,
            Finding::ProtectiveEntry,
        )
    }
}

/// Check a single entry on its own. An "empty" slot with a stray status or CHS byte is
/// a trace of something that used to be there.
pub fn annotate_entry(fx: &EntryFacts, leftover: bool, device_sectors: u64, sector_size: u64) -> (r:
    Vec<Finding>)
    ensures
        r@ == entry_findings(*fx, leftover, device_sectors, sector_size),
{
    let mut out: Vec<Finding> = Vec::new();
    if fx.is_empty() {
        note(&mut out, leftover, Finding::Leftover);
        assert(out@ =~= entry_findings(*fx, leftover, device_sectors, sector_size));
        return out;
    }
    note(&mut out, fx.num_sectors == 0, Finding::ZeroLength);
    let end = fx.end_lba();
    note(&mut out, end.is_none(), Finding::EndOverflow);
    let last: u64 = match end {
        Some(e) => e,
        None => u64::MAX,
    };
    note(
        &mut out,
        end.is_some() && device_sectors > 0 && last > device_sectors,
        Finding::PastDevice { end: last, device_sectors, sector_size },
    );
    note(
        &mut out,
        fx.status != 0x00 && fx.status != 0x80,
        Finding::OddStatus { status: fx.status },
    );
    note(&mut out, fx.part_type == types::TYPE_GPT_PROTECTIVE, Finding::ProtectiveEntry);
    out
}

// --------------------------------------------------------------------- overlaps

/// Two entries claim a sector in common.
pub open spec fn overlap(a: EntryFacts, b: EntryFacts) -> bool {
    &&& a.num_sectors > 0
    &&& b.num_sectors > 0
    &&& a.end() matches Some(ae)
    &&& b.end() matches Some(be)
    &&& a.lba_first < be
    &&& b.lba_first < ae
}

/// The overlaps of entry `i` with entries `i + 1..n`, each seen from both sides.
pub open spec fn overlap_row(facts: Seq<EntryFacts>, i: int, n: int) -> Seq<(usize, usize)>
    decreases n - i,
{
    if n <= i + 1 {
        Seq::empty()
    } else {
        let before = overlap_row(facts, i, n - 1);
        if overlap(facts[i], facts[n - 1]) {
            before.push((i as usize, (n - 1) as usize)).push(((n - 1) as usize, i as usize))
        } else {
            before
        }
    }
}

/// The overlaps of the first `n` entries with those that follow them.
pub open spec fn overlaps_of(facts: Seq<EntryFacts>, n: nat) -> Seq<(usize, usize)>
    decreases n,
{
    if n == 0 {
        Seq::empty()
    } else {
        overlaps_of(facts, (n - 1) as nat) + overlap_row(facts, n - 1, facts.len() as int)
    }
}

/// Find the entries that claim a sector in common, each pair seen from both sides.
///
/// Extended containers legitimately contain their logicals; comparing two top-level
/// entries is still meaningful because logicals are not top-level entries.
pub fn find_overlaps(facts: &[EntryFacts]) -> (r: Vec<(usize, usize)>)
    ensures
        r@ == overlaps_of(facts@, facts@.len()),
{
    let mut out: Vec<(usize, usize)> = Vec::new();
    let len: usize = facts.len();
    let mut i: usize = 0;
    while i < len
        invariant
            i <= len,
            len == facts@.len(),
            out@ == overlaps_of(facts@, i as nat),
        decreases len - i,
    {
        let ghost start = out@;
        let mut j: usize = i + 1;
        while j < len
            invariant
                i < j <= len,
                len == facts@.len(),
                out@ =~= start + overlap_row(facts@, i as int, j as int),
            decreases len - j,
        {
            let a = facts[i];
            let b = facts[j];
            if a.num_sectors > 0 && b.num_sectors > 0 {
                if let (Some(ae), Some(be)) = (a.end_lba(), b.end_lba()) {
                    if a.lba_first < be && b.lba_first < ae {
                        out.push((i, j));
                        out.push((j, i));
                    }
                }
            }
            j += 1;
        }
        i += 1;
    }
    out
}

/// A list of overlaps pairs `i` with `j` exactly when the two entries claim a sector
/// in common; every pair is there from both sides, and no entry overlaps itself.
pub proof fn lemma_overlaps_are_mutual(facts: Seq<EntryFacts>, i: usize, j: usize)
    requires
        i < facts.len(),
        j < facts.len(),
        facts.len() <= usize::MAX,
    ensures
        overlaps_of(facts, facts.len()).contains((i, j)) <==> i != j && overlap(
            facts[i as int],
            facts[j as int],
        ),
        overlaps_of(facts, facts.len()).contains((i, j)) <==> overlaps_of(
            facts,
            facts.len(),
        ).contains((j, i)),
{
    lemma_overlaps_hold(facts, facts.len(), i, j);
    lemma_overlaps_hold(facts, facts.len(), j, i);
}

proof fn lemma_row_holds(facts: Seq<EntryFacts>, k: int, n: int, i: usize, j: usize)
    requires
        0 <= k < n <= facts.len(),
        n <= usize::MAX,
    ensures
        overlap_row(facts, k, n).contains((i, j)) <==> (i == k && k < j < n || j == k && k < i < n)
            && overlap(facts[i as int], facts[j as int]),
    decreases n,
{
    let row = overlap_row(facts, k, n);
    if n > k + 1 {
        let before = overlap_row(facts, k, n - 1);
        lemma_row_holds(facts, k, n - 1, i, j);
        if overlap(facts[k], facts[n - 1]) {
            let a = (k as usize, (n - 1) as usize);
            let b = ((n - 1) as usize, k as usize);
            assert(row =~= before.push(a).push(b));
            assert(row[before.len() as int] == a);
            assert(row[before.len() as int + 1] == b);
            if before.contains((i, j)) {
                let x = choose|x: int| 0 <= x < before.len() && before[x] == (i, j);
                assert(row[x] == (i, j));
            }
            if row.contains((i, j)) {
                let x = choose|x: int| 0 <= x < row.len() && row[x] == (i, j);
                if x < before.len() {
                    assert(before[x] == (i, j));
                }
            }
        }
    }
}

proof fn lemma_overlaps_hold(facts: Seq<EntryFacts>, n: nat, i: usize, j: usize)
    requires
        n <= facts.len(),
        i < facts.len(),
        j < facts.len(),
        facts.len() <= usize::MAX,
    ensures
        overlaps_of(facts, n).contains((i, j)) <==> (i < j && i < n || j < i && j < n) && overlap(
            facts[i as int],
            facts[j as int],
        ),
    decreases n,
{
    let all = overlaps_of(facts, n);
    if n > 0 {
        let before = overlaps_of(facts, (n - 1) as nat);
        let row = overlap_row(facts, n - 1, facts.len() as int);
        lemma_overlaps_hold(facts, (n - 1) as nat, i, j);
        lemma_row_holds(facts, n - 1, facts.len() as int, i, j);
        assert(all =~= before + row);
        if before.contains((i, j)) {
            let x = choose|x: int| 0 <= x < before.len() && before[x] == (i, j);
            assert(all[x] == (i, j));
        }
        if row.contains((i, j)) {
            let x = choose|x: int| 0 <= x < row.len() && row[x] == (i, j);
            assert(all[before.len() + x] == (i, j));
        }
        if all.contains((i, j)) {
            let x = choose|x: int| 0 <= x < all.len() && all[x] == (i, j);
            if x < before.len() {
                assert(before[x] == (i, j));
            } else {
                assert(row[x - before.len()] == (i, j));
            }
        }
    }
}

/// Every index in a list of pairs is below `n`.
pub open spec fn within(pairs: Seq<(usize, usize)>, n: nat) -> bool {
    forall|x: int| 0 <= x < pairs.len() ==> (#[trigger] pairs[x]).0 < n && pairs[x].1 < n
}

/// What an overlap says about entry `i`.
pub open spec fn overlap_finding(facts: Seq<EntryFacts>, i: usize, j: usize) -> Finding {
    let a = facts[i as int];
    let b = facts[j as int];
    Finding::Overlap {
        other: j as u64,
        first: a.lba_first,
        end: a.end_or_max(),
        other_first: b.lba_first,
        other_end: b.end_or_max(),
    }
}

/// What the overlaps say about entry `k`, in order.
pub open spec fn overlap_findings(
    facts: Seq<EntryFacts>,
    pairs: Seq<(usize, usize)>,
    k: int,
) -> Seq<Finding>
    decreases pairs.len(),
{
    if pairs.len() == 0 {
        Seq::empty()
    } else {
        overlap_findings(facts, pairs.drop_last(), k) + finding::when(
            pairs.last().0 == k,
            overlap_finding(facts, pairs.last().0, pairs.last().1),
        )
    }
}

/// Add what the overlaps say about entry `k`.
pub fn note_overlaps(
    out: &mut Vec<Finding>,
    facts: &[EntryFacts],
    pairs: &[(usize, usize)],
    k: usize,
)
    requires
        within(pairs@, facts@.len()),
    ensures
        final(out)@ == old(out)@ + overlap_findings(facts@, pairs@, k as int),
{
    let ghost start = out@;
    let mut x: usize = 0;
    while x < pairs.len()
        invariant
            x <= pairs@.len(),
            within(pairs@, facts@.len()),
            out@ =~= start + overlap_findings(facts@, pairs@.take(x as int), k as int),
        decreases pairs@.len() - x,
    {
        assert(pairs@.take(x + 1).drop_last() =~= pairs@.take(x as int));
        let (i, j): (usize, usize) = pairs[x];
        let a = facts[i];
        let b = facts[j];
        let end: u64 = a.lba_first.saturating_add(a.num_sectors);
        let other_end: u64 = b.lba_first.saturating_add(b.num_sectors);
        note(
            out,
            i == k,
            Finding::Overlap {
                other: j as u64,
                first: a.lba_first,
                end,
                other_first: b.lba_first,
                other_end,
            },
        );
        x += 1;
    }
    assert(pairs@.take(x as int) =~= pairs@);
}

/// Every index in a list of overlaps is the index of an entry.
pub proof fn lemma_overlaps_in_range(facts: Seq<EntryFacts>, n: nat)
    requires
        n <= facts.len() <= usize::MAX,
    ensures
        within(overlaps_of(facts, n), facts.len()),
    decreases n,
{
    if n > 0 {
        lemma_overlaps_in_range(facts, (n - 1) as nat);
        lemma_row_in_range(facts, n - 1, facts.len() as int);
    }
}

proof fn lemma_row_in_range(facts: Seq<EntryFacts>, k: int, n: int)
    requires
        0 <= k < n <= facts.len() <= usize::MAX,
    ensures
        within(overlap_row(facts, k, n), facts.len()),
    decreases n,
{
    if n > k + 1 {
        lemma_row_in_range(facts, k, n - 1);
    }
}

// ------------------------------------------------------------------- protective

/// How many entries are in use.
pub open spec fn used(facts: Seq<EntryFacts>) -> nat
    decreases facts.len(),
{
    if facts.len() == 0 {
        0
    } else {
        used(facts.drop_last()) + if facts.last().empty() {
            0nat
        } else {
            1nat
        }
    }
}

/// The first entry in use.
pub open spec fn first_used(facts: Seq<EntryFacts>) -> Option<EntryFacts>
    decreases facts.len(),
{
    if facts.len() == 0 {
        None
    } else {
        match first_used(facts.drop_last()) {
            Some(fx) => Some(fx),
            None => if facts.last().empty() {
                None
            } else {
                Some(facts.last())
            },
        }
    }
}

/// What is said of the decoy that a GPT disk carries: the only entry in use is a
/// protective one.
pub open spec fn protective_finding(facts: Seq<EntryFacts>) -> Option<Finding> {
    match first_used(facts) {
        Some(fx) if used(facts) == 1 && fx.part_type == types::TYPE_GPT_PROTECTIVE => Some(
            Finding::Protective { num_sectors: fx.num_sectors, lba_first: fx.lba_first },
        ),
        _ => None,
    }
}

/// Recognise the decoy MBR that a GPT disk carries.
pub fn protective_info(facts: &[EntryFacts]) -> (r: Option<Finding>)
    ensures
        r == protective_finding(facts@),
{
    let mut count: usize = 0;
    let mut first: Option<EntryFacts> = None;
    let mut i: usize = 0;
    while i < facts.len()
        invariant
            i <= facts@.len(),
            count == used(facts@.take(i as int)),
            count <= i,
            first == first_used(facts@.take(i as int)),
        decreases facts@.len() - i,
    {
        assert(facts@.take(i + 1).drop_last() =~= facts@.take(i as int));
        let fx = facts[i];
        if !fx.is_empty() {
            count += 1;
            if first.is_none() {
                first = Some(fx);
            }
        }
        i += 1;
    }
    assert(facts@.take(i as int) =~= facts@);
    match first {
        Some(fx) => if count == 1 && fx.part_type == types::TYPE_GPT_PROTECTIVE {
            Some(Finding::Protective { num_sectors: fx.num_sectors, lba_first: fx.lba_first })
        } else {
            None
        },
        None => None,
    }
}

// ------------------------------------------------------------------- read entries

/// An entry as it was read.
#[derive(Debug)]
pub struct PartSlot {
    pub record: Record,
    pub facts: EntryFacts,
    pub label: String,
    pub findings: Vec<Finding>,
    /// The absolute sector of the volume, and its offset where it has one. Only for
    /// an entry whose sector number is not absolute.
    pub volume: Option<(u64, Option<u64>)>,
}

/// What a [`PartSlot`] says.
pub struct PartSlotModel {
    pub record: RecordModel,
    pub facts: EntryFacts,
    pub label: Seq<char>,
    pub findings: Seq<Finding>,
    pub volume: Option<(u64, Option<u64>)>,
}

impl View for PartSlot {
    type V = PartSlotModel;

    open spec fn view(&self) -> PartSlotModel {
        PartSlotModel {
            record: self.record@,
            facts: self.facts,
            label: self.label@,
            findings: self.findings@,
            volume: self.volume,
        }
    }
}

/// The models of a list of entries.
pub open spec fn slot_models(slots: Seq<PartSlot>) -> Seq<PartSlotModel> {
    Seq::new(slots.len(), |i: int| slots[i]@)
}

/// The bytes of the entry at `at`.
pub open spec fn entry_bytes(dev: Device, at: u64) -> Seq<u8> {
    dev.read(at, 16).data
}

/// The record of the entry at `at`.
pub open spec fn entry_record(dev: Device, at: u64, region_base: u64) -> RecordModel {
    record_of(dev, "partition entry"@, 16, desc::part_entry_fields(), at, region_base)
}

/// Every byte is zero.
pub open spec fn blank(b: Seq<u8>) -> bool {
    forall|i: int| 0 <= i < b.len() ==> #[trigger] b[i] == 0
}

fn is_blank(b: &[u8]) -> (r: bool)
    ensures
        r == blank(b@),
{
    let mut i: usize = 0;
    while i < b.len()
        invariant
            i <= b@.len(),
            forall|j: int| 0 <= j < i ==> #[trigger] b@[j] == 0,
        decreases b@.len() - i,
    {
        if b[i] != 0 {
            return false;
        }
        i += 1;
    }
    true
}

/// Read the entry at `at`: its record, its facts, and whether every byte is zero.
pub fn read_entry<S: BlockSource>(src: &S, at: u64, ctx: ReadCtx) -> (r: (Record, EntryFacts, bool))
    ensures
        r.0@ == entry_record(src.device(), at, ctx.region_base),
        r.1 == facts_of(entry_bytes(src.device(), at)),
        r.2 == blank(entry_bytes(src.device(), at)),
{
    let layout = desc::part_entry();
    let record = read_desc_at(src, &layout, at, ctx);
    let (b, _outcome) = src.read_vec(at, 16);
    (record, EntryFacts::from_bytes(&b), is_blank(&b))
}

} // verus!
